#include <metal_stdlib>
using namespace metal;

kernel void rope_half_split_batched_f32(
    device float* x              [[buffer(0)]],
    device const float* cos_tab  [[buffer(1)]],
    device const float* sin_tab  [[buffer(2)]],
    constant uint4& dims         [[buffer(3)]],
    uint2 gid                    [[thread_position_in_grid]]
) {
    uint n_heads  = dims.x;
    uint head_dim = dims.y;
    uint pos_base = dims.z;
    uint B        = dims.w;

    uint b = gid.y;
    if (b >= B) return;

    uint half_dim = head_dim / 2u;
    uint flat = gid.x;
    uint total = n_heads * half_dim;
    if (flat >= total) return;

    uint h = flat / half_dim;
    uint k = flat % half_dim;
    uint row_off = b * (n_heads * head_dim);
    uint i0 = row_off + h * head_dim + k;
    uint i1 = row_off + h * head_dim + k + half_dim;

    uint position = pos_base + b;
    uint tab_off = position * half_dim + k;
    float c = cos_tab[tab_off];
    float s = sin_tab[tab_off];
    float x0 = x[i0];
    float x1 = x[i1];
    x[i0] = x0 * c - x1 * s;
    x[i1] = x1 * c + x0 * s;
}
