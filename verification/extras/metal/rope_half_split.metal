#include <metal_stdlib>
using namespace metal;

kernel void rope_half_split_f32(
    device float* x              [[buffer(0)]],
    device const float* cos_tab  [[buffer(1)]],
    device const float* sin_tab  [[buffer(2)]],
    constant uint4& dims         [[buffer(3)]],
    uint gid                     [[thread_position_in_grid]]
) {
    uint n_heads  = dims.x;
    uint head_dim = dims.y;
    uint rope_dim = dims.z;
    uint position = dims.w;
    uint half_rope = rope_dim / 2u;
    uint total     = n_heads * half_rope;
    if (gid >= total) return;

    uint h = gid / half_rope;
    uint k = gid % half_rope;

    uint i0 = h * head_dim + k;
    uint i1 = h * head_dim + k + half_rope;

    uint tab_off = position * half_rope + k;
    float c = cos_tab[tab_off];
    float s = sin_tab[tab_off];
    float x0 = x[i0];
    float x1 = x[i1];
    x[i0] = x0 * c - x1 * s;
    x[i1] = x1 * c + x0 * s;
}
