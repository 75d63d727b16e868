#include <metal_stdlib>
using namespace metal;

kernel void split_qg_per_head_f32(
    device const float* qg       [[buffer(0)]],
    device float*       q        [[buffer(1)]],
    device float*       gate     [[buffer(2)]],
    constant uint2&     dims     [[buffer(3)]],
    uint2               gid      [[thread_position_in_grid]]
) {
    uint n_q = dims.x;
    uint head_dim = dims.y;
    uint h = gid.y;
    uint i = gid.x;
    if (h >= n_q || i >= head_dim) return;
    uint src_off = h * 2u * head_dim;
    uint dst_off = h * head_dim;
    q[dst_off + i] = qg[src_off + i];
    gate[dst_off + i] = qg[src_off + head_dim + i];
}
