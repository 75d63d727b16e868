#include <metal_stdlib>
using namespace metal;

kernel void kv_append_batched_f32(
    device const float* src  [[buffer(0)]],
    device float* dst        [[buffer(1)]],
    constant uint4& dims     [[buffer(2)]],
    constant uint& max_seq   [[buffer(3)]],
    uint gid                 [[thread_position_in_grid]]
) {
    uint n_kv     = dims.x;
    uint head_dim = dims.y;
    uint pos_base = dims.z;
    uint B        = dims.w;
    uint per_token = n_kv * head_dim;
    uint total = B * per_token;
    if (gid >= total) return;

    uint b   = gid / per_token;
    uint flat = gid % per_token;
    uint kvh = flat / head_dim;
    uint dd  = flat % head_dim;
    uint dst_off = kvh * max_seq * head_dim + (pos_base + b) * head_dim + dd;
    dst[dst_off] = src[gid];
}
