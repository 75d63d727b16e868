#include <metal_stdlib>
using namespace metal;

kernel void kv_append_kv_f32(
    device const float* src_k  [[buffer(0)]],
    device const float* src_v  [[buffer(1)]],
    device float* dst_k        [[buffer(2)]],
    device float* dst_v        [[buffer(3)]],
    constant uint3& dims       [[buffer(4)]],
    constant uint& max_seq     [[buffer(5)]],
    uint gid                   [[thread_position_in_grid]]
) {
    uint n_kv     = dims.x;
    uint head_dim = dims.y;
    uint position = dims.z;
    uint total    = n_kv * head_dim;
    if (gid >= 2u * total) return;
    bool is_v = gid >= total;
    uint flat = is_v ? (gid - total) : gid;
    uint kvh = flat / head_dim;
    uint dd  = flat % head_dim;
    uint dst_off = kvh * max_seq * head_dim + position * head_dim + dd;
    if (is_v) {
        dst_v[dst_off] = src_v[flat];
    } else {
        dst_k[dst_off] = src_k[flat];
    }
}
