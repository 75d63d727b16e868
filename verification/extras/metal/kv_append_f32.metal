#include <metal_stdlib>
using namespace metal;

kernel void kv_append_f32(
    device const float* src  [[buffer(0)]],
    device float* dst        [[buffer(1)]],
    constant uint3& dims     [[buffer(2)]],
    constant uint& max_seq   [[buffer(3)]],
    uint gid                 [[thread_position_in_grid]]
) {
    uint n_kv     = dims.x;
    uint head_dim = dims.y;
    uint position = dims.z;
    uint total    = n_kv * head_dim;
    uint t4 = total / 4u;

    if (gid < t4) {
        uint flat_base = gid * 4u;

        if (head_dim % 4u == 0u) {
            uint kvh = flat_base / head_dim;
            uint dd  = flat_base % head_dim;
            uint dst_off = kvh * max_seq * head_dim + position * head_dim + dd;
            device const float4* src4 = (device const float4*)src;
            device float4* dst4 = (device float4*)(dst + dst_off);
            dst4[0] = src4[gid];
            return;
        }

        for (uint j = flat_base; j < flat_base + 4u; ++j) {
            uint kvh = j / head_dim;
            uint dd  = j % head_dim;
            dst[kvh * max_seq * head_dim + position * head_dim + dd] = src[j];
        }
        return;
    }

    uint i = t4 * 4u + (gid - t4);
    if (i < total) {
        uint kvh = i / head_dim;
        uint dd  = i % head_dim;
        uint dst_off = kvh * max_seq * head_dim + position * head_dim + dd;
        dst[dst_off] = src[i];
    }
}
