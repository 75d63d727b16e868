#include <metal_stdlib>
using namespace metal;

kernel void add_inplace_batched_f32(
    device float* x       [[buffer(0)]],
    device const float* y [[buffer(1)]],
    constant uint2& dims  [[buffer(2)]],
    uint gid [[thread_position_in_grid]]
) {
    uint d = dims.x;
    uint B = dims.y;
    uint total = d * B;
    uint t4 = total / 4u;
    if (gid < t4) {
        device float4* x4       = (device float4*)x;
        device const float4* y4 = (device const float4*)y;
        x4[gid] += y4[gid];
        return;
    }
    uint i = t4 * 4u + (gid - t4);
    if (i < total) {
        x[i] += y[i];
    }
}
