#include <metal_stdlib>
using namespace metal;

kernel void add_inplace_f32(
    device float* x       [[buffer(0)]],
    device const float* y [[buffer(1)]],
    constant uint& d      [[buffer(2)]],
    uint gid [[thread_position_in_grid]]
) {
    uint d4 = d / 4u;
    if (gid < d4) {
        device float4* x4       = (device float4*)x;
        device const float4* y4 = (device const float4*)y;
        x4[gid] += y4[gid];
        return;
    }

    uint i = d4 * 4u + (gid - d4);
    if (i < d) {
        x[i] += y[i];
    }
}
