#include <metal_stdlib>
using namespace metal;

kernel void sigmoid_mul_inplace_f32(
    device float*        x       [[buffer(0)]],
    device const float*  gate    [[buffer(1)]],
    constant uint&       n       [[buffer(2)]],
    uint                 gid     [[thread_position_in_grid]]
) {
    if (gid >= n) return;
    float g = gate[gid];
    float sig = 1.0 / (1.0 + exp(-g));
    x[gid] = x[gid] * sig;
}
