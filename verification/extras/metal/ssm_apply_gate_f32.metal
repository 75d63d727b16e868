#include <metal_stdlib>
using namespace metal;

kernel void ssm_apply_gate_f32(
    device const float* alpha    [[buffer(0)]],
    device const float* beta     [[buffer(1)]],
    device const float* dt_bias  [[buffer(2)]],
    device const float* ssm_a    [[buffer(3)]],
    device float*       gate_h   [[buffer(4)]],
    device float*       beta_sig [[buffer(5)]],
    constant uint&      n        [[buffer(6)]],
    uint                gid      [[thread_position_in_grid]]
) {
    if (gid >= n) return;
    float a = alpha[gid] + dt_bias[gid];

    float sp;
    if (a > 20.0)       sp = a;
    else if (a < -20.0) sp = exp(a);
    else                sp = log(1.0 + exp(a));
    gate_h[gid] = sp * ssm_a[gid];
    beta_sig[gid] = 1.0 / (1.0 + exp(-beta[gid]));
}
