#include <metal_stdlib>
using namespace metal;

struct Params {
    float lr;
    float beta1;
    float beta2;
    float eps;
    float weight_decay;
    float bc1;
    float bc2;
    uint  n;
};

kernel void fused_adamw_f32(
    constant Params&    params    [[buffer(0)]],
    device const float* param_in  [[buffer(1)]],
    device const float* grad      [[buffer(2)]],
    device       float* m         [[buffer(3)]],
    device       float* v         [[buffer(4)]],
    device       float* param_out [[buffer(5)]],
    uint                gid       [[thread_position_in_grid]]
) {
    if (gid >= params.n) { return; }

    float p_old = param_in[gid];
    float g = grad[gid];

    float new_m = params.beta1 * m[gid] + (1.0f - params.beta1) * g;
    m[gid] = new_m;

    float new_v = params.beta2 * v[gid] + (1.0f - params.beta2) * g * g;
    v[gid] = new_v;

    float m_hat = new_m / params.bc1;
    float v_hat = new_v / params.bc2;

    float p_new = p_old - params.lr * m_hat / (sqrt(v_hat) + params.eps);
    if (params.weight_decay > 0.0f) {
        p_new = p_new - params.lr * params.weight_decay * p_old;
    }
    param_out[gid] = p_new;
}

kernel void fused_adamw_f32_inplace(
    constant Params&    params [[buffer(0)]],
    device       float* param  [[buffer(1)]],
    device const float* grad   [[buffer(2)]],
    device       float* m      [[buffer(3)]],
    device       float* v      [[buffer(4)]],
    uint                gid    [[thread_position_in_grid]]
) {
    if (gid >= params.n) { return; }

    float p_old = param[gid];
    float g = grad[gid];

    float new_m = params.beta1 * m[gid] + (1.0f - params.beta1) * g;
    m[gid] = new_m;

    float new_v = params.beta2 * v[gid] + (1.0f - params.beta2) * g * g;
    v[gid] = new_v;

    float m_hat = new_m / params.bc1;
    float v_hat = new_v / params.bc2;

    float p_new = p_old - params.lr * m_hat / (sqrt(v_hat) + params.eps);
    if (params.weight_decay > 0.0f) {
        p_new = p_new - params.lr * params.weight_decay * p_old;
    }
    param[gid] = p_new;
}
