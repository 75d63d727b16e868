#include <metal_stdlib>
using namespace metal;

kernel void ssm_conv1d_step_f32(
    device const float*  x_in        [[buffer(0)]],
    device const float*  conv1d_w    [[buffer(1)]],
    device float*        conv_state  [[buffer(2)]],
    device float*        y_out       [[buffer(3)]],
    constant uint2&      dims        [[buffer(4)]],
    uint                 gid         [[thread_position_in_grid]]
) {
    uint kernel_size = dims.x;
    uint conv_dim    = dims.y;
    if (gid >= conv_dim) return;

    uint w_base = gid * kernel_size;

    float acc = 0.0;
    for (uint t = 0; t + 1 < kernel_size; ++t) {
        float v = conv_state[t * conv_dim + gid];
        float w = conv1d_w[w_base + t];
        acc += w * v;
    }

    float xv = x_in[gid];
    acc += conv1d_w[w_base + (kernel_size - 1)] * xv;

    float sig = 1.0 / (1.0 + exp(-acc));
    y_out[gid] = acc * sig;

    if (kernel_size >= 2) {
        for (uint t = 0; t + 2 < kernel_size; ++t) {
            conv_state[t * conv_dim + gid] = conv_state[(t + 1) * conv_dim + gid];
        }
        conv_state[(kernel_size - 2) * conv_dim + gid] = xv;
    }
}
