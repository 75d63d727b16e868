#include <metal_stdlib>
using namespace metal;

kernel void delta_net_step_f32(
    device const float*  q          [[buffer(0)]],
    device const float*  k          [[buffer(1)]],
    device const float*  v          [[buffer(2)]],
    device const float*  gate_h     [[buffer(3)]],
    device const float*  beta       [[buffer(4)]],
    device float*        state      [[buffer(5)]],
    device float*        out        [[buffer(6)]],
    constant uint4&      dims       [[buffer(7)]],
    uint2                tg_id      [[threadgroup_position_in_grid]],
    ushort               tiisg      [[thread_index_in_simdgroup]]
) {
    uint n_v_heads = dims.x;
    uint head_dim  = dims.y;
    uint n_k_heads = dims.z;
    uint head_v = tg_id.y;
    uint row    = tg_id.x;
    if (head_v >= n_v_heads || row >= head_dim) return;

    uint head_k = head_v % n_k_heads;

    float gamma    = exp(gate_h[head_v]);
    float beta_val = beta[head_v];
    float v_r      = v[head_v * head_dim + row];
    float q_scale  = 1.0 / sqrt((float)head_dim);

    uint state_off = head_v * head_dim * head_dim + row * head_dim;
    uint qk_off    = head_k * head_dim;

    float proj_partial = 0.0;
    for (uint c = tiisg; c < head_dim; c += 32u) {
        float decayed = gamma * state[state_off + c];
        state[state_off + c] = decayed;
        proj_partial += decayed * k[qk_off + c];
    }
    float proj_r = simd_sum(proj_partial);

    float delta_r = beta_val * (v_r - proj_r);
    float out_partial = 0.0;
    for (uint c = tiisg; c < head_dim; c += 32u) {
        float k_c = k[qk_off + c];
        float q_c = q[qk_off + c];
        float updated = state[state_off + c] + delta_r * k_c;
        state[state_off + c] = updated;
        out_partial += updated * q_c * q_scale;
    }

    float row_sum = simd_sum(out_partial);
    if (tiisg == 0) {
        out[head_v * head_dim + row] = row_sum;
    }
}
