#include <metal_stdlib>
using namespace metal;

kernel void gqa_decode_f32(
    device const float* q       [[buffer(0)]],
    device const float* k_cache [[buffer(1)]],
    device const float* v_cache [[buffer(2)]],
    device float* out           [[buffer(3)]],
    constant uint4& dims        [[buffer(4)]],
    constant uint& max_seq      [[buffer(5)]],
    constant float& inv_sqrt_d  [[buffer(6)]],
    threadgroup float* shared   [[threadgroup(0)]],
    uint q_h                    [[threadgroup_position_in_grid]],
    uint tid                    [[thread_position_in_threadgroup]],
    uint sg_size                [[threads_per_simdgroup]]
) {
    uint n_heads  = dims.x;
    uint n_kv     = dims.y;
    uint head_dim = dims.z;
    uint kv_len   = dims.w;
    if (q_h >= n_heads) return;
    uint group_size = n_heads / n_kv;
    uint kv_h = q_h / group_size;

    device const float* q_h_ptr = q + q_h * head_dim;
    device const float* k_h_base = k_cache + kv_h * max_seq * head_dim;

    uint hd4 = head_dim / 4u;
    device const float4* q_h_ptr4 = (device const float4*)q_h_ptr;
    for (uint p = tid; p < kv_len; p += sg_size) {
        device const float4* k_p4 = (device const float4*)(k_h_base + p * head_dim);
        float4 acc4 = float4(0.0, 0.0, 0.0, 0.0);
        for (uint d4 = 0; d4 < hd4; ++d4) {
            acc4 += q_h_ptr4[d4] * k_p4[d4];
        }

        float dot = acc4.x + acc4.y + acc4.z + acc4.w;
        for (uint d = hd4 * 4u; d < head_dim; ++d) {
            dot += q_h_ptr[d] * k_h_base[p * head_dim + d];
        }
        shared[p] = dot * inv_sqrt_d;
    }
    threadgroup_barrier(mem_flags::mem_threadgroup);

    float local_max = -INFINITY;
    for (uint p = tid; p < kv_len; p += sg_size) {
        local_max = max(local_max, shared[p]);
    }
    float max_score = simd_max(local_max);

    float local_sum = 0.0;
    for (uint p = tid; p < kv_len; p += sg_size) {
        float e = exp(shared[p] - max_score);
        shared[p] = e;
        local_sum += e;
    }
    float sum = simd_sum(local_sum);
    float inv_sum = 1.0 / sum;

    for (uint p = tid; p < kv_len; p += sg_size) {
        shared[p] *= inv_sum;
    }
    threadgroup_barrier(mem_flags::mem_threadgroup);
    device const float* v_h_base = v_cache + kv_h * max_seq * head_dim;
    device float* out_h = out + q_h * head_dim;

    uint hd4_d = head_dim / 4u;
    device float4* out_h4 = (device float4*)out_h;
    for (uint d4 = tid; d4 < hd4_d; d4 += sg_size) {
        float4 acc = float4(0.0, 0.0, 0.0, 0.0);
        for (uint p = 0; p < kv_len; ++p) {
            device const float4* v_p4 = (device const float4*)(v_h_base + p * head_dim);
            acc += shared[p] * v_p4[d4];
        }
        out_h4[d4] = acc;
    }

    uint tail_start = hd4_d * 4u;
    for (uint d = tail_start + tid; d < head_dim; d += sg_size) {
        float acc = 0.0;
        for (uint p = 0; p < kv_len; ++p) {
            acc += shared[p] * v_h_base[p * head_dim + d];
        }
        out_h[d] = acc;
    }
}
