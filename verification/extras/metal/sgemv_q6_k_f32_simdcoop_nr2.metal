#include <metal_stdlib>
using namespace metal;

constant uint Q6K_BYTES = 210u;
constant uint Q6K_WEIGHTS = 256u;

kernel void sgemv_q6_k_f32_simdcoop_nr2(
    device const float* x       [[buffer(0)]],
    device const uchar* w_q6k   [[buffer(1)]],
    device float* y             [[buffer(2)]],
    constant uint2& dims        [[buffer(3)]],
    uint tg_id                  [[threadgroup_position_in_grid]],
    uint tid                    [[thread_position_in_threadgroup]],
    uint sg_size                [[threads_per_simdgroup]]
) {
    uint K = dims.x;
    uint N = dims.y;
    uint n_idx_base = tg_id * 2u;
    if (n_idx_base >= N) return;
    bool has_row1 = (n_idx_base + 1u) < N;

    uint blocks_per_row = K / Q6K_WEIGHTS;
    uint row_off_0 = n_idx_base * blocks_per_row * Q6K_BYTES;
    uint row_off_1 = (n_idx_base + 1u) * blocks_per_row * Q6K_BYTES;

    float partial0 = 0.0;
    float partial1 = 0.0;

    for (uint blk = tid; blk < blocks_per_row; blk += sg_size) {
        device const uchar* block0 = w_q6k + row_off_0 + blk * Q6K_BYTES;
        device const uchar* ql0 = block0;
        device const uchar* qh0 = block0 + 128;
        device const char*  sc0 = (device const char*)(block0 + 192);
        ushort d_bits0 = ((ushort)block0[209] << 8) | (ushort)block0[208];
        float d0 = float(as_type<half>(d_bits0));

        device const uchar* block1 = w_q6k + row_off_1 + blk * Q6K_BYTES;
        device const uchar* ql1 = block1;
        device const uchar* qh1 = block1 + 128;
        device const char*  sc1 = (device const char*)(block1 + 192);
        ushort d_bits1 = has_row1 ? (((ushort)block1[209] << 8) | (ushort)block1[208]) : 0u;
        float d1 = has_row1 ? float(as_type<half>(d_bits1)) : 0.0f;

        for (uint half_idx = 0u; half_idx < 2u; ++half_idx) {
            device const uchar* ql_h0 = ql0 + half_idx * 64u;
            device const uchar* qh_h0 = qh0 + half_idx * 32u;
            device const char*  sc_h0 = sc0 + half_idx * 8;

            device const uchar* ql_h1 = ql1 + half_idx * 64u;
            device const uchar* qh_h1 = qh1 + half_idx * 32u;
            device const char*  sc_h1 = sc1 + half_idx * 8;

            uint x_h_off = blk * Q6K_WEIGHTS + half_idx * 128u;

            float s1_lo_0 = d0 * float(sc_h0[0]);
            float s1_hi_0 = d0 * float(sc_h0[1]);
            float s2_lo_0 = d0 * float(sc_h0[2]);
            float s2_hi_0 = d0 * float(sc_h0[3]);
            float s3_lo_0 = d0 * float(sc_h0[4]);
            float s3_hi_0 = d0 * float(sc_h0[5]);
            float s4_lo_0 = d0 * float(sc_h0[6]);
            float s4_hi_0 = d0 * float(sc_h0[7]);

            float s1_lo_1 = d1 * float(sc_h1[0]);
            float s1_hi_1 = d1 * float(sc_h1[1]);
            float s2_lo_1 = d1 * float(sc_h1[2]);
            float s2_hi_1 = d1 * float(sc_h1[3]);
            float s3_lo_1 = d1 * float(sc_h1[4]);
            float s3_hi_1 = d1 * float(sc_h1[5]);
            float s4_lo_1 = d1 * float(sc_h1[6]);
            float s4_hi_1 = d1 * float(sc_h1[7]);

            for (uint l = 0; l < 32u; ++l) {
                uchar qhh0 = qh_h0[l];
                int q1_0 = (int)(ql_h0[l]      & 0x0F) | ((int)((qhh0 >> 0) & 0x03) << 4);
                int q2_0 = (int)(ql_h0[l + 32] & 0x0F) | ((int)((qhh0 >> 2) & 0x03) << 4);
                int q3_0 = (int)(ql_h0[l]      >> 4)   | ((int)((qhh0 >> 4) & 0x03) << 4);
                int q4_0 = (int)(ql_h0[l + 32] >> 4)   | ((int)((qhh0 >> 6) & 0x03) << 4);

                uchar qhh1 = qh_h1[l];
                int q1_1 = (int)(ql_h1[l]      & 0x0F) | ((int)((qhh1 >> 0) & 0x03) << 4);
                int q2_1 = (int)(ql_h1[l + 32] & 0x0F) | ((int)((qhh1 >> 2) & 0x03) << 4);
                int q3_1 = (int)(ql_h1[l]      >> 4)   | ((int)((qhh1 >> 4) & 0x03) << 4);
                int q4_1 = (int)(ql_h1[l + 32] >> 4)   | ((int)((qhh1 >> 6) & 0x03) << 4);

                float s1_0 = (l < 16u) ? s1_lo_0 : s1_hi_0;
                float s2_0 = (l < 16u) ? s2_lo_0 : s2_hi_0;
                float s3_0 = (l < 16u) ? s3_lo_0 : s3_hi_0;
                float s4_0 = (l < 16u) ? s4_lo_0 : s4_hi_0;

                float s1_1 = (l < 16u) ? s1_lo_1 : s1_hi_1;
                float s2_1 = (l < 16u) ? s2_lo_1 : s2_hi_1;
                float s3_1 = (l < 16u) ? s3_lo_1 : s3_hi_1;
                float s4_1 = (l < 16u) ? s4_lo_1 : s4_hi_1;

                float xv1 = x[x_h_off + l];
                float xv2 = x[x_h_off + l + 32];
                float xv3 = x[x_h_off + l + 64];
                float xv4 = x[x_h_off + l + 96];

                partial0 += xv1 * (s1_0 * float(q1_0 - 32));
                partial0 += xv2 * (s2_0 * float(q2_0 - 32));
                partial0 += xv3 * (s3_0 * float(q3_0 - 32));
                partial0 += xv4 * (s4_0 * float(q4_0 - 32));

                partial1 += xv1 * (s1_1 * float(q1_1 - 32));
                partial1 += xv2 * (s2_1 * float(q2_1 - 32));
                partial1 += xv3 * (s3_1 * float(q3_1 - 32));
                partial1 += xv4 * (s4_1 * float(q4_1 - 32));
            }
        }
    }

    float total0 = simd_sum(partial0);
    float total1 = simd_sum(partial1);
    if (tid == 0) {
        y[n_idx_base] = total0;
        if (has_row1) {
            y[n_idx_base + 1u] = total1;
        }
    }
}
