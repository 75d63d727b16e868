#include <metal_stdlib>
using namespace metal;

constant uint Q6K_BYTES = 210u;
constant uint Q6K_WEIGHTS = 256u;
constant short NR0_Q6_BATCH = 2;

kernel void sgemv_q6_k_f32_lcpp_nr2_batch(
    device const float*  x      [[buffer(0)]],
    device const uchar*  w_q6k  [[buffer(1)]],
    device float*        y      [[buffer(2)]],
    constant uint3&      dims   [[buffer(3)]],
    uint                 tg_flat [[threadgroup_position_in_grid]],
    ushort               tiisg  [[thread_index_in_simdgroup]]
) {
    constexpr uchar KMASK1 = 0x03;
    constexpr uchar KMASK2 = 0x0C;
    constexpr uchar KMASK3 = 0x30;
    constexpr uchar KMASK4 = 0xC0;

    uint K = dims.x;
    uint N = dims.y;
    uint B = dims.z;
    int nb = (int)(K / Q6K_WEIGHTS);
    uint n_sg_pairs = (N + (uint)NR0_Q6_BATCH - 1u) / (uint)NR0_Q6_BATCH;

    uint b = tg_flat / n_sg_pairs;
    uint sg_pair = tg_flat % n_sg_pairs;
    if (b >= B) return;

    uint first_row = sg_pair * (uint)NR0_Q6_BATCH;
    if (first_row >= N) return;

    short tid = (short)(tiisg / 2u);
    short ix  = (short)(tiisg % 2u);
    short ip  = tid / 8;
    short il  = tid % 8;
    short l0  = 4 * il;
    short is  = 8 * ip + l0 / 16;

    short y_offset   = 128 * ip + l0;
    short q_offset_l = 64 * ip + l0;
    short q_offset_h = 32 * ip + l0;

    float sumf[2] = {0.0, 0.0};
    float yl[16];

    uint row_stride = (uint)nb * Q6K_BYTES;
    device const float* xb = x + b * K;

    for (int i = ix; i < nb; i += 2) {
        device const float* yptr = xb + i * (int)Q6K_WEIGHTS + (int)y_offset;
        for (short l = 0; l < 4; ++l) {
            yl[4*l + 0] = yptr[l +  0];
            yl[4*l + 1] = yptr[l + 32];
            yl[4*l + 2] = yptr[l + 64];
            yl[4*l + 3] = yptr[l + 96];
        }

        for (short row = 0; row < NR0_Q6_BATCH; ++row) {
            uint nrow = first_row + (uint)row;
            if (nrow >= N) continue;

            device const uchar* block = w_q6k + (uint64_t)nrow * row_stride + (uint)i * Q6K_BYTES;
            device const uchar* q1 = block + 0   + (uint)q_offset_l;
            device const uchar* q2 = q1 + 32;
            device const uchar* qh = block + 128 + (uint)q_offset_h;
            device const char*  sc = (device const char*)(block + 192) + (int)is;
            device const uint16_t* dh = (device const uint16_t*)(block + 208);

            float d_val = float(as_type<half>(dh[0]));

            float4 sums = {0.0, 0.0, 0.0, 0.0};
            for (short l = 0; l < 4; ++l) {
                sums[0] += yl[4*l + 0] * (float)((int)((q1[l] & 0xF) | ((qh[l] & KMASK1) << 4)) - 32);
                sums[1] += yl[4*l + 1] * (float)((int)((q2[l] & 0xF) | ((qh[l] & KMASK2) << 2)) - 32);
                sums[2] += yl[4*l + 2] * (float)((int)((q1[l]  >> 4) | ((qh[l] & KMASK3) << 0)) - 32);
                sums[3] += yl[4*l + 3] * (float)((int)((q2[l]  >> 4) | ((qh[l] & KMASK4) >> 2)) - 32);
            }

            sumf[row] += d_val * (sums[0] * float(sc[0]) + sums[1] * float(sc[2])
                                + sums[2] * float(sc[4]) + sums[3] * float(sc[6]));
        }
    }

    for (short row = 0; row < NR0_Q6_BATCH; ++row) {
        uint nrow = first_row + (uint)row;
        if (nrow >= N) break;
        float sum_all = simd_sum(sumf[row]);
        if (tiisg == 0) {
            y[b * N + nrow] = sum_all;
        }
    }
}
