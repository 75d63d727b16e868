#include <metal_stdlib>
using namespace metal;

constant uint BLOCK_BYTES = 144u;
constant uint BLOCK_WEIGHTS = 256u;
constant short NR0 = 2;
constant ushort KMASK1 = 0x3f3f;
constant ushort KMASK2 = 0x0f0f;
constant ushort KMASK3 = 0xc0c0;

kernel void sgemv_q4_k_f32_lcpp_nr2_batch(
    device const float*  x      [[buffer(0)]],
    device const uchar*  w_q4k  [[buffer(1)]],
    device float*        y      [[buffer(2)]],
    constant uint3&      dims   [[buffer(3)]],
    uint                 tg_flat [[threadgroup_position_in_grid]],
    ushort               tiisg  [[thread_index_in_simdgroup]]
) {
    uint K = dims.x;
    uint N = dims.y;
    uint B = dims.z;
    uint blocks_per_row = K / BLOCK_WEIGHTS;
    uint n_sg_pairs = (N + (uint)NR0 - 1u) / (uint)NR0;

    uint b = tg_flat / n_sg_pairs;
    uint sg_pair = tg_flat % n_sg_pairs;
    if (b >= B) return;

    uint first_row = sg_pair * (uint)NR0;
    if (first_row >= N) return;

    short ix = (short)(tiisg / 8u);
    short it = (short)(tiisg % 8u);
    short iq = it / 4;
    short ir = it % 4;

    int nb = (int)blocks_per_row;

    device const float* xb = x + b * K;
    device const float* y4 = xb + ix * 256 + 64 * iq + 8 * ir;

    float yl[16];
    float yh[16];
    float sumf[2] = {0.0, 0.0};

    ushort sc16[4];
    thread const uchar* sc8 = (thread const uchar*)sc16;

    uint row_stride = blocks_per_row * BLOCK_BYTES;

    for (int ib = ix; ib < nb; ib += 4) {
        float4 sumy = {0.0, 0.0, 0.0, 0.0};
        for (short i = 0; i < 8; ++i) {
            yl[i + 0] = y4[i + 0];   sumy[0] += yl[i + 0];
            yl[i + 8] = y4[i + 32];  sumy[1] += yl[i + 8];
            yh[i + 0] = y4[i + 128]; sumy[2] += yh[i + 0];
            yh[i + 8] = y4[i + 160]; sumy[3] += yh[i + 8];
        }

        for (short row = 0; row < NR0; ++row) {
            uint nrow = first_row + (uint)row;
            if (nrow >= N) continue;

            device const uchar* block = w_q4k + (uint64_t)nrow * row_stride + (uint)ib * BLOCK_BYTES;
            device const uint16_t* dh_ptr = (device const uint16_t*)(block);
            float d    = float(as_type<half>(dh_ptr[0]));
            float dmin = float(as_type<half>(dh_ptr[1]));

            device const uint16_t* sc = (device const uint16_t*)(block + 4) + iq;
            device const uint16_t* q1 = (device const uint16_t*)(block + 16) + 16 * iq + 4 * ir;
            device const uint16_t* q2 = q1 + 32;

            sc16[0] = sc[0] & KMASK1;
            sc16[1] = sc[2] & KMASK1;
            sc16[2] = ((sc[4] >> 0) & KMASK2) | ((sc[0] & KMASK3) >> 2);
            sc16[3] = ((sc[4] >> 4) & KMASK2) | ((sc[2] & KMASK3) >> 2);

            float4 acc1 = {0.0, 0.0, 0.0, 0.0};
            float4 acc2 = {0.0, 0.0, 0.0, 0.0};

            for (short i = 0; i < 4; ++i) {
                acc1[0] += yl[2 * i + 0] * float(q1[i] & 0x000F);
                acc1[1] += yl[2 * i + 1] * float(q1[i] & 0x0F00);
                acc1[2] += yl[2 * i + 8] * float(q1[i] & 0x00F0);
                acc1[3] += yl[2 * i + 9] * float(q1[i] & 0xF000);
                acc2[0] += yh[2 * i + 0] * float(q2[i] & 0x000F);
                acc2[1] += yh[2 * i + 1] * float(q2[i] & 0x0F00);
                acc2[2] += yh[2 * i + 8] * float(q2[i] & 0x00F0);
                acc2[3] += yh[2 * i + 9] * float(q2[i] & 0xF000);
            }

            sumf[row] += d * ((acc1[0] + 1.0f/256.0f * acc1[1]) * float(sc8[0]) +
                              (acc1[2] + 1.0f/256.0f * acc1[3]) * float(sc8[1]) * 1.0f/16.0f +
                              (acc2[0] + 1.0f/256.0f * acc2[1]) * float(sc8[4]) +
                              (acc2[2] + 1.0f/256.0f * acc2[3]) * float(sc8[5]) * 1.0f/16.0f) -
                       dmin * (sumy[0] * float(sc8[2]) + sumy[1] * float(sc8[3]) +
                               sumy[2] * float(sc8[6]) + sumy[3] * float(sc8[7]));
        }

        y4 += 4 * (int)BLOCK_WEIGHTS;
    }

    for (short row = 0; row < NR0; ++row) {
        uint nrow = first_row + (uint)row;
        if (nrow >= N) break;
        float sum_all = simd_sum(sumf[row]);
        if (tiisg == 0) {
            y[b * N + nrow] = sum_all;
        }
    }
}
