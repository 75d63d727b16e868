#include <metal_stdlib>
using namespace metal;

constant uint Q5K_BYTES = 176u;
constant uint Q5K_WEIGHTS = 256u;
constant short NR0_Q5K = 1;
constant short NSG_Q5K = 2;
constant ushort KMASK1 = 0x3f3f;
constant ushort KMASK2 = 0x0f0f;
constant ushort KMASK3 = 0xc0c0;

kernel void sgemv_q5_k_f32_lcpp_nsg2(
    device const float*  x      [[buffer(0)]],
    device const uchar*  w_q5k  [[buffer(1)]],
    device float*        y      [[buffer(2)]],
    constant uint2&      dims   [[buffer(3)]],
    uint                 tg_id  [[threadgroup_position_in_grid]],
    ushort               tiisg  [[thread_index_in_simdgroup]],
    ushort               sgitg  [[simdgroup_index_in_threadgroup]]
) {
    uint K = dims.x;
    uint N = dims.y;
    uint blocks_per_row = K / Q5K_WEIGHTS;

    uint first_row = (tg_id * (uint)NSG_Q5K + (uint)sgitg) * (uint)NR0_Q5K;
    if (first_row >= N) return;

    short tid = (short)(tiisg / 4u);
    short ix  = (short)(tiisg % 4u);
    short iq  = tid / 4;
    short ir  = tid % 4;

    short l0 = 8 * ir;
    short q_offset = 32 * iq + l0;
    short y_offset = 64 * iq + l0;

    uchar hm1 = 1u << (2*iq);
    uchar hm2 = hm1 << 1;
    uchar hm3 = hm1 << 4;
    uchar hm4 = hm2 << 4;

    int nb = (int)blocks_per_row;
    uint row_stride = blocks_per_row * Q5K_BYTES;

    float sumf = 0.0;
    float yl[16];
    float yh[16];
    ushort sc16[4];
    thread const uchar* sc8 = (thread const uchar*)sc16;

    device const float* y1 = x + (uint)ix * Q5K_WEIGHTS + (uint)y_offset;

    for (int i = ix; i < nb; i += 4) {
        device const float* y2 = y1 + 128;
        float4 sumy = {0.0, 0.0, 0.0, 0.0};
        for (short l = 0; l < 8; ++l) {
            yl[l + 0] = y1[l + 0];   sumy[0] += yl[l + 0];
            yl[l + 8] = y1[l + 32];  sumy[1] += yl[l + 8];
            yh[l + 0] = y2[l + 0];   sumy[2] += yh[l + 0];
            yh[l + 8] = y2[l + 32];  sumy[3] += yh[l + 8];
        }

        device const uchar* block = w_q5k + (uint64_t)first_row * row_stride + (uint)i * Q5K_BYTES;
        device const uint16_t* dh_ptr = (device const uint16_t*)(block);
        float d    = float(as_type<half>(dh_ptr[0]));
        float dmin = float(as_type<half>(dh_ptr[1]));

        device const uint16_t* a = (device const uint16_t*)(block + 4) + iq;
        sc16[0] = a[0] & KMASK1;
        sc16[1] = a[2] & KMASK1;
        sc16[2] = ((a[4] >> 0) & KMASK2) | ((a[0] & KMASK3) >> 2);
        sc16[3] = ((a[4] >> 4) & KMASK2) | ((a[2] & KMASK3) >> 2);

        device const uchar* qh = (device const uchar*)(block + 16) + (uint)l0;

        device const uchar* q1 = (device const uchar*)(block + 48) + (uint)q_offset;
        device const uchar* q2 = q1 + 64;

        float4 acc1 = {0.0, 0.0, 0.0, 0.0};
        float4 acc2 = {0.0, 0.0, 0.0, 0.0};
        for (short l = 0; l < 8; ++l) {
            uchar h = qh[l];
            acc1[0] += yl[l + 0] * (float)(q1[l] & 0x0F);
            acc1[1] += yl[l + 8] * (float)(q1[l] & 0xF0);
            acc1[2] += yh[l + 0] * (float)(q2[l] & 0x0F);
            acc1[3] += yh[l + 8] * (float)(q2[l] & 0xF0);
            acc2[0] += (h & hm1) ? yl[l + 0] : 0.0;
            acc2[1] += (h & hm2) ? yl[l + 8] : 0.0;
            acc2[2] += (h & hm3) ? yh[l + 0] : 0.0;
            acc2[3] += (h & hm4) ? yh[l + 8] : 0.0;
        }

        sumf += d * (
            float(sc8[0]) * (acc1[0]        + 16.0 * acc2[0]) +
            float(sc8[1]) * (acc1[1]/16.0   + 16.0 * acc2[1]) +
            float(sc8[4]) * (acc1[2]        + 16.0 * acc2[2]) +
            float(sc8[5]) * (acc1[3]/16.0   + 16.0 * acc2[3])
        ) - dmin * (
            sumy[0] * float(sc8[2]) +
            sumy[1] * float(sc8[3]) +
            sumy[2] * float(sc8[6]) +
            sumy[3] * float(sc8[7])
        );

        y1 += 4 * (int)Q5K_WEIGHTS;
    }

    if (first_row < N) {
        float row_sum = simd_sum(sumf);
        if (tiisg == 0) {
            y[first_row] = row_sum;
        }
    }
}
