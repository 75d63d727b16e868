#include <metal_stdlib>
using namespace metal;

constant uint Q8_0_WEIGHTS = 32u;
constant uint Q8_0_BYTES = 34u;
constant short NR0_Q80 = 2;
constant short NSG_Q80 = 2;

kernel void sgemv_q8_0_f32_lcpp_nsg2(
    device const float*  x      [[buffer(0)]],
    device const uchar*  w_q8   [[buffer(1)]],
    device float*        y      [[buffer(2)]],
    constant uint2&      dims   [[buffer(3)]],
    uint                 tg_id  [[threadgroup_position_in_grid]],
    ushort               tiisg  [[thread_index_in_simdgroup]],
    ushort               sgitg  [[simdgroup_index_in_threadgroup]]
) {
    uint K = dims.x;
    uint N = dims.y;
    uint blocks_per_row = K / Q8_0_WEIGHTS;

    uint first_row = (tg_id * (uint)NSG_Q80 + (uint)sgitg) * (uint)NR0_Q80;
    if (first_row >= N) return;

    int nb = (int)blocks_per_row;
    uint row_stride = blocks_per_row * Q8_0_BYTES;

    short lane = (short)tiisg;

    float sumf[2] = {0.0, 0.0};

    for (int ib = 0; ib < nb; ++ib) {
        float xv = x[ib * (int)Q8_0_WEIGHTS + (int)lane];

        for (short row = 0; row < NR0_Q80; ++row) {
            uint nrow = first_row + (uint)row;
            if (nrow >= N) continue;
            device const uchar* block = w_q8 + (uint64_t)nrow * row_stride + (uint)ib * Q8_0_BYTES;

            device const uint16_t* dh = (device const uint16_t*)block;
            float d = float(as_type<half>(dh[0]));

            device const char* qs = (device const char*)(block + 2);
            int q = (int)qs[lane];
            sumf[row] += d * (float)q * xv;
        }
    }

    for (short row = 0; row < NR0_Q80; ++row) {
        uint nrow = first_row + (uint)row;
        if (nrow >= N) continue;
        float row_sum = simd_sum(sumf[row]);
        if (tiisg == 0) {
            y[nrow] = row_sum;
        }
    }
}
