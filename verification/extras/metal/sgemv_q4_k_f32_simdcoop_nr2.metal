#include <metal_stdlib>
using namespace metal;

constant uint BLOCK_BYTES = 144u;
constant uint BLOCK_WEIGHTS = 256u;

kernel void sgemv_q4_k_f32_simdcoop_nr2(
    device const float* x       [[buffer(0)]],
    device const uchar* w_q4k   [[buffer(1)]],
    device float* y             [[buffer(2)]],
    constant uint2& dims        [[buffer(3)]],
    uint tg_id                  [[threadgroup_position_in_grid]],
    uint tid                    [[thread_position_in_threadgroup]],
    uint sg_size                [[threads_per_simdgroup]]
) {
    uint K = dims.x;
    uint N = dims.y;
    uint n_idx_base = tg_id * 2u;
    if (n_idx_base >= N) return;
    bool has_row1 = (n_idx_base + 1u) < N;

    uint blocks_per_row = K / BLOCK_WEIGHTS;
    uint row_off_0 = n_idx_base * blocks_per_row * BLOCK_BYTES;
    uint row_off_1 = (n_idx_base + 1u) * blocks_per_row * BLOCK_BYTES;

    float partial0 = 0.0;
    float partial1 = 0.0;

    for (uint blk = tid; blk < blocks_per_row; blk += sg_size) {
        uint x_blk_base = blk * BLOCK_WEIGHTS;

        device const uchar* block0 = w_q4k + row_off_0 + blk * BLOCK_BYTES;
        ushort d_bits0 = ((ushort)block0[1] << 8) | (ushort)block0[0];
        ushort dmin_bits0 = ((ushort)block0[3] << 8) | (ushort)block0[2];
        float d0 = float(as_type<half>(d_bits0));
        float dmin0 = float(as_type<half>(dmin_bits0));
        uchar packed0[12];
        for (uint i = 0; i < 12u; ++i) packed0[i] = block0[4 + i];
        uchar sc0[8], m0[8];
        for (uint i = 0; i < 4u; ++i) {
            sc0[i]     = packed0[i] & 0x3F;
            m0[i]      = packed0[i + 4] & 0x3F;
            sc0[i + 4] = (packed0[i + 8] & 0x0F) | ((packed0[i] >> 6) << 4);
            m0[i + 4]  = (packed0[i + 8] >> 4)   | ((packed0[i + 4] >> 6) << 4);
        }
        device const uchar4* qs4_0 = (device const uchar4*)(block0 + 16);

        device const uchar* block1 = w_q4k + row_off_1 + blk * BLOCK_BYTES;
        ushort d_bits1 = has_row1 ? (((ushort)block1[1] << 8) | (ushort)block1[0]) : 0u;
        ushort dmin_bits1 = has_row1 ? (((ushort)block1[3] << 8) | (ushort)block1[2]) : 0u;
        float d1 = has_row1 ? float(as_type<half>(d_bits1)) : 0.0f;
        float dmin1 = has_row1 ? float(as_type<half>(dmin_bits1)) : 0.0f;
        uchar packed1[12];
        if (has_row1) {
            for (uint i = 0; i < 12u; ++i) packed1[i] = block1[4 + i];
        } else {
            for (uint i = 0; i < 12u; ++i) packed1[i] = 0;
        }
        uchar sc1[8], m1[8];
        for (uint i = 0; i < 4u; ++i) {
            sc1[i]     = packed1[i] & 0x3F;
            m1[i]      = packed1[i + 4] & 0x3F;
            sc1[i + 4] = (packed1[i + 8] & 0x0F) | ((packed1[i] >> 6) << 4);
            m1[i + 4]  = (packed1[i + 8] >> 4)   | ((packed1[i + 4] >> 6) << 4);
        }
        device const uchar4* qs4_1 = (device const uchar4*)(block1 + 16);

        for (uint jp = 0; jp < 4u; ++jp) {
            uint j0 = 2u * jp;
            uint j1 = 2u * jp + 1u;

            float scale00 = d0 * float(sc0[j0]);
            float min00   = dmin0 * float(m0[j0]);
            float scale01 = d0 * float(sc0[j1]);
            float min01   = dmin0 * float(m0[j1]);

            float scale10 = d1 * float(sc1[j0]);
            float min10   = dmin1 * float(m1[j0]);
            float scale11 = d1 * float(sc1[j1]);
            float min11   = dmin1 * float(m1[j1]);

            uint x_low_off  = x_blk_base + j0 * 32u;
            uint x_high_off = x_blk_base + j1 * 32u;
            uint qs_base = jp * 8u;

            for (uint kg = 0; kg < 8u; ++kg) {
                uchar4 nibs0 = qs4_0[qs_base + kg];
                uchar4 nibs1 = qs4_1[qs_base + kg];
                uint kk = kg * 4u;

                float xl0 = x[x_low_off  + kk    ];
                float xl1 = x[x_low_off  + kk + 1];
                float xl2 = x[x_low_off  + kk + 2];
                float xl3 = x[x_low_off  + kk + 3];
                float xh0 = x[x_high_off + kk    ];
                float xh1 = x[x_high_off + kk + 1];
                float xh2 = x[x_high_off + kk + 2];
                float xh3 = x[x_high_off + kk + 3];

                partial0 += xl0 * (scale00 * float(nibs0.x & 0x0F) - min00);
                partial0 += xl1 * (scale00 * float(nibs0.y & 0x0F) - min00);
                partial0 += xl2 * (scale00 * float(nibs0.z & 0x0F) - min00);
                partial0 += xl3 * (scale00 * float(nibs0.w & 0x0F) - min00);
                partial0 += xh0 * (scale01 * float(nibs0.x >> 4)   - min01);
                partial0 += xh1 * (scale01 * float(nibs0.y >> 4)   - min01);
                partial0 += xh2 * (scale01 * float(nibs0.z >> 4)   - min01);
                partial0 += xh3 * (scale01 * float(nibs0.w >> 4)   - min01);

                partial1 += xl0 * (scale10 * float(nibs1.x & 0x0F) - min10);
                partial1 += xl1 * (scale10 * float(nibs1.y & 0x0F) - min10);
                partial1 += xl2 * (scale10 * float(nibs1.z & 0x0F) - min10);
                partial1 += xl3 * (scale10 * float(nibs1.w & 0x0F) - min10);
                partial1 += xh0 * (scale11 * float(nibs1.x >> 4)   - min11);
                partial1 += xh1 * (scale11 * float(nibs1.y >> 4)   - min11);
                partial1 += xh2 * (scale11 * float(nibs1.z >> 4)   - min11);
                partial1 += xh3 * (scale11 * float(nibs1.w >> 4)   - min11);
            }
        }
    }

    float total0 = simd_sum(partial0);
    float total1 = simd_sum(partial1);
    if (tid == 0) {
        y[n_idx_base] = total0;
        if (has_row1) {
            y[n_idx_base + 1u] = total1;
        }
    }
}
