#include <metal_stdlib>
using namespace metal;

constant uint BLOCK_BYTES = 144u;
constant uint BLOCK_WEIGHTS = 256u;

kernel void sgemv_q4_k_f32_quadcoop(
    device const float* x       [[buffer(0)]],
    device const uchar* w_q4k   [[buffer(1)]],
    device float* y             [[buffer(2)]],
    constant uint2& dims        [[buffer(3)]],
    uint tg_id                  [[threadgroup_position_in_grid]],
    uint tid                    [[thread_position_in_threadgroup]]
) {
    uint K = dims.x;
    uint N = dims.y;

    uint base = tg_id * 4u;
    uint quarter = tid / 8u;
    uint lane_q  = tid % 8u;
    uint n_idx = base + quarter;

    uint blocks_per_row = K / BLOCK_WEIGHTS;
    uint row_off = (n_idx < N) ? n_idx * blocks_per_row * BLOCK_BYTES : 0u;

    float partial = 0.0;
    if (n_idx < N) {
        for (uint blk = lane_q; blk < blocks_per_row; blk += 8u) {
            device const uchar* block = w_q4k + row_off + blk * BLOCK_BYTES;
            ushort d_bits = ((ushort)block[1] << 8) | (ushort)block[0];
            ushort dmin_bits = ((ushort)block[3] << 8) | (ushort)block[2];
            float d = float(as_type<half>(d_bits));
            float dmin = float(as_type<half>(dmin_bits));
            uchar packed[12];
            for (uint i = 0; i < 12u; ++i) packed[i] = block[4 + i];
            uchar sc[8], m[8];
            for (uint i = 0; i < 4u; ++i) {
                sc[i]     = packed[i] & 0x3F;
                m[i]      = packed[i + 4] & 0x3F;
                sc[i + 4] = (packed[i + 8] & 0x0F) | ((packed[i] >> 6) << 4);
                m[i + 4]  = (packed[i + 8] >> 4)   | ((packed[i + 4] >> 6) << 4);
            }
            device const uchar4* qs4 = (device const uchar4*)(block + 16);
            for (uint jp = 0; jp < 4u; ++jp) {
                uint j0 = 2u * jp;
                uint j1 = 2u * jp + 1u;
                float scale0 = d * float(sc[j0]);
                float min0   = dmin * float(m[j0]);
                float scale1 = d * float(sc[j1]);
                float min1   = dmin * float(m[j1]);
                uint x_low_off  = blk * BLOCK_WEIGHTS + j0 * 32u;
                uint x_high_off = blk * BLOCK_WEIGHTS + j1 * 32u;
                uint qs_base = jp * 8u;
                for (uint kg = 0; kg < 8u; ++kg) {
                    uchar4 nibs = qs4[qs_base + kg];
                    uint kk = kg * 4u;
                    float n0lo = scale0 * float(nibs.x & 0x0F) - min0;
                    float n1lo = scale0 * float(nibs.y & 0x0F) - min0;
                    float n2lo = scale0 * float(nibs.z & 0x0F) - min0;
                    float n3lo = scale0 * float(nibs.w & 0x0F) - min0;
                    float n0hi = scale1 * float(nibs.x >> 4)   - min1;
                    float n1hi = scale1 * float(nibs.y >> 4)   - min1;
                    float n2hi = scale1 * float(nibs.z >> 4)   - min1;
                    float n3hi = scale1 * float(nibs.w >> 4)   - min1;
                    partial += x[x_low_off  + kk    ] * n0lo;
                    partial += x[x_low_off  + kk + 1] * n1lo;
                    partial += x[x_low_off  + kk + 2] * n2lo;
                    partial += x[x_low_off  + kk + 3] * n3lo;
                    partial += x[x_high_off + kk    ] * n0hi;
                    partial += x[x_high_off + kk + 1] * n1hi;
                    partial += x[x_high_off + kk + 2] * n2hi;
                    partial += x[x_high_off + kk + 3] * n3hi;
                }
            }
        }
    }

    float sum = partial;
    sum += simd_shuffle_xor(sum, 1);
    sum += simd_shuffle_xor(sum, 2);
    sum += simd_shuffle_xor(sum, 4);
    if (lane_q == 0u && n_idx < N) {
        y[n_idx] = sum;
    }
}
