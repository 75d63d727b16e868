#include <metal_stdlib>
using namespace metal;

constant uint BLOCK_BYTES = 144u;
constant uint BLOCK_WEIGHTS = 256u;

kernel void sgemv_q4_k_f32_batch(
    device const float* x       [[buffer(0)]],
    device const uchar* w_q4k   [[buffer(1)]],
    device float* y             [[buffer(2)]],
    constant uint3& dims        [[buffer(3)]],
    uint2 gid                   [[thread_position_in_grid]]
) {
    uint K = dims.x;
    uint N = dims.y;
    uint B = dims.z;
    uint n_idx = gid.x;
    uint batch_idx = gid.y;
    if (n_idx >= N || batch_idx >= B) return;

    uint blocks_per_row = K / BLOCK_WEIGHTS;
    uint row_off = n_idx * blocks_per_row * BLOCK_BYTES;

    device const float* xb = x + batch_idx * K;

    float acc = 0.0;

    for (uint blk = 0; blk < blocks_per_row; ++blk) {
        device const uchar* block = w_q4k + row_off + blk * BLOCK_BYTES;
        ushort d_bits = ((ushort)block[1] << 8) | (ushort)block[0];
        ushort dmin_bits = ((ushort)block[3] << 8) | (ushort)block[2];
        float d = float(as_type<half>(d_bits));
        float dmin = float(as_type<half>(dmin_bits));
        uchar packed[12];
        for (uint i = 0; i < 12u; ++i) packed[i] = block[4 + i];
        uchar sc[8], m[8];
        for (uint i = 0; i < 4u; ++i) {
            sc[i]     = packed[i] & 0x3F;
            m[i]      = packed[i + 4] & 0x3F;
            sc[i + 4] = (packed[i + 8] & 0x0F) | ((packed[i] >> 6) << 4);
            m[i + 4]  = (packed[i + 8] >> 4)   | ((packed[i + 4] >> 6) << 4);
        }
        device const uchar4* qs4 = (device const uchar4*)(block + 16);
        for (uint jp = 0; jp < 4u; ++jp) {
            uint j0 = 2u * jp;
            uint j1 = 2u * jp + 1u;
            float scale0 = d * float(sc[j0]);
            float min0   = dmin * float(m[j0]);
            float scale1 = d * float(sc[j1]);
            float min1   = dmin * float(m[j1]);
            uint x_low_off  = blk * BLOCK_WEIGHTS + j0 * 32u;
            uint x_high_off = blk * BLOCK_WEIGHTS + j1 * 32u;
            uint qs_base = jp * 8u;
            for (uint kg = 0; kg < 8u; ++kg) {
                uchar4 nibs = qs4[qs_base + kg];
                uint kk = kg * 4u;
                float n0lo = scale0 * float(nibs.x & 0x0F) - min0;
                float n1lo = scale0 * float(nibs.y & 0x0F) - min0;
                float n2lo = scale0 * float(nibs.z & 0x0F) - min0;
                float n3lo = scale0 * float(nibs.w & 0x0F) - min0;
                float n0hi = scale1 * float(nibs.x >> 4)   - min1;
                float n1hi = scale1 * float(nibs.y >> 4)   - min1;
                float n2hi = scale1 * float(nibs.z >> 4)   - min1;
                float n3hi = scale1 * float(nibs.w >> 4)   - min1;
                acc += xb[x_low_off  + kk    ] * n0lo;
                acc += xb[x_low_off  + kk + 1] * n1lo;
                acc += xb[x_low_off  + kk + 2] * n2lo;
                acc += xb[x_low_off  + kk + 3] * n3lo;
                acc += xb[x_high_off + kk    ] * n0hi;
                acc += xb[x_high_off + kk + 1] * n1hi;
                acc += xb[x_high_off + kk + 2] * n2hi;
                acc += xb[x_high_off + kk + 3] * n3hi;
            }
        }
    }

    y[batch_idx * N + n_idx] = acc;
}
