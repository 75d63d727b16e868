#include <metal_stdlib>
using namespace metal;

constant uint Q6K_BYTES = 210u;
constant uint Q6K_WEIGHTS = 256u;

kernel void sgemv_q6_k_f32(
    device const float* x       [[buffer(0)]],
    device const uchar* w_q6k   [[buffer(1)]],
    device float* y             [[buffer(2)]],
    constant uint2& dims        [[buffer(3)]],
    uint gid                    [[thread_position_in_grid]]
) {
    uint K = dims.x;
    uint N = dims.y;
    uint n_idx = gid;
    if (n_idx >= N) return;

    uint blocks_per_row = K / Q6K_WEIGHTS;
    uint row_off = n_idx * blocks_per_row * Q6K_BYTES;

    float acc = 0.0;

    for (uint blk = 0; blk < blocks_per_row; ++blk) {
        device const uchar* block = w_q6k + row_off + blk * Q6K_BYTES;
        device const uchar* ql = block;
        device const uchar* qh = block + 128;
        device const char*  sc = (device const char*)(block + 192);
        ushort d_bits = ((ushort)block[209] << 8) | (ushort)block[208];
        float d = float(as_type<half>(d_bits));

        for (uint half_idx = 0u; half_idx < 2u; ++half_idx) {
            device const uchar* ql_h = ql + half_idx * 64u;
            device const uchar* qh_h = qh + half_idx * 32u;
            device const char*  sc_h = sc + half_idx * 8;
            uint x_h_off = blk * Q6K_WEIGHTS + half_idx * 128u;

            float s1_lo = d * float(sc_h[0]);
            float s1_hi = d * float(sc_h[1]);
            float s2_lo = d * float(sc_h[2]);
            float s2_hi = d * float(sc_h[3]);
            float s3_lo = d * float(sc_h[4]);
            float s3_hi = d * float(sc_h[5]);
            float s4_lo = d * float(sc_h[6]);
            float s4_hi = d * float(sc_h[7]);

            for (uint l = 0; l < 32u; ++l) {
                uchar qhh = qh_h[l];
                int q1 = (int)(ql_h[l]      & 0x0F) | ((int)((qhh >> 0) & 0x03) << 4);
                int q2 = (int)(ql_h[l + 32] & 0x0F) | ((int)((qhh >> 2) & 0x03) << 4);
                int q3 = (int)(ql_h[l]      >> 4)   | ((int)((qhh >> 4) & 0x03) << 4);
                int q4 = (int)(ql_h[l + 32] >> 4)   | ((int)((qhh >> 6) & 0x03) << 4);
                float s1 = (l < 16u) ? s1_lo : s1_hi;
                float s2 = (l < 16u) ? s2_lo : s2_hi;
                float s3 = (l < 16u) ? s3_lo : s3_hi;
                float s4 = (l < 16u) ? s4_lo : s4_hi;
                acc += x[x_h_off + l]      * (s1 * float(q1 - 32));
                acc += x[x_h_off + l + 32] * (s2 * float(q2 - 32));
                acc += x[x_h_off + l + 64] * (s3 * float(q3 - 32));
                acc += x[x_h_off + l + 96] * (s4 * float(q4 - 32));
            }
        }
    }

    y[n_idx] = acc;
}
