#include <metal_stdlib>
using namespace metal;

struct AddBiasParams {
    uint b;
    uint n;
};

kernel void add_bias_f32(
    constant AddBiasParams& params [[buffer(0)]],
    device const float*     x      [[buffer(1)]],
    device const float*     bias   [[buffer(2)]],
    device       float*     out    [[buffer(3)]],
    uint                    gid    [[thread_position_in_grid]]
) {
    uint B = params.b;
    uint N = params.n;
    uint total = B * N;
    if (gid >= total) { return; }
    uint col = gid % N;
    out[gid] = x[gid] + bias[col];
}
