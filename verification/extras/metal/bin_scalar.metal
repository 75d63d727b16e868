#include <metal_stdlib>
using namespace metal;

struct BinScalarParams {
    uint  n;
    uint  op_kind;
    float scalar;
};

kernel void binary_scalar_f32(
    constant BinScalarParams& params [[buffer(0)]],
    device const float*       src    [[buffer(1)]],
    device       float*       out    [[buffer(2)]],
    uint                      gid    [[thread_position_in_grid]]
) {
    if (gid >= params.n) { return; }
    float a = src[gid];
    float b = params.scalar;
    float r;
    if (params.op_kind == 0u)      { r = a + b; }
    else if (params.op_kind == 1u) { r = a - b; }
    else if (params.op_kind == 2u) { r = a * b; }
    else                            { r = a / b; }
    out[gid] = r;
}
