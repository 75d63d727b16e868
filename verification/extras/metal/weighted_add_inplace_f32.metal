#include <metal_stdlib>
using namespace metal;

kernel void weighted_add_inplace_f32(
    device float*        acc     [[buffer(0)]],
    device const float*  src     [[buffer(1)]],
    constant float&      w       [[buffer(2)]],
    constant uint&       n       [[buffer(3)]],
    uint                 gid     [[thread_position_in_grid]]
) {
    if (gid >= n) return;
    acc[gid] = acc[gid] + w * src[gid];
}
