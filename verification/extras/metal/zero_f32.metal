#include <metal_stdlib>
using namespace metal;

kernel void zero_f32(
    device float*  buf  [[buffer(0)]],
    constant uint& n    [[buffer(1)]],
    uint           gid  [[thread_position_in_grid]]
) {
    if (gid >= n) return;
    buf[gid] = 0.0;
}
