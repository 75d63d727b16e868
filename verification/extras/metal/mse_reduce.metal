#include <metal_stdlib>
using namespace metal;

struct ReduceParams {
    uint n;
    uint kind;
};

kernel void mse_reduce_partial_f32(
    constant ReduceParams& params [[buffer(0)]],
    device const float*    a      [[buffer(1)]],
    device const float*    b      [[buffer(2)]],
    device       float*    out    [[buffer(3)]],
    uint  tg_pos  [[threadgroup_position_in_grid]],
    uint  lid     [[thread_index_in_threadgroup]],
    uint  tg_size [[threads_per_threadgroup]]
) {
    threadgroup float scratch[256];
    uint stride = tg_size;
    uint base = tg_pos * stride;

    float acc = 0.0f;
    uint idx = base + lid;
    if (idx < params.n) {
        float d = a[idx] - b[idx];
        acc = d * d;
    }
    scratch[lid] = acc;
    threadgroup_barrier(mem_flags::mem_threadgroup);

    for (uint s = stride / 2u; s > 0u; s >>= 1u) {
        if (lid < s) {
            scratch[lid] += scratch[lid + s];
        }
        threadgroup_barrier(mem_flags::mem_threadgroup);
    }
    if (lid == 0u) {
        out[tg_pos] = scratch[0];
    }
}
