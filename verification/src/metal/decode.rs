//! Kernels of a transformer decoding step.
use crate::metal::dispatch;
use crate::metal::dispatch::{Dispatch, DispatchModel, Plan, PlanModel};
use crate::metal::error::{shape_mismatch, ErrorModel, MetalError};
use crate::text;
use crate::text::Text;
use vstd::prelude::*;

verus! {

/// Threads of a kernel that moves four elements per thread and the remaining
/// ones singly.
pub open spec fn by_four(n: int) -> int {
    n / 4 + n % 4
}

fn threads_by_four(n: usize) -> (r: u64)
    ensures
        r == by_four(n as int),
{
    (n / 4) as u64 + (n % 4) as u64
}

/// Four elements per full thread and one per remaining thread make `n`.
pub proof fn law_by_four_covers(n: int)
    requires
        n >= 0,
    ensures
        4 * (n / 4) + n % 4 == n,
        by_four(n) <= n,
{
}

/// The plan of `rms_norm_f32`.
pub open spec fn rms_norm_plan(d: usize, eps_bits: u32) -> PlanModel {
    dispatch::only(
        DispatchModel::kernel("rms_norm_f32"@, "rms_norm_f32"@)
            .arg(0)
            .arg(1)
            .arg(2)
            .words(seq![d as u32])
            .words(seq![eps_bits])
            .threads(32, 1, 32),
    )
}

/// Root-mean-square normalisation of one row of `d` elements by one simdgroup.
pub fn rms_norm_f32(d: usize, eps_bits: u32) -> (r: Result<Plan, MetalError>)
    ensures
        dispatch::planned(r) == Ok::<PlanModel, ErrorModel>(rms_norm_plan(d, eps_bits)),
{
    Ok(
        dispatch::just(
            Dispatch::kernel("rms_norm_f32", "rms_norm_f32")
                .arg(0)
                .arg(1)
                .arg(2)
                .words(dispatch::words1(d))
                .words(dispatch::bits(eps_bits))
                .threads(32, 1, 32),
        ),
    )
}

/// The plan of `rms_norm_batched_f32`.
pub open spec fn rms_norm_batched_plan(d: usize, b: usize, eps_bits: u32) -> PlanModel {
    dispatch::only(
        DispatchModel::kernel("rms_norm_batched_f32"@, "rms_norm_batched_f32"@)
            .arg(0)
            .arg(1)
            .arg(2)
            .words(seq![d as u32, b as u32])
            .words(seq![eps_bits])
            .threads((32 * b) as nat, 1, 32),
    )
}

/// Root-mean-square normalisation of `b` rows of `d` elements, one simdgroup
/// per row.
pub fn rms_norm_batched_f32(d: usize, b: usize, eps_bits: u32) -> (r: Result<Plan, MetalError>)
    requires
        32 * b <= u64::MAX,
    ensures
        dispatch::planned(r) == Ok::<PlanModel, ErrorModel>(rms_norm_batched_plan(d, b, eps_bits)),
{
    Ok(
        dispatch::just(
            Dispatch::kernel("rms_norm_batched_f32", "rms_norm_batched_f32")
                .arg(0)
                .arg(1)
                .arg(2)
                .words(dispatch::words2(d, b))
                .words(dispatch::bits(eps_bits))
                .threads(32 * b as u64, 1, 32),
        ),
    )
}

/// The plan of `rms_norm_per_head_f32`.
pub open spec fn rms_norm_per_head_plan(n_heads: usize, head_dim: usize, eps_bits: u32) -> PlanModel {
    dispatch::only(
        DispatchModel::kernel("rms_norm_per_head_f32"@, "rms_norm_per_head_f32"@)
            .arg(0)
            .arg(1)
            .words(seq![n_heads as u32, head_dim as u32])
            .words(seq![eps_bits])
            .threads((32 * n_heads) as nat, 1, 32),
    )
}

/// Root-mean-square normalisation of each head in place.
pub fn rms_norm_per_head_f32(
    n_heads: usize,
    head_dim: usize,
    eps_bits: u32,
) -> (r: Result<Plan, MetalError>)
    requires
        32 * n_heads <= u64::MAX,
    ensures
        dispatch::planned(r) == Ok::<PlanModel, ErrorModel>(rms_norm_per_head_plan(n_heads, head_dim, eps_bits)),
{
    Ok(
        dispatch::just(
            Dispatch::kernel("rms_norm_per_head_f32", "rms_norm_per_head_f32")
                .arg(0)
                .arg(1)
                .words(dispatch::words2(n_heads, head_dim))
                .words(dispatch::bits(eps_bits))
                .threads(32 * n_heads as u64, 1, 32),
        ),
    )
}

/// The plan of `rms_norm_per_head_batched_f32`.
pub open spec fn rms_norm_per_head_batched_plan(n_heads: usize, head_dim: usize, b: usize, eps_bits: u32) -> PlanModel {
    dispatch::only(
        DispatchModel::kernel(
            "rms_norm_per_head_batched_f32"@,
            "rms_norm_per_head_batched_f32"@,
        )
            .arg(0)
            .arg(1)
            .words(seq![n_heads as u32, head_dim as u32, b as u32])
            .words(seq![eps_bits])
            .threads((32 * (n_heads * b)) as nat, 1, 32),
    )
}

/// Root-mean-square normalisation of each head of `b` rows in place.
pub fn rms_norm_per_head_batched_f32(
    n_heads: usize,
    head_dim: usize,
    b: usize,
    eps_bits: u32,
) -> (r: Result<Plan, MetalError>)
    requires
        n_heads * b <= usize::MAX,
        32 * (n_heads * b) <= u64::MAX,
    ensures
        dispatch::planned(r) == Ok::<PlanModel, ErrorModel>(rms_norm_per_head_batched_plan(n_heads, head_dim, b, eps_bits)),
{
    let total_tg: u64 = (n_heads * b) as u64;
    Ok(
        dispatch::just(
            Dispatch::kernel("rms_norm_per_head_batched_f32", "rms_norm_per_head_batched_f32")
                .arg(0)
                .arg(1)
                .words(dispatch::words3(n_heads, head_dim, b))
                .words(dispatch::bits(eps_bits))
                .threads(32 * total_tg, 1, 32),
        ),
    )
}

/// The plan of `rms_norm_per_head_then_rope_f32`.
pub open spec fn rms_norm_per_head_then_rope_plan(n_heads: usize, head_dim: usize, position: usize, eps_bits: u32) -> PlanModel {
    dispatch::only(
        DispatchModel::kernel(
            "rms_norm_per_head_then_rope_f32"@,
            "rms_norm_per_head_then_rope_f32"@,
        )
            .arg(0)
            .arg(1)
            .arg(2)
            .arg(3)
            .words(seq![n_heads as u32, head_dim as u32, position as u32])
            .words(seq![eps_bits])
            .threads((32 * n_heads) as nat, 1, 32),
    )
}

/// Normalisation of each head followed by the rotary embedding at `position`.
pub fn rms_norm_per_head_then_rope_f32(
    n_heads: usize,
    head_dim: usize,
    position: usize,
    eps_bits: u32,
) -> (r: Result<Plan, MetalError>)
    requires
        32 * n_heads <= u64::MAX,
    ensures
        dispatch::planned(r) == Ok::<PlanModel, ErrorModel>(rms_norm_per_head_then_rope_plan(n_heads, head_dim, position, eps_bits)),
{
    Ok(
        dispatch::just(
            Dispatch::kernel("rms_norm_per_head_then_rope_f32", "rms_norm_per_head_then_rope_f32")
                .arg(0)
                .arg(1)
                .arg(2)
                .arg(3)
                .words(dispatch::words3(n_heads, head_dim, position))
                .words(dispatch::bits(eps_bits))
                .threads(32 * n_heads as u64, 1, 32),
        ),
    )
}

/// The plan of `swiglu_f32`.
pub open spec fn swiglu_plan(f: usize) -> PlanModel {
    dispatch::only(
        DispatchModel::kernel("swiglu_f32"@, "swiglu_f32"@)
            .arg(0)
            .arg(1)
            .arg(2)
            .words(seq![f as u32])
            .threads(f as nat, 1, 256),
    )
}

/// `y = silu(gate) * up` on `f` elements.
pub fn swiglu_f32(f: usize) -> (r: Result<Plan, MetalError>)
    ensures
        dispatch::planned(r) == Ok::<PlanModel, ErrorModel>(swiglu_plan(f)),
{
    Ok(
        dispatch::just(
            Dispatch::kernel("swiglu_f32", "swiglu_f32")
                .arg(0)
                .arg(1)
                .arg(2)
                .words(dispatch::words1(f))
                .threads(f as u64, 1, 256),
        ),
    )
}

/// The plan of `swiglu_batched_f32`.
pub open spec fn swiglu_batched_plan(f: usize, b: usize) -> PlanModel {
    dispatch::only(
        DispatchModel::kernel("swiglu_batched_f32"@, "swiglu_batched_f32"@)
            .arg(0)
            .arg(1)
            .arg(2)
            .words(seq![f as u32, b as u32])
            .threads((f * b) as nat, 1, 256),
    )
}

/// `y = silu(gate) * up` on `b` rows of `f` elements.
pub fn swiglu_batched_f32(f: usize, b: usize) -> (r: Result<Plan, MetalError>)
    requires
        f * b <= usize::MAX,
    ensures
        dispatch::planned(r) == Ok::<PlanModel, ErrorModel>(swiglu_batched_plan(f, b)),
{
    Ok(
        dispatch::just(
            Dispatch::kernel("swiglu_batched_f32", "swiglu_batched_f32")
                .arg(0)
                .arg(1)
                .arg(2)
                .words(dispatch::words2(f, b))
                .threads((f * b) as u64, 1, 256),
        ),
    )
}

/// The plan of `kv_append_f32`.
pub open spec fn kv_append_plan(n_kv: usize, head_dim: usize, position: usize, max_seq: usize) -> PlanModel {
    dispatch::only(
        DispatchModel::kernel("kv_append_f32"@, "kv_append_f32"@)
            .arg(0)
            .arg(1)
            .words(seq![n_kv as u32, head_dim as u32, position as u32])
            .words(seq![max_seq as u32])
            .threads(by_four(n_kv * head_dim) as nat, 1, 64),
    )
}

/// Writes one position of `n_kv` heads into a cache of `max_seq` positions.
pub fn kv_append_f32(
    n_kv: usize,
    head_dim: usize,
    position: usize,
    max_seq: usize,
) -> (r: Result<Plan, MetalError>)
    requires
        n_kv * head_dim <= usize::MAX,
    ensures
        dispatch::planned(r) == Ok::<PlanModel, ErrorModel>(kv_append_plan(n_kv, head_dim, position, max_seq)),
{
    Ok(
        dispatch::just(
            Dispatch::kernel("kv_append_f32", "kv_append_f32")
                .arg(0)
                .arg(1)
                .words(dispatch::words3(n_kv, head_dim, position))
                .words(dispatch::words1(max_seq))
                .threads(threads_by_four(n_kv * head_dim), 1, 64),
        ),
    )
}

/// The plan of `kv_append_batched_f32`.
pub open spec fn kv_append_batched_plan(n_kv: usize, head_dim: usize, position_base: usize, b: usize, max_seq: usize) -> PlanModel {
    dispatch::only(
        DispatchModel::kernel("kv_append_batched_f32"@, "kv_append_batched_f32"@)
            .arg(0)
            .arg(1)
            .words(seq![n_kv as u32, head_dim as u32, position_base as u32, b as u32])
            .words(seq![max_seq as u32])
            .threads((b * n_kv * head_dim) as nat, 1, 64),
    )
}

/// Writes `b` consecutive positions into a cache, one thread per element.
pub fn kv_append_batched_f32(
    n_kv: usize,
    head_dim: usize,
    position_base: usize,
    b: usize,
    max_seq: usize,
) -> (r: Result<Plan, MetalError>)
    requires
        b * n_kv <= usize::MAX,
        b * n_kv * head_dim <= usize::MAX,
    ensures
        dispatch::planned(r) == Ok::<PlanModel, ErrorModel>(kv_append_batched_plan(n_kv, head_dim, position_base, b, max_seq)),
{
    Ok(
        dispatch::just(
            Dispatch::kernel("kv_append_batched_f32", "kv_append_batched_f32")
                .arg(0)
                .arg(1)
                .words(dispatch::words4(n_kv, head_dim, position_base, b))
                .words(dispatch::words1(max_seq))
                .threads((b * n_kv * head_dim) as u64, 1, 64),
        ),
    )
}

/// The plan of `kv_append_kv_f32`.
pub open spec fn kv_append_kv_plan(n_kv: usize, head_dim: usize, position: usize, max_seq: usize) -> PlanModel {
    dispatch::only(
        DispatchModel::kernel("kv_append_kv_f32"@, "kv_append_kv_f32"@)
            .arg(0)
            .arg(1)
            .arg(2)
            .arg(3)
            .words(seq![n_kv as u32, head_dim as u32, position as u32])
            .words(seq![max_seq as u32])
            .threads((2 * (n_kv * head_dim)) as nat, 1, 64),
    )
}

/// Writes one position of both the key and the value cache.
pub fn kv_append_kv_f32(
    n_kv: usize,
    head_dim: usize,
    position: usize,
    max_seq: usize,
) -> (r: Result<Plan, MetalError>)
    requires
        n_kv * head_dim <= usize::MAX,
        2 * (n_kv * head_dim) <= usize::MAX,
    ensures
        dispatch::planned(r) == Ok::<PlanModel, ErrorModel>(kv_append_kv_plan(n_kv, head_dim, position, max_seq)),
{
    let total: usize = n_kv * head_dim;
    Ok(
        dispatch::just(
            Dispatch::kernel("kv_append_kv_f32", "kv_append_kv_f32")
                .arg(0)
                .arg(1)
                .arg(2)
                .arg(3)
                .words(dispatch::words3(n_kv, head_dim, position))
                .words(dispatch::words1(max_seq))
                .threads((2 * total) as u64, 1, 64),
        ),
    )
}

/// The plan of `rope_half_split_f32`.
pub open spec fn rope_half_split_plan(
    n_heads: usize,
    head_dim: usize,
    rope_dim: usize,
    position: usize,
) -> PlanModel {
    dispatch::only(
        DispatchModel::kernel("rope_half_split_f32"@, "rope_half_split_f32"@)
            .arg(0)
            .arg(1)
            .arg(2)
            .words(seq![n_heads as u32, head_dim as u32, rope_dim as u32, position as u32])
            .threads((n_heads * (rope_dim / 2)) as nat, 1, 64),
    )
}

/// Rotary embedding of one row at `position`: the first `rope_dim` dimensions
/// of each head are rotated in halves.
pub fn rope_half_split_f32(
    n_heads: usize,
    head_dim: usize,
    rope_dim: usize,
    position: usize,
) -> (r: Result<Plan, MetalError>)
    requires
        !(rope_dim == 0 || rope_dim > head_dim || rope_dim % 2 != 0)
            ==> n_heads * (rope_dim / 2) <= usize::MAX,
    ensures
        dispatch::planned(r) == if rope_dim == 0 || rope_dim > head_dim || rope_dim % 2 != 0 {
            Err(
                ErrorModel::ShapeMismatch(
                    "rope_half_split_f32: rope_dim="@ + text::decimal(
                        rope_dim as nat,
                    ) + " must be even and within (0, head_dim="@ + text::decimal(head_dim as nat) + "]"@,
                ),
            )
        } else {
            Ok(rope_half_split_plan(n_heads, head_dim, rope_dim, position))
        },
{
    if rope_dim == 0 || rope_dim > head_dim || rope_dim % 2 != 0 {
        return Err(
            shape_mismatch(
                Text::start("rope_half_split_f32: rope_dim=")
                    .num(rope_dim)
                    .lit(" must be even and within (0, head_dim=")
                    .num(head_dim)
                    .lit("]"),
            ),
        );
    }
    Ok(
        dispatch::just(
            Dispatch::kernel("rope_half_split_f32", "rope_half_split_f32")
                .arg(0)
                .arg(1)
                .arg(2)
                .words(dispatch::words4(n_heads, head_dim, rope_dim, position))
                .threads((n_heads * (rope_dim / 2)) as u64, 1, 64),
        ),
    )
}

/// The plan of `rope_half_split_batched_f32`.
pub open spec fn rope_half_split_batched_plan(n_heads: usize, head_dim: usize, position_base: usize, b: usize) -> PlanModel {
    dispatch::only(
        DispatchModel::kernel("rope_half_split_batched_f32"@, "rope_half_split_batched_f32"@)
            .arg(0)
            .arg(1)
            .arg(2)
            .words(seq![n_heads as u32, head_dim as u32, position_base as u32, b as u32])
            .threads((n_heads * (head_dim / 2)) as nat, b as nat, 64),
    )
}

/// Rotary embedding of `b` rows, row `i` at position `position_base + i`.
pub fn rope_half_split_batched_f32(
    n_heads: usize,
    head_dim: usize,
    position_base: usize,
    b: usize,
) -> (r: Result<Plan, MetalError>)
    requires
        n_heads * (head_dim / 2) <= usize::MAX,
    ensures
        dispatch::planned(r) == Ok::<PlanModel, ErrorModel>(rope_half_split_batched_plan(n_heads, head_dim, position_base, b)),
{
    Ok(
        dispatch::just(
            Dispatch::kernel("rope_half_split_batched_f32", "rope_half_split_batched_f32")
                .arg(0)
                .arg(1)
                .arg(2)
                .words(dispatch::words4(n_heads, head_dim, position_base, b))
                .threads((n_heads * (head_dim / 2)) as u64, b as u64, 64),
        ),
    )
}

/// The plan of `gqa_decode_f32`.
pub open spec fn gqa_decode_plan(n_heads: usize, n_kv: usize, head_dim: usize, kv_len: usize, max_seq: usize) -> PlanModel {
    dispatch::only(
        DispatchModel::kernel("gqa_decode_f32"@, "gqa_decode_f32"@)
            .arg(0)
            .arg(1)
            .arg(2)
            .arg(3)
            .words(seq![n_heads as u32, n_kv as u32, head_dim as u32, kv_len as u32])
            .words(seq![max_seq as u32])
            .inv_sqrt(head_dim as nat)
            .shared_bytes((kv_len * 4) as nat)
            .threads((32 * n_heads) as nat, 1, 32),
    )
}

/// Grouped-query attention of one query position against `kv_len` cached
/// positions, one simdgroup per query head.
pub fn gqa_decode_f32(
    n_heads: usize,
    n_kv: usize,
    head_dim: usize,
    kv_len: usize,
    max_seq: usize,
) -> (r: Result<Plan, MetalError>)
    requires
        kv_len * 4 <= usize::MAX,
        32 * n_heads <= u64::MAX,
    ensures
        dispatch::planned(r) == Ok::<PlanModel, ErrorModel>(gqa_decode_plan(n_heads, n_kv, head_dim, kv_len, max_seq)),
{
    Ok(
        dispatch::just(
            Dispatch::kernel("gqa_decode_f32", "gqa_decode_f32")
                .arg(0)
                .arg(1)
                .arg(2)
                .arg(3)
                .words(dispatch::words4(n_heads, n_kv, head_dim, kv_len))
                .words(dispatch::words1(max_seq))
                .inv_sqrt(head_dim)
                .shared_bytes((kv_len * 4) as u64)
                .threads(32 * n_heads as u64, 1, 32),
        ),
    )
}

/// The plan of `gqa_decode_batched_f32`.
pub open spec fn gqa_decode_batched_plan(n_heads: usize, n_kv: usize, head_dim: usize, pos_base: usize, b: usize, max_seq: usize) -> PlanModel {
    dispatch::only(
        DispatchModel::kernel("gqa_decode_batched_f32"@, "gqa_decode_batched_f32"@)
            .arg(0)
            .arg(1)
            .arg(2)
            .arg(3)
            .words(seq![n_heads as u32, n_kv as u32, head_dim as u32, b as u32])
            .words(seq![max_seq as u32, pos_base as u32])
            .inv_sqrt(head_dim as nat)
            .shared_bytes(((pos_base + b) * 4) as nat)
            .threads((32 * (n_heads * b)) as nat, 1, 32),
    )
}

/// Grouped-query attention of `b` consecutive query positions, each against
/// the cache up to itself, one simdgroup per query head and position.
pub fn gqa_decode_batched_f32(
    n_heads: usize,
    n_kv: usize,
    head_dim: usize,
    pos_base: usize,
    b: usize,
    max_seq: usize,
) -> (r: Result<Plan, MetalError>)
    requires
        pos_base + b <= usize::MAX,
        (pos_base + b) * 4 <= usize::MAX,
        n_heads * b <= usize::MAX,
        32 * (n_heads * b) <= u64::MAX,
    ensures
        dispatch::planned(r) == Ok::<PlanModel, ErrorModel>(gqa_decode_batched_plan(n_heads, n_kv, head_dim, pos_base, b, max_seq)),
{
    let kv_len_max: usize = pos_base + b;
    let n_tg: u64 = (n_heads * b) as u64;
    Ok(
        dispatch::just(
            Dispatch::kernel("gqa_decode_batched_f32", "gqa_decode_batched_f32")
                .arg(0)
                .arg(1)
                .arg(2)
                .arg(3)
                .words(dispatch::words4(n_heads, n_kv, head_dim, b))
                .words(dispatch::words2(max_seq, pos_base))
                .inv_sqrt(head_dim)
                .shared_bytes((kv_len_max * 4) as u64)
                .threads(32 * n_tg, 1, 32),
        ),
    )
}

/// The plan of `add_inplace_f32`.
pub open spec fn add_inplace_plan(d: usize) -> PlanModel {
    dispatch::only(
        DispatchModel::kernel("add_inplace_f32"@, "add_inplace_f32"@)
            .arg(0)
            .arg(1)
            .words(seq![d as u32])
            .threads(by_four(d as int) as nat, 1, 256),
    )
}

/// `x += y` on `d` elements.
pub fn add_inplace_f32(d: usize) -> (r: Result<Plan, MetalError>)
    ensures
        dispatch::planned(r) == Ok::<PlanModel, ErrorModel>(add_inplace_plan(d)),
{
    Ok(
        dispatch::just(
            Dispatch::kernel("add_inplace_f32", "add_inplace_f32")
                .arg(0)
                .arg(1)
                .words(dispatch::words1(d))
                .threads(threads_by_four(d), 1, 256),
        ),
    )
}

/// The plan of `add_inplace_batched_f32`.
pub open spec fn add_inplace_batched_plan(d: usize, b: usize) -> PlanModel {
    dispatch::only(
        DispatchModel::kernel("add_inplace_batched_f32"@, "add_inplace_batched_f32"@)
            .arg(0)
            .arg(1)
            .words(seq![d as u32, b as u32])
            .threads(by_four(d * b) as nat, 1, 256),
    )
}

/// `x += y` on `b` rows of `d` elements.
pub fn add_inplace_batched_f32(d: usize, b: usize) -> (r: Result<Plan, MetalError>)
    requires
        d * b <= usize::MAX,
    ensures
        dispatch::planned(r) == Ok::<PlanModel, ErrorModel>(add_inplace_batched_plan(d, b)),
{
    Ok(
        dispatch::just(
            Dispatch::kernel("add_inplace_batched_f32", "add_inplace_batched_f32")
                .arg(0)
                .arg(1)
                .words(dispatch::words2(d, b))
                .threads(threads_by_four(d * b), 1, 256),
        ),
    )
}

} // verus!
