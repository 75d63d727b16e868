//! What carrying out a plan does to the buffers.
//!
//! The kernels are a parameter: a device says, for each kernel and each
//! launch, what the buffers bound to the kernel's slots hold afterwards.
use crate::metal::dispatch;
use crate::metal::dispatch::{BindingModel, DispatchModel, PlanModel};
use vstd::prelude::*;

verus! {

/// The contents of the caller's buffers and of the plan's own.
pub struct Memory<T> {
    pub args: Seq<Seq<T>>,
    pub temps: Seq<Seq<T>>,
}

/// What a kernel sees of a launch.
pub struct Launch<T> {
    /// The contents of the buffer at each slot.
    pub bufs: Seq<Seq<T>>,
    /// The words at each slot.
    pub words: Seq<Seq<u32>>,
    /// Threads in the grid.
    pub threads: (nat, nat, nat),
    /// Threadgroups in the grid.
    pub groups: (nat, nat, nat),
    /// Threads per threadgroup.
    pub width: nat,
    /// The count whose inverse root is passed at each slot.
    pub roots: Seq<nat>,
    /// Bytes of threadgroup memory.
    pub shared: nat,
}

/// The contents bound at a slot.
pub open spec fn contents<T>(b: BindingModel, mem: Memory<T>) -> Seq<T> {
    match b {
        BindingModel::Arg(i) => mem.args[i as int],
        BindingModel::Temp(i) => mem.temps[i as int],
        _ => seq![],
    }
}

/// The words bound at a slot: those passed inline, or those at the start of
/// the plan's buffer.
pub open spec fn words_of(p: PlanModel, b: BindingModel) -> Seq<u32> {
    match b {
        BindingModel::Words(w) => w,
        BindingModel::Temp(i) => p.allocs[i as int].words,
        _ => seq![],
    }
}

/// What the kernel of launch `d` sees.
pub open spec fn seen<T>(p: PlanModel, d: DispatchModel, mem: Memory<T>) -> Launch<T> {
    Launch {
        bufs: Seq::new(d.bindings.len(), |s: int| contents(d.bindings[s], mem)),
        words: Seq::new(d.bindings.len(), |s: int| words_of(p, d.bindings[s])),
        threads: if d.by_groups {
            (d.grid.0 * d.group.0, d.grid.1 * d.group.1, d.grid.2 * d.group.2)
        } else {
            d.grid
        },
        groups: if d.by_groups {
            d.grid
        } else {
            (
                dispatch::ceil_div(d.grid.0, d.group.0),
                dispatch::ceil_div(d.grid.1, d.group.1),
                dispatch::ceil_div(d.grid.2, d.group.2),
            )
        },
        width: d.group.0,
        roots: Seq::new(
            d.bindings.len(),
            |s: int|
                match d.bindings[s] {
                    BindingModel::InvSqrt(n) => n,
                    _ => 0,
                },
        ),
        shared: match d.shared {
            Some(b) => b,
            None => 0,
        },
    }
}

/// The contents of the buffer `b` after a launch that left `outs` at the slots:
/// what stands at the last of the first `n` slots that it is bound at and that
/// the kernel wrote to, and otherwise what was there before.
pub open spec fn left<T>(
    bindings: Seq<BindingModel>,
    outs: Seq<Seq<T>>,
    b: BindingModel,
    before: Seq<T>,
    n: nat,
) -> Seq<T>
    decreases n,
{
    if n == 0 {
        before
    } else if bindings[n - 1] == b && outs[n - 1] != before {
        outs[n - 1]
    } else {
        left(bindings, outs, b, before, (n - 1) as nat)
    }
}

/// The buffers after one launch.
pub open spec fn step<T>(
    device: spec_fn(Seq<char>, Launch<T>) -> Seq<Seq<T>>,
    p: PlanModel,
    d: DispatchModel,
    mem: Memory<T>,
) -> Memory<T> {
    let outs = device(d.entry, seen(p, d, mem));
    Memory {
        args: Seq::new(
            mem.args.len(),
            |i: int|
                left(
                    d.bindings,
                    outs,
                    BindingModel::Arg(i as nat),
                    mem.args[i],
                    d.bindings.len(),
                ),
        ),
        temps: Seq::new(
            mem.temps.len(),
            |i: int|
                left(
                    d.bindings,
                    outs,
                    BindingModel::Temp(i as nat),
                    mem.temps[i],
                    d.bindings.len(),
                ),
        ),
    }
}

/// The buffers after the first `n` launches.
pub open spec fn run<T>(
    device: spec_fn(Seq<char>, Launch<T>) -> Seq<Seq<T>>,
    p: PlanModel,
    n: nat,
    mem: Memory<T>,
) -> Memory<T>
    decreases n,
{
    if n == 0 {
        mem
    } else {
        step(device, p, p.dispatches[n - 1], run(device, p, (n - 1) as nat, mem))
    }
}

/// The buffers after the whole plan.
pub open spec fn carried_out<T>(
    device: spec_fn(Seq<char>, Launch<T>) -> Seq<Seq<T>>,
    p: PlanModel,
    mem: Memory<T>,
) -> Memory<T> {
    run(device, p, p.dispatches.len(), mem)
}

/// The buffer that the plan hands back.
pub open spec fn answer<T>(
    device: spec_fn(Seq<char>, Launch<T>) -> Seq<Seq<T>>,
    p: PlanModel,
    mem: Memory<T>,
) -> Seq<T> {
    carried_out(device, p, mem).temps[p.result->0 as int]
}

/// The plan's buffers are there, each with as many elements of `size` bytes as
/// were asked for.
pub open spec fn allocated<T>(p: PlanModel, mem: Memory<T>, size: int) -> bool {
    &&& mem.temps.len() == p.allocs.len()
    &&& forall|i: int|
        0 <= i < p.allocs.len() ==> (#[trigger] mem.temps[i]).len() * size == p.allocs[i].bytes
}

/// A kernel that writes only slot `s`: element `x` becomes `f(x)` where
/// `writes(x)`, and stays otherwise.
pub open spec fn writing<T>(
    l: Launch<T>,
    s: int,
    writes: spec_fn(int) -> bool,
    f: spec_fn(int) -> T,
) -> Seq<Seq<T>> {
    l.bufs.update(
        s,
        Seq::new(
            l.bufs[s].len(),
            |x: int|
                if writes(x) {
                    f(x)
                } else {
                    l.bufs[s][x]
                },
        ),
    )
}

/// A plan with a single launch.
pub proof fn lemma_single<T>(
    device: spec_fn(Seq<char>, Launch<T>) -> Seq<Seq<T>>,
    p: PlanModel,
    mem: Memory<T>,
)
    requires
        p.dispatches.len() == 1,
    ensures
        carried_out(device, p, mem) == step(device, p, p.dispatches[0], mem),
{
    reveal_with_fuel(run, 2);
}

} // verus!
