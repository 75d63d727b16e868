//! Plans: what a kernel call allocates, binds and launches.
//!
//! A plan is carried out in three steps: every pipeline it names is looked
//! up or compiled, every buffer it lists is allocated and filled, and then
//! the dispatches are encoded in order.
use crate::metal::error::MetalError;
use crate::metal::error::ErrorModel;
use vstd::prelude::*;

verus! {

/// What stands at an argument index of a kernel.
#[derive(Debug)]
pub enum Binding {
    /// The caller's buffer of that number.
    Arg(usize),
    /// The plan's own buffer of that number.
    Temp(usize),
    /// Constant words, passed inline.
    Words(Vec<u32>),
    /// The single-precision constant `1 / sqrt(n)`, passed inline.
    InvSqrt(usize),
}

/// What stands at an argument index, as a mathematical value.
pub enum BindingModel {
    Arg(nat),
    Temp(nat),
    Words(Seq<u32>),
    InvSqrt(nat),
}

impl View for Binding {
    type V = BindingModel;

    open spec fn view(&self) -> BindingModel {
        match self {
            Binding::Arg(i) => BindingModel::Arg(*i as nat),
            Binding::Temp(i) => BindingModel::Temp(*i as nat),
            Binding::Words(w) => BindingModel::Words(w@),
            Binding::InvSqrt(n) => BindingModel::InvSqrt(*n as nat),
        }
    }
}

/// A buffer that the plan allocates.
#[derive(Debug)]
pub struct Alloc {
    /// Size in bytes.
    pub bytes: usize,
    /// Whether it comes from the recycling pool.
    pub pooled: bool,
    /// Words written to its start.
    pub words: Vec<u32>,
}

pub struct AllocModel {
    pub bytes: nat,
    pub pooled: bool,
    pub words: Seq<u32>,
}

impl View for Alloc {
    type V = AllocModel;

    open spec fn view(&self) -> AllocModel {
        AllocModel { bytes: self.bytes as nat, pooled: self.pooled, words: self.words@ }
    }
}

/// One launch of a kernel.
#[derive(Debug)]
pub struct Dispatch {
    /// Pipeline cache key.
    pub name: &'static str,
    /// Kernel function inside the shader.
    pub entry: &'static str,
    /// Arguments by index.
    pub bindings: Vec<Binding>,
    /// Threads in the grid, or threadgroups where `by_groups` is set.
    pub grid: (u64, u64, u64),
    /// Threads per threadgroup.
    pub group: (u64, u64, u64),
    /// The grid counts threadgroups rather than threads.
    pub by_groups: bool,
    /// The threadgroup width is cut to what the pipeline allows.
    pub clamp: bool,
    /// Bytes of threadgroup memory at index 0.
    pub shared: Option<u64>,
}

/// One launch of a kernel, as a mathematical value.
pub struct DispatchModel {
    pub name: Seq<char>,
    pub entry: Seq<char>,
    pub bindings: Seq<BindingModel>,
    pub grid: (nat, nat, nat),
    pub group: (nat, nat, nat),
    pub by_groups: bool,
    pub clamp: bool,
    pub shared: Option<nat>,
}

impl View for Dispatch {
    type V = DispatchModel;

    open spec fn view(&self) -> DispatchModel {
        DispatchModel {
            name: self.name@,
            entry: self.entry@,
            bindings: Seq::new(self.bindings@.len(), |i: int| self.bindings@[i]@),
            grid: (self.grid.0 as nat, self.grid.1 as nat, self.grid.2 as nat),
            group: (self.group.0 as nat, self.group.1 as nat, self.group.2 as nat),
            by_groups: self.by_groups,
            clamp: self.clamp,
            shared: match self.shared {
                Some(b) => Some(b as nat),
                None => None,
            },
        }
    }
}

impl DispatchModel {
    /// A launch of one thread, without arguments.
    pub open spec fn kernel(name: Seq<char>, entry: Seq<char>) -> Self {
        DispatchModel {
            name,
            entry,
            bindings: seq![],
            grid: (1, 1, 1),
            group: (1, 1, 1),
            by_groups: false,
            clamp: false,
            shared: None,
        }
    }

    pub open spec fn arg(self, i: nat) -> Self {
        DispatchModel { bindings: self.bindings.push(BindingModel::Arg(i)), ..self }
    }

    pub open spec fn temp(self, i: nat) -> Self {
        DispatchModel { bindings: self.bindings.push(BindingModel::Temp(i)), ..self }
    }

    pub open spec fn words(self, w: Seq<u32>) -> Self {
        DispatchModel { bindings: self.bindings.push(BindingModel::Words(w)), ..self }
    }

    pub open spec fn inv_sqrt(self, n: nat) -> Self {
        DispatchModel { bindings: self.bindings.push(BindingModel::InvSqrt(n)), ..self }
    }

    /// A grid of `x * y` threads in threadgroups of `width`.
    pub open spec fn threads(self, x: nat, y: nat, width: nat) -> Self {
        DispatchModel { grid: (x, y, 1), group: (width, 1, 1), by_groups: false, ..self }
    }

    /// `x` threadgroups of `width` threads.
    pub open spec fn groups(self, x: nat, width: nat) -> Self {
        DispatchModel { grid: (x, 1, 1), group: (width, 1, 1), by_groups: true, ..self }
    }

    /// A grid of `x * y` threads in square threadgroups of `side * side`.
    pub open spec fn tiles(self, x: nat, y: nat, side: nat) -> Self {
        DispatchModel { grid: (x, y, 1), group: (side, side, 1), by_groups: false, ..self }
    }

    pub open spec fn clamped(self) -> Self {
        DispatchModel { clamp: true, ..self }
    }

    pub open spec fn shared_bytes(self, b: nat) -> Self {
        DispatchModel { shared: Some(b), ..self }
    }
}

impl Dispatch {
    /// A launch of one thread, without arguments.
    pub fn kernel(name: &'static str, entry: &'static str) -> (r: Self)
        ensures
            r@ == DispatchModel::kernel(name@, entry@),
    {
        let r = Dispatch {
            name,
            entry,
            bindings: Vec::new(),
            grid: (1, 1, 1),
            group: (1, 1, 1),
            by_groups: false,
            clamp: false,
            shared: None,
        };
        assert(r@.bindings =~= seq![]);
        r
    }

    fn bind(self, b: Binding) -> (r: Self)
        ensures
            r@ == (DispatchModel { bindings: self@.bindings.push(b@), ..self@ }),
    {
        let mut bindings = self.bindings;
        bindings.push(b);
        let r = Dispatch {
            name: self.name,
            entry: self.entry,
            bindings,
            grid: self.grid,
            group: self.group,
            by_groups: self.by_groups,
            clamp: self.clamp,
            shared: self.shared,
        };
        assert(r@.bindings =~= self@.bindings.push(b@));
        r
    }

    /// Binds the caller's buffer `i` at the next index.
    pub fn arg(self, i: usize) -> (r: Self)
        ensures
            r@ == self@.arg(i as nat),
    {
        self.bind(Binding::Arg(i))
    }

    /// Binds the plan's buffer `i` at the next index.
    pub fn temp(self, i: usize) -> (r: Self)
        ensures
            r@ == self@.temp(i as nat),
    {
        self.bind(Binding::Temp(i))
    }

    /// Passes constant words at the next index.
    pub fn words(self, w: Vec<u32>) -> (r: Self)
        ensures
            r@ == self@.words(w@),
    {
        self.bind(Binding::Words(w))
    }

    /// Passes `1 / sqrt(n)` at the next index.
    pub fn inv_sqrt(self, n: usize) -> (r: Self)
        ensures
            r@ == self@.inv_sqrt(n as nat),
    {
        self.bind(Binding::InvSqrt(n))
    }

    /// Launches a grid of `x * y` threads in threadgroups of `width`.
    pub fn threads(self, x: u64, y: u64, width: u64) -> (r: Self)
        ensures
            r@ == self@.threads(x as nat, y as nat, width as nat),
    {
        let r = Dispatch { grid: (x, y, 1), group: (width, 1, 1), by_groups: false, ..self };
        assert(r@.bindings =~= self@.bindings);
        r
    }

    /// Launches `x` threadgroups of `width` threads.
    pub fn groups(self, x: u64, width: u64) -> (r: Self)
        ensures
            r@ == self@.groups(x as nat, width as nat),
    {
        let r = Dispatch { grid: (x, 1, 1), group: (width, 1, 1), by_groups: true, ..self };
        assert(r@.bindings =~= self@.bindings);
        r
    }

    /// Launches a grid of `x * y` threads in square threadgroups.
    pub fn tiles(self, x: u64, y: u64, side: u64) -> (r: Self)
        ensures
            r@ == self@.tiles(x as nat, y as nat, side as nat),
    {
        let r = Dispatch { grid: (x, y, 1), group: (side, side, 1), by_groups: false, ..self };
        assert(r@.bindings =~= self@.bindings);
        r
    }

    /// Cuts the threadgroup width to what the pipeline allows.
    pub fn clamped(self) -> (r: Self)
        ensures
            r@ == self@.clamped(),
    {
        let r = Dispatch { clamp: true, ..self };
        assert(r@.bindings =~= self@.bindings);
        r
    }

    /// Reserves threadgroup memory.
    pub fn shared_bytes(self, b: u64) -> (r: Self)
        ensures
            r@ == self@.shared_bytes(b as nat),
    {
        let r = Dispatch { shared: Some(b), ..self };
        assert(r@.bindings =~= self@.bindings);
        r
    }

    /// The threadgroup width for a pipeline that allows `max_threads`.
    pub fn group_width(&self, max_threads: u64) -> (r: u64)
        ensures
            r == if self@.clamp && max_threads < self@.group.0 {
                max_threads as nat
            } else {
                self@.group.0
            },
    {
        if self.clamp && max_threads < self.group.0 {
            max_threads
        } else {
            self.group.0
        }
    }
}

/// What a kernel call allocates and launches.
#[derive(Debug)]
pub struct Plan {
    /// Buffers to allocate, in order.
    pub allocs: Vec<Alloc>,
    /// Launches, in order.
    pub dispatches: Vec<Dispatch>,
    /// The plan's buffer that is handed back, where there is one.
    pub result: Option<usize>,
}

/// A plan, as a mathematical value.
pub struct PlanModel {
    pub allocs: Seq<AllocModel>,
    pub dispatches: Seq<DispatchModel>,
    pub result: Option<nat>,
}

impl View for Plan {
    type V = PlanModel;

    open spec fn view(&self) -> PlanModel {
        PlanModel {
            allocs: Seq::new(self.allocs@.len(), |i: int| self.allocs@[i]@),
            dispatches: Seq::new(self.dispatches@.len(), |i: int| self.dispatches@[i]@),
            result: match self.result {
                Some(i) => Some(i as nat),
                None => None,
            },
        }
    }
}

impl PlanModel {
    pub open spec fn empty() -> Self {
        PlanModel { allocs: seq![], dispatches: seq![], result: None }
    }

    /// A further buffer of `bytes` bytes.
    pub open spec fn buffer(self, bytes: nat) -> Self {
        PlanModel {
            allocs: self.allocs.push(AllocModel { bytes, pooled: false, words: seq![] }),
            ..self
        }
    }

    /// A further buffer of `bytes` bytes from the pool.
    pub open spec fn pooled(self, bytes: nat) -> Self {
        PlanModel {
            allocs: self.allocs.push(AllocModel { bytes, pooled: true, words: seq![] }),
            ..self
        }
    }

    /// A further buffer of `bytes` bytes that starts with `words`.
    pub open spec fn uniform(self, bytes: nat, words: Seq<u32>) -> Self {
        PlanModel { allocs: self.allocs.push(AllocModel { bytes, pooled: false, words }), ..self }
    }

    pub open spec fn launch(self, d: DispatchModel) -> Self {
        PlanModel { dispatches: self.dispatches.push(d), ..self }
    }

    pub open spec fn returning(self, i: nat) -> Self {
        PlanModel { result: Some(i), ..self }
    }
}

impl Plan {
    pub fn empty() -> (r: Self)
        ensures
            r@ == PlanModel::empty(),
    {
        let r = Plan { allocs: Vec::new(), dispatches: Vec::new(), result: None };
        assert(r@.allocs =~= seq![]);
        assert(r@.dispatches =~= seq![]);
        r
    }

    fn push_alloc(self, a: Alloc) -> (r: Self)
        ensures
            r@ == (PlanModel { allocs: self@.allocs.push(a@), ..self@ }),
    {
        let mut allocs = self.allocs;
        allocs.push(a);
        let r = Plan { allocs, dispatches: self.dispatches, result: self.result };
        assert(r@.allocs =~= self@.allocs.push(a@));
        assert(r@.dispatches =~= self@.dispatches);
        r
    }

    /// Adds a buffer of `bytes` bytes.
    pub fn buffer(self, bytes: usize) -> (r: Self)
        ensures
            r@ == self@.buffer(bytes as nat),
    {
        let words: Vec<u32> = Vec::new();
        assert(words@ =~= seq![]);
        self.push_alloc(Alloc { bytes, pooled: false, words })
    }

    /// Adds a buffer of `bytes` bytes from the pool.
    pub fn pooled(self, bytes: usize) -> (r: Self)
        ensures
            r@ == self@.pooled(bytes as nat),
    {
        let words: Vec<u32> = Vec::new();
        assert(words@ =~= seq![]);
        self.push_alloc(Alloc { bytes, pooled: true, words })
    }

    /// Adds a buffer of `bytes` bytes that starts with `words`.
    pub fn uniform(self, bytes: usize, words: Vec<u32>) -> (r: Self)
        ensures
            r@ == self@.uniform(bytes as nat, words@),
    {
        self.push_alloc(Alloc { bytes, pooled: false, words })
    }

    /// Adds a launch.
    pub fn launch(self, d: Dispatch) -> (r: Self)
        ensures
            r@ == self@.launch(d@),
    {
        let mut dispatches = self.dispatches;
        dispatches.push(d);
        let r = Plan { allocs: self.allocs, dispatches, result: self.result };
        assert(r@.allocs =~= self@.allocs);
        assert(r@.dispatches =~= self@.dispatches.push(d@));
        r
    }

    /// Names the buffer that is handed back.
    pub fn returning(self, i: usize) -> (r: Self)
        ensures
            r@ == self@.returning(i as nat),
    {
        let r = Plan { allocs: self.allocs, dispatches: self.dispatches, result: Some(i) };
        assert(r@.allocs =~= self@.allocs);
        assert(r@.dispatches =~= self@.dispatches);
        r
    }
}

/// The outcome of planning, as a mathematical value.
pub open spec fn planned(r: Result<Plan, MetalError>) -> Result<PlanModel, ErrorModel> {
    match r {
        Ok(p) => Ok(p@),
        Err(e) => Err(e@),
    }
}

/// The outcome of a kernel whose plan is `plan` where `error` is `None`.
pub open spec fn outcome(error: Option<ErrorModel>, plan: PlanModel) -> Result<
    PlanModel,
    ErrorModel,
> {
    match error {
        Some(e) => Err(e),
        None => Ok(plan),
    }
}

/// A plan of a single launch on the caller's buffers.
pub open spec fn only(d: DispatchModel) -> PlanModel {
    PlanModel::empty().launch(d)
}

/// A plan of a single launch on the caller's buffers.
pub fn just(d: Dispatch) -> (r: Plan)
    ensures
        r@ == only(d@),
{
    Plan::empty().launch(d)
}

/// The least number of groups of `d` that hold `n` items.
pub open spec fn ceil_div(n: nat, d: nat) -> nat {
    if n % d == 0 { n / d } else { n / d + 1 }
}

/// The least number of groups of `d` that hold `n` items.
pub fn div_ceil(n: u64, d: u64) -> (r: u64)
    requires
        d > 0,
    ensures
        r == ceil_div(n as nat, d as nat),
{
    if n % d == 0 {
        n / d
    } else {
        assert(n / d + 1 <= n) by (nonlinear_arith)
            requires
                d > 0,
                n % d != 0,
                d >= 2 || n % d == 0,
                n >= 0,
        ;
        n / d + 1
    }
}

/// `ceil_div` groups hold all items, and one fewer would not.
pub proof fn law_ceil_div(n: nat, d: nat)
    requires
        d > 0,
    ensures
        ceil_div(n, d) * d >= n,
        n > 0 ==> (ceil_div(n, d) - 1) * d < n,
        ceil_div(n, d) <= n,
{
    assert(n == (n / d) * d + n % d && 0 <= n % d < d) by (nonlinear_arith)
        requires
            d > 0,
    ;
    let q = n / d;
    assert((q + 1) * d == q * d + d) by (nonlinear_arith);
    assert((q - 1) * d == q * d - d) by (nonlinear_arith);
    assert(q <= q * d) by (nonlinear_arith)
        requires
            d > 0,
            q >= 0,
    ;
    if n % d != 0 {
        assert(q + 1 <= n) by (nonlinear_arith)
            requires
                n == q * d + n % d,
                n % d >= 1,
                q >= 0,
                d > 0,
        ;
    }
}

/// One word.
pub fn words1(a: usize) -> (r: Vec<u32>)
    ensures
        r@ == seq![a as u32],
{
    let mut r: Vec<u32> = Vec::new();
    r.push(a as u32);
    assert(r@ =~= seq![a as u32]);
    r
}

/// Two words.
pub fn words2(a: usize, b: usize) -> (r: Vec<u32>)
    ensures
        r@ == seq![a as u32, b as u32],
{
    let mut r = words1(a);
    r.push(b as u32);
    assert(r@ =~= seq![a as u32, b as u32]);
    r
}

/// Three words.
pub fn words3(a: usize, b: usize, c: usize) -> (r: Vec<u32>)
    ensures
        r@ == seq![a as u32, b as u32, c as u32],
{
    let mut r = words2(a, b);
    r.push(c as u32);
    assert(r@ =~= seq![a as u32, b as u32, c as u32]);
    r
}

/// Four words.
pub fn words4(a: usize, b: usize, c: usize, d: usize) -> (r: Vec<u32>)
    ensures
        r@ == seq![a as u32, b as u32, c as u32, d as u32],
{
    let mut r = words3(a, b, c);
    r.push(d as u32);
    assert(r@ =~= seq![a as u32, b as u32, c as u32, d as u32]);
    r
}

/// The word of a single-precision constant, given by its bits.
pub fn bits(b: u32) -> (r: Vec<u32>)
    ensures
        r@ == seq![b],
{
    let mut r: Vec<u32> = Vec::new();
    r.push(b);
    assert(r@ =~= seq![b]);
    r
}

} // verus!
