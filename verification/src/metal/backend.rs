//! State of the backend: caches, the pending command buffer, allocation
//! rules.
use crate::metal::dispatch::{AllocModel, Plan};
use crate::metal::error::{shape_mismatch, ErrorModel, MetalError};
use crate::text;
use crate::text::Text;
use std::collections::HashMap;
use vstd::prelude::*;

verus! {

/// An allocation size, as a mathematical value.
pub open spec fn sized(r: Result<u64, MetalError>) -> Result<nat, ErrorModel> {
    match r {
        Ok(n) => Ok(n as nat),
        Err(e) => Err(e@),
    }
}

/// Size of a host-visible buffer, which is never empty.
pub open spec fn shared_size(byte_len: int) -> Result<nat, ErrorModel> {
    if byte_len == 0 {
        Err(ErrorModel::ShapeMismatch("alloc_shared: byte_len must be > 0"@))
    } else {
        Ok(byte_len as nat)
    }
}

/// Checks the size of a host-visible buffer.
pub fn check_shared(byte_len: usize) -> (r: Result<u64, MetalError>)
    ensures
        sized(r) == shared_size(byte_len as int),
{
    if byte_len == 0 {
        return Err(shape_mismatch(Text::start("alloc_shared: byte_len must be > 0")));
    }
    Ok(byte_len as u64)
}

/// `m` with `v` under `k`, unless `k` has an entry already: the first entry of
/// a key stays.
pub open spec fn first_stays<K, V>(m: Map<K, V>, k: K, v: V) -> Map<K, V> {
    if m.dom().contains(k) {
        m
    } else {
        m.insert(k, v)
    }
}

/// A cache by kernel name in which the first entry of a name stays.
pub struct PipelineCache<P> {
    entries: Vec<(&'static str, P)>,
}

impl<P> View for PipelineCache<P> {
    type V = Map<Seq<char>, P>;

    closed spec fn view(&self) -> Map<Seq<char>, P> {
        entries_map(self.entries@)
    }
}

/// The entries as a map; of two entries of a name the first counts.
spec fn entries_map<P>(s: Seq<(&'static str, P)>) -> Map<Seq<char>, P>
    decreases s.len(),
{
    if s.len() == 0 {
        Map::empty()
    } else {
        let rest = entries_map(s.drop_last());
        if rest.dom().contains(s.last().0@) {
            rest
        } else {
            rest.insert(s.last().0@, s.last().1)
        }
    }
}

proof fn lemma_entries_found<P>(s: Seq<(&'static str, P)>, i: int)
    requires
        0 <= i < s.len(),
        forall|j: int| 0 <= j < i ==> (#[trigger] s[j]).0@ != s[i].0@,
    ensures
        entries_map(s).dom().contains(s[i].0@),
        entries_map(s)[s[i].0@] == s[i].1,
    decreases s.len(),
{
    if i == s.len() - 1 {
        lemma_entries_absent(s.drop_last(), s[i].0@);
    } else {
        assert(s.drop_last()[i] == s[i]);
        assert forall|j: int| 0 <= j < i implies (#[trigger] s.drop_last()[j]).0@
            != s.drop_last()[i].0@ by {
            assert(s.drop_last()[j] == s[j]);
        }
        lemma_entries_found(s.drop_last(), i);
    }
}

proof fn lemma_entries_absent<P>(s: Seq<(&'static str, P)>, name: Seq<char>)
    requires
        forall|j: int| 0 <= j < s.len() ==> (#[trigger] s[j]).0@ != name,
    ensures
        !entries_map(s).dom().contains(name),
    decreases s.len(),
{
    if s.len() > 0 {
        assert(s.last() == s[s.len() - 1]);
        assert forall|j: int| 0 <= j < s.drop_last().len() implies (#[trigger] s.drop_last()[j]).0@
            != name by {
            assert(s.drop_last()[j] == s[j]);
        }
        lemma_entries_absent(s.drop_last(), name);
    }
}

impl<P> PipelineCache<P> {
    /// An empty cache.
    pub fn new() -> (r: Self)
        ensures
            r@ == Map::<Seq<char>, P>::empty(),
    {
        PipelineCache { entries: Vec::new() }
    }

    /// The entry of a name, where there is one.
    pub fn get(&self, name: &str) -> (r: Option<&P>)
        ensures
            match r {
                Some(p) => self@.dom().contains(name@) && *p == self@[name@],
                None => !self@.dom().contains(name@),
            },
    {
        let mut i: usize = 0;
        while i < self.entries.len()
            invariant
                i <= self.entries@.len(),
                forall|j: int| 0 <= j < i ==> (#[trigger] self.entries@[j]).0@ != name@,
            decreases self.entries.len() - i,
        {
            if text::str_same(self.entries[i].0, name) {
                proof {
                    lemma_entries_found(self.entries@, i as int);
                }
                return Some(&self.entries[i].1);
            }
            i += 1;
        }
        proof {
            lemma_entries_absent(self.entries@, name@);
        }
        None
    }

    /// Adds an entry, unless the name has one already: then the new value is
    /// dropped and the first one stays.
    pub fn insert_first(&mut self, name: &'static str, value: P)
        ensures
            final(self)@ == first_stays(old(self)@, name@, value),
    {
        if self.get(name).is_none() {
            self.entries.push((name, value));
            assert(self.entries@.drop_last() =~= old(self).entries@);
        }
    }
}

/// A cache of 16-bit copies by the identity of their source buffer.
pub struct Bf16Cache<B> {
    entries: HashMap<usize, B>,
}

impl<B> View for Bf16Cache<B> {
    type V = Map<usize, B>;

    closed spec fn view(&self) -> Map<usize, B> {
        self.entries@
    }
}

impl<B> Bf16Cache<B> {
    /// An empty cache.
    pub fn new() -> (r: Self)
        ensures
            r@ == Map::<usize, B>::empty(),
    {
        broadcast use vstd::std_specs::hash::group_hash_axioms;

        Bf16Cache { entries: HashMap::new() }
    }

    /// The copy of a source buffer, where there is one.
    pub fn get(&self, cache_key: usize) -> (r: Option<&B>)
        ensures
            match r {
                Some(b) => self@.dom().contains(cache_key) && *b == self@[cache_key],
                None => !self@.dom().contains(cache_key),
            },
    {
        broadcast use vstd::std_specs::hash::group_hash_axioms;

        self.entries.get(&cache_key)
    }

    /// Remembers a fresh copy, unless another was remembered meanwhile: the
    /// first one stays.
    pub fn insert_first(&mut self, cache_key: usize, copy: B)
        ensures
            final(self)@ == first_stays(old(self)@, cache_key, copy),
    {
        broadcast use vstd::std_specs::hash::group_hash_axioms;

        if !self.entries.contains_key(&cache_key) {
            self.entries.insert(cache_key, copy);
        }
    }

    /// Forgets the copy of one source buffer.
    pub fn evict(&mut self, cache_key: usize)
        ensures
            final(self)@ == old(self)@.remove(cache_key),
    {
        broadcast use vstd::std_specs::hash::group_hash_axioms;

        self.entries.remove(&cache_key);
    }

    /// Forgets every copy.
    pub fn clear(&mut self)
        ensures
            final(self)@ == Map::<usize, B>::empty(),
    {
        self.entries.clear();
    }
}

/// What `drain` has to submit.
#[derive(Debug, Clone, Copy, PartialEq, Eq, Structural)]
pub enum Submit {
    /// The pending command buffer.
    Pending,
    /// An empty command buffer, so that the wait still covers all earlier
    /// work.
    Empty,
}

/// Why a kernel could not be compiled, with the driver's text.
#[derive(Debug)]
pub enum CompileFailure {
    /// The shader source is not valid.
    Source(String),
    /// The shader has no function of the requested name.
    Function(String),
    /// The function cannot be made into a pipeline.
    Pipeline(String),
}

/// The error that a compile failure of `entry` surfaces as.
pub open spec fn failure_model(f: CompileFailure, entry: Seq<char>) -> ErrorModel {
    match f {
        CompileFailure::Source(s) => ErrorModel::ShaderCompile(s@),
        CompileFailure::Function(s) => ErrorModel::PipelineState(
            "get_function "@ + entry + ": "@ + s@,
        ),
        CompileFailure::Pipeline(s) => ErrorModel::PipelineState(s@),
    }
}

fn surface(f: CompileFailure, entry: &str) -> (r: MetalError)
    ensures
        r@ == failure_model(f, entry@),
{
    match f {
        CompileFailure::Source(s) => MetalError::ShaderCompile(s),
        CompileFailure::Function(s) => MetalError::PipelineState(
            Text::start("get_function ").lit(entry).lit(": ").lit(s.as_str()).finish(),
        ),
        CompileFailure::Pipeline(s) => MetalError::PipelineState(s),
    }
}

/// What the backend holds.
pub struct BackendModel<P, B> {
    /// Compiled pipelines by kernel name.
    pub pipelines: Map<Seq<char>, P>,
    /// 16-bit copies by source buffer.
    pub bf16: Map<usize, B>,
    /// Name of the device.
    pub name: Seq<char>,
    /// Whether the device has the simdgroup-matrix units.
    pub metal3: bool,
    /// Whether kernels are encoded that have not been submitted.
    pub pending: bool,
}

impl<P, B> BackendModel<P, B> {
    /// What covers all work that was encoded so far.
    pub open spec fn submit(self) -> Submit {
        if self.pending {
            Submit::Pending
        } else {
            Submit::Empty
        }
    }

    /// The backend once all work is done: nothing is pending, and the 16-bit
    /// copies, whose sources may have changed, are forgotten.
    pub open spec fn drained(self) -> Self {
        BackendModel { pending: false, bf16: Map::empty(), ..self }
    }
}

/// The backend: device facts, caches and the pending command buffer.
/// `P` stands for compiled pipelines and `B` for device buffers.
pub struct MetalBackend<P, B> {
    pipelines: PipelineCache<P>,
    bf16: Bf16Cache<B>,
    adapter_name: String,
    supports_metal3: bool,
    pending: bool,
}

impl<P, B> View for MetalBackend<P, B> {
    type V = BackendModel<P, B>;

    closed spec fn view(&self) -> BackendModel<P, B> {
        BackendModel {
            pipelines: self.pipelines@,
            bf16: self.bf16@,
            name: self.adapter_name@,
            metal3: self.supports_metal3,
            pending: self.pending,
        }
    }
}

/// Compiling `source` from the state `start` fails with `f` and leaves the
/// state `end`.
pub open spec fn compile_fails<P, S, C: Fn(&str, &str, S) -> (Result<P, CompileFailure>, S)>(
    compile: C,
    source: &str,
    entry: &str,
    start: S,
    f: CompileFailure,
    end: S,
) -> bool {
    call_ensures(compile, (source, entry, start), (Err(f), end))
}

impl<P, B> MetalBackend<P, B> {
    /// The backend of a device, given its name, or the error where there is
    /// none.
    pub fn new(device_name: Option<String>, supports_metal3: bool) -> (r: Result<Self, MetalError>)
        ensures
            match r {
                Ok(b) => {
                    &&& device_name is Some
                    &&& b@ == (BackendModel {
                        pipelines: Map::<Seq<char>, P>::empty(),
                        bf16: Map::<usize, B>::empty(),
                        name: device_name->0@,
                        metal3: supports_metal3,
                        pending: false,
                    })
                },
                Err(e) => {
                    &&& device_name is None
                    &&& e@ == ErrorModel::NoDevice("MTLCreateSystemDefaultDevice returned nil"@)
                },
            },
    {
        match device_name {
            None => Err(
                MetalError::NoDevice(
                    Text::start("MTLCreateSystemDefaultDevice returned nil").finish(),
                ),
            ),
            Some(adapter_name) => Ok(
                MetalBackend {
                    pipelines: PipelineCache::new(),
                    bf16: Bf16Cache::new(),
                    adapter_name,
                    supports_metal3,
                    pending: false,
                },
            ),
        }
    }

    /// Name of the device.
    pub fn adapter_name(&self) -> (r: &str)
        ensures
            r@ == self@.name,
    {
        self.adapter_name.as_str()
    }

    /// Whether the device has the simdgroup-matrix units.
    pub fn supports_metal3(&self) -> (r: bool)
        ensures
            r == self@.metal3,
    {
        self.supports_metal3
    }

    /// The pipeline of a kernel. The first call of a name compiles `source`,
    /// which may change a state; later calls give the pipeline of the first,
    /// whatever their source, and compile nothing.
    pub fn pipeline<S, C: Fn(&str, &str, S) -> (Result<P, CompileFailure>, S)>(
        &mut self,
        name: &'static str,
        source: &str,
        entry: &str,
        start: S,
        compile: &C,
    ) -> (r: (Result<&P, MetalError>, S))
        requires
            call_requires(*compile, (source, entry, start)),
        ensures
            match r.0 {
                Ok(p) => {
                    &&& final(self)@.pipelines.dom().contains(name@)
                    &&& *p == final(self)@.pipelines[name@]
                    &&& if old(self)@.pipelines.dom().contains(name@) {
                        final(self)@ == old(self)@ && r.1 == start
                    } else {
                        &&& call_ensures(*compile, (source, entry, start), (Ok(*p), r.1))
                        &&& final(self)@ == (BackendModel {
                            pipelines: old(self)@.pipelines.insert(name@, *p),
                            ..old(self)@
                        })
                    }
                },
                Err(e) => {
                    &&& !old(self)@.pipelines.dom().contains(name@)
                    &&& final(self)@ == old(self)@
                    &&& exists|f: CompileFailure| #[trigger]
                        compile_fails(*compile, source, entry, start, f, r.1) && e@
                            == failure_model(f, entry@)
                },
            },
    {
        let end: S = if self.pipelines.get(name).is_none() {
            match compile(source, entry, start) {
                (Err(f), end) => {
                    let ghost failure = f;
                    let r: (Result<&P, MetalError>, S) = (Err(surface(f, entry)), end);
                    assert(compile_fails(*compile, source, entry, start, failure, r.1));
                    return r;
                },
                (Ok(p), end) => {
                    self.pipelines.insert_first(name, p);
                    end
                },
            }
        } else {
            start
        };
        (Ok(self.pipelines.get(name).unwrap()), end)
    }

    /// The 16-bit copy of a source buffer. It is made by `cast`, which may
    /// change a state, the first time, and remembered under `cache_key`: a copy
    /// that is remembered is not cast again.
    pub fn ensure_bf16<S, C: Fn(usize, S) -> (Result<B, MetalError>, S)>(
        &mut self,
        cache_key: usize,
        n_elements: usize,
        start: S,
        cast: &C,
    ) -> (r: (Result<&B, MetalError>, S))
        requires
            call_requires(*cast, (n_elements, start)),
        ensures
            match r.0 {
                Ok(b) => {
                    &&& final(self)@.bf16.dom().contains(cache_key)
                    &&& *b == final(self)@.bf16[cache_key]
                    &&& if old(self)@.bf16.dom().contains(cache_key) {
                        final(self)@ == old(self)@ && r.1 == start
                    } else {
                        &&& call_ensures(*cast, (n_elements, start), (Ok(*b), r.1))
                        &&& final(self)@ == (BackendModel {
                            bf16: old(self)@.bf16.insert(cache_key, *b),
                            ..old(self)@
                        })
                    }
                },
                Err(e) => {
                    &&& !old(self)@.bf16.dom().contains(cache_key)
                    &&& final(self)@ == old(self)@
                    &&& call_ensures(*cast, (n_elements, start), (Err(e), r.1))
                },
            },
    {
        let end: S = if self.bf16.get(cache_key).is_none() {
            match cast(n_elements, start) {
                (Err(e), end) => {
                    return (Err(e), end);
                },
                (Ok(b), end) => {
                    self.bf16.insert_first(cache_key, b);
                    end
                },
            }
        } else {
            start
        };
        (Ok(self.bf16.get(cache_key).unwrap()), end)
    }

    /// Forgets the 16-bit copy of a source buffer that was replaced.
    pub fn evict_bf16(&mut self, cache_key: usize)
        ensures
            final(self)@ == (BackendModel {
                bf16: old(self)@.bf16.remove(cache_key),
                ..old(self)@
            }),
    {
        self.bf16.evict(cache_key);
    }

    /// Forgets every 16-bit copy.
    pub fn clear_bf16_cache(&mut self)
        ensures
            final(self)@ == (BackendModel { bf16: Map::<usize, B>::empty(), ..old(self)@ }),
    {
        self.bf16.clear();
    }

    /// A kernel is about to be encoded. Returns whether a command buffer has
    /// to be created first; from then on one is pending.
    pub fn with_encoder(&mut self) -> (create: bool)
        ensures
            create == !old(self)@.pending,
            final(self)@ == (BackendModel { pending: true, ..old(self)@ }),
    {
        let create = !self.pending;
        self.pending = true;
        create
    }

    /// What has to be submitted and waited for. Afterwards nothing is pending,
    /// and no 16-bit copy is remembered.
    pub fn drain(&mut self) -> (r: Submit)
        ensures
            r == old(self)@.submit(),
            final(self)@ == old(self)@.drained(),
    {
        self.bf16.clear();
        let r = if self.pending {
            Submit::Pending
        } else {
            Submit::Empty
        };
        self.pending = false;
        r
    }

    /// Size of a host-visible buffer of `byte_len` bytes.
    pub fn alloc_shared(&self, byte_len: usize) -> (r: Result<u64, MetalError>)
        ensures
            sized(r) == shared_size(byte_len as int),
    {
        check_shared(byte_len)
    }

    /// Size of a device-only buffer of `byte_len` bytes.
    pub fn alloc_private(&self, byte_len: usize) -> (r: Result<u64, MetalError>)
        ensures
            sized(r) == if byte_len == 0 {
                Err(ErrorModel::ShapeMismatch("alloc_private: byte_len must be > 0"@))
            } else {
                Ok(byte_len as nat)
            },
    {
        if byte_len == 0 {
            return Err(shape_mismatch(Text::start("alloc_private: byte_len must be > 0")));
        }
        Ok(byte_len as u64)
    }
}

/// Sizes of the buffers of a plan, in order, or the error of the first one
/// that cannot be.
pub open spec fn buffer_sizes(allocs: Seq<AllocModel>) -> Result<Seq<nat>, ErrorModel>
    decreases allocs.len(),
{
    if allocs.len() == 0 {
        Ok(seq![])
    } else {
        match buffer_sizes(allocs.drop_last()) {
            Err(e) => Err(e),
            Ok(v) => match shared_size(allocs.last().bytes as int) {
                Err(e) => Err(e),
                Ok(n) => Ok(v.push(n)),
            },
        }
    }
}

/// Buffer sizes, as mathematical values.
pub open spec fn sizes_view(r: Result<Vec<u64>, MetalError>) -> Result<Seq<nat>, ErrorModel> {
    match r {
        Ok(v) => Ok(Seq::new(v@.len(), |i: int| v@[i] as nat)),
        Err(e) => Err(e@),
    }
}

proof fn lemma_sizes_prefix(allocs: Seq<AllocModel>, k: int)
    requires
        0 <= k <= allocs.len(),
        buffer_sizes(allocs.take(k)) is Err,
    ensures
        buffer_sizes(allocs) == buffer_sizes(allocs.take(k)),
    decreases allocs.len(),
{
    if k == allocs.len() {
        assert(allocs.take(k) =~= allocs);
    } else {
        assert(allocs.drop_last().take(k) =~= allocs.take(k));
        lemma_sizes_prefix(allocs.drop_last(), k);
    }
}

/// Sizes of the buffers that carrying out a plan allocates.
pub fn plan_buffers(plan: &Plan) -> (r: Result<Vec<u64>, MetalError>)
    ensures
        sizes_view(r) == buffer_sizes(plan@.allocs),
{
    let ghost all = plan@.allocs;
    let mut v: Vec<u64> = Vec::new();
    let ghost mut got: Seq<nat> = seq![];
    let mut i: usize = 0;
    assert(all.take(0) =~= seq![]);
    while i < plan.allocs.len()
        invariant
            i <= plan.allocs@.len(),
            all == plan@.allocs,
            buffer_sizes(all.take(i as int)) == Ok::<Seq<nat>, ErrorModel>(got),
            got == Seq::new(v@.len(), |k: int| v@[k] as nat),
        decreases plan.allocs.len() - i,
    {
        let bytes: usize = plan.allocs[i].bytes;
        proof {
            assert(all.take(i + 1).drop_last() =~= all.take(i as int));
            assert(all.take(i + 1).last() == plan.allocs@[i as int]@);
        }
        match check_shared(bytes) {
            Err(e) => {
                proof {
                    lemma_sizes_prefix(all, i + 1);
                }
                return Err(e);
            },
            Ok(n) => {
                v.push(n);
                proof {
                    got = got.push(n as nat);
                    assert(got =~= Seq::new(v@.len(), |k: int| v@[k] as nat));
                }
            },
        }
        i += 1;
    }
    assert(all.take(all.len() as int) =~= all);
    Ok(v)
}

/// The text for a program that needs a device where there is none.
pub fn missing_device_text(e: &MetalError) -> (r: String)
    ensures
        r@ == "rustorch-metal: no Metal device ("@ + e@.text() + ").\n- macOS only — this backend is conditionally compiled out\non Linux/Windows/wasm targets.\n- Make sure you're on a Mac with a Metal-capable GPU\n(any Apple Silicon, or x86 Mac with discrete GPU)."@,
{
    let m = e.message();
    Text::start("rustorch-metal: no Metal device (").lit(m.as_str()).lit(
        ").\n- macOS only — this backend is conditionally compiled out\non Linux/Windows/wasm targets.\n- Make sure you're on a Mac with a Metal-capable GPU\n(any Apple Silicon, or x86 Mac with discrete GPU).",
    ).finish()
}

/// After a drain nothing is left to submit, no stale copy is found, and the
/// compiled pipelines are still there. A second drain changes nothing.
pub proof fn law_drain_settles<P, B>(b: BackendModel<P, B>, key: usize)
    ensures
        b.drained().submit() == Submit::Empty,
        !b.drained().bf16.dom().contains(key),
        b.drained().pipelines == b.pipelines,
        b.drained().drained() == b.drained(),
{
}

/// When two callers race to fill the same key, both see what the first one
/// put there.
pub proof fn law_first_insert_wins<K, V>(m: Map<K, V>, k: K, first: V, second: V)
    ensures
        first_stays(first_stays(m, k, first), k, second) == first_stays(m, k, first),
        !m.dom().contains(k) ==> first_stays(first_stays(m, k, first), k, second)[k] == first,
        m.dom().contains(k) ==> first_stays(first_stays(m, k, first), k, second)[k] == m[k],
{
}

/// An evicted copy is made anew: after an eviction the next copy that is
/// remembered is the one that is found.
pub proof fn law_evict_then_insert<K, V>(m: Map<K, V>, k: K, v: V)
    ensures
        first_stays(m.remove(k), k, v).dom().contains(k),
        first_stays(m.remove(k), k, v)[k] == v,
        forall|j: K| #![trigger m[j]] j != k && m.dom().contains(j) ==> first_stays(m.remove(k), k, v)[j] == m[j],
{
}

/// What the calls do to a backend: evicting forgets one copy and clearing all
/// of them, encoding asks for a command buffer only where none is pending, and
/// draining submits what is pending and forgets the copies.
pub proof fn law_backend_calls<P, B>(
    b: &mut MetalBackend<P, B>,
    key: usize,
    other: usize,
    create: bool,
    s: Submit,
)
    requires
        other != key,
    ensures
        call_ensures(MetalBackend::<P, B>::evict_bf16, (b, key), ()) ==> {
            &&& !final(b)@.bf16.dom().contains(key)
            &&& final(b)@.bf16.dom().contains(other) == old(b)@.bf16.dom().contains(other)
            &&& old(b)@.bf16.dom().contains(other) ==> final(b)@.bf16[other] == old(b)@.bf16[other]
            &&& final(b)@.pipelines == old(b)@.pipelines
        },
        call_ensures(MetalBackend::<P, B>::clear_bf16_cache, (b,), ()) ==> {
            &&& !final(b)@.bf16.dom().contains(key)
            &&& final(b)@.pending == old(b)@.pending
        },
        call_ensures(MetalBackend::<P, B>::with_encoder, (b,), create) ==> {
            &&& create == !old(b)@.pending
            &&& final(b)@.pending
        },
        call_ensures(MetalBackend::<P, B>::drain, (b,), s) ==> {
            &&& s == Submit::Pending <==> old(b)@.pending
            &&& !final(b)@.pending
            &&& !final(b)@.bf16.dom().contains(key)
            &&& final(b)@.pipelines == old(b)@.pipelines
        },
{
}

/// What is cached is made once: a copy or a pipeline that is there is given
/// back without casting or compiling anything, and one that is not there is
/// made and remembered under its key and no other.
pub proof fn law_cached_calls<P, B, S, C: Fn(usize, S) -> (Result<B, MetalError>, S), D: Fn(
    &str,
    &str,
    S,
) -> (Result<P, CompileFailure>, S)>(
    b: &mut MetalBackend<P, B>,
    key: usize,
    n: usize,
    name: &'static str,
    source: &str,
    entry: &str,
    start: S,
    end: S,
    cast: &C,
    compile: &D,
    copy: &B,
    made: &P,
)
    ensures
        call_ensures(
            MetalBackend::<P, B>::ensure_bf16::<S, C>,
            (b, key, n, start, cast),
            (Ok(copy), end),
        ) ==> {
            &&& final(b)@.bf16.dom() == old(b)@.bf16.dom().insert(key)
            &&& final(b)@.bf16[key] == *copy
            &&& old(b)@.bf16.dom().contains(key) ==> *copy == old(b)@.bf16[key] && end == start
            &&& !old(b)@.bf16.dom().contains(key) ==> call_ensures(
                *cast,
                (n, start),
                (Ok(*copy), end),
            )
        },
        call_ensures(
            MetalBackend::<P, B>::pipeline::<S, D>,
            (b, name, source, entry, start, compile),
            (Ok(made), end),
        ) ==> {
            &&& final(b)@.pipelines.dom() == old(b)@.pipelines.dom().insert(name@)
            &&& final(b)@.pipelines[name@] == *made
            &&& old(b)@.pipelines.dom().contains(name@) ==> *made == old(b)@.pipelines[name@] && end
                == start
            &&& !old(b)@.pipelines.dom().contains(name@) ==> call_ensures(
                *compile,
                (source, entry, start),
                (Ok(*made), end),
            )
        },
{
    assert(old(b)@.bf16.dom().contains(key) ==> old(b)@.bf16.dom().insert(key)
        =~= old(b)@.bf16.dom());
    assert(old(b)@.pipelines.dom().contains(name@) ==> old(b)@.pipelines.dom().insert(name@)
        =~= old(b)@.pipelines.dom());
}

} // verus!
