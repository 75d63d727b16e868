//! Bookkeeping of the GPU profiler: sample slots, timestamps and per-label
//! totals.
use crate::metal::error::{unsupported, ErrorModel, MetalError};
use crate::text;
use crate::text::Text;
use vstd::prelude::*;

verus! {

/// Most labelled dispatches that one profiler instance holds. Each takes two
/// samples.
pub const MAX_DISPATCHES: usize = 2048;

/// A labelled pair of samples: the start at `start_idx`, the end behind it.
#[derive(Clone, Copy, Debug)]
pub struct PendingPair {
    pub label: &'static str,
    pub start_idx: u32,
}

/// What is to be allocated for a profiler.
#[derive(Debug)]
pub struct ProfilerSetup {
    /// Which of the device's counter sets is sampled.
    pub counter_set: usize,
    /// Samples in the counter buffer.
    pub sample_count: u64,
    /// Bytes of the buffer that the samples are resolved into.
    pub dest_bytes: u64,
}

/// Index of the first counter set named `timestamp`.
pub open spec fn timestamp_set(names: Seq<String>) -> Option<int>
    decreases names.len(),
{
    if names.len() == 0 {
        None
    } else {
        match timestamp_set(names.drop_last()) {
            Some(i) => Some(i),
            None => if names.last()@ == "timestamp"@ { Some(names.len() - 1) } else { None },
        }
    }
}

/// Looks for the timestamp counters of a device whose counter sets have the
/// given names.
pub fn setup(supports_stage_boundary: bool, counter_sets: &Vec<String>) -> (r: Result<
    ProfilerSetup,
    MetalError,
>)
    ensures
        match r {
            Ok(s) => {
                &&& supports_stage_boundary
                &&& timestamp_set(counter_sets@) == Some(s.counter_set as int)
                &&& s.sample_count == 2 * MAX_DISPATCHES
                &&& s.dest_bytes == 2 * MAX_DISPATCHES * 8
            },
            Err(e) => if !supports_stage_boundary {
                e@ == ErrorModel::Unsupported(
                    "MTLCounterSamplingPointAtStageBoundary not supported on this device"@,
                )
            } else {
                &&& timestamp_set(counter_sets@) is None
                &&& e@ == ErrorModel::Unsupported("no timestamp counter set on device"@)
            },
        },
{
    if !supports_stage_boundary {
        return Err(
            unsupported("MTLCounterSamplingPointAtStageBoundary not supported on this device"),
        );
    }
    let mut i: usize = 0;
    while i < counter_sets.len()
        invariant
            i <= counter_sets@.len(),
            timestamp_set(counter_sets@.take(i as int)) is None,
            supports_stage_boundary,
        decreases counter_sets.len() - i,
    {
        assert(counter_sets@.take(i + 1).drop_last() =~= counter_sets@.take(i as int));
        if text::str_same(counter_sets[i].as_str(), "timestamp") {
            proof {
                lemma_first_set(counter_sets@, i as int);
            }
            return Ok(
                ProfilerSetup {
                    counter_set: i,
                    sample_count: (MAX_DISPATCHES * 2) as u64,
                    dest_bytes: (MAX_DISPATCHES * 2 * 8) as u64,
                },
            );
        }
        i += 1;
    }
    assert(counter_sets@.take(counter_sets@.len() as int) =~= counter_sets@);
    Err(unsupported("no timestamp counter set on device"))
}

proof fn lemma_first_set(names: Seq<String>, i: int)
    requires
        0 <= i < names.len(),
        timestamp_set(names.take(i)) is None,
        names[i]@ == "timestamp"@,
    ensures
        timestamp_set(names) == Some(i),
    decreases names.len(),
{
    if i == names.len() - 1 {
        assert(names.drop_last() =~= names.take(i));
    } else {
        assert(names.drop_last().take(i) =~= names.take(i));
        lemma_first_set(names.drop_last(), i);
    }
}

/// The error for a counter buffer that the driver refused with `reason`.
pub fn sample_buffer_error(reason: &str) -> (r: MetalError)
    ensures
        r@ == ErrorModel::Unsupported("counter sample buffer: "@ + reason@),
{
    MetalError::Unsupported(Text::start("counter sample buffer: ").lit(reason).finish())
}

/// `a - b`, or zero where `b` is larger.
pub open spec fn minus(a: u64, b: u64) -> nat {
    if a >= b { (a - b) as nat } else { 0 }
}

/// Ticks between two samples. A sample that the driver discarded reads as
/// the largest value and makes the pair count nothing.
pub open spec fn pair_ticks(start: u64, end: u64) -> nat {
    if start == u64::MAX || end == u64::MAX { 0 } else { minus(end, start) }
}

/// Slots of the profiler and the measured clock ratio.
pub struct MetalProfiler {
    pairs: Vec<PendingPair>,
    next_pair: usize,
    cpu_ns: u64,
    gpu_ticks: u64,
}

impl MetalProfiler {
    /// The labelled pairs, in dispatch order.
    pub closed spec fn pairs(self) -> Seq<PendingPair> {
        self.pairs@
    }

    /// Nanoseconds and ticks of the calibration interval.
    pub closed spec fn interval(self) -> (nat, nat) {
        (self.cpu_ns as nat, self.gpu_ticks as nat)
    }

    /// Nanoseconds per tick, as a fraction: that of the calibration interval,
    /// or one where no tick was seen during it.
    pub open spec fn ratio(self) -> (nat, nat) {
        if self.interval().1 > 0 {
            self.interval()
        } else {
            (1, 1)
        }
    }

    /// Pair `i` owns the samples `2 * i` and `2 * i + 1`, and there are at
    /// most `MAX_DISPATCHES` of them.
    pub closed spec fn wf(self) -> bool {
        &&& self.next_pair == self.pairs@.len()
        &&& self.next_pair <= MAX_DISPATCHES
        &&& forall|i: int|
            0 <= i < self.pairs@.len() ==> (#[trigger] self.pairs@[i]).start_idx == 2 * i
    }

    /// A profiler without samples, calibrated by two readings of the clocks.
    pub fn new(cpu1: u64, gpu1: u64, cpu2: u64, gpu2: u64) -> (r: Self)
        ensures
            r.wf(),
            r.pairs() == Seq::<PendingPair>::empty(),
            r.interval() == (minus(cpu2, cpu1), minus(gpu2, gpu1)),
    {
        let r = MetalProfiler {
            pairs: Vec::new(),
            next_pair: 0,
            cpu_ns: cpu2.saturating_sub(cpu1),
            gpu_ticks: gpu2.saturating_sub(gpu1),
        };
        assert(r.pairs() =~= Seq::<PendingPair>::empty());
        r
    }

    /// Nanoseconds per tick, as a fraction. Where no tick was seen during the
    /// calibration it is one.
    pub fn tick_to_ns(&self) -> (r: (u64, u64))
        ensures
            (r.0 as nat, r.1 as nat) == self.ratio(),
            r.1 > 0,
    {
        if self.gpu_ticks > 0 {
            (self.cpu_ns, self.gpu_ticks)
        } else {
            (1, 1)
        }
    }

    /// Reserves a pair of samples for a dispatch with the given label and
    /// returns the index of its first sample, or `None` where no slot is
    /// left.
    pub fn alloc_pair(&mut self, label: &'static str) -> (r: Option<u32>)
        requires
            old(self).wf(),
        ensures
            final(self).wf(),
            final(self).interval() == old(self).interval(),
            match r {
                Some(start_idx) => {
                    &&& old(self).pairs().len() < MAX_DISPATCHES
                    &&& start_idx == 2 * old(self).pairs().len()
                    &&& final(self).pairs() == old(self).pairs().push(
                        PendingPair { label, start_idx },
                    )
                },
                None => {
                    &&& old(self).pairs().len() == MAX_DISPATCHES
                    &&& final(self).pairs() == old(self).pairs()
                },
            },
    {
        if self.next_pair >= MAX_DISPATCHES {
            return None;
        }
        let start_idx: u32 = (self.next_pair * 2) as u32;
        self.pairs.push(PendingPair { label, start_idx });
        self.next_pair += 1;
        Some(start_idx)
    }

    /// Number of dispatches captured.
    pub fn n_pairs(&self) -> (r: usize)
        ensures
            r == self.pairs().len(),
    {
        self.pairs.len()
    }

    /// Forgets all captured pairs.
    pub fn reset(&mut self)
        ensures
            final(self).wf(),
            final(self).pairs() == Seq::<PendingPair>::empty(),
            final(self).interval() == old(self).interval(),
    {
        self.pairs.clear();
        self.next_pair = 0;
        assert(self.pairs() =~= Seq::<PendingPair>::empty());
    }

    /// Number of samples to resolve from the start of the counter buffer;
    /// zero means that there is nothing to schedule.
    pub fn schedule_resolve(&self) -> (r: u64)
        requires
            self.wf(),
        ensures
            r == 2 * self.pairs().len(),
    {
        (self.next_pair * 2) as u64
    }

    /// Time of each captured dispatch, in dispatch order. `timestamps` are
    /// the resolved samples; `to_ns` turns ticks into nanoseconds, given the
    /// two halves of the measured ratio.
    pub fn resolve<F: Fn(u64, u64, u64) -> u64>(&self, timestamps: &[u64], to_ns: &F) -> (out: Vec<
        (&'static str, u64),
    >)
        requires
            self.wf(),
            timestamps@.len() >= 2 * self.pairs().len(),
            forall|t: u64, ns: u64, ticks: u64| #[trigger] call_requires(*to_ns, (t, ns, ticks)),
        ensures
            out@.len() == self.pairs().len(),
            forall|i: int|
                0 <= i < out@.len() ==> {
                    &&& (#[trigger] out@[i]).0 == self.pairs()[i].label
                    &&& call_ensures(
                        *to_ns,
                        (
                            pair_ticks(timestamps@[2 * i], timestamps@[2 * i + 1]) as u64,
                            self.ratio().0 as u64,
                            self.ratio().1 as u64,
                        ),
                        out@[i].1,
                    )
                },
    {
        let n: usize = timestamps.len();
        let per: (u64, u64) = self.tick_to_ns();
        let mut out: Vec<(&'static str, u64)> = Vec::new();
        let mut i: usize = 0;
        while i < self.pairs.len()
            invariant
                i <= self.pairs@.len(),
                self.wf(),
                n == timestamps@.len(),
                (per.0 as nat, per.1 as nat) == self.ratio(),
                n >= 2 * self.pairs().len(),
                forall|t: u64, ns: u64, ticks: u64| #[trigger] call_requires(*to_ns, (t, ns, ticks)),
                out@.len() == i,
                forall|j: int|
                    0 <= j < i ==> {
                        &&& (#[trigger] out@[j]).0 == self.pairs()[j].label
                        &&& call_ensures(
                            *to_ns,
                            (
                            pair_ticks(timestamps@[2 * j], timestamps@[2 * j + 1]) as u64,
                            self.ratio().0 as u64,
                            self.ratio().1 as u64,
                        ),
                            out@[j].1,
                        )
                    },
            decreases self.pairs.len() - i,
        {
            let pair = self.pairs[i];
            assert(self.pairs@[i as int].start_idx == 2 * i);
            let s: usize = pair.start_idx as usize;
            let start: u64 = timestamps[s];
            let end: u64 = timestamps[s + 1];
            let ticks: u64 = if start == u64::MAX || end == u64::MAX {
                0
            } else {
                end.saturating_sub(start)
            };
            let ns: u64 = to_ns(ticks, per.0, per.1);
            out.push((pair.label, ns));
            i += 1;
        }
        out
    }
}

/// Total time of the entries labelled `label`.
pub open spec fn label_total(s: Seq<(&'static str, u64)>, label: Seq<char>) -> nat
    decreases s.len(),
{
    if s.len() == 0 {
        0
    } else {
        label_total(s.drop_last(), label) + if s.last().0@ == label { s.last().1 as nat } else { 0 }
    }
}

/// Number of entries labelled `label`.
pub open spec fn label_count(s: Seq<(&'static str, u64)>, label: Seq<char>) -> nat
    decreases s.len(),
{
    if s.len() == 0 {
        0
    } else {
        label_count(s.drop_last(), label) + if s.last().0@ == label { 1nat } else { 0 }
    }
}

/// Order of the summary: larger totals first, equal totals by label.
pub open spec fn before(a: (&'static str, u64, u64), b: (&'static str, u64, u64)) -> bool {
    a.1 > b.1 || (a.1 == b.1 && text::str_lt(a.0@, b.0@))
}

/// No label occurs twice.
pub open spec fn distinct_labels(agg: Seq<(&'static str, u64, u64)>) -> bool {
    forall|i: int, j: int|
        0 <= i < j < agg.len() ==> (#[trigger] agg[i]).0@ != (#[trigger] agg[j]).0@
}

/// Every entry has the total and the count of its label, which occurs in `s`.
pub open spec fn exact_totals(
    agg: Seq<(&'static str, u64, u64)>,
    s: Seq<(&'static str, u64)>,
) -> bool {
    forall|i: int|
        0 <= i < agg.len() ==> {
            &&& (#[trigger] agg[i]).1 == label_total(s, agg[i].0@)
            &&& agg[i].2 == label_count(s, agg[i].0@)
            &&& agg[i].2 > 0
        }
}

/// `agg` has an entry for `label`.
pub open spec fn has_label(agg: Seq<(&'static str, u64, u64)>, label: Seq<char>) -> bool {
    exists|i: int| 0 <= i < agg.len() && (#[trigger] agg[i]).0@ == label
}

/// `agg` has one entry for each label that occurs in `s`, with the total and
/// the count of that label.
pub open spec fn totals_of(agg: Seq<(&'static str, u64, u64)>, s: Seq<(&'static str, u64)>) -> bool {
    &&& distinct_labels(agg)
    &&& exact_totals(agg, s)
    &&& forall|j: int| 0 <= j < s.len() ==> has_label(agg, (#[trigger] s[j]).0@)
}

/// Every entry comes before those behind it.
pub open spec fn summary_sorted(agg: Seq<(&'static str, u64, u64)>) -> bool {
    forall|i: int, j: int| 0 <= i < j < agg.len() ==> before(#[trigger] agg[i], #[trigger] agg[j])
}

proof fn lemma_totals_push(s: Seq<(&'static str, u64)>, x: (&'static str, u64), label: Seq<char>)
    ensures
        label_total(s.push(x), label) == label_total(s, label) + if x.0@ == label {
            x.1 as nat
        } else {
            0
        },
        label_count(s.push(x), label) == label_count(s, label) + if x.0@ == label { 1nat } else { 0 },
{
    assert(s.push(x).drop_last() =~= s);
}

proof fn lemma_total_monotone(s: Seq<(&'static str, u64)>, i: int, label: Seq<char>)
    requires
        0 <= i <= s.len(),
    ensures
        label_total(s.take(i), label) <= label_total(s, label),
        label_count(s.take(i), label) <= s.len(),
    decreases s.len() - i,
{
    if i < s.len() {
        lemma_total_monotone(s, i + 1, label);
        assert(s.take(i + 1) =~= s.take(i).push(s[i]));
        lemma_totals_push(s.take(i), s[i], label);
    } else {
        assert(s.take(i) =~= s);
        lemma_count_bound(s, label);
    }
}

proof fn lemma_count_bound(s: Seq<(&'static str, u64)>, label: Seq<char>)
    ensures
        label_count(s, label) <= s.len(),
    decreases s.len(),
{
    if s.len() > 0 {
        lemma_count_bound(s.drop_last(), label);
    }
}

proof fn lemma_absent(s: Seq<(&'static str, u64)>, label: Seq<char>)
    requires
        forall|j: int| 0 <= j < s.len() ==> (#[trigger] s[j]).0@ != label,
    ensures
        label_total(s, label) == 0,
        label_count(s, label) == 0,
    decreases s.len(),
{
    if s.len() > 0 {
        assert(s.last() == s[s.len() - 1]);
        assert forall|j: int| 0 <= j < s.drop_last().len() implies (
        #[trigger] s.drop_last()[j]).0@ != label by {
            assert(s.drop_last()[j] == s[j]);
        }
        lemma_absent(s.drop_last(), label);
    }
}

/// Per-label totals, one entry per label in the order of first occurrence.
#[verifier::rlimit(60)]
fn collect(resolved: &Vec<(&'static str, u64)>) -> (agg: Vec<(&'static str, u64, u64)>)
    requires
        forall|l: Seq<char>| #[trigger] label_total(resolved@, l) <= u64::MAX,
    ensures
        totals_of(agg@, resolved@),
{
    let mut agg: Vec<(&'static str, u64, u64)> = Vec::new();
    let mut i: usize = 0;
    while i < resolved.len()
        invariant
            i <= resolved@.len(),
            forall|l: Seq<char>| #[trigger] label_total(resolved@, l) <= u64::MAX,
            totals_of(agg@, resolved@.take(i as int)),
        decreases resolved.len() - i,
    {
        let (label, ns) = resolved[i];
        let ghost done = resolved@.take(i as int);
        let ghost next = resolved@.take(i + 1);
        let ghost prev = agg@;
        proof {
            assert(next =~= done.push(resolved@[i as int]));
            assert forall|l: Seq<char>| true implies #[trigger] label_total(next, l) <= u64::MAX
                && label_count(next, l) <= resolved@.len() by {
                lemma_total_monotone(resolved@, i + 1, l);
            }
            assert forall|l: Seq<char>| true implies #[trigger] label_total(next, l) == label_total(
                done,
                l,
            ) + (if label@ == l { ns as nat } else { 0 }) && label_count(next, l) == label_count(
                done,
                l,
            ) + (if label@ == l { 1nat } else { 0 }) by {
                lemma_totals_push(done, resolved@[i as int], l);
            }
        }
        let mut p: usize = 0;
        while p < agg.len() && !text::str_same(agg[p].0, label)
            invariant
                p <= agg@.len(),
                agg@ == prev,
                forall|q: int| 0 <= q < p ==> (#[trigger] agg@[q]).0@ != label@,
            decreases agg.len() - p,
        {
            p += 1;
        }
        if p < agg.len() {
            let (l0, total, count) = agg[p];
            proof {
                assert(agg@[p as int].0@ == label@);
                assert(label_total(next, label@) == label_total(done, label@) + ns);
                assert(label_count(next, label@) <= resolved@.len());
            }
            let n_items: usize = resolved.len();
            agg.set(p, (l0, total + ns, count + 1));
            proof {
                assert forall|a: int| 0 <= a < agg@.len() implies (#[trigger] agg@[a]).0 == prev[a].0 by {}
                assert forall|a: int, b: int| 0 <= a < b < agg@.len() implies (#[trigger] agg@[a]).0@
                    != (#[trigger] agg@[b]).0@ by {
                    assert(prev[a].0@ != prev[b].0@);
                }
                assert forall|a: int| 0 <= a < agg@.len() implies {
                    &&& (#[trigger] agg@[a]).1 == label_total(next, agg@[a].0@)
                    &&& agg@[a].2 == label_count(next, agg@[a].0@)
                    &&& agg@[a].2 > 0
                } by {
                    assert(prev[a].1 == label_total(done, prev[a].0@));
                    assert(label_total(next, prev[a].0@) == label_total(done, prev[a].0@) + (
                    if label@ == prev[a].0@ { ns as nat } else { 0 }));
                    if a != p {
                        if a < p {
                            assert(prev[a].0@ != prev[p as int].0@);
                        } else {
                            assert(prev[p as int].0@ != prev[a].0@);
                        }
                    }
                }
                assert forall|j: int| 0 <= j < next.len() implies has_label(
                    agg@,
                    (#[trigger] next[j]).0@,
                ) by {
                    if j < done.len() {
                        assert(next[j] == done[j]);
                        assert(has_label(prev, done[j].0@));
                        let a = choose|a: int|
                            0 <= a < prev.len() && (#[trigger] prev[a]).0@ == done[j].0@;
                        assert(agg@[a].0@ == next[j].0@);
                    } else {
                        assert(agg@[p as int].0@ == next[j].0@);
                    }
                }
            }
        } else {
            proof {
                assert forall|j: int| 0 <= j < done.len() implies (#[trigger] done[j]).0@
                    != label@ by {
                    assert(has_label(prev, done[j].0@));
                    let a = choose|a: int|
                        0 <= a < prev.len() && (#[trigger] prev[a]).0@ == done[j].0@;
                    assert(agg@[a].0@ != label@);
                }
                lemma_absent(done, label@);
                assert(label_total(next, label@) == label_total(done, label@) + ns);
            }
            agg.push((label, ns, 1));
            proof {
                assert forall|a: int| 0 <= a < agg@.len() implies {
                    &&& (#[trigger] agg@[a]).1 == label_total(next, agg@[a].0@)
                    &&& agg@[a].2 == label_count(next, agg@[a].0@)
                    &&& agg@[a].2 > 0
                } by {
                    if a < prev.len() {
                        assert(agg@[a] == prev[a]);
                        assert(prev[a].0@ != label@);
                        assert(label_total(next, prev[a].0@) == label_total(done, prev[a].0@) + (
                        if label@ == prev[a].0@ { ns as nat } else { 0 }));
                    }
                }
                assert forall|a: int, b: int| 0 <= a < b < agg@.len() implies (#[trigger] agg@[a]).0@
                    != (#[trigger] agg@[b]).0@ by {
                    assert(agg@[a] == prev[a]);
                    if b < prev.len() {
                        assert(agg@[b] == prev[b]);
                    }
                }
                assert forall|j: int| 0 <= j < next.len() implies has_label(
                    agg@,
                    (#[trigger] next[j]).0@,
                ) by {
                    if j < done.len() {
                        assert(next[j] == done[j]);
                        assert(has_label(prev, done[j].0@));
                        let a = choose|a: int|
                            0 <= a < prev.len() && (#[trigger] prev[a]).0@ == done[j].0@;
                        assert(agg@[a] == prev[a]);
                    } else {
                        assert(agg@[prev.len() as int].0@ == next[j].0@);
                    }
                }
            }
        }
        i += 1;
    }
    assert(resolved@.take(resolved@.len() as int) =~= resolved@);
    agg
}

/// Whether `a` comes before `b` in the summary.
fn comes_before(a: &(&'static str, u64, u64), b: &(&'static str, u64, u64)) -> (r: bool)
    ensures
        r == before(*a, *b),
{
    a.1 > b.1 || (a.1 == b.1 && text::str_less(a.0, b.0))
}

proof fn lemma_before_transitive(
    a: (&'static str, u64, u64),
    b: (&'static str, u64, u64),
    c: (&'static str, u64, u64),
)
    requires
        before(a, b),
        before(b, c),
    ensures
        before(a, c),
{
    if a.1 == b.1 && b.1 == c.1 {
        text::lemma_str_transitive(a.0@, b.0@, c.0@);
    }
}

proof fn lemma_before_total(a: (&'static str, u64, u64), b: (&'static str, u64, u64))
    requires
        a.0@ != b.0@,
        !before(a, b),
    ensures
        before(b, a),
{
    text::lemma_str_total(a.0@, b.0@);
}

/// Inserts `x` at its place in a sorted summary that has no entry of its
/// label.
fn insert_sorted(v: &mut Vec<(&'static str, u64, u64)>, x: (&'static str, u64, u64))
    requires
        summary_sorted(old(v)@),
        forall|i: int| 0 <= i < old(v)@.len() ==> (#[trigger] old(v)@[i]).0@ != x.0@,
    ensures
        summary_sorted(final(v)@),
        exists|p: int| 0 <= p <= old(v)@.len() && final(v)@ == old(v)@.insert(p, x),
{
    let ghost s = v@;
    let mut p: usize = 0;
    while p < v.len() && comes_before(&v[p], &x)
        invariant
            p <= v@.len(),
            v@ == s,
            forall|i: int| 0 <= i < p ==> before(#[trigger] v@[i], x),
        decreases v.len() - p,
    {
        p += 1;
    }
    proof {
        if p < s.len() {
            lemma_before_total(s[p as int], x);
        }
        let t = s.insert(p as int, x);
        assert forall|i: int, j: int| 0 <= i < j < t.len() implies before(
            #[trigger] t[i],
            #[trigger] t[j],
        ) by {
            if i < p && j < p {
                assert(before(s[i], s[j]));
            } else if i < p && j == p {
                assert(before(s[i], x));
            } else if i < p {
                assert(before(s[i], s[j - 1]));
            } else if i == p {
                if j - 1 > p {
                    assert(before(s[p as int], s[j - 1]));
                    lemma_before_transitive(x, s[p as int], s[j - 1]);
                }
            } else {
                assert(before(s[i - 1], s[j - 1]));
            }
        }
    }
    v.insert(p, x);
}

impl MetalProfiler {
    /// Per-label totals of the resolved times, largest total first and equal
    /// totals in the order of their labels.
    pub fn aggregate(resolved: &Vec<(&'static str, u64)>) -> (out: Vec<(&'static str, u64, u64)>)
        requires
            forall|l: Seq<char>| #[trigger] label_total(resolved@, l) <= u64::MAX,
        ensures
            totals_of(out@, resolved@),
            summary_sorted(out@),
    {
        let agg = collect(resolved);
        let mut out: Vec<(&'static str, u64, u64)> = Vec::new();
        let mut i: usize = 0;
        while i < agg.len()
            invariant
                i <= agg@.len(),
                totals_of(agg@, resolved@),
                summary_sorted(out@),
                out@.len() == i,
                forall|a: int|
                    0 <= a < out@.len() ==> exists|b: int| 0 <= b < i && agg@[b] == #[trigger] out@[a],
                forall|b: int| 0 <= b < i ==> out@.contains(#[trigger] agg@[b]),
            decreases agg.len() - i,
        {
            let x = agg[i];
            let ghost prev = out@;
            proof {
                assert forall|a: int| 0 <= a < out@.len() implies (#[trigger] out@[a]).0@ != x.0@ by {
                    let b = choose|b: int| 0 <= b < i && agg@[b] == out@[a];
                    assert(agg@[b].0@ != agg@[i as int].0@);
                }
            }
            insert_sorted(&mut out, x);
            proof {
                let p = choose|p: int| 0 <= p <= prev.len() && out@ == prev.insert(p, x);
                assert forall|a: int| 0 <= a < out@.len() implies exists|b: int|
                    0 <= b < i + 1 && agg@[b] == #[trigger] out@[a] by {
                    if a == p {
                        assert(agg@[i as int] == out@[a]);
                    } else {
                        let a0 = if a < p { a } else { a - 1 };
                        assert(out@[a] == prev[a0]);
                        let b = choose|b: int| 0 <= b < i && agg@[b] == prev[a0];
                        assert(agg@[b] == out@[a]);
                    }
                }
                assert forall|b: int| 0 <= b < i + 1 implies out@.contains(#[trigger] agg@[b]) by {
                    if b == i {
                        assert(out@[p] == agg@[b]);
                    } else {
                        assert(prev.contains(agg@[b]));
                        let a0 = choose|a: int| 0 <= a < prev.len() && prev[a] == agg@[b];
                        let a = if a0 < p { a0 } else { a0 + 1 };
                        assert(out@[a] == prev[a0]);
                    }
                }
            }
            i += 1;
        }
        proof {
            assert forall|a: int, b: int| 0 <= a < b < out@.len() implies (#[trigger] out@[a]).0@
                != (#[trigger] out@[b]).0@ by {
                assert(before(out@[a], out@[b]));
                text::lemma_str_total(out@[a].0@, out@[b].0@);
                if out@[a].0@ == out@[b].0@ {
                    let a0 = choose|c: int| 0 <= c < agg@.len() && agg@[c] == out@[a];
                    let b0 = choose|c: int| 0 <= c < agg@.len() && agg@[c] == out@[b];
                    assert(agg@[a0].1 == label_total(resolved@, agg@[a0].0@));
                    assert(agg@[b0].1 == label_total(resolved@, agg@[b0].0@));
                    assert(false);
                }
            }
            assert forall|a: int| 0 <= a < out@.len() implies {
                &&& (#[trigger] out@[a]).1 == label_total(resolved@, out@[a].0@)
                &&& out@[a].2 == label_count(resolved@, out@[a].0@)
                &&& out@[a].2 > 0
            } by {
                let c = choose|c: int| 0 <= c < agg@.len() && agg@[c] == out@[a];
                assert(agg@[c].1 == label_total(resolved@, agg@[c].0@));
            }
            assert forall|j: int| 0 <= j < resolved@.len() implies has_label(
                out@,
                (#[trigger] resolved@[j]).0@,
            ) by {
                assert(has_label(agg@, resolved@[j].0@));
                let c = choose|c: int|
                    0 <= c < agg@.len() && (#[trigger] agg@[c]).0@ == resolved@[j].0@;
                assert(out@.contains(agg@[c]));
                let a = choose|a: int| 0 <= a < out@.len() && out@[a] == agg@[c];
                assert(out@[a].0@ == resolved@[j].0@);
            }
            assert(distinct_labels(out@));
            assert(exact_totals(out@, resolved@));
        }
        out
    }
}

/// Sum of the totals of a summary.
pub open spec fn sum_totals(agg: Seq<(&'static str, u64, u64)>) -> nat
    decreases agg.len(),
{
    if agg.len() == 0 { 0 } else { sum_totals(agg.drop_last()) + agg.last().1 as nat }
}

/// Sum of the counts of a summary.
pub open spec fn sum_counts(agg: Seq<(&'static str, u64, u64)>) -> nat
    decreases agg.len(),
{
    if agg.len() == 0 { 0 } else { sum_counts(agg.drop_last()) + agg.last().2 as nat }
}

proof fn lemma_sum_prefix(agg: Seq<(&'static str, u64, u64)>, i: int)
    requires
        0 <= i <= agg.len(),
    ensures
        sum_totals(agg.take(i)) <= sum_totals(agg),
        sum_counts(agg.take(i)) <= sum_counts(agg),
    decreases agg.len() - i,
{
    if i < agg.len() {
        lemma_sum_prefix(agg, i + 1);
        assert(agg.take(i + 1).drop_last() =~= agg.take(i));
    } else {
        assert(agg.take(i) =~= agg);
    }
}

/// Sum of all resolved times.
pub open spec fn sum_times(s: Seq<(&'static str, u64)>) -> nat
    decreases s.len(),
{
    if s.len() == 0 { 0 } else { sum_times(s.drop_last()) + s.last().1 as nat }
}

/// Totals and counts of the labels of `agg`, added up.
spec fn over(agg: Seq<(&'static str, u64, u64)>, s: Seq<(&'static str, u64)>) -> (nat, nat)
    decreases agg.len(),
{
    if agg.len() == 0 {
        (0, 0)
    } else {
        let rest = over(agg.drop_last(), s);
        (rest.0 + label_total(s, agg.last().0@), rest.1 + label_count(s, agg.last().0@))
    }
}

proof fn lemma_over_step(agg: Seq<(&'static str, u64, u64)>, s: Seq<(&'static str, u64)>)
    requires
        distinct_labels(agg),
        s.len() > 0,
    ensures
        ({
            let hit = has_label(agg, s.last().0@);
            &&& over(agg, s).0 == over(agg, s.drop_last()).0 + if hit { s.last().1 as nat } else { 0 }
            &&& over(agg, s).1 == over(agg, s.drop_last()).1 + if hit { 1nat } else { 0 }
        }),
    decreases agg.len(),
{
    let l = s.last().0@;
    if agg.len() > 0 {
        let rest = agg.drop_last();
        assert forall|i: int, j: int| 0 <= i < j < rest.len() implies (#[trigger] rest[i]).0@ != (
        #[trigger] rest[j]).0@ by {
            assert(agg[i].0@ != agg[j].0@);
        }
        lemma_over_step(rest, s);
        if agg.last().0@ == l {
            assert(!has_label(rest, l)) by {
                assert forall|i: int| 0 <= i < rest.len() implies (#[trigger] rest[i]).0@ != l by {
                    assert(agg[i].0@ != agg[agg.len() - 1].0@);
                }
            }
            assert(agg[agg.len() - 1].0@ == l);
        } else {
            if has_label(agg, l) {
                let i = choose|i: int| 0 <= i < agg.len() && (#[trigger] agg[i]).0@ == l;
                assert(rest[i].0@ == l);
            }
            if has_label(rest, l) {
                let i = choose|i: int| 0 <= i < rest.len() && (#[trigger] rest[i]).0@ == l;
                assert(agg[i].0@ == l);
            }
        }
    }
}

proof fn lemma_over_all(agg: Seq<(&'static str, u64, u64)>, s: Seq<(&'static str, u64)>)
    requires
        distinct_labels(agg),
        forall|j: int| 0 <= j < s.len() ==> has_label(agg, (#[trigger] s[j]).0@),
    ensures
        over(agg, s) == (sum_times(s), s.len()),
    decreases s.len(),
{
    if s.len() == 0 {
        lemma_over_nothing(agg, s);
    } else {
        assert forall|j: int| 0 <= j < s.drop_last().len() implies has_label(
            agg,
            (#[trigger] s.drop_last()[j]).0@,
        ) by {
            assert(s.drop_last()[j] == s[j]);
        }
        lemma_over_all(agg, s.drop_last());
        lemma_over_step(agg, s);
        assert(has_label(agg, s[s.len() - 1].0@));
    }
}

proof fn lemma_over_nothing(agg: Seq<(&'static str, u64, u64)>, s: Seq<(&'static str, u64)>)
    requires
        s.len() == 0,
    ensures
        over(agg, s) == (0nat, 0nat),
    decreases agg.len(),
{
    if agg.len() > 0 {
        lemma_over_nothing(agg.drop_last(), s);
    }
}

proof fn lemma_sums_are_over(agg: Seq<(&'static str, u64, u64)>, s: Seq<(&'static str, u64)>)
    requires
        exact_totals(agg, s),
    ensures
        over(agg, s) == (sum_totals(agg), sum_counts(agg)),
    decreases agg.len(),
{
    if agg.len() > 0 {
        let rest = agg.drop_last();
        assert forall|i: int| 0 <= i < rest.len() implies {
            &&& (#[trigger] rest[i]).1 == label_total(s, rest[i].0@)
            &&& rest[i].2 == label_count(s, rest[i].0@)
            &&& rest[i].2 > 0
        } by {
            assert(rest[i] == agg[i]);
        }
        lemma_sums_are_over(rest, s);
        assert(agg.last() == agg[agg.len() - 1]);
    }
}

/// Aggregation loses nothing: the totals of a summary add up to the time of
/// all dispatches, and its counts to their number.
pub proof fn law_aggregate_preserves(
    agg: Seq<(&'static str, u64, u64)>,
    s: Seq<(&'static str, u64)>,
)
    requires
        totals_of(agg, s),
    ensures
        sum_totals(agg) == sum_times(s),
        sum_counts(agg) == s.len(),
{
    lemma_over_all(agg, s);
    lemma_sums_are_over(agg, s);
}

/// A summary is determined by the resolved times: entry for entry it is the
/// same whatever order the totals were gathered in.
pub proof fn law_aggregate_is_determined(
    x: Seq<(&'static str, u64, u64)>,
    y: Seq<(&'static str, u64, u64)>,
    s: Seq<(&'static str, u64)>,
)
    requires
        totals_of(x, s),
        totals_of(y, s),
        summary_sorted(x),
        summary_sorted(y),
    ensures
        x.len() == y.len(),
        forall|i: int|
            0 <= i < x.len() ==> (#[trigger] x[i]).0@ == y[i].0@ && x[i].1 == y[i].1 && x[i].2
                == y[i].2,
{
    assert forall|i: int| 0 <= i < x.len() && i < y.len() implies (#[trigger] x[i]).0@ == y[i].0@
        && x[i].1 == y[i].1 && x[i].2 == y[i].2 by {
        lemma_same_entry(x, y, s, i);
    }
    lemma_no_longer(x, y, s);
    lemma_no_longer(y, x, s);
}

proof fn lemma_no_longer(
    x: Seq<(&'static str, u64, u64)>,
    y: Seq<(&'static str, u64, u64)>,
    s: Seq<(&'static str, u64)>,
)
    requires
        totals_of(x, s),
        totals_of(y, s),
        summary_sorted(x),
        summary_sorted(y),
    ensures
        y.len() <= x.len(),
{
    if x.len() < y.len() {
        let n = x.len() as int;
        let j = lemma_label_occurs(s, y[n].0@);
        assert(has_label(x, s[j].0@));
        let b = choose|b: int| 0 <= b < x.len() && (#[trigger] x[b]).0@ == y[n].0@;
        lemma_same_entry(x, y, s, b);
        assert(y[b].0@ != y[n].0@);
    }
}

proof fn lemma_label_occurs(s: Seq<(&'static str, u64)>, label: Seq<char>) -> (j: int)
    requires
        label_count(s, label) > 0,
    ensures
        0 <= j < s.len(),
        s[j].0@ == label,
    decreases s.len(),
{
    if s.last().0@ == label {
        s.len() - 1
    } else {
        lemma_label_occurs(s.drop_last(), label)
    }
}

proof fn lemma_same_entry(
    x: Seq<(&'static str, u64, u64)>,
    y: Seq<(&'static str, u64, u64)>,
    s: Seq<(&'static str, u64)>,
    i: int,
)
    requires
        totals_of(x, s),
        totals_of(y, s),
        summary_sorted(x),
        summary_sorted(y),
        0 <= i < x.len(),
        i < y.len(),
    ensures
        x[i].0@ == y[i].0@,
        x[i].1 == y[i].1,
        x[i].2 == y[i].2,
    decreases i,
{
    assert forall|k: int| 0 <= k < i implies (#[trigger] x[k]).0@ == y[k].0@ by {
        lemma_same_entry(x, y, s, k);
    }
    // x[i] stands somewhere in y, not before i
    let jx = lemma_label_occurs(s, x[i].0@);
    assert(has_label(y, s[jx].0@));
    let a = choose|a: int| 0 <= a < y.len() && (#[trigger] y[a]).0@ == x[i].0@;
    let jy = lemma_label_occurs(s, y[i].0@);
    assert(has_label(x, s[jy].0@));
    let b = choose|b: int| 0 <= b < x.len() && (#[trigger] x[b]).0@ == y[i].0@;
    if a < i {
        assert(x[a].0@ == y[a].0@);
        assert(false);
    }
    if b < i {
        assert(x[b].0@ == y[b].0@);
        assert(false);
    }
    if x[i].0@ != y[i].0@ {
        assert(before(y[i], y[a]));
        assert(before(x[i], x[b]));
        assert(y[a].1 == x[i].1 && x[b].1 == y[i].1);
        text::lemma_str_total(x[i].0@, y[i].0@);
        assert(false);
    }
}

impl MetalProfiler {
    /// The totals line of a summary, total time and number of dispatches, or
    /// `None` where nothing was captured.
    pub fn print_summary(agg: &Vec<(&'static str, u64, u64)>) -> (r: Option<(u64, u64)>)
        requires
            sum_totals(agg@) <= u64::MAX,
            sum_counts(agg@) <= u64::MAX,
        ensures
            match r {
                Some((total, count)) => {
                    &&& agg@.len() > 0
                    &&& total == sum_totals(agg@)
                    &&& count == sum_counts(agg@)
                },
                None => agg@.len() == 0,
            },
    {
        if agg.len() == 0 {
            return None;
        }
        let mut total: u64 = 0;
        let mut count: u64 = 0;
        let mut i: usize = 0;
        while i < agg.len()
            invariant
                i <= agg@.len(),
                sum_totals(agg@) <= u64::MAX,
                sum_counts(agg@) <= u64::MAX,
                total == sum_totals(agg@.take(i as int)),
                count == sum_counts(agg@.take(i as int)),
            decreases agg.len() - i,
        {
            proof {
                lemma_sum_prefix(agg@, i + 1);
                assert(agg@.take(i + 1).drop_last() =~= agg@.take(i as int));
            }
            total += agg[i].1;
            count += agg[i].2;
            i += 1;
        }
        assert(agg@.take(agg@.len() as int) =~= agg@);
        Some((total, count))
    }
}

/// The counter set that is picked is the first one named `timestamp`; none is
/// picked where no set has the name.
pub proof fn law_first_timestamp_set(names: Seq<String>)
    ensures
        match timestamp_set(names) {
            Some(i) => {
                &&& 0 <= i < names.len()
                &&& names[i]@ == "timestamp"@
                &&& forall|j: int| 0 <= j < i ==> (#[trigger] names[j])@ != "timestamp"@
            },
            None => forall|j: int| 0 <= j < names.len() ==> (#[trigger] names[j])@ != "timestamp"@,
        },
    decreases names.len(),
{
    if names.len() > 0 {
        let front = names.drop_last();
        law_first_timestamp_set(front);
        assert(forall|j: int| 0 <= j < front.len() ==> #[trigger] names[j] == front[j]);
    }
}

/// The ticks of a pair lead from its start to its end; a pair with a sample
/// that was not taken, or whose end lies before its start, has none.
pub proof fn law_ticks_span_the_pair(start: u64, end: u64)
    ensures
        start != 0xffff_ffff_ffff_ffff && end != 0xffff_ffff_ffff_ffff && start <= end ==> start
            + pair_ticks(start, end) == end,
        start == 0xffff_ffff_ffff_ffff || end == 0xffff_ffff_ffff_ffff || end < start ==> pair_ticks(
            start,
            end,
        ) == 0,
{
}

/// Every pair has two samples of its own: no two pairs share one, and all lie
/// among the 4096 samples of the buffer.
pub proof fn law_pairs_do_not_overlap(p: MetalProfiler, i: int, j: int)
    requires
        p.wf(),
        0 <= i < j < p.pairs().len(),
    ensures
        p.pairs()[i].start_idx + 1 < p.pairs()[j].start_idx,
        p.pairs()[j].start_idx + 1 < 4096,
{
}

/// A tick lasts as long as the measured interval over its ticks: the ticks of
/// the interval come to its nanoseconds.
pub proof fn law_ticks_add_up_to_the_interval(p: MetalProfiler)
    ensures
        p.interval().1 > 0 ==> p.interval().1 * p.ratio().0 == p.interval().0 * p.ratio().1,
        p.ratio().1 > 0,
{
    let a = p.interval().0;
    let b = p.interval().1;
    assert(b * a == a * b) by (nonlinear_arith);
}

/// A summary lists the labels by their time, the longest first.
pub proof fn law_summary_is_by_time(agg: Seq<(&'static str, u64, u64)>, i: int, j: int)
    requires
        summary_sorted(agg),
        0 <= i <= j < agg.len(),
    ensures
        agg[i].1 >= agg[j].1,
{
    if i < j {
        assert(before(agg[i], agg[j]));
    }
}

/// What the calls do to a profiler: a pair that is reserved gets the next two
/// samples under its label, a reset forgets all pairs, and as many samples are
/// resolved as were reserved.
pub proof fn law_profiler_calls(
    p: &mut MetalProfiler,
    label: &'static str,
    at: Option<u32>,
    samples: u64,
)
    ensures
        call_ensures(MetalProfiler::alloc_pair, (p, label), at) ==> {
            &&& at is Some <==> old(p).pairs().len() < 2048
            &&& at matches Some(i) ==> {
                &&& i == 2 * old(p).pairs().len()
                &&& final(p).pairs().len() == old(p).pairs().len() + 1
                &&& final(p).pairs()[old(p).pairs().len() as int].label == label
                &&& final(p).pairs()[old(p).pairs().len() as int].start_idx == i
                &&& forall|j: int|
                    0 <= j < old(p).pairs().len() ==> #[trigger] final(p).pairs()[j]
                        == old(p).pairs()[j]
            }
        },
        call_ensures(MetalProfiler::reset, (p,), ()) ==> final(p).pairs().len() == 0
            && final(p).interval() == old(p).interval(),
        call_ensures(MetalProfiler::schedule_resolve, (&*old(p),), samples) ==> samples == 2
            * old(p).pairs().len(),
{
}

} // verus!
