//! Observers around a layer's forward pass.
use crate::nn::module;
use crate::nn::module::{ErrorView, InputState, Module, ModuleError};
use crate::nn::param::{Dtype, ParamModel, Parameter};
use crate::nn::program::{ProgModel, Program};
use vstd::prelude::*;

verus! {

/// When an observer is called.
#[derive(Debug, Clone, Copy, PartialEq, Eq, Hash, Structural)]
pub enum HookKind {
    /// Before the forward pass, with the input.
    Pre,
    /// After it, with input and output.
    Post,
}

/// Names a registered observer.
#[derive(Debug, Clone, Copy, PartialEq, Eq, Hash, Structural)]
pub struct HookHandle {
    pub id: usize,
    pub kind: HookKind,
}

/// A layer with observers. They see inputs and outputs and change neither.
pub struct HookedModule<M, P, Q> {
    inner: M,
    pre_hooks: Vec<(usize, P)>,
    post_hooks: Vec<(usize, Q)>,
    next_id: usize,
}

impl<M, P, Q> HookedModule<M, P, Q> {
    /// The layer inside.
    pub closed spec fn layer(self) -> M {
        self.inner
    }

    /// The observers of inputs with their numbers, in the order of their
    /// calls.
    pub closed spec fn pre(self) -> Seq<(usize, P)> {
        self.pre_hooks@
    }

    /// The observers of inputs and outputs with their numbers, in the order of
    /// their calls.
    pub closed spec fn post(self) -> Seq<(usize, Q)> {
        self.post_hooks@
    }

    /// The number of the next observer.
    pub closed spec fn next_number(self) -> usize {
        self.next_id
    }
}

/// Some observer has the given number.
pub open spec fn has_id<T>(s: Seq<(usize, T)>, id: usize) -> bool {
    exists|i: int| 0 <= i < s.len() && (#[trigger] s[i]).0 == id
}

/// `i` is the first position with the given number.
pub open spec fn is_position<T>(s: Seq<(usize, T)>, id: usize, i: int) -> bool {
    &&& 0 <= i < s.len()
    &&& s[i].0 == id
    &&& forall|j: int| 0 <= j < i ==> (#[trigger] s[j]).0 != id
}

/// The sequence with its last element in the place of element `i`.
pub open spec fn swap_removed<T>(s: Seq<T>, i: int) -> Seq<T> {
    s.update(i, s.last()).drop_last()
}

/// Numbers are distinct and all below `next`.
pub open spec fn numbered<T>(s: Seq<(usize, T)>, next: usize) -> bool {
    &&& forall|i: int| 0 <= i < s.len() ==> (#[trigger] s[i]).0 < next
    &&& forall|i: int, j: int|
        0 <= i < j < s.len() ==> (#[trigger] s[i]).0 != (#[trigger] s[j]).0
}

/// One of two observer lists after the removal of a number.
pub open spec fn removed<T>(before: Seq<(usize, T)>, after: Seq<(usize, T)>, id: usize) -> bool {
    exists|i: int| #[trigger] is_position(before, id, i) && after == swap_removed(before, i)
}

/// The handles of a list of observers.
pub open spec fn handles<T>(s: Seq<(usize, T)>, kind: HookKind) -> Seq<HookHandle> {
    Seq::new(s.len(), |i: int| HookHandle { id: s[i].0, kind })
}

fn position<T>(v: &Vec<(usize, T)>, id: usize) -> (r: Option<usize>)
    ensures
        match r {
            Some(i) => is_position(v@, id, i as int),
            None => !has_id(v@, id),
        },
{
    let mut i: usize = 0;
    while i < v.len()
        invariant
            i <= v@.len(),
            forall|j: int| 0 <= j < i ==> (#[trigger] v@[j]).0 != id,
        decreases v.len() - i,
    {
        if v[i].0 == id {
            return Some(i);
        }
        i += 1;
    }
    None
}

fn push_handles<T>(out: &mut Vec<HookHandle>, v: &Vec<(usize, T)>, kind: HookKind)
    ensures
        final(out)@ == old(out)@ + handles(v@, kind),
{
    let ghost before = out@;
    let mut i: usize = 0;
    assert(before + handles(v@, kind).take(0) =~= before);
    while i < v.len()
        invariant
            i <= v@.len(),
            out@ == before + handles(v@, kind).take(i as int),
        decreases v.len() - i,
    {
        out.push(HookHandle { id: v[i].0, kind });
        assert(out@ =~= before + handles(v@, kind).take(i + 1));
        i += 1;
    }
    assert(handles(v@, kind).take(v@.len() as int) =~= handles(v@, kind));
}

impl<M: Module, P, Q> HookedModule<M, P, Q> {
    /// No number is given twice.
    pub open spec fn wf(self) -> bool {
        &&& numbered(self.pre(), self.next_number())
        &&& numbered(self.post(), self.next_number())
        &&& forall|id: usize|
            !(#[trigger] has_id(self.pre(), id) && has_id(self.post(), id))
    }

    /// An observer with the handle is registered.
    pub open spec fn registered(self, h: HookHandle) -> bool {
        match h.kind {
            HookKind::Pre => has_id(self.pre(), h.id),
            HookKind::Post => has_id(self.post(), h.id),
        }
    }

    /// Wraps a layer, without observers.
    pub fn new(inner: M) -> (r: Self)
        ensures
            r.wf(),
            r.layer() == inner,
            r.pre() == Seq::<(usize, P)>::empty(),
            r.post() == Seq::<(usize, Q)>::empty(),
            r.next_number() == 0,
    {
        HookedModule { inner, pre_hooks: Vec::new(), post_hooks: Vec::new(), next_id: 0 }
    }

    /// The wrapped layer.
    pub fn inner(&self) -> (r: &M)
        ensures
            *r == self.layer(),
    {
        &self.inner
    }

    /// Registers an observer of inputs, behind those that are there.
    pub fn add_forward_pre_hook(&mut self, hook: P) -> (r: HookHandle)
        requires
            old(self).wf(),
            old(self).next_number() < usize::MAX,
        ensures
            final(self).wf(),
            r == (HookHandle { id: old(self).next_number(), kind: HookKind::Pre }),
            !old(self).registered(r),
            final(self).registered(r),
            final(self).pre() == old(self).pre().push((r.id, hook)),
            final(self).post() == old(self).post(),
            final(self).next_number() == old(self).next_number() + 1,
            final(self).layer() == old(self).layer(),
    {
        let id: usize = self.next_id;
        self.next_id = id + 1;
        self.pre_hooks.push((id, hook));
        proof {
            let k = self.pre().len() - 1;
            assert(self.pre()[k].0 == id);
            assert forall|x: usize|
                !(#[trigger] has_id(self.pre(), x) && has_id(self.post(), x)) by {
                if has_id(self.pre(), x) && x != id {
                    let i = choose|i: int|
                        0 <= i < self.pre().len() && (#[trigger] self.pre()[i]).0 == x;
                    assert(old(self).pre()[i].0 == x);
                    assert(has_id(old(self).pre(), x));
                }
            }
        }
        HookHandle { id, kind: HookKind::Pre }
    }

    /// Registers an observer of inputs and outputs, behind those that are
    /// there.
    pub fn add_forward_hook(&mut self, hook: Q) -> (r: HookHandle)
        requires
            old(self).wf(),
            old(self).next_number() < usize::MAX,
        ensures
            final(self).wf(),
            r == (HookHandle { id: old(self).next_number(), kind: HookKind::Post }),
            !old(self).registered(r),
            final(self).registered(r),
            final(self).pre() == old(self).pre(),
            final(self).post() == old(self).post().push((r.id, hook)),
            final(self).next_number() == old(self).next_number() + 1,
            final(self).layer() == old(self).layer(),
    {
        let id: usize = self.next_id;
        self.next_id = id + 1;
        self.post_hooks.push((id, hook));
        proof {
            let k = self.post().len() - 1;
            assert(self.post()[k].0 == id);
            assert forall|x: usize|
                !(#[trigger] has_id(self.pre(), x) && has_id(self.post(), x)) by {
                if has_id(self.post(), x) && x != id {
                    let i = choose|i: int|
                        0 <= i < self.post().len() && (#[trigger] self.post()[i]).0 == x;
                    assert(old(self).post()[i].0 == x);
                    assert(has_id(old(self).post(), x));
                }
            }
        }
        HookHandle { id, kind: HookKind::Post }
    }

    /// Removes an observer; the last of its kind takes its place. Says whether
    /// there was one.
    pub fn remove_hook(&mut self, handle: HookHandle) -> (r: bool)
        requires
            old(self).wf(),
        ensures
            final(self).wf(),
            r == old(self).registered(handle),
            !final(self).registered(handle),
            final(self).next_number() == old(self).next_number(),
            final(self).layer() == old(self).layer(),
            r && handle.kind is Pre ==> removed(
                old(self).pre(),
                final(self).pre(),
                handle.id,
            ),
            r && handle.kind is Post ==> removed(
                old(self).post(),
                final(self).post(),
                handle.id,
            ),
            !r || handle.kind is Post ==> final(self).pre() == old(self).pre(),
            !r || handle.kind is Pre ==> final(self).post() == old(self).post(),
    {
        match handle.kind {
            HookKind::Pre => {
                if let Some(idx) = position(&self.pre_hooks, handle.id) {
                    let ghost before = self.pre();
                    self.pre_hooks.swap_remove(idx);
                    proof {
                        assert(is_position(before, handle.id, idx as int));
                        assert(before[idx as int].0 == handle.id);
                        lemma_removed(before, self.pre(), self.next_id, handle.id, idx as int);
                    }
                    return true;
                }
            },
            HookKind::Post => {
                if let Some(idx) = position(&self.post_hooks, handle.id) {
                    let ghost before = self.post();
                    self.post_hooks.swap_remove(idx);
                    proof {
                        assert(is_position(before, handle.id, idx as int));
                        assert(before[idx as int].0 == handle.id);
                        lemma_removed(
                            before,
                            self.post(),
                            self.next_id,
                            handle.id,
                            idx as int,
                        );
                    }
                    return true;
                }
            },
        }
        false
    }

    /// Number of observers of inputs.
    pub fn n_pre_hooks(&self) -> (r: usize)
        ensures
            r == self.pre().len(),
    {
        self.pre_hooks.len()
    }

    /// Number of observers of inputs and outputs.
    pub fn n_post_hooks(&self) -> (r: usize)
        ensures
            r == self.post().len(),
    {
        self.post_hooks.len()
    }

    /// The observers that a forward pass calls, in their order: those of
    /// inputs, and those of outputs where there is an output.
    pub fn fired(&self, succeeds: bool) -> (r: Vec<HookHandle>)
        ensures
            r@ == handles(self.pre(), HookKind::Pre) + (if succeeds {
                handles(self.post(), HookKind::Post)
            } else {
                seq![]
            }),
    {
        let mut out: Vec<HookHandle> = Vec::new();
        push_handles(&mut out, &self.pre_hooks, HookKind::Pre);
        if succeeds {
            push_handles(&mut out, &self.post_hooks, HookKind::Post);
        }
        assert(out@ =~= handles(self.pre(), HookKind::Pre) + (if succeeds {
            handles(self.post(), HookKind::Post)
        } else {
            seq![]
        }));
        out
    }

    /// Runs a forward pass between its observers, and passes a state through
    /// all of them: first each observer of inputs sees the input, in order;
    /// then `run` computes the output; and where it succeeds each observer of
    /// outputs sees both, in order. Gives back the outcome and the state.
    pub fn observe<T, S, E, F: Fn(&M, &T, S) -> (Result<T, E>, S)>(
        &self,
        input: &T,
        start: S,
        run: F,
    ) -> (r: (Result<T, E>, S)) where P: Fn(&T, S) -> S, Q: Fn(&T, &T, S) -> S
        requires
            forall|st: S| #[trigger] call_requires(run, (&self.layer(), input, st)),
            forall|i: int, st: S|
                0 <= i < self.pre().len() ==> #[trigger] call_requires(
                    self.pre()[i].1,
                    (input, st),
                ),
            forall|i: int, y: &T, st: S|
                0 <= i < self.post().len() ==> #[trigger] call_requires(
                    self.post()[i].1,
                    (input, y, st),
                ),
        ensures
            observed(*self, *input, start, run, r.0, r.1),
    {
        assert(self.pre() == self.pre_hooks@ && self.post() == self.post_hooks@);
        assert(self.layer() == self.inner);
        let (mid, Ghost(pre)) = show_input(&self.pre_hooks, input, start);
        let (outcome, after) = run(&self.inner, input, mid);
        match outcome {
            Ok(y) => {
                let (end, Ghost(post)) = show_output(&self.post_hooks, input, &y, after);
                assert(observed_by(
                    *self,
                    *input,
                    start,
                    run,
                    Ok::<T, E>(y),
                    end,
                    pre,
                    after,
                    post,
                ));
                (Ok(y), end)
            },
            Err(e) => {
                assert(observed_by(
                    *self,
                    *input,
                    start,
                    run,
                    Err::<T, E>(e),
                    after,
                    pre,
                    after,
                    seq![after],
                ));
                (Err(e), after)
            },
        }
    }
}

/// Observer `i` of inputs takes state `i` to state `i + 1`.
pub open spec fn sees_input<T, S, P: Fn(&T, S) -> S>(
    hooks: Seq<(usize, P)>,
    input: T,
    st: Seq<S>,
    i: int,
) -> bool {
    call_ensures(hooks[i].1, (&input, st[i]), st[i + 1])
}

/// The observers of inputs are called once each, in order, by way of the
/// states `st`.
pub open spec fn inputs_shown<T, S, P: Fn(&T, S) -> S>(
    hooks: Seq<(usize, P)>,
    input: T,
    start: S,
    st: Seq<S>,
) -> bool {
    &&& st.len() == hooks.len() + 1
    &&& st[0] == start
    &&& forall|i: int| 0 <= i < hooks.len() ==> #[trigger] sees_input(hooks, input, st, i)
}

/// Observer `i` of outputs takes state `i` to state `i + 1`.
pub open spec fn sees_output<T, S, Q: Fn(&T, &T, S) -> S>(
    hooks: Seq<(usize, Q)>,
    input: T,
    output: T,
    st: Seq<S>,
    i: int,
) -> bool {
    call_ensures(hooks[i].1, (&input, &output, st[i]), st[i + 1])
}

/// The observers of outputs are called once each, in order, by way of the
/// states `st`.
pub open spec fn outputs_shown<T, S, Q: Fn(&T, &T, S) -> S>(
    hooks: Seq<(usize, Q)>,
    input: T,
    output: T,
    start: S,
    st: Seq<S>,
) -> bool {
    &&& st.len() == hooks.len() + 1
    &&& st[0] == start
    &&& forall|i: int| 0 <= i < hooks.len() ==> #[trigger] sees_output(hooks, input, output, st, i)
}

/// A forward pass between its observers: the input is shown by way of `pre`,
/// the layer runs on the last of those states and gives `mid`, and an output
/// is shown by way of `post`. A pass that fails shows nothing more.
pub open spec fn observed_by<
    M: Module,
    T,
    S,
    E,
    P: Fn(&T, S) -> S,
    Q: Fn(&T, &T, S) -> S,
    F: Fn(&M, &T, S) -> (Result<T, E>, S),
>(
    h: HookedModule<M, P, Q>,
    input: T,
    start: S,
    run: F,
    outcome: Result<T, E>,
    end: S,
    pre: Seq<S>,
    mid: S,
    post: Seq<S>,
) -> bool {
    &&& inputs_shown(h.pre(), input, start, pre)
    &&& call_ensures(run, (&h.layer(), &input, pre.last()), (outcome, mid))
    &&& match outcome {
        Ok(y) => outputs_shown(h.post(), input, y, mid, post) && end == post.last(),
        Err(_) => end == mid,
    }
}

/// What a forward pass between its observers gives: the layer's own outcome,
/// and the state behind the last observer that was called.
pub open spec fn observed<
    M: Module,
    T,
    S,
    E,
    P: Fn(&T, S) -> S,
    Q: Fn(&T, &T, S) -> S,
    F: Fn(&M, &T, S) -> (Result<T, E>, S),
>(
    h: HookedModule<M, P, Q>,
    input: T,
    start: S,
    run: F,
    outcome: Result<T, E>,
    end: S,
) -> bool {
    exists|pre: Seq<S>, mid: S, post: Seq<S>|
        #[trigger] observed_by(h, input, start, run, outcome, end, pre, mid, post)
}

/// Shows an input to its observers.
fn show_input<T, S, P: Fn(&T, S) -> S>(hooks: &Vec<(usize, P)>, input: &T, start: S) -> (r: (
    S,
    Ghost<Seq<S>>,
))
    requires
        forall|i: int, st: S|
            0 <= i < hooks@.len() ==> #[trigger] call_requires(hooks@[i].1, (input, st)),
    ensures
        inputs_shown(hooks@, *input, start, r.1@),
        r.0 == r.1@.last(),
{
    let ghost mut st: Seq<S> = seq![start];
    let mut state: S = start;
    let mut i: usize = 0;
    while i < hooks.len()
        invariant
            i <= hooks@.len(),
            forall|k: int, t: S|
                0 <= k < hooks@.len() ==> #[trigger] call_requires(hooks@[k].1, (input, t)),
            st.len() == i + 1,
            st[0] == start,
            st[i as int] == state,
            forall|k: int| 0 <= k < i ==> #[trigger] sees_input(hooks@, *input, st, k),
        decreases hooks.len() - i,
    {
        let next: S = (hooks[i].1)(input, state);
        proof {
            let before = st;
            st = st.push(next);
            assert forall|k: int| 0 <= k < i + 1 implies #[trigger] sees_input(
                hooks@,
                *input,
                st,
                k,
            ) by {
                if k < i {
                    assert(sees_input(hooks@, *input, before, k));
                }
            }
        }
        state = next;
        i += 1;
    }
    (state, Ghost(st))
}

/// Shows an input and an output to their observers.
fn show_output<T, S, Q: Fn(&T, &T, S) -> S>(
    hooks: &Vec<(usize, Q)>,
    input: &T,
    output: &T,
    start: S,
) -> (r: (S, Ghost<Seq<S>>))
    requires
        forall|i: int, y: &T, st: S|
            0 <= i < hooks@.len() ==> #[trigger] call_requires(hooks@[i].1, (input, y, st)),
    ensures
        outputs_shown(hooks@, *input, *output, start, r.1@),
        r.0 == r.1@.last(),
{
    let ghost mut st: Seq<S> = seq![start];
    let mut state: S = start;
    let mut i: usize = 0;
    while i < hooks.len()
        invariant
            i <= hooks@.len(),
            forall|k: int, y: &T, t: S|
                0 <= k < hooks@.len() ==> #[trigger] call_requires(hooks@[k].1, (input, y, t)),
            st.len() == i + 1,
            st[0] == start,
            st[i as int] == state,
            forall|k: int| 0 <= k < i ==> #[trigger] sees_output(hooks@, *input, *output, st, k),
        decreases hooks.len() - i,
    {
        let next: S = (hooks[i].1)(input, output, state);
        proof {
            let before = st;
            st = st.push(next);
            assert forall|k: int| 0 <= k < i + 1 implies #[trigger] sees_output(
                hooks@,
                *input,
                *output,
                st,
                k,
            ) by {
                if k < i {
                    assert(sees_output(hooks@, *input, *output, before, k));
                }
            }
        }
        state = next;
        i += 1;
    }
    (state, Ghost(st))
}

proof fn lemma_removed<T>(
    before: Seq<(usize, T)>,
    after: Seq<(usize, T)>,
    next: usize,
    id: usize,
    i: int,
)
    requires
        numbered(before, next),
        is_position(before, id, i),
        after == swap_removed(before, i),
    ensures
        numbered(after, next),
        !has_id(after, id),
        forall|x: usize| x != id ==> (#[trigger] has_id(after, x) <==> has_id(before, x)),
{
    let n = before.len() - 1;
    assert forall|x: usize| x != id implies (#[trigger] has_id(after, x) <==> has_id(
        before,
        x,
    )) by {
        if has_id(before, x) {
            let j = choose|j: int| 0 <= j < before.len() && (#[trigger] before[j]).0 == x;
            if j < n {
                assert(after[j].0 == x);
            } else {
                assert(after[i].0 == x);
            }
        }
        if has_id(after, x) {
            let j = choose|j: int| 0 <= j < after.len() && (#[trigger] after[j]).0 == x;
            if j == i {
                assert(before[n].0 == x);
            } else {
                assert(before[j].0 == x);
            }
        }
    }
}

impl<M: Module, P, Q> Module for HookedModule<M, P, Q> {
    open spec fn param_models(&self) -> Seq<ParamModel> {
        self.layer().param_models()
    }

    open spec fn param_names(&self) -> Seq<Seq<char>> {
        self.layer().param_names()
    }

    open spec fn forward_model(&self, shape: Seq<usize>, state: InputState) -> Result<
        ProgModel,
        ErrorView,
    > {
        self.layer().forward_model(shape, state)
    }

    open spec fn accepts(&self, shape: Seq<usize>) -> bool {
        self.layer().accepts(shape)
    }

    open spec fn switched(&self, before: &Self, training: bool) -> bool {
        &&& self.layer().switched(&before.layer(), training)
        &&& self.pre() == before.pre()
        &&& self.post() == before.post()
        &&& self.next_number() == before.next_number()
    }

    open spec fn recast(&self, before: &Self, target: Dtype) -> bool {
        &&& self.layer().recast(&before.layer(), target)
        &&& self.pre() == before.pre()
        &&& self.post() == before.post()
        &&& self.next_number() == before.next_number()
    }

    fn takes(&self, shape: &[usize]) -> (r: bool) {
        self.inner.takes(shape)
    }

    fn forward(&self, shape: &[usize], state: &InputState) -> (r: Result<Program, ModuleError>) {
        self.inner.forward(shape, state)
    }

    fn parameters(&self) -> (r: Vec<Parameter>) {
        self.inner.parameters()
    }

    fn named_parameters(&self) -> (r: Vec<(String, Parameter)>) {
        self.inner.named_parameters()
    }

    fn train(&mut self) {
        self.inner.train();
    }

    fn eval(&mut self) {
        self.inner.eval();
    }

    fn to_dtype(&mut self, target: Dtype) {
        self.inner.to_dtype(target);
    }
}

/// Observers change nothing: parameters and program are those of the layer
/// inside.
pub proof fn law_hooks_are_transparent<M: Module, P, Q>(
    h: HookedModule<M, P, Q>,
    shape: Seq<usize>,
    state: InputState,
)
    ensures
        h.forward_model(shape, state) == h.layer().forward_model(shape, state),
        h.param_models() == h.layer().param_models(),
        h.param_names() == h.layer().param_names(),
{
}

/// Where each observer writes its handle behind what the state holds already
/// and the layer writes nothing, the state holds in the end exactly the
/// handles that `fired` lists, in that order.
pub proof fn law_observers_fire_in_order<
    M: Module,
    T,
    S,
    E,
    P: Fn(&T, S) -> S,
    Q: Fn(&T, &T, S) -> S,
    F: Fn(&M, &T, S) -> (Result<T, E>, S),
>(
    h: HookedModule<M, P, Q>,
    input: T,
    start: S,
    run: F,
    outcome: Result<T, E>,
    end: S,
    log: spec_fn(S) -> Seq<HookHandle>,
)
    requires
        observed(h, input, start, run, outcome, end),
        forall|i: int, a: S, b: S|
            0 <= i < h.pre().len() && #[trigger] call_ensures(
                h.pre()[i].1,
                (&input, a),
                b,
            ) ==> log(b) == log(a).push(HookHandle { id: h.pre()[i].0, kind: HookKind::Pre }),
        forall|i: int, y: &T, a: S, b: S|
            0 <= i < h.post().len() && #[trigger] call_ensures(
                h.post()[i].1,
                (&input, y, a),
                b,
            ) ==> log(b) == log(a).push(
                HookHandle { id: h.post()[i].0, kind: HookKind::Post },
            ),
        forall|a: S, y: Result<T, E>, b: S|
            #[trigger] call_ensures(run, (&h.layer(), &input, a), (y, b)) ==> log(b) == log(a),
    ensures
        log(end) == log(start) + handles(h.pre(), HookKind::Pre) + (if outcome is Ok {
            handles(h.post(), HookKind::Post)
        } else {
            seq![]
        }),
{
    let (pre, mid, post) = choose|pre: Seq<S>, mid: S, post: Seq<S>| #[trigger]
        observed_by(h, input, start, run, outcome, end, pre, mid, post);
    let hp = handles(h.pre(), HookKind::Pre);
    lemma_inputs_logged(h.pre(), input, start, pre, log, h.pre().len() as int);
    assert(hp.take(hp.len() as int) =~= hp);
    assert(log(mid) == log(start) + hp);
    match outcome {
        Ok(y) => {
            let hq = handles(h.post(), HookKind::Post);
            lemma_outputs_logged(
                h.post(),
                input,
                y,
                mid,
                post,
                log,
                h.post().len() as int,
            );
            assert(hq.take(hq.len() as int) =~= hq);
        },
        Err(_) => {
            assert(log(start) + hp + seq![] =~= log(start) + hp);
        },
    }
}

proof fn lemma_inputs_logged<T, S, P: Fn(&T, S) -> S>(
    hooks: Seq<(usize, P)>,
    input: T,
    start: S,
    st: Seq<S>,
    log: spec_fn(S) -> Seq<HookHandle>,
    n: int,
)
    requires
        inputs_shown(hooks, input, start, st),
        0 <= n <= hooks.len(),
        forall|i: int, a: S, b: S|
            0 <= i < hooks.len() && #[trigger] call_ensures(hooks[i].1, (&input, a), b) ==> log(b)
                == log(a).push(HookHandle { id: hooks[i].0, kind: HookKind::Pre }),
    ensures
        log(st[n]) == log(start) + handles(hooks, HookKind::Pre).take(n),
    decreases n,
{
    let hs = handles(hooks, HookKind::Pre);
    if n == 0 {
        assert(log(start) + hs.take(0) =~= log(start));
    } else {
        lemma_inputs_logged(hooks, input, start, st, log, n - 1);
        assert(sees_input(hooks, input, st, n - 1));
        assert(hs.take(n) =~= hs.take(n - 1).push(hs[n - 1]));
        assert(log(start) + hs.take(n) =~= (log(start) + hs.take(n - 1)).push(hs[n - 1]));
    }
}

proof fn lemma_outputs_logged<T, S, Q: Fn(&T, &T, S) -> S>(
    hooks: Seq<(usize, Q)>,
    input: T,
    output: T,
    start: S,
    st: Seq<S>,
    log: spec_fn(S) -> Seq<HookHandle>,
    n: int,
)
    requires
        outputs_shown(hooks, input, output, start, st),
        0 <= n <= hooks.len(),
        forall|i: int, y: &T, a: S, b: S|
            0 <= i < hooks.len() && #[trigger] call_ensures(hooks[i].1, (&input, y, a), b) ==> log(
                b,
            ) == log(a).push(HookHandle { id: hooks[i].0, kind: HookKind::Post }),
    ensures
        log(st[n]) == log(start) + handles(hooks, HookKind::Post).take(n),
    decreases n,
{
    let hs = handles(hooks, HookKind::Post);
    if n == 0 {
        assert(log(start) + hs.take(0) =~= log(start));
    } else {
        lemma_outputs_logged(hooks, input, output, start, st, log, n - 1);
        assert(sees_output(hooks, input, output, st, n - 1));
        assert(hs.take(n) =~= hs.take(n - 1).push(hs[n - 1]));
        assert(log(start) + hs.take(n) =~= (log(start) + hs.take(n - 1)).push(hs[n - 1]));
    }
}

/// Removal takes out the named observer and no other.
pub proof fn law_removal_keeps_others<T>(
    before: Seq<(usize, T)>,
    after: Seq<(usize, T)>,
    next: usize,
    id: usize,
    other: usize,
)
    requires
        numbered(before, next),
        removed(before, after, id),
        other != id,
    ensures
        after.len() == before.len() - 1,
        has_id(before, id) && !has_id(after, id),
        has_id(after, other) <==> has_id(before, other),
{
    let i = choose|i: int| #[trigger] is_position(before, id, i) && after == swap_removed(before, i);
    assert(before[i].0 == id);
    lemma_removed(before, after, next, id, i);
}

/// The last observer takes the place of one that is removed; the others keep
/// theirs.
pub proof fn law_last_takes_the_place<T>(
    before: Seq<(usize, T)>,
    after: Seq<(usize, T)>,
    next: usize,
    id: usize,
    i: int,
    j: int,
)
    requires
        numbered(before, next),
        removed(before, after, id),
        0 <= i < before.len(),
        before[i].0 == id,
        0 <= j < after.len(),
    ensures
        after[j] == if j == i { before[before.len() - 1] } else { before[j] },
{
    let k = choose|k: int| #[trigger] is_position(before, id, k) && after == swap_removed(before, k);
    assert(before[k].0 == id);
    assert(k == i);
}

/// What the calls do to the observers: a new one goes behind the others of its
/// kind under a handle that none of them has, and a removal takes out the one
/// that the handle names and says whether there was one.
pub proof fn law_hook_calls<M: Module, P, Q>(
    h: &mut HookedModule<M, P, Q>,
    pre: P,
    post: Q,
    handle: HookHandle,
    found: bool,
)
    ensures
        call_ensures(HookedModule::<M, P, Q>::add_forward_pre_hook, (h, pre), handle) ==> {
            &&& final(h).pre() == old(h).pre().push((handle.id, pre))
            &&& final(h).post() == old(h).post()
            &&& handle.kind is Pre
            &&& !old(h).registered(handle) && final(h).registered(handle)
        },
        call_ensures(HookedModule::<M, P, Q>::add_forward_hook, (h, post), handle) ==> {
            &&& final(h).post() == old(h).post().push((handle.id, post))
            &&& final(h).pre() == old(h).pre()
            &&& handle.kind is Post
            &&& !old(h).registered(handle) && final(h).registered(handle)
        },
        call_ensures(HookedModule::<M, P, Q>::remove_hook, (h, handle), found) ==> {
            &&& found == old(h).registered(handle)
            &&& !final(h).registered(handle)
            &&& final(h).layer() == old(h).layer()
        },
{
}

} // verus!
