//! Lists and dictionaries of layers.
use crate::nn::module;
use crate::nn::module::{ErrorView, InputState, Module, ModuleError};
use crate::nn::param::{Dtype, ParamModel, Parameter};
use crate::nn::program::{ProgModel, Program};
use crate::text;
use vstd::prelude::*;

verus! {

/// The parameters of all layers, one layer after the other.
pub open spec fn all_params<M: Module>(s: Seq<M>) -> Seq<ParamModel>
    decreases s.len(),
{
    if s.len() == 0 {
        seq![]
    } else {
        all_params(s.drop_last()) + s.last().param_models()
    }
}

/// Every layer is switched.
pub open spec fn all_switched<M: Module>(after: Seq<M>, before: Seq<M>, training: bool) -> bool {
    &&& after.len() == before.len()
    &&& forall|i: int|
        0 <= i < after.len() ==> (#[trigger] after[i]).switched(&before[i], training)
}

/// Every layer is cast.
pub open spec fn all_recast<M: Module>(after: Seq<M>, before: Seq<M>, target: Dtype) -> bool {
    &&& after.len() == before.len()
    &&& forall|i: int| 0 <= i < after.len() ==> (#[trigger] after[i]).recast(&before[i], target)
}

proof fn lemma_cast_all<M: Module>(after: Seq<M>, before: Seq<M>, target: Dtype)
    requires
        after.len() == before.len(),
        forall|i: int|
            0 <= i < after.len() ==> (#[trigger] after[i]).param_models() == module::cast_all(
                before[i].param_models(),
                target,
            ),
    ensures
        all_params(after) == module::cast_all(all_params(before), target),
    decreases after.len(),
{
    if after.len() > 0 {
        let a = after.drop_last();
        let b = before.drop_last();
        assert forall|i: int| 0 <= i < a.len() implies (#[trigger] a[i]).param_models()
            == module::cast_all(b[i].param_models(), target) by {
            assert(a[i] == after[i]);
        }
        lemma_cast_all(a, b, target);
        let n = after.len() - 1;
        assert(after[n].param_models() == module::cast_all(before[n].param_models(), target));
    }
    assert(all_params(after) =~= module::cast_all(all_params(before), target));
}

fn collect<M: Module>(v: &Vec<M>) -> (r: Vec<Parameter>)
    ensures
        module::models(r@) == all_params(v@),
{
    let mut r = module::no_params();
    let mut i: usize = 0;
    assert(all_params(v@.take(0)) =~= seq![]);
    while i < v.len()
        invariant
            i <= v@.len(),
            module::models(r@) == all_params(v@.take(i as int)),
        decreases v.len() - i,
    {
        module::extend_params(&mut r, v[i].parameters());
        proof {
            assert(v@.take(i + 1).drop_last() =~= v@.take(i as int));
            assert(v@.take(i + 1).last() == v@[i as int]);
        }
        i += 1;
    }
    assert(v@.take(v@.len() as int) =~= v@);
    r
}

fn switch_all<M: Module>(v: &mut Vec<M>, training: bool)
    ensures
        all_switched(final(v)@, old(v)@, training),
{
    let ghost before = v@;
    let n: usize = v.len();
    let mut i: usize = 0;
    while i < n
        invariant
            i <= n,
            n == v@.len(),
            n == before.len(),
            forall|k: int| 0 <= k < i ==> (#[trigger] v@[k]).switched(&before[k], training),
            forall|k: int| i <= k < n ==> #[trigger] v@[k] == before[k],
        decreases n - i,
    {
        if training {
            v[i].train();
        } else {
            v[i].eval();
        }
        i += 1;
    }
}

fn cast_each<M: Module>(v: &mut Vec<M>, target: Dtype)
    ensures
        all_recast(final(v)@, old(v)@, target),
        all_params(final(v)@) == module::cast_all(all_params(old(v)@), target),
{
    let ghost before = v@;
    let n: usize = v.len();
    let mut i: usize = 0;
    while i < n
        invariant
            i <= n,
            n == v@.len(),
            n == before.len(),
            forall|k: int|
                0 <= k < i ==> (#[trigger] v@[k]).param_models() == module::cast_all(
                    before[k].param_models(),
                    target,
                ),
            forall|k: int| 0 <= k < i ==> (#[trigger] v@[k]).recast(&before[k], target),
            forall|k: int| i <= k < n ==> #[trigger] v@[k] == before[k],
        decreases n - i,
    {
        v[i].to_dtype(target);
        i += 1;
    }
    proof {
        lemma_cast_all(v@, before, target);
    }
}

/// Layers in a row.
#[derive(Debug)]
pub struct ModuleList<M> {
    pub modules: Vec<M>,
}

/// The shape and the state of a value in front of a layer.
pub struct InputView {
    pub shape: Seq<usize>,
    pub state: InputState,
}

/// `next` is what layer `m` makes of `value`, which is seen as `seen`: its
/// program is carried out once, on the value and the layer's own parameters.
pub open spec fn applies<T, M: Module, R: Fn(&M, &Program, T) -> Result<T, ModuleError>>(
    run: R,
    m: M,
    value: T,
    seen: InputView,
    next: Result<T, ModuleError>,
) -> bool {
    exists|p: Program|
        m.forward_model(seen.shape, seen.state) == Ok::<ProgModel, ErrorView>(p@)
            && #[trigger] call_ensures(run, (&m, &p, value), next)
}

/// `vals` and `inputs` are the values in front of the first `k + 1` layers
/// and their inputs.
pub open spec fn chain<
    T,
    M: Module,
    S: Fn(&T) -> (Vec<usize>, InputState),
    R: Fn(&M, &Program, T) -> Result<T, ModuleError>,
>(look: S, run: R, ms: Seq<M>, input: T, vals: Seq<T>, inputs: Seq<InputView>, k: int) -> bool {
    &&& vals.len() == k + 1
    &&& inputs.len() == k
    &&& vals[0] == input
    &&& forall|i: int| 0 <= i < k ==> seen_as(look, #[trigger] vals[i], inputs[i])
    &&& forall|i: int|
        0 <= i < k ==> applies(
            run,
            #[trigger] ms[i],
            vals[i],
            inputs[i],
            Ok::<T, ModuleError>(vals[i + 1]),
        )
}

/// `seen` is what may be reported for `value`.
pub open spec fn seen_as<T, S: Fn(&T) -> (Vec<usize>, InputState)>(
    look: S,
    value: T,
    seen: InputView,
) -> bool {
    exists|v: (Vec<usize>, InputState)|
        v.0@ == seen.shape && v.1 == seen.state && #[trigger] call_ensures(look, (&value,), v)
}

/// Every layer takes the value that the layers before it give.
pub open spec fn layers_accept<
    T,
    M: Module,
    S: Fn(&T) -> (Vec<usize>, InputState),
    R: Fn(&M, &Program, T) -> Result<T, ModuleError>,
>(look: S, run: R, ms: Seq<M>, input: T) -> bool {
    forall|vals: Seq<T>, inputs: Seq<InputView>, k: int, seen: InputView|
        0 <= k < ms.len() && #[trigger] chain(look, run, ms, input, vals, inputs, k)
            && #[trigger] seen_as(look, vals[k], seen) ==> ms[k].accepts(seen.shape)
}

/// The value in front of layer `k` comes from the layers before it, and layer
/// `k` does not take it.
pub open spec fn not_taken_at<
    T,
    M: Module,
    S: Fn(&T) -> (Vec<usize>, InputState),
    R: Fn(&M, &Program, T) -> Result<T, ModuleError>,
>(
    look: S,
    run: R,
    ms: Seq<M>,
    input: T,
    vals: Seq<T>,
    inputs: Seq<InputView>,
    k: int,
    seen: InputView,
) -> bool {
    &&& 0 <= k < ms.len()
    &&& chain(look, run, ms, input, vals, inputs, k)
    &&& seen_as(look, vals[k], seen)
    &&& !ms[k].accepts(seen.shape)
}

/// Some layer does not take the value that the layers before it give.
pub open spec fn not_taken<
    T,
    M: Module,
    S: Fn(&T) -> (Vec<usize>, InputState),
    R: Fn(&M, &Program, T) -> Result<T, ModuleError>,
>(look: S, run: R, ms: Seq<M>, input: T) -> bool {
    exists|vals: Seq<T>, inputs: Seq<InputView>, k: int, seen: InputView| #[trigger]
        not_taken_at(look, run, ms, input, vals, inputs, k, seen)
}

/// Layer `k` fails with `e`: either its plan is refused or its program fails.
pub open spec fn fails<
    T,
    M: Module,
    S: Fn(&T) -> (Vec<usize>, InputState),
    R: Fn(&M, &Program, T) -> Result<T, ModuleError>,
>(look: S, run: R, m: M, value: T, seen: InputView, e: ModuleError) -> bool {
    &&& seen_as(look, value, seen)
    &&& m.forward_model(seen.shape, seen.state) == Err::<ProgModel, ErrorView>(e@) || applies(
        run,
        m,
        value,
        seen,
        Err::<T, ModuleError>(e),
    )
}

/// `y` is the value behind the last layer.
pub open spec fn passed<
    T,
    M: Module,
    S: Fn(&T) -> (Vec<usize>, InputState),
    R: Fn(&M, &Program, T) -> Result<T, ModuleError>,
>(look: S, run: R, ms: Seq<M>, input: T, y: T) -> bool {
    exists|vals: Seq<T>, inputs: Seq<InputView>|
        #[trigger] chain(look, run, ms, input, vals, inputs, ms.len() as int)
            && vals[ms.len() as int] == y
}

/// Some layer fails with `e` on the value that the layers before it give.
pub open spec fn stopped<
    T,
    M: Module,
    S: Fn(&T) -> (Vec<usize>, InputState),
    R: Fn(&M, &Program, T) -> Result<T, ModuleError>,
>(look: S, run: R, ms: Seq<M>, input: T, e: ModuleError) -> bool {
    exists|vals: Seq<T>, inputs: Seq<InputView>, k: int, seen: InputView|
        #[trigger] failed_at(look, run, ms, input, vals, inputs, k, seen, e)
}

/// The outcome of passing `input` through the layers: the value behind the
/// last one, or the error of the first layer that fails.
pub open spec fn folded<
    T,
    M: Module,
    S: Fn(&T) -> (Vec<usize>, InputState),
    R: Fn(&M, &Program, T) -> Result<T, ModuleError>,
>(look: S, run: R, ms: Seq<M>, input: T, r: Result<T, ModuleError>) -> bool {
    match r {
        Ok(y) => passed(look, run, ms, input, y),
        Err(e) => stopped(look, run, ms, input, e),
    }
}

/// The value in front of layer `k` comes from the layers before it, and layer
/// `k` fails on it with `e`.
pub open spec fn failed_at<
    T,
    M: Module,
    S: Fn(&T) -> (Vec<usize>, InputState),
    R: Fn(&M, &Program, T) -> Result<T, ModuleError>,
>(
    look: S,
    run: R,
    ms: Seq<M>,
    input: T,
    vals: Seq<T>,
    inputs: Seq<InputView>,
    k: int,
    seen: InputView,
    e: ModuleError,
) -> bool {
    &&& 0 <= k < ms.len()
    &&& chain(look, run, ms, input, vals, inputs, k)
    &&& fails(look, run, ms[k], vals[k], seen, e)
}

proof fn lemma_failed<
    T,
    M: Module,
    S: Fn(&T) -> (Vec<usize>, InputState),
    R: Fn(&M, &Program, T) -> Result<T, ModuleError>,
>(
    look: S,
    run: R,
    ms: Seq<M>,
    input: T,
    vals: Seq<T>,
    inputs: Seq<InputView>,
    k: int,
    seen: InputView,
    e: ModuleError,
)
    requires
        failed_at(look, run, ms, input, vals, inputs, k, seen, e),
    ensures
        folded(look, run, ms, input, Err::<T, ModuleError>(e)),
{
}

impl<M: Module> Default for ModuleList<M> {
    /// No layers.
    fn default() -> (r: Self)
        ensures
            r.modules@ == Seq::<M>::empty(),
    {
        ModuleList::new()
    }
}

impl<M: Module> ModuleList<M> {
    /// No layers.
    pub fn new() -> (r: Self)
        ensures
            r.modules@ == Seq::<M>::empty(),
    {
        ModuleList { modules: Vec::new() }
    }

    /// The list with a further layer behind the others.
    pub fn push(self, m: M) -> (r: Self)
        ensures
            r.modules@ == self.modules@.push(m),
    {
        let mut l = self;
        l.modules.push(m);
        l
    }

    /// Number of layers.
    pub fn len(&self) -> (r: usize)
        ensures
            r == self.modules@.len(),
    {
        self.modules.len()
    }

    /// Whether there are no layers.
    pub fn is_empty(&self) -> (r: bool)
        ensures
            r == (self.modules@.len() == 0),
    {
        self.modules.len() == 0
    }

    /// The layer at an index.
    pub fn get(&self, idx: usize) -> (r: Option<&M>)
        ensures
            match r {
                Some(m) => idx < self.modules@.len() && *m == self.modules@[idx as int],
                None => idx >= self.modules@.len(),
            },
    {
        if idx < self.modules.len() {
            Some(&self.modules[idx])
        } else {
            None
        }
    }

    /// The layers in order.
    pub fn iter(&self) -> (r: Vec<&M>)
        ensures
            r@.len() == self.modules@.len(),
            forall|i: int| 0 <= i < r@.len() ==> *#[trigger] r@[i] == self.modules@[i],
    {
        let mut r: Vec<&M> = Vec::with_capacity(self.modules.len());
        let mut i: usize = 0;
        while i < self.modules.len()
            invariant
                i <= self.modules@.len(),
                r@.len() == i,
                forall|k: int| 0 <= k < i ==> *#[trigger] r@[k] == self.modules@[k],
            decreases self.modules.len() - i,
        {
            r.push(&self.modules[i]);
            i += 1;
        }
        r
    }

    /// Passes a value through all layers: each layer plans its program for
    /// the shape and the state of the value in front of it, and `run` carries
    /// the program out with that layer's parameters.
    pub fn fold<
        T,
        S: Fn(&T) -> (Vec<usize>, InputState),
        R: Fn(&M, &Program, T) -> Result<T, ModuleError>,
    >(
        &self,
        input: T,
        look: S,
        run: R,
    ) -> (r: Result<T, ModuleError>)
        requires
            forall|v: &T| #[trigger] call_requires(look, (v,)),
            forall|m: &M, p: &Program, v: T| #[trigger] call_requires(run, (m, p, v)),
            layers_accept(look, run, self.modules@, input),
        ensures
            folded(look, run, self.modules@, input, r),
    {
        self.fold_checked(input, look, run).unwrap()
    }

    /// `fold` for values that nothing is known of: `None` where a layer does
    /// not take the value in front of it.
    pub fn fold_checked<
        T,
        S: Fn(&T) -> (Vec<usize>, InputState),
        R: Fn(&M, &Program, T) -> Result<T, ModuleError>,
    >(
        &self,
        input: T,
        look: S,
        run: R,
    ) -> (r: Option<Result<T, ModuleError>>)
        requires
            forall|v: &T| #[trigger] call_requires(look, (v,)),
            forall|m: &M, p: &Program, v: T| #[trigger] call_requires(run, (m, p, v)),
        ensures
            match r {
                Some(x) => folded(look, run, self.modules@, input, x),
                None => not_taken(look, run, self.modules@, input),
            },
    {
        let ghost ms = self.modules@;
        let ghost mut vals: Seq<T> = seq![input];
        let ghost mut inputs: Seq<InputView> = seq![];
        let mut x: T = input;
        let mut i: usize = 0;
        while i < self.modules.len()
            invariant
                i <= self.modules@.len(),
                ms == self.modules@,
                forall|v: &T| #[trigger] call_requires(look, (v,)),
                forall|m: &M, p: &Program, v: T| #[trigger] call_requires(run, (m, p, v)),
                chain(look, run, ms, input, vals, inputs, i as int),
                vals[i as int] == x,
            decreases self.modules.len() - i,
        {
            let (shape, state) = look(&x);
            let ghost seen = InputView { shape: shape@, state };
            let ghost m = ms[i as int];
            let ghost front = x;
            assert(seen_as(look, x, seen));
            if !self.modules[i].takes(shape.as_slice()) {
                assert(not_taken_at(look, run, ms, input, vals, inputs, i as int, seen));
                return None;
            }
            match self.modules[i].forward(shape.as_slice(), &state) {
                Ok(p) => {
                    match run(&self.modules[i], &p, x) {
                        Ok(y) => {
                            proof {
                                let before = vals;
                                let sb = inputs;
                                assert(applies(run, m, front, seen, Ok::<T, ModuleError>(y)));
                                vals = vals.push(y);
                                inputs = inputs.push(seen);
                                assert forall|k: int| 0 <= k < i + 1 implies seen_as(
                                    look,
                                    #[trigger] vals[k],
                                    inputs[k],
                                ) by {
                                    if k < i {
                                        assert(seen_as(look, before[k], sb[k]));
                                    }
                                }
                                assert forall|k: int| 0 <= k < i + 1 implies applies(
                                    run,
                                    #[trigger] ms[k],
                                    vals[k],
                                    inputs[k],
                                    Ok::<T, ModuleError>(vals[k + 1]),
                                ) by {
                                    if k < i {
                                        assert(applies(
                                            run,
                                            ms[k],
                                            before[k],
                                            sb[k],
                                            Ok::<T, ModuleError>(before[k + 1]),
                                        ));
                                    }
                                }
                            }
                            x = y;
                        },
                        Err(e) => {
                            assert(applies(run, m, front, seen, Err::<T, ModuleError>(e)));
                            proof {
                                let k = i as int;
                                lemma_failed(look, run, ms, input, vals, inputs, k, seen, e);
                            }
                            return Some(Err(e));
                        },
                    }
                },
                Err(e) => {
                    proof {
                        let k = i as int;
                        lemma_failed(look, run, ms, input, vals, inputs, k, seen, e);
                    }
                    return Some(Err(e));
                },
            }
            i += 1;
        }
        Some(Ok(x))
    }

    /// The parameters of all layers.
    pub fn collect_parameters(&self) -> (r: Vec<Parameter>)
        ensures
            module::models(r@) == all_params(self.modules@),
    {
        collect(&self.modules)
    }
}

impl<M: Module> Module for ModuleList<M> {
    open spec fn param_models(&self) -> Seq<ParamModel> {
        all_params(self.modules@)
    }

    open spec fn param_names(&self) -> Seq<Seq<char>> {
        module::index_names(all_params(self.modules@).len())
    }

    open spec fn forward_model(&self, shape: Seq<usize>, state: InputState) -> Result<
        ProgModel,
        ErrorView,
    > {
        Ok(ProgModel::start(1 + all_params(self.modules@).len()))
    }

    open spec fn accepts(&self, shape: Seq<usize>) -> bool {
        all_params(self.modules@).len() < usize::MAX
    }

    open spec fn switched(&self, before: &Self, training: bool) -> bool {
        all_switched(self.modules@, before.modules@, training)
    }

    open spec fn recast(&self, before: &Self, target: Dtype) -> bool {
        all_recast(self.modules@, before.modules@, target)
    }

    fn takes(&self, shape: &[usize]) -> (r: bool) {
        self.collect_parameters().len() < usize::MAX
    }

    /// Hands the input back; `fold` passes it through the layers.
    fn forward(&self, shape: &[usize], state: &InputState) -> (r: Result<Program, ModuleError>) {
        Ok(Program::start(1 + self.collect_parameters().len()))
    }

    fn parameters(&self) -> (r: Vec<Parameter>) {
        self.collect_parameters()
    }

    fn named_parameters(&self) -> (r: Vec<(String, Parameter)>) {
        let ps = self.collect_parameters();
        module::index_named(&ps)
    }

    fn train(&mut self) {
        switch_all(&mut self.modules, true);
    }

    fn eval(&mut self) {
        switch_all(&mut self.modules, false);
    }

    fn to_dtype(&mut self, target: Dtype) {
        cast_each(&mut self.modules, target);
    }
}

/// Layers by name, in the order of their first insertion.
#[derive(Debug)]
pub struct ModuleDict<M> {
    keys: Vec<String>,
    modules: Vec<M>,
}

/// The names as mathematical values.
pub open spec fn key_views(s: Seq<String>) -> Seq<Seq<char>> {
    Seq::new(s.len(), |i: int| s[i]@)
}

/// A dictionary, as a mathematical value: names and layers in order.
pub struct DictModel<M> {
    pub keys: Seq<Seq<char>>,
    pub modules: Seq<M>,
}

impl<M> DictModel<M> {
    /// Each layer has a name, and no name occurs twice.
    pub open spec fn wf(self) -> bool {
        self.keys.len() == self.modules.len() && self.keys.no_duplicates()
    }

    /// The layer with the given name.
    pub open spec fn lookup(self, key: Seq<char>) -> Option<M> {
        if self.keys.contains(key) {
            Some(self.modules[self.keys.index_of(key)])
        } else {
            None
        }
    }

    /// The dictionary with `m` under `key`: in the place of the layer that
    /// had the name, or behind all others.
    pub open spec fn inserted(self, key: Seq<char>, m: M) -> Self {
        if self.keys.contains(key) {
            DictModel {
                keys: self.keys,
                modules: self.modules.update(self.keys.index_of(key), m),
            }
        } else {
            DictModel { keys: self.keys.push(key), modules: self.modules.push(m) }
        }
    }
}

impl<M> View for ModuleDict<M> {
    type V = DictModel<M>;

    closed spec fn view(&self) -> DictModel<M> {
        DictModel { keys: key_views(self.keys@), modules: self.modules@ }
    }
}

impl<M: Module> Default for ModuleDict<M> {
    /// No layers.
    fn default() -> (r: Self)
        ensures
            r@.wf(),
            r@ == (DictModel::<M> { keys: seq![], modules: seq![] }),
    {
        ModuleDict::new()
    }
}

impl<M: Module> ModuleDict<M> {
    /// No layers.
    pub fn new() -> (r: Self)
        ensures
            r@.wf(),
            r@ == (DictModel::<M> { keys: seq![], modules: seq![] }),
    {
        let r = ModuleDict { keys: Vec::new(), modules: Vec::new() };
        assert(r@.keys =~= seq![]);
        assert(r@.modules =~= seq![]);
        r
    }

    fn find(&self, key: &str) -> (r: Option<usize>)
        requires
            self@.wf(),
        ensures
            match r {
                Some(i) => self@.keys.contains(key@) && i == self@.keys.index_of(key@) && i
                    < self@.keys.len(),
                None => !self@.keys.contains(key@),
            },
    {
        let mut i: usize = 0;
        while i < self.keys.len()
            invariant
                self@.wf(),
                i <= self.keys@.len(),
                forall|j: int| 0 <= j < i ==> #[trigger] self@.keys[j] != key@,
            decreases self.keys.len() - i,
        {
            if text::str_same(self.keys[i].as_str(), key) {
                assert(self@.keys[i as int] == key@);
                return Some(i);
            }
            assert(self@.keys[i as int] != key@);
            i += 1;
        }
        assert(self@.keys.len() == i);
        None
    }

    /// The dictionary with a layer under a name; a layer that had the name is
    /// replaced.
    pub fn insert(self, key: &str, m: M) -> (r: Self)
        requires
            self@.wf(),
        ensures
            r@.wf(),
            r@ == self@.inserted(key@, m),
    {
        let mut d = self;
        match d.find(key) {
            Some(i) => {
                d.modules.set(i, m);
                assert(d@.keys =~= self@.keys);
            },
            None => {
                d.keys.push(key.to_owned());
                d.modules.push(m);
                assert(d@.keys =~= self@.keys.push(key@));
                assert(d@.keys.no_duplicates());
            },
        }
        d
    }

    /// Number of layers.
    pub fn len(&self) -> (r: usize)
        requires
            self@.wf(),
        ensures
            r == self@.keys.len(),
    {
        self.keys.len()
    }

    /// Whether there are no layers.
    pub fn is_empty(&self) -> (r: bool)
        requires
            self@.wf(),
        ensures
            r == (self@.keys.len() == 0),
    {
        self.keys.len() == 0
    }

    /// The layer with the given name.
    pub fn get(&self, key: &str) -> (r: Option<&M>)
        requires
            self@.wf(),
        ensures
            match r {
                Some(m) => self@.lookup(key@) == Some(*m),
                None => self@.lookup(key@) is None,
            },
    {
        match self.find(key) {
            Some(i) => Some(&self.modules[i]),
            None => None,
        }
    }

    /// The names in the order of their first insertion.
    pub fn keys(&self) -> (r: Vec<&str>)
        ensures
            r@.len() == self@.keys.len(),
            forall|i: int| 0 <= i < r@.len() ==> (#[trigger] r@[i])@ == self@.keys[i],
    {
        let mut r: Vec<&str> = Vec::with_capacity(self.keys.len());
        let mut i: usize = 0;
        while i < self.keys.len()
            invariant
                i <= self.keys@.len(),
                r@.len() == i,
                forall|k: int| 0 <= k < i ==> (#[trigger] r@[k])@ == self@.keys[k],
            decreases self.keys.len() - i,
        {
            r.push(self.keys[i].as_str());
            i += 1;
        }
        r
    }
}

impl<M: Module> Module for ModuleDict<M> {
    open spec fn param_models(&self) -> Seq<ParamModel> {
        all_params(self@.modules)
    }

    open spec fn param_names(&self) -> Seq<Seq<char>> {
        module::index_names(all_params(self@.modules).len())
    }

    open spec fn forward_model(&self, shape: Seq<usize>, state: InputState) -> Result<
        ProgModel,
        ErrorView,
    > {
        Ok(ProgModel::start(1 + all_params(self@.modules).len()))
    }

    open spec fn accepts(&self, shape: Seq<usize>) -> bool {
        all_params(self@.modules).len() < usize::MAX
    }

    open spec fn switched(&self, before: &Self, training: bool) -> bool {
        self@.keys == before@.keys && all_switched(self@.modules, before@.modules, training)
    }

    open spec fn recast(&self, before: &Self, target: Dtype) -> bool {
        self@.keys == before@.keys && all_recast(self@.modules, before@.modules, target)
    }

    fn takes(&self, shape: &[usize]) -> (r: bool) {
        collect(&self.modules).len() < usize::MAX
    }

    /// Hands the input back; callers pick layers by name.
    fn forward(&self, shape: &[usize], state: &InputState) -> (r: Result<Program, ModuleError>) {
        let ps = collect(&self.modules);
        assert(module::models(ps@).len() == ps@.len());
        Ok(Program::start(1 + ps.len()))
    }

    fn parameters(&self) -> (r: Vec<Parameter>) {
        collect(&self.modules)
    }

    fn named_parameters(&self) -> (r: Vec<(String, Parameter)>) {
        let ps = collect(&self.modules);
        assert(module::models(ps@).len() == ps@.len());
        module::index_named(&ps)
    }

    fn train(&mut self) {
        switch_all(&mut self.modules, true);
    }

    fn eval(&mut self) {
        switch_all(&mut self.modules, false);
    }

    fn to_dtype(&mut self, target: Dtype) {
        cast_each(&mut self.modules, target);
    }
}

/// A lookup gives back the last layer that was inserted under the name, and
/// insertion under one name leaves the others alone.
pub proof fn law_lookup_after_insert<M>(
    d: DictModel<M>,
    key: Seq<char>,
    m: M,
    other: Seq<char>,
)
    requires
        d.wf(),
        other != key,
    ensures
        d.inserted(key, m).wf(),
        d.inserted(key, m).lookup(key) == Some(m),
        d.inserted(key, m).lookup(other) == d.lookup(other),
{
    let e = d.inserted(key, m);
    if d.keys.contains(key) {
        let i = d.keys.index_of(key);
        if d.keys.contains(other) {
            let j = d.keys.index_of(other);
            assert(i != j);
        }
    } else {
        let n = d.keys.len() as int;
        assert(e.keys[n] == key);
        assert(e.keys.contains(key));
        assert(e.keys.index_of(key) == n);
        if d.keys.contains(other) {
            let j = d.keys.index_of(other);
            assert(e.keys[j] == other);
            assert(e.keys.contains(other));
            let k = e.keys.index_of(other);
            assert(e.keys[k] == other && k != n);
            assert(d.keys[k] == other);
        } else {
            if e.keys.contains(other) {
                let k = e.keys.index_of(other);
                assert(d.keys[k] == other);
            }
        }
    }
}

/// Inserting under a name that is there keeps the order of the names, and
/// inserting under a new one puts it last.
pub proof fn law_insertion_order<M>(d: DictModel<M>, key: Seq<char>, m: M)
    ensures
        d.keys.contains(key) ==> d.inserted(key, m).keys == d.keys,
        !d.keys.contains(key) ==> d.inserted(key, m).keys == d.keys.push(key),
{
}

/// The parameters of a list with a further layer are those of the list
/// followed by those of the layer.
pub proof fn law_push_appends_params<M: Module>(s: Seq<M>, m: M)
    ensures
        all_params(s.push(m)) == all_params(s) + m.param_models(),
{
    assert(s.push(m).drop_last() =~= s);
}

/// `x` is looked at as `v`, the layer plans `p` for that, and carrying `p` out
/// on `x` gives `y`.
pub open spec fn goes_through<
    T,
    M: Module,
    S: Fn(&T) -> (Vec<usize>, InputState),
    R: Fn(&M, &Program, T) -> Result<T, ModuleError>,
>(
    look: S,
    run: R,
    m: M,
    x: T,
    v: (Vec<usize>, InputState),
    p: Program,
    y: T,
) -> bool {
    &&& call_ensures(look, (&x,), v)
    &&& m.forward_model(v.0@, v.1) == Ok::<ProgModel, ErrorView>(p@)
    &&& call_ensures(run, (&m, &p, x), Ok::<T, ModuleError>(y))
}

proof fn lemma_fold_shrinks<
    T,
    M: Module,
    S: Fn(&T) -> (Vec<usize>, InputState),
    R: Fn(&M, &Program, T) -> Result<T, ModuleError>,
>(look: S, run: R, ms: Seq<M>, m: M, input: T, y: T)
    requires
        passed(look, run, ms.push(m), input, y),
    ensures
        exists|x: T, v: (Vec<usize>, InputState), p: Program|
            passed(look, run, ms, input, x) && #[trigger] goes_through(look, run, m, x, v, p, y),
{
    let n = ms.len() as int;
    let longer = ms.push(m);
    assert(longer.len() == n + 1);
    let (vals, inputs) = choose|vals: Seq<T>, inputs: Seq<InputView>|
        #[trigger] chain(look, run, longer, input, vals, inputs, longer.len() as int)
            && vals[longer.len() as int] == y;
    let front = vals.drop_last();
    let seen = inputs.drop_last();
    assert forall|i: int| 0 <= i < n implies seen_as(look, #[trigger] front[i], seen[i]) by {
        assert(seen_as(look, vals[i], inputs[i]));
    }
    assert forall|i: int| 0 <= i < n implies applies(
        run,
        #[trigger] ms[i],
        front[i],
        seen[i],
        Ok::<T, ModuleError>(front[i + 1]),
    ) by {
        assert(longer[i] == ms[i]);
        assert(applies(run, longer[i], vals[i], inputs[i], Ok::<T, ModuleError>(vals[i + 1])));
    }
    assert(chain(look, run, ms, input, front, seen, n));
    let x = vals[n];
    assert(front[n] == x);
    assert(passed(look, run, ms, input, x));
    assert(seen_as(look, vals[n], inputs[n]));
    assert(longer[n] == m);
    assert(applies(run, longer[n], vals[n], inputs[n], Ok::<T, ModuleError>(vals[n + 1])));
    let v = choose|v: (Vec<usize>, InputState)|
        v.0@ == inputs[n].shape && v.1 == inputs[n].state && #[trigger] call_ensures(
            look,
            (&x,),
            v,
        );
    let p = choose|p: Program|
        m.forward_model(inputs[n].shape, inputs[n].state) == Ok::<ProgModel, ErrorView>(p@)
            && #[trigger] call_ensures(run, (&m, &p, x), Ok::<T, ModuleError>(y));
    assert(goes_through(look, run, m, x, v, p, y));
}

proof fn lemma_fold_grows<
    T,
    M: Module,
    S: Fn(&T) -> (Vec<usize>, InputState),
    R: Fn(&M, &Program, T) -> Result<T, ModuleError>,
>(
    look: S,
    run: R,
    ms: Seq<M>,
    m: M,
    input: T,
    x: T,
    v: (Vec<usize>, InputState),
    p: Program,
    y: T,
)
    requires
        passed(look, run, ms, input, x),
        goes_through(look, run, m, x, v, p, y),
    ensures
        passed(look, run, ms.push(m), input, y),
{
    let n = ms.len() as int;
    let longer = ms.push(m);
    let (front, before) = choose|vals: Seq<T>, inputs: Seq<InputView>|
        #[trigger] chain(look, run, ms, input, vals, inputs, ms.len() as int)
            && vals[ms.len() as int] == x;
    let seen = InputView { shape: v.0@, state: v.1 };
    let vals = front.push(y);
    let inputs = before.push(seen);
    assert(seen_as(look, x, seen));
    assert(applies(run, m, x, seen, Ok::<T, ModuleError>(y)));
    assert forall|i: int| 0 <= i < n + 1 implies seen_as(look, #[trigger] vals[i], inputs[i]) by {
        if i < n {
            assert(seen_as(look, front[i], before[i]));
        }
    }
    assert forall|i: int| 0 <= i < n + 1 implies applies(
        run,
        #[trigger] longer[i],
        vals[i],
        inputs[i],
        Ok::<T, ModuleError>(vals[i + 1]),
    ) by {
        if i < n {
            assert(applies(run, ms[i], front[i], before[i], Ok::<T, ModuleError>(front[i + 1])));
        }
    }
    assert(longer.len() == n + 1);
    assert(chain(look, run, longer, input, vals, inputs, longer.len() as int));
    assert(vals[longer.len() as int] == y);
}

/// A value that passes through no layers stays as it is, and one that passes
/// through a list with a further layer passes through the list first: what
/// comes out is looked at, the layer plans for what is seen, and its program
/// is carried out on it.
pub proof fn law_fold_composes<
    T,
    M: Module,
    S: Fn(&T) -> (Vec<usize>, InputState),
    R: Fn(&M, &Program, T) -> Result<T, ModuleError>,
>(look: S, run: R, ms: Seq<M>, m: M, input: T, y: T)
    ensures
        passed(look, run, Seq::<M>::empty(), input, y) <==> y == input,
        passed(look, run, ms.push(m), input, y) <==> exists|
            x: T,
            v: (Vec<usize>, InputState),
            p: Program,
        |
            passed(look, run, ms, input, x) && #[trigger] goes_through(look, run, m, x, v, p, y),
{
    let none = Seq::<M>::empty();
    if y == input {
        let vals = seq![input];
        let inputs = Seq::<InputView>::empty();
        assert(chain(look, run, none, input, vals, inputs, none.len() as int));
        assert(vals[none.len() as int] == y);
    }
    if passed(look, run, ms.push(m), input, y) {
        lemma_fold_shrinks(look, run, ms, m, input, y);
    }
    assert forall|x: T, v: (Vec<usize>, InputState), p: Program|
        passed(look, run, ms, input, x) && #[trigger] goes_through(
            look,
            run,
            m,
            x,
            v,
            p,
            y,
        ) implies passed(look, run, ms.push(m), input, y) by {
        lemma_fold_grows(look, run, ms, m, input, x, v, p, y);
    }
}

/// What the calls do to a list and a dictionary: a pushed layer stands last, a
/// layer that is got by index or name is the one that was put there, and
/// inserting under a name replaces at most that name's layer.
pub proof fn law_container_calls<M: Module>(
    l: ModuleList<M>,
    longer: ModuleList<M>,
    i: usize,
    d: ModuleDict<M>,
    e: ModuleDict<M>,
    key: &str,
    m: M,
    found: Option<&M>,
    other: Seq<char>,
)
    requires
        d@.wf(),
        other != key@,
    ensures
        call_ensures(ModuleList::<M>::push, (l, m), longer) ==> {
            &&& longer.modules@.len() == l.modules@.len() + 1
            &&& longer.modules@[l.modules@.len() as int] == m
            &&& forall|j: int|
                0 <= j < l.modules@.len() ==> #[trigger] longer.modules@[j] == l.modules@[j]
        },
        call_ensures(ModuleList::<M>::get, (&l, i), found) ==> (found is Some <==> i
            < l.modules@.len()) && (found matches Some(x) ==> *x == l.modules@[i as int]),
        call_ensures(ModuleDict::<M>::insert, (d, key, m), e) ==> {
            &&& e@.wf()
            &&& e@.lookup(key@) == Some(m)
            &&& e@.lookup(other) == d@.lookup(other)
        },
        call_ensures(ModuleDict::<M>::get, (&d, key), found) ==> (found is Some <==> d@.keys.contains(
            key@,
        )) && (found matches Some(x) ==> d@.lookup(key@) == Some(*x)),
{
    law_lookup_after_insert(d@, key@, m, other);
}

} // verus!
