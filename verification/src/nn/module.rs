//! What every layer offers: its forward program and its parameters.
use crate::nn::param::{Dtype, ParamModel, Parameter};
use crate::nn::program::{ProgModel, Program};
use crate::text;
use crate::text::Text;
use vstd::prelude::*;

verus! {

/// What is known of the tensor that a layer is applied to, besides its shape.
#[derive(Debug, Clone, Copy)]
pub struct InputState {
    /// Gradients are tracked.
    pub tracking: bool,
    pub dtype: Dtype,
    /// The elements lie in row-major order without gaps.
    pub contiguous: bool,
}

/// An error of a forward pass.
#[derive(Debug)]
pub struct ModuleError {
    /// The operation that failed.
    pub op: &'static str,
    /// Why it failed.
    pub message: String,
}

/// An error of a forward pass, as a mathematical value.
pub struct ErrorView {
    pub op: Seq<char>,
    pub message: Seq<char>,
}

impl View for ModuleError {
    type V = ErrorView;

    open spec fn view(&self) -> ErrorView {
        ErrorView { op: self.op@, message: self.message@ }
    }
}

/// An error with a finished text.
pub fn module_error(op: &'static str, t: Text) -> (r: ModuleError)
    ensures
        r@ == (ErrorView { op: op@, message: t@ }),
{
    ModuleError { op, message: t.finish() }
}

/// The outcome of planning a forward pass, as a mathematical value.
pub open spec fn planned(r: Result<Program, ModuleError>) -> Result<ProgModel, ErrorView> {
    match r {
        Ok(p) => Ok(p@),
        Err(e) => Err(e@),
    }
}

/// The outcome that is `p` where `error` is `None`.
pub open spec fn outcome(error: Option<ErrorView>, p: ProgModel) -> Result<ProgModel, ErrorView> {
    match error {
        Some(e) => Err(e),
        None => Ok(p),
    }
}

/// The parameters as mathematical values.
pub open spec fn models(v: Seq<Parameter>) -> Seq<ParamModel> {
    Seq::new(v.len(), |i: int| v[i]@)
}

/// The names of named parameters.
pub open spec fn names(v: Seq<(String, Parameter)>) -> Seq<Seq<char>> {
    Seq::new(v.len(), |i: int| v[i].0@)
}

/// The values of named parameters.
pub open spec fn named_models(v: Seq<(String, Parameter)>) -> Seq<ParamModel> {
    Seq::new(v.len(), |i: int| v[i].1@)
}

/// Every parameter in another number format.
pub open spec fn cast_all(s: Seq<ParamModel>, target: Dtype) -> Seq<ParamModel> {
    Seq::new(s.len(), |i: int| s[i].cast(target))
}

/// Every name behind a prefix.
pub open spec fn prefixed(prefix: Seq<char>, s: Seq<Seq<char>>) -> Seq<Seq<char>> {
    Seq::new(s.len(), |i: int| prefix + s[i])
}

/// The names `0`, `1`, and so on.
pub open spec fn index_names(n: nat) -> Seq<Seq<char>> {
    Seq::new(n, |i: int| text::decimal(i as nat))
}

/// A layer.
///
/// The inputs of a forward program are the tensor that the layer is applied
/// to, followed by the layer's parameters in their order.
pub trait Module: Sized {
    /// The parameters of the layer and of the layers inside it.
    spec fn param_models(&self) -> Seq<ParamModel>;

    /// The names of the parameters, in the same order.
    spec fn param_names(&self) -> Seq<Seq<char>>;

    /// The forward pass on an input of the given shape and state.
    spec fn forward_model(&self, shape: Seq<usize>, state: InputState) -> Result<
        ProgModel,
        ErrorView,
    >;

    /// The layer is in order and no size leaves the machine range.
    spec fn accepts(&self, shape: Seq<usize>) -> bool;

    /// `self` is `before` switched to training mode or out of it.
    spec fn switched(&self, before: &Self, training: bool) -> bool;

    /// `self` is `before` with every parameter in another number format and
    /// everything else as it was.
    spec fn recast(&self, before: &Self, target: Dtype) -> bool;

    /// Whether the layer is in order and no size leaves the machine range.
    fn takes(&self, shape: &[usize]) -> (r: bool)
        ensures
            r == self.accepts(shape@),
    ;

    /// Plans the forward pass on an input of the given shape and state.
    fn forward(&self, shape: &[usize], state: &InputState) -> (r: Result<Program, ModuleError>)
        requires
            self.accepts(shape@),
        ensures
            planned(r) == self.forward_model(shape@, *state),
    ;

    /// The trainable parameters, in a stable order.
    fn parameters(&self) -> (r: Vec<Parameter>)
        ensures
            models(r@) == self.param_models(),
    ;

    /// The trainable parameters with their names.
    fn named_parameters(&self) -> (r: Vec<(String, Parameter)>)
        ensures
            names(r@) == self.param_names(),
            named_models(r@) == self.param_models(),
    ;

    /// Switches to training mode.
    fn train(&mut self)
        ensures
            final(self).switched(old(self), true),
    ;

    /// Switches to evaluation mode.
    fn eval(&mut self)
        ensures
            final(self).switched(old(self), false),
    ;

    /// Casts every parameter and leaves everything else alone.
    fn to_dtype(&mut self, target: Dtype)
        ensures
            final(self).recast(old(self), target),
            final(self).param_models() == cast_all(old(self).param_models(), target),
            final(self).param_names() == old(self).param_names(),
    ;

    /// Casts every parameter to the 16-bit format with an 8-bit exponent.
    fn to_bf16(&mut self)
        ensures
            final(self).recast(old(self), Dtype::BF16),
            final(self).param_models() == cast_all(old(self).param_models(), Dtype::BF16),
            final(self).param_names() == old(self).param_names(),
    {
        self.to_dtype(Dtype::BF16);
    }

    /// Casts every parameter to the 16-bit format with a 5-bit exponent.
    fn to_f16(&mut self)
        ensures
            final(self).recast(old(self), Dtype::F16),
            final(self).param_models() == cast_all(old(self).param_models(), Dtype::F16),
            final(self).param_names() == old(self).param_names(),
    {
        self.to_dtype(Dtype::F16);
    }

    /// Casts every parameter back to single precision.
    fn to_f32(&mut self)
        ensures
            final(self).recast(old(self), Dtype::F32),
            final(self).param_models() == cast_all(old(self).param_models(), Dtype::F32),
            final(self).param_names() == old(self).param_names(),
    {
        self.to_dtype(Dtype::F32);
    }
}

/// No parameters.
pub fn no_params() -> (r: Vec<Parameter>)
    ensures
        models(r@) == Seq::<ParamModel>::empty(),
{
    let r: Vec<Parameter> = Vec::new();
    assert(models(r@) =~= Seq::<ParamModel>::empty());
    r
}

/// Appends one parameter.
pub fn push_param(v: &mut Vec<Parameter>, p: Parameter)
    ensures
        models(final(v)@) == models(old(v)@).push(p@),
{
    v.push(p);
    assert(models(v@) =~= models(old(v)@).push(p@));
}

/// Appends all parameters of `more`.
pub fn extend_params(v: &mut Vec<Parameter>, more: Vec<Parameter>)
    ensures
        models(final(v)@) == models(old(v)@) + models(more@),
{
    let mut rest = more;
    v.append(&mut rest);
    assert(models(v@) =~= models(old(v)@) + models(more@));
}

/// No named parameters.
pub fn no_named() -> (r: Vec<(String, Parameter)>)
    ensures
        names(r@) == Seq::<Seq<char>>::empty(),
        named_models(r@) == Seq::<ParamModel>::empty(),
{
    let r: Vec<(String, Parameter)> = Vec::new();
    assert(names(r@) =~= Seq::<Seq<char>>::empty());
    assert(named_models(r@) =~= Seq::<ParamModel>::empty());
    r
}

/// Appends one named parameter.
pub fn push_named(v: &mut Vec<(String, Parameter)>, name: &str, p: Parameter)
    ensures
        names(final(v)@) == names(old(v)@).push(name@),
        named_models(final(v)@) == named_models(old(v)@).push(p@),
{
    v.push((name.to_owned(), p));
    assert(names(v@) =~= names(old(v)@).push(name@));
    assert(named_models(v@) =~= named_models(old(v)@).push(p@));
}

/// Appends all named parameters of `more` behind a prefix.
pub fn extend_named(
    v: &mut Vec<(String, Parameter)>,
    prefix: &str,
    more: &Vec<(String, Parameter)>,
)
    ensures
        names(final(v)@) == names(old(v)@) + prefixed(prefix@, names(more@)),
        named_models(final(v)@) == named_models(old(v)@) + named_models(more@),
{
    let ghost n0 = names(v@);
    let ghost m0 = named_models(v@);
    let ghost n1 = prefixed(prefix@, names(more@));
    let ghost m1 = named_models(more@);
    let mut i: usize = 0;
    assert(n1.take(0) =~= Seq::empty() && m1.take(0) =~= Seq::empty());
    assert(n0 + n1.take(0) =~= n0 && m0 + m1.take(0) =~= m0);
    while i < more.len()
        invariant
            i <= more@.len(),
            n1 == prefixed(prefix@, names(more@)),
            m1 == named_models(more@),
            names(v@) == n0 + n1.take(i as int),
            named_models(v@) == m0 + m1.take(i as int),
        decreases more.len() - i,
    {
        let name = Text::start(prefix).lit(more[i].0.as_str()).finish();
        push_named(v, name.as_str(), more[i].1.copy());
        proof {
            assert(n1.take(i + 1) =~= n1.take(i as int).push(n1[i as int]));
            assert(m1.take(i + 1) =~= m1.take(i as int).push(m1[i as int]));
            assert(names(v@) =~= n0 + n1.take(i + 1));
            assert(named_models(v@) =~= m0 + m1.take(i + 1));
        }
        i += 1;
    }
    assert(n1.take(n1.len() as int) =~= n1 && m1.take(m1.len() as int) =~= m1);
}

/// Names parameters by their index.
pub fn index_named(params: &Vec<Parameter>) -> (r: Vec<(String, Parameter)>)
    ensures
        names(r@) == index_names(params@.len()),
        named_models(r@) == models(params@),
{
    let mut r = no_named();
    let mut i: usize = 0;
    let ghost ms = models(params@);
    while i < params.len()
        invariant
            i <= params@.len(),
            ms == models(params@),
            names(r@) == index_names(i as nat),
            named_models(r@) == ms.take(i as int),
        decreases params.len() - i,
    {
        let name = Text::start("").num(i).finish();
        proof {
            reveal_strlit("");
            assert(name@ =~= text::decimal(i as nat));
        }
        push_named(&mut r, name.as_str(), params[i].copy());
        proof {
            assert(names(r@) =~= index_names((i + 1) as nat));
            assert(named_models(r@) =~= ms.take(i + 1));
        }
        i += 1;
    }
    assert(ms.take(ms.len() as int) =~= ms);
    r
}

/// A cast to a format that all parameters have already changes nothing.
pub proof fn law_cast_to_same_is_noop(s: Seq<ParamModel>, target: Dtype)
    requires
        forall|i: int| 0 <= i < s.len() ==> (#[trigger] s[i]).dtype == target,
    ensures
        cast_all(s, target) == s,
{
    assert(cast_all(s, target) =~= s);
}

/// Of two casts the second decides the format, a repeated cast changes nothing
/// more, and what the parameters were filled with is kept. A cast back restores
/// the formats; the elements may have been rounded on the way, which the list
/// of conversions shows.
pub proof fn law_cast_twice(s: Seq<ParamModel>, first: Dtype, second: Dtype)
    ensures
        cast_all(cast_all(s, first), first) == cast_all(s, first),
        forall|i: int|
            0 <= i < s.len() ==> {
                let c = #[trigger] cast_all(cast_all(s, first), second)[i];
                &&& c.dtype == second
                &&& c.shape == s[i].shape
                &&& c.values == s[i].values
                &&& first != second ==> c.casts == s[i].cast(first).casts.push(second)
            },
{
    assert(cast_all(cast_all(s, first), first) =~= cast_all(s, first));
}

/// Parameters that are named by their index are numbered in their order from
/// zero, and a prefix stands in front of every name.
pub proof fn law_names_follow_the_order(n: nat, prefix: Seq<char>, s: Seq<Seq<char>>, i: int)
    ensures
        0 <= i < n ==> text::number_of(index_names(n)[i]) == i,
        0 <= i < s.len() ==> prefixed(prefix, s)[i] == prefix + s[i],
        index_names(n).len() == n,
        prefixed(prefix, s).len() == s.len(),
{
    if 0 <= i < n {
        text::law_decimal_reads_back(i as nat);
    }
}

} // verus!
