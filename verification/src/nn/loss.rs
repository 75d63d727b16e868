//! Loss functions.
use crate::nn::module::ModuleError;
use crate::nn::module::ErrorView;
use crate::nn::meaning;
use crate::nn::meaning::Num;
use crate::nn::program::Dense;
use vstd::prelude::*;

verus! {

/// What becomes of the losses of the elements.
#[derive(Debug, Clone, Copy, PartialEq, Eq, Structural)]
pub enum Reduction {
    /// They stay as they are.
    Each,
    /// Their mean.
    Mean,
    /// Their sum.
    Sum,
}

/// The computation of a loss from a prediction and a target.
#[derive(Debug)]
pub enum LossCall {
    /// Squared differences.
    Mse(Reduction),
    /// Negative log-likelihood of the softmax at the target class.
    CrossEntropy(Reduction),
    /// Connectionist temporal classification, with the lengths of the inputs
    /// and targets of each sample. Gradients do not flow through it.
    Ctc { input_lens: Vec<i64>, target_lens: Vec<i64>, reduction: Reduction },
}

/// The computation of a loss, as a mathematical value.
pub enum LossModel {
    Mse(Reduction),
    CrossEntropy(Reduction),
    Ctc { input_lens: Seq<i64>, target_lens: Seq<i64>, reduction: Reduction },
}

impl View for LossCall {
    type V = LossModel;

    open spec fn view(&self) -> LossModel {
        match self {
            LossCall::Mse(r) => LossModel::Mse(*r),
            LossCall::CrossEntropy(r) => LossModel::CrossEntropy(*r),
            LossCall::Ctc { input_lens, target_lens, reduction } => LossModel::Ctc {
                input_lens: input_lens@,
                target_lens: target_lens@,
                reduction: *reduction,
            },
        }
    }
}

/// A loss function.
pub trait Criterion: Sized {
    /// The computation.
    spec fn loss_model(&self) -> LossModel;

    /// Plans the computation of the loss.
    fn forward(&self) -> (r: LossCall)
        ensures
            r@ == self.loss_model(),
    ;
}

/// Mean squared error.
#[derive(Debug, Clone, Copy)]
pub struct MseLoss {
    pub reduction: Reduction,
}

impl MseLoss {
    /// With the given reduction.
    pub fn new(reduction: Reduction) -> (r: Self)
        ensures
            r.reduction == reduction,
    {
        MseLoss { reduction }
    }
}

impl Default for MseLoss {
    fn default() -> (r: Self)
        ensures
            r.reduction == Reduction::Mean,
    {
        MseLoss { reduction: Reduction::Mean }
    }
}

impl Criterion for MseLoss {
    open spec fn loss_model(&self) -> LossModel {
        LossModel::Mse(self.reduction)
    }

    fn forward(&self) -> (r: LossCall) {
        LossCall::Mse(self.reduction)
    }
}

/// Cross entropy of logits against target classes.
#[derive(Debug, Clone, Copy)]
pub struct CrossEntropyLoss {
    pub reduction: Reduction,
}

impl CrossEntropyLoss {
    /// With the given reduction.
    pub fn new(reduction: Reduction) -> (r: Self)
        ensures
            r.reduction == reduction,
    {
        CrossEntropyLoss { reduction }
    }
}

impl Default for CrossEntropyLoss {
    fn default() -> (r: Self)
        ensures
            r.reduction == Reduction::Mean,
    {
        CrossEntropyLoss { reduction: Reduction::Mean }
    }
}

impl Criterion for CrossEntropyLoss {
    open spec fn loss_model(&self) -> LossModel {
        LossModel::CrossEntropy(self.reduction)
    }

    fn forward(&self) -> (r: LossCall) {
        LossCall::CrossEntropy(self.reduction)
    }
}

/// Connectionist temporal classification.
#[derive(Debug)]
pub struct CTCLoss {
    pub reduction: Reduction,
    /// Length of each input.
    pub input_lens: Vec<i64>,
    /// Length of each target.
    pub target_lens: Vec<i64>,
}

fn copy_lens(v: &Vec<i64>) -> (r: Vec<i64>)
    ensures
        r@ == v@,
{
    let mut r: Vec<i64> = Vec::with_capacity(v.len());
    let mut i: usize = 0;
    while i < v.len()
        invariant
            i <= v@.len(),
            r@ == v@.take(i as int),
        decreases v.len() - i,
    {
        r.push(v[i]);
        assert(r@ =~= v@.take(i + 1));
        i += 1;
    }
    assert(v@.take(v@.len() as int) =~= v@);
    r
}

impl CTCLoss {
    /// With the lengths of the inputs and targets of each sample.
    pub fn new(input_lens: Vec<i64>, target_lens: Vec<i64>, reduction: Reduction) -> (r: Self)
        ensures
            r.input_lens@ == input_lens@,
            r.target_lens@ == target_lens@,
            r.reduction == reduction,
    {
        CTCLoss { reduction, input_lens, target_lens }
    }

    /// The error that a failure of the computation is reported as.
    pub fn failure(message: String) -> (r: ModuleError)
        ensures
            r@ == (ErrorView { op: "ctc_loss"@, message: message@ }),
    {
        ModuleError { op: "ctc_loss", message }
    }
}

impl Criterion for CTCLoss {
    open spec fn loss_model(&self) -> LossModel {
        LossModel::Ctc {
            input_lens: self.input_lens@,
            target_lens: self.target_lens@,
            reduction: self.reduction,
        }
    }

    fn forward(&self) -> (r: LossCall) {
        LossCall::Ctc {
            input_lens: copy_lens(&self.input_lens),
            target_lens: copy_lens(&self.target_lens),
            reduction: self.reduction,
        }
    }
}

/// What a reduction makes of the losses `f(0), .., f(n - 1)`.
pub open spec fn reduced<T>(
    num: Num<T>,
    reduction: Reduction,
    n: nat,
    f: spec_fn(int) -> T,
) -> Seq<T> {
    match reduction {
        Reduction::Each => Seq::new(n, f),
        Reduction::Mean => seq![num.mean(n as int, f)],
        Reduction::Sum => seq![num.sum(n as int, f)],
    }
}

/// What connectionist temporal classification gives for log-probabilities,
/// targets, the lengths of the inputs and of the targets, and a reduction.
pub type CtcKernel<T> = spec_fn(Dense<T>, Dense<T>, Seq<i64>, Seq<i64>, Reduction) -> Seq<T>;

/// The numbers that a loss gives for a prediction and a target. `log` is the
/// logarithm of the numbers and `ctc` what connectionist temporal
/// classification computes.
pub open spec fn loss_value<T>(
    num: Num<T>,
    log: spec_fn(T) -> T,
    ctc: CtcKernel<T>,
    call: LossModel,
    input: Dense<T>,
    target: Dense<T>,
) -> Seq<T> {
    match call {
        LossModel::Mse(r) => reduced(
            num,
            r,
            input.data.len(),
            |i: int| num.square((num.sub)(input.data[i], target.data[i])),
        ),
        LossModel::CrossEntropy(r) => reduced(
            num,
            r,
            input.shape[0] as nat,
            |i: int|
                (num.sub)(
                    log(
                        num.sum(
                            input.shape[1] as int,
                            |l: int| (num.exp)(input.at(meaning::ix2(i, l))),
                        ),
                    ),
                    input.at(meaning::ix2(i, (num.index)(target.data[i]))),
                ),
        ),
        LossModel::Ctc { input_lens, target_lens, reduction } => ctc(
            input,
            target,
            input_lens,
            target_lens,
            reduction,
        ),
    }
}

/// The mean squared error: each loss is the square of the difference, and the
/// reduction leaves the losses, or takes their sum, or that sum over their
/// number.
pub proof fn law_mse_computes<T>(
    num: Num<T>,
    log: spec_fn(T) -> T,
    ctc: CtcKernel<T>,
    loss: MseLoss,
    input: Dense<T>,
    target: Dense<T>,
)
    ensures
        ({
            let v = loss_value(num, log, ctc, loss.loss_model(), input, target);
            let n = input.data.len();
            let d = |i: int|
                (num.mul)(
                    (num.sub)(input.data[i], target.data[i]),
                    (num.sub)(input.data[i], target.data[i]),
                );
            match loss.reduction {
                Reduction::Each => v == Seq::new(n, d),
                Reduction::Sum => v == seq![num.sum(n as int, d)],
                Reduction::Mean => v == seq![(num.div)(num.sum(n as int, d), (num.of_nat)(n))],
            }
        }),
{
    let n = input.data.len();
    let d = |i: int|
        (num.mul)(
            (num.sub)(input.data[i], target.data[i]),
            (num.sub)(input.data[i], target.data[i]),
        );
    let e = |i: int| num.square((num.sub)(input.data[i], target.data[i]));
    meaning::lemma_sum_congruent(num, n as int, d, e);
    assert(Seq::new(n, d) =~= Seq::new(n, e));
}

/// A prediction that is right everywhere costs nothing, where a difference of
/// equals is zero and zero is kept by sums and squares.
pub proof fn law_mse_of_equals_is_zero<T>(
    num: Num<T>,
    log: spec_fn(T) -> T,
    ctc: CtcKernel<T>,
    input: Dense<T>,
)
    requires
        forall|x: T| #[trigger] (num.sub)(x, x) == num.zero,
        (num.mul)(num.zero, num.zero) == num.zero,
        (num.add)(num.zero, num.zero) == num.zero,
    ensures
        loss_value(num, log, ctc, (MseLoss { reduction: Reduction::Sum }).loss_model(), input, input)
            == seq![num.zero],
{
    let e = |i: int| num.square((num.sub)(input.data[i], input.data[i]));
    lemma_zero_sum(num, input.data.len() as int, e);
}

proof fn lemma_zero_sum<T>(num: Num<T>, n: int, f: spec_fn(int) -> T)
    requires
        forall|i: int| #[trigger] f(i) == num.zero,
        (num.add)(num.zero, num.zero) == num.zero,
    ensures
        num.sum(n, f) == num.zero,
    decreases n,
{
    if n > 0 {
        lemma_zero_sum(num, n - 1, f);
        assert(f(n - 1) == num.zero);
    }
}

/// The cross entropy of logits `[batch, classes]`: the loss of a row is the
/// logarithm of the sum of its exponentials less the logit of the target
/// class.
pub proof fn law_cross_entropy_computes<T>(
    num: Num<T>,
    log: spec_fn(T) -> T,
    ctc: CtcKernel<T>,
    loss: CrossEntropyLoss,
    input: Dense<T>,
    target: Dense<T>,
    i: int,
)
    requires
        input.shape.len() == 2,
        0 <= i < input.shape[0],
    ensures
        ({
            let row = |i: int, l: int| input.at(seq![i, l]);
            let d = |i: int|
                (num.sub)(
                    log(num.sum(input.shape[1] as int, |l: int| (num.exp)(row(i, l)))),
                    row(i, (num.index)(target.data[i])),
                );
            let v = loss_value(num, log, ctc, loss.loss_model(), input, target);
            let n = input.shape[0] as nat;
            match loss.reduction {
                Reduction::Each => v.len() == n && v[i] == d(i),
                Reduction::Sum => v == seq![num.sum(n as int, d)],
                Reduction::Mean => v == seq![(num.div)(num.sum(n as int, d), (num.of_nat)(n))],
            }
        }),
{
    let row = |i: int, l: int| input.at(seq![i, l]);
    let d = |i: int|
        (num.sub)(
            log(num.sum(input.shape[1] as int, |l: int| (num.exp)(row(i, l)))),
            row(i, (num.index)(target.data[i])),
        );
    let e = |i: int|
        (num.sub)(
            log(
                num.sum(
                    input.shape[1] as int,
                    |l: int| (num.exp)(input.at(meaning::ix2(i, l))),
                ),
            ),
            input.at(meaning::ix2(i, (num.index)(target.data[i]))),
        );
    assert forall|k: int| #[trigger] d(k) == e(k) by {
        meaning::lemma_sum_congruent(
            num,
            input.shape[1] as int,
            |l: int| (num.exp)(row(k, l)),
            |l: int| (num.exp)(input.at(meaning::ix2(k, l))),
        );
    }
    meaning::lemma_sum_congruent(num, input.shape[0] as int, d, e);
}

/// Connectionist temporal classification is handed the lengths of the inputs
/// first, those of the targets second, and the reduction.
pub proof fn law_ctc_computes<T>(
    num: Num<T>,
    log: spec_fn(T) -> T,
    ctc: CtcKernel<T>,
    loss: CTCLoss,
    input: Dense<T>,
    target: Dense<T>,
)
    ensures
        loss_value(num, log, ctc, loss.loss_model(), input, target) == ctc(
            input,
            target,
            loss.input_lens@,
            loss.target_lens@,
            loss.reduction,
        ),
{
}

/// A loss reduces as it was told, and by the mean where it was told nothing.
pub proof fn law_loss_calls(
    reduction: Reduction,
    inputs: Vec<i64>,
    targets: Vec<i64>,
    m: MseLoss,
    c: CrossEntropyLoss,
    t: CTCLoss,
)
    ensures
        call_ensures(MseLoss::new, (reduction,), m) ==> m.loss_model() == LossModel::Mse(reduction),
        call_ensures(MseLoss::default, (), m) ==> m.loss_model() == LossModel::Mse(Reduction::Mean),
        call_ensures(CrossEntropyLoss::new, (reduction,), c) ==> c.loss_model()
            == LossModel::CrossEntropy(reduction),
        call_ensures(CrossEntropyLoss::default, (), c) ==> c.loss_model()
            == LossModel::CrossEntropy(Reduction::Mean),
        call_ensures(CTCLoss::new, (inputs, targets, reduction), t) ==> t.loss_model() == (
        LossModel::Ctc { input_lens: inputs@, target_lens: targets@, reduction }),
{
}

} // verus!
