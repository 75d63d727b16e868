//! Forward passes as straight-line programs over tensors.
//!
//! A program numbers its values: first the inputs, then the result of each
//! step in order. The host runs the steps with its tensor library.
use crate::nn::init;
use vstd::prelude::*;

verus! {

/// A tensor operation.
#[derive(Debug)]
pub enum Op {
    /// `[m, k] @ [k, n]`.
    MatMul,
    /// Adds a vector to every row.
    AddBias,
    /// `[b, m, k] @ [b, k, n]`, batch by batch.
    Bmm,
    Add,
    Sub,
    Mul,
    Div,
    Sqrt,
    Relu,
    Sigmoid,
    Tanh,
    /// Softmax along an axis.
    Softmax(usize),
    /// Mean along an axis, which stays with size one.
    MeanDim(usize),
    /// Exchanges two axes.
    Transpose(usize, usize),
    /// The same elements under another shape.
    Reshape(Vec<usize>),
    /// A fresh leaf with the same elements under another shape; refused as
    /// `attention::detach` says where the elements cannot be read.
    Detach(Vec<usize>),
    /// The elements repeated a number of times, as a vector; refused as
    /// `pool::tile_bank` says where the elements cannot be read.
    Tile(usize),
    /// The scalar `1 / sqrt(n)`.
    InvSqrt(usize),
    /// The scalar `n`.
    Count(usize),
    /// The scalar with these bits.
    Constant(u32),
    /// Convolution with stride one and the given padding.
    Conv2d { pad_h: usize, pad_w: usize },
    /// Maximum over windows.
    MaxPool2d { kernel: (usize, usize), stride: (usize, usize) },
    /// Normalisation per channel, with the bits of its epsilon.
    BatchNorm2d(u32),
    /// Layer normalisation of the last axis in one pass over each row, with
    /// the bits of its epsilon.
    FusedLayerNorm(u32),
    /// Root-mean-square normalisation of the last axis in one pass over each
    /// row, with the bits of its epsilon.
    FusedRmsNorm(u32),
    /// Rows of a table by index.
    IndexSelect,
}

/// A tensor operation, as a mathematical value.
pub enum OpModel {
    MatMul,
    AddBias,
    Bmm,
    Add,
    Sub,
    Mul,
    Div,
    Sqrt,
    Relu,
    Sigmoid,
    Tanh,
    Softmax(nat),
    MeanDim(nat),
    Transpose(nat, nat),
    Reshape(Seq<usize>),
    Detach(Seq<usize>),
    Tile(nat),
    InvSqrt(nat),
    Count(nat),
    Constant(u32),
    Conv2d { pad_h: nat, pad_w: nat },
    MaxPool2d { kernel: (usize, usize), stride: (usize, usize) },
    BatchNorm2d(u32),
    FusedLayerNorm(u32),
    FusedRmsNorm(u32),
    IndexSelect,
}

impl View for Op {
    type V = OpModel;

    open spec fn view(&self) -> OpModel {
        match self {
            Op::MatMul => OpModel::MatMul,
            Op::AddBias => OpModel::AddBias,
            Op::Bmm => OpModel::Bmm,
            Op::Add => OpModel::Add,
            Op::Sub => OpModel::Sub,
            Op::Mul => OpModel::Mul,
            Op::Div => OpModel::Div,
            Op::Sqrt => OpModel::Sqrt,
            Op::Relu => OpModel::Relu,
            Op::Sigmoid => OpModel::Sigmoid,
            Op::Tanh => OpModel::Tanh,
            Op::Softmax(d) => OpModel::Softmax(*d as nat),
            Op::MeanDim(d) => OpModel::MeanDim(*d as nat),
            Op::Transpose(i, j) => OpModel::Transpose(*i as nat, *j as nat),
            Op::Reshape(s) => OpModel::Reshape(s@),
            Op::Detach(s) => OpModel::Detach(s@),
            Op::Tile(n) => OpModel::Tile(*n as nat),
            Op::InvSqrt(n) => OpModel::InvSqrt(*n as nat),
            Op::Count(n) => OpModel::Count(*n as nat),
            Op::Constant(b) => OpModel::Constant(*b),
            Op::Conv2d { pad_h, pad_w } => OpModel::Conv2d {
                pad_h: *pad_h as nat,
                pad_w: *pad_w as nat,
            },
            Op::MaxPool2d { kernel, stride } => OpModel::MaxPool2d {
                kernel: *kernel,
                stride: *stride,
            },
            Op::BatchNorm2d(e) => OpModel::BatchNorm2d(*e),
            Op::FusedLayerNorm(e) => OpModel::FusedLayerNorm(*e),
            Op::FusedRmsNorm(e) => OpModel::FusedRmsNorm(*e),
            Op::IndexSelect => OpModel::IndexSelect,
        }
    }
}

/// One step: an operation on earlier values.
#[derive(Debug)]
pub struct Step {
    pub op: Op,
    pub args: Vec<usize>,
}

/// One step, as a mathematical value.
pub struct StepModel {
    pub op: OpModel,
    pub args: Seq<nat>,
}

impl View for Step {
    type V = StepModel;

    open spec fn view(&self) -> StepModel {
        StepModel {
            op: self.op@,
            args: Seq::new(self.args@.len(), |i: int| self.args@[i] as nat),
        }
    }
}

/// A straight-line program.
#[derive(Debug)]
pub struct Program {
    /// Number of inputs.
    pub inputs: usize,
    pub steps: Vec<Step>,
    /// The value that is handed back.
    pub result: usize,
}

/// A straight-line program, as a mathematical value.
pub struct ProgModel {
    pub inputs: nat,
    pub steps: Seq<StepModel>,
    pub result: nat,
}

impl View for Program {
    type V = ProgModel;

    open spec fn view(&self) -> ProgModel {
        ProgModel {
            inputs: self.inputs as nat,
            steps: Seq::new(self.steps@.len(), |i: int| self.steps@[i]@),
            result: self.result as nat,
        }
    }
}

impl ProgModel {
    /// The program that hands back its first input.
    pub open spec fn start(inputs: nat) -> Self {
        ProgModel { inputs, steps: seq![], result: 0 }
    }

    /// The number of the next value.
    pub open spec fn next(self) -> nat {
        self.inputs + self.steps.len()
    }

    /// The program with a further step, whose value it hands back.
    pub open spec fn emit(self, op: OpModel, args: Seq<nat>) -> Self {
        ProgModel {
            inputs: self.inputs,
            steps: self.steps.push(StepModel { op, args }),
            result: self.next(),
        }
    }

    /// The shapes of all values, given those of the inputs, or `None` where a
    /// step does not fit its arguments.
    pub open spec fn shapes(self, env: Seq<Seq<usize>>) -> Option<Seq<Seq<usize>>> {
        if env.len() != self.inputs {
            None
        } else {
            infer(self.steps, env)
        }
    }

    /// The shape of the result.
    pub open spec fn output_shape(self, env: Seq<Seq<usize>>) -> Option<Seq<usize>> {
        match self.shapes(env) {
            Some(e) => if self.result < e.len() {
                Some(e[self.result as int])
            } else {
                None
            },
            None => None,
        }
    }
}

impl Program {
    /// The program that hands back its first input.
    pub fn start(inputs: usize) -> (r: Self)
        ensures
            r@ == ProgModel::start(inputs as nat),
    {
        let r = Program { inputs, steps: Vec::new(), result: 0 };
        assert(r@.steps =~= seq![]);
        r
    }

    fn push(&mut self, op: Op, args: Vec<usize>) -> (id: usize)
        requires
            old(self)@.next() <= usize::MAX,
        ensures
            final(self)@ == old(self)@.emit(
                op@,
                Seq::new(args@.len(), |i: int| args@[i] as nat),
            ),
            id == final(self)@.result,
    {
        let id: usize = self.inputs + self.steps.len();
        let ghost st = Step { op, args };
        self.steps.push(Step { op, args });
        self.result = id;
        assert(self@.steps =~= old(self)@.steps.push(st@));
        id
    }

    /// Adds a step without arguments.
    pub fn emit0(&mut self, op: Op) -> (id: usize)
        requires
            old(self)@.next() <= usize::MAX,
        ensures
            final(self)@ == old(self)@.emit(op@, seq![]),
            id == final(self)@.result,
    {
        let args: Vec<usize> = Vec::new();
        let id: usize = self.push(op, args);
        assert(Seq::new(args@.len(), |i: int| args@[i] as nat) =~= seq![]);
        id
    }

    /// Adds a step with one argument.
    pub fn emit1(&mut self, op: Op, a: usize) -> (id: usize)
        requires
            old(self)@.next() <= usize::MAX,
        ensures
            final(self)@ == old(self)@.emit(op@, seq![a as nat]),
            id == final(self)@.result,
    {
        let mut args: Vec<usize> = Vec::new();
        args.push(a);
        let ghost v = Seq::new(args@.len(), |i: int| args@[i] as nat);
        assert(v =~= seq![a as nat]);
        self.push(op, args)
    }

    /// Adds a step with two arguments.
    pub fn emit2(&mut self, op: Op, a: usize, b: usize) -> (id: usize)
        requires
            old(self)@.next() <= usize::MAX,
        ensures
            final(self)@ == old(self)@.emit(op@, seq![a as nat, b as nat]),
            id == final(self)@.result,
    {
        let mut args: Vec<usize> = Vec::new();
        args.push(a);
        args.push(b);
        let ghost v = Seq::new(args@.len(), |i: int| args@[i] as nat);
        assert(v =~= seq![a as nat, b as nat]);
        self.push(op, args)
    }

    /// Adds a step with three arguments.
    pub fn emit3(&mut self, op: Op, a: usize, b: usize, c: usize) -> (id: usize)
        requires
            old(self)@.next() <= usize::MAX,
        ensures
            final(self)@ == old(self)@.emit(op@, seq![a as nat, b as nat, c as nat]),
            id == final(self)@.result,
    {
        let mut args: Vec<usize> = Vec::new();
        args.push(a);
        args.push(b);
        args.push(c);
        let ghost v = Seq::new(args@.len(), |i: int| args@[i] as nat);
        assert(v =~= seq![a as nat, b as nat, c as nat]);
        self.push(op, args)
    }
}

/// Shape of an element-wise operation: aligned from the right, sizes agree or
/// one of them is one.
pub open spec fn broadcast_shape(a: Seq<usize>, b: Seq<usize>) -> Option<Seq<usize>>
    decreases a.len(),
{
    if a.len() == 0 {
        Some(b)
    } else if b.len() == 0 {
        Some(a)
    } else {
        match broadcast_shape(a.drop_last(), b.drop_last()) {
            None => None,
            Some(s) => if a.last() == b.last() || b.last() == 1 {
                Some(s.push(a.last()))
            } else if a.last() == 1 {
                Some(s.push(b.last()))
            } else {
                None
            },
        }
    }
}

/// Positions of a window of `k` in a padded axis of `n`, one apart.
pub open spec fn window_count(n: int, pad: int, k: int) -> int {
    n + 2 * pad - k + 1
}

/// The shape that an operation gives on arguments of the given shapes, or
/// `None` where it does not apply.
pub open spec fn rule(op: OpModel, a: Seq<Seq<usize>>) -> Option<Seq<usize>> {
    match op {
        OpModel::MatMul => if a.len() == 2 && a[0].len() == 2 && a[1].len() == 2 && a[0][1]
            == a[1][0] {
            Some(seq![a[0][0], a[1][1]])
        } else {
            None
        },
        OpModel::AddBias => if a.len() == 2 && a[0].len() >= 1 && a[1] == seq![a[0].last()] {
            Some(a[0])
        } else {
            None
        },
        OpModel::Bmm => if a.len() == 2 && a[0].len() == 3 && a[1].len() == 3 && a[0][0]
            == a[1][0] && a[0][2] == a[1][1] {
            Some(seq![a[0][0], a[0][1], a[1][2]])
        } else {
            None
        },
        OpModel::Add | OpModel::Sub | OpModel::Mul | OpModel::Div => if a.len() == 2 {
            broadcast_shape(a[0], a[1])
        } else {
            None
        },
        OpModel::Sqrt | OpModel::Relu | OpModel::Sigmoid | OpModel::Tanh => if a.len() == 1 {
            Some(a[0])
        } else {
            None
        },
        OpModel::Softmax(d) => if a.len() == 1 && d < a[0].len() {
            Some(a[0])
        } else {
            None
        },
        OpModel::MeanDim(d) => if a.len() == 1 && d < a[0].len() {
            Some(a[0].update(d as int, 1))
        } else {
            None
        },
        OpModel::Transpose(i, j) => if a.len() == 1 && i < a[0].len() && j < a[0].len() {
            Some(a[0].update(i as int, a[0][j as int]).update(j as int, a[0][i as int]))
        } else {
            None
        },
        OpModel::Reshape(s) | OpModel::Detach(s) => if a.len() == 1 && init::product(a[0])
            == init::product(s) {
            Some(s)
        } else {
            None
        },
        OpModel::Tile(n) => if a.len() == 1 && n * init::product(a[0]) <= usize::MAX {
            Some(seq![(n * init::product(a[0])) as usize])
        } else {
            None
        },
        OpModel::InvSqrt(_) | OpModel::Count(_) | OpModel::Constant(_) => if a.len() == 0 {
            Some(seq![])
        } else {
            None
        },
        OpModel::Conv2d { pad_h, pad_w } => {
            if (a.len() == 2 || (a.len() == 3 && a[1].len() == 4 && a[2] == seq![a[1][0]]))
                && a[0].len() == 4 && a[1].len() == 4 && a[0][1] == a[1][1] && 0 < window_count(
                a[0][2] as int,
                pad_h as int,
                a[1][2] as int,
            ) <= usize::MAX && 0 < window_count(a[0][3] as int, pad_w as int, a[1][3] as int)
                <= usize::MAX {
                Some(
                    seq![
                        a[0][0],
                        a[1][0],
                        window_count(a[0][2] as int, pad_h as int, a[1][2] as int) as usize,
                        window_count(a[0][3] as int, pad_w as int, a[1][3] as int) as usize,
                    ],
                )
            } else {
                None
            }
        },
        OpModel::MaxPool2d { kernel, stride } => {
            if a.len() == 1 && a[0].len() == 4 && stride.0 > 0 && stride.1 > 0 && kernel.0
                <= a[0][2] && kernel.1 <= a[0][3] {
                Some(
                    seq![
                        a[0][0],
                        a[0][1],
                        ((a[0][2] - kernel.0) / (stride.0 as int) + 1) as usize,
                        ((a[0][3] - kernel.1) / (stride.1 as int) + 1) as usize,
                    ],
                )
            } else {
                None
            }
        },
        OpModel::BatchNorm2d(_) => if a.len() == 3 && a[0].len() == 4 && a[1] == seq![a[0][1]]
            && a[2] == seq![a[0][1]] {
            Some(a[0])
        } else {
            None
        },
        OpModel::FusedLayerNorm(_) => if a.len() == 3 && a[0].len() >= 1 && init::product(a[1])
            == a[0].last() && init::product(a[2]) == a[0].last() {
            Some(a[0])
        } else {
            None
        },
        OpModel::FusedRmsNorm(_) => if a.len() == 2 && a[0].len() >= 1 && init::product(a[1])
            == a[0].last() {
            Some(a[0])
        } else {
            None
        },
        OpModel::IndexSelect => if a.len() == 2 && a[0].len() == 2 && a[1].len() == 1 {
            Some(seq![a[1][0], a[0][1]])
        } else {
            None
        },
    }
}

/// The shapes named by `args`.
pub open spec fn pick(env: Seq<Seq<usize>>, args: Seq<nat>) -> Seq<Seq<usize>> {
    Seq::new(args.len(), |i: int| env[args[i] as int])
}

/// The shapes of the inputs followed by those of the steps.
pub open spec fn infer(steps: Seq<StepModel>, env: Seq<Seq<usize>>) -> Option<Seq<Seq<usize>>>
    decreases steps.len(),
{
    if steps.len() == 0 {
        Some(env)
    } else {
        match infer(steps.drop_last(), env) {
            None => None,
            Some(e) => {
                let st = steps.last();
                if forall|i: int| 0 <= i < st.args.len() ==> #[trigger] st.args[i] < e.len() {
                    match rule(st.op, pick(e, st.args)) {
                        Some(s) => Some(e.push(s)),
                        None => None,
                    }
                } else {
                    None
                }
            },
        }
    }
}

/// The inferred shapes are those of all values.
pub proof fn lemma_infer_len(steps: Seq<StepModel>, env: Seq<Seq<usize>>)
    ensures
        infer(steps, env) matches Some(e) ==> e.len() == env.len() + steps.len(),
    decreases steps.len(),
{
    if steps.len() > 0 {
        lemma_infer_len(steps.drop_last(), env);
    }
}

/// `f` begins with `e`.
pub open spec fn extends(f: Seq<Seq<usize>>, e: Seq<Seq<usize>>) -> bool {
    f.len() >= e.len() && forall|i: int| 0 <= i < e.len() ==> #[trigger] f[i] == e[i]
}

/// A step that fits its arguments extends the shapes by its own.
pub proof fn lemma_emit(
    p: ProgModel,
    env: Seq<Seq<usize>>,
    e: Seq<Seq<usize>>,
    op: OpModel,
    args: Seq<nat>,
    s: Seq<usize>,
)
    requires
        p.shapes(env) == Some(e),
        forall|i: int| 0 <= i < args.len() ==> #[trigger] args[i] < e.len(),
        rule(op, pick(e, args)) == Some(s),
    ensures
        p.emit(op, args).shapes(env) == Some(e.push(s)),
        e.len() == p.next(),
{
    lemma_infer_len(p.steps, env);
    let q = p.emit(op, args);
    assert(q.steps.drop_last() =~= p.steps);
}

/// `lemma_emit` for a step without arguments.
pub proof fn lemma_emit0(
    p: ProgModel,
    env: Seq<Seq<usize>>,
    e: Seq<Seq<usize>>,
    op: OpModel,
    s: Seq<usize>,
)
    requires
        p.shapes(env) == Some(e),
        rule(op, seq![]) == Some(s),
    ensures
        p.emit(op, seq![]).shapes(env) == Some(e.push(s)),
        e.len() == p.next(),
{
    assert(pick(e, seq![]) =~= seq![]);
    lemma_emit(p, env, e, op, seq![], s);
}

/// `lemma_emit` for a step with one argument.
pub proof fn lemma_emit1(
    p: ProgModel,
    env: Seq<Seq<usize>>,
    e: Seq<Seq<usize>>,
    op: OpModel,
    a: nat,
    s: Seq<usize>,
)
    requires
        p.shapes(env) == Some(e),
        a < e.len(),
        rule(op, seq![e[a as int]]) == Some(s),
    ensures
        p.emit(op, seq![a]).shapes(env) == Some(e.push(s)),
        e.len() == p.next(),
{
    assert(pick(e, seq![a]) =~= seq![e[a as int]]);
    lemma_emit(p, env, e, op, seq![a], s);
}

/// `lemma_emit` for a step with two arguments.
pub proof fn lemma_emit2(
    p: ProgModel,
    env: Seq<Seq<usize>>,
    e: Seq<Seq<usize>>,
    op: OpModel,
    a: nat,
    b: nat,
    s: Seq<usize>,
)
    requires
        p.shapes(env) == Some(e),
        a < e.len(),
        b < e.len(),
        rule(op, seq![e[a as int], e[b as int]]) == Some(s),
    ensures
        p.emit(op, seq![a, b]).shapes(env) == Some(e.push(s)),
        e.len() == p.next(),
{
    assert(pick(e, seq![a, b]) =~= seq![e[a as int], e[b as int]]);
    lemma_emit(p, env, e, op, seq![a, b], s);
}

/// `lemma_emit` for a step with three arguments.
pub proof fn lemma_emit3(
    p: ProgModel,
    env: Seq<Seq<usize>>,
    e: Seq<Seq<usize>>,
    op: OpModel,
    a: nat,
    b: nat,
    c: nat,
    s: Seq<usize>,
)
    requires
        p.shapes(env) == Some(e),
        a < e.len(),
        b < e.len(),
        c < e.len(),
        rule(op, seq![e[a as int], e[b as int], e[c as int]]) == Some(s),
    ensures
        p.emit(op, seq![a, b, c]).shapes(env) == Some(e.push(s)),
        e.len() == p.next(),
{
    assert(pick(e, seq![a, b, c]) =~= seq![e[a as int], e[b as int], e[c as int]]);
    lemma_emit(p, env, e, op, seq![a, b, c], s);
}

/// The values named by `args`.
pub open spec fn pick_values<V>(env: Seq<V>, args: Seq<nat>) -> Seq<V> {
    Seq::new(args.len(), |i: int| env[args[i] as int])
}

/// The values of the inputs followed by those of the steps, where `means` says
/// what each operation computes from its arguments.
pub open spec fn evaluate<V>(
    means: spec_fn(OpModel, Seq<V>) -> V,
    steps: Seq<StepModel>,
    env: Seq<V>,
) -> Seq<V>
    decreases steps.len(),
{
    if steps.len() == 0 {
        env
    } else {
        let e = evaluate(means, steps.drop_last(), env);
        e.push(means(steps.last().op, pick_values(e, steps.last().args)))
    }
}

impl ProgModel {
    /// All values of the program on the given inputs.
    pub open spec fn values<V>(
        self,
        means: spec_fn(OpModel, Seq<V>) -> V,
        env: Seq<V>,
    ) -> Seq<V> {
        evaluate(means, self.steps, env)
    }

    /// The value that the program hands back on the given inputs.
    pub open spec fn value<V>(self, means: spec_fn(OpModel, Seq<V>) -> V, env: Seq<V>) -> V {
        self.values(means, env)[self.result as int]
    }
}

/// A tensor: a shape and its elements in row-major order.
pub struct Dense<T> {
    pub shape: Seq<usize>,
    pub data: Seq<T>,
}

/// A reshape keeps the elements and gives them the new shape.
pub open spec fn reshapes<T>(means: spec_fn(OpModel, Seq<Dense<T>>) -> Dense<T>) -> bool {
    forall|s: Seq<usize>, x: Dense<T>| #[trigger]
        means(OpModel::Reshape(s), seq![x]) == (Dense { shape: s, data: x.data })
}

/// There is a value for each input and each step.
pub proof fn lemma_evaluate_len<V>(
    means: spec_fn(OpModel, Seq<V>) -> V,
    steps: Seq<StepModel>,
    env: Seq<V>,
)
    ensures
        evaluate(means, steps, env).len() == env.len() + steps.len(),
    decreases steps.len(),
{
    if steps.len() > 0 {
        lemma_evaluate_len(means, steps.drop_last(), env);
    }
}

/// A further step extends the values by its own, which becomes the result.
pub proof fn lemma_evaluate_emit<V>(
    means: spec_fn(OpModel, Seq<V>) -> V,
    p: ProgModel,
    env: Seq<V>,
    op: OpModel,
    args: Seq<nat>,
)
    requires
        env.len() == p.inputs,
    ensures
        ({
            let e = p.values(means, env);
            let q = p.emit(op, args);
            let v = means(op, pick_values(e, args));
            &&& q.values(means, env) == e.push(v)
            &&& e.len() == p.next()
            &&& q.value(means, env) == v
        }),
{
    lemma_evaluate_len(means, p.steps, env);
    assert(p.emit(op, args).steps.drop_last() =~= p.steps);
}

/// Products of short shapes.
pub proof fn lemma_products(a: usize, b: usize, c: usize, d: usize)
    ensures
        init::product(seq![]) == 1,
        init::product(seq![a]) == a,
        init::product(seq![a, b]) == a * b,
        init::product(seq![a, b, c]) == a * b * c,
        init::product(seq![a, b, c, d]) == a * b * c * d,
{
    reveal_with_fuel(init::product, 2);
    let s1 = seq![a];
    let s2 = seq![a, b];
    let s3 = seq![a, b, c];
    let s4 = seq![a, b, c, d];
    assert(s1.drop_last() =~= seq![] && s1.last() == a);
    assert(init::product(s1) == 1 * a);
    assert(s2.drop_last() =~= s1 && s2.last() == b);
    assert(init::product(s2) == init::product(s1) * b);
    assert(s3.drop_last() =~= s2 && s3.last() == c);
    assert(init::product(s3) == init::product(s2) * c);
    assert(s4.drop_last() =~= s3 && s4.last() == d);
    assert(init::product(s4) == init::product(s3) * d);
}

/// A shape combines with itself, with a scalar, and with itself after a mean
/// along its last axis.
pub proof fn lemma_broadcasts(s: Seq<usize>)
    ensures
        broadcast_shape(s, s) == Some(s),
        broadcast_shape(s, seq![]) == Some(s),
        s.len() > 0 ==> broadcast_shape(s, s.update(s.len() - 1, 1)) == Some(s),
        s.len() > 0 ==> broadcast_shape(s, seq![s.last()]) == Some(s),
    decreases s.len(),
{
    if s.len() > 0 {
        lemma_broadcasts(s.drop_last());
        let m = s.update(s.len() - 1, 1);
        assert(m.drop_last() =~= s.drop_last());
        assert(seq![s.last()].drop_last() =~= seq![]);
        assert(s.drop_last().push(s.last()) =~= s);
    }
}

} // verus!
