//! Trainable parameters.
//!
//! A parameter records its shape, its number format and what fills it. The
//! host turns that into numbers.
use crate::nn::init::Init;
use crate::nn::init;
use vstd::prelude::*;

verus! {

/// Number formats.
#[derive(Debug, Clone, Copy, PartialEq, Eq, Structural)]
pub enum Dtype {
    F32,
    F16,
    BF16,
    I64,
}

/// Multiplier of the noise generator.
pub const LCG_MULTIPLIER: u64 = 6_364_136_223_846_793_005;

/// One step of the linear congruential generator modulo 2^64.
pub open spec fn lcg(s: int) -> int {
    (s * LCG_MULTIPLIER + 1) % 0x1_0000_0000_0000_0000
}

/// The upper half of the state two steps behind `i`.
pub open spec fn noise(i: int) -> int {
    lcg(lcg(i)) / 0x1_0000_0000
}

proof fn lemma_step_wraps(x: int, m: int)
    requires
        m > 1,
    ensures
        (x + 1) % m == if x % m + 1 == m {
            0
        } else {
            x % m + 1
        },
{
    vstd::arithmetic::div_mod::lemma_add_mod_noop(x, 1, m);
    vstd::arithmetic::div_mod::lemma_small_mod(1, m as nat);
    if x % m + 1 == m {
        vstd::arithmetic::div_mod::lemma_mod_self_0(m);
    } else {
        vstd::arithmetic::div_mod::lemma_small_mod((x % m + 1) as nat, m as nat);
    }
}

fn lcg_step(s: u64) -> (r: u64)
    ensures
        r == lcg(s as int),
{
    let p: u64 = s.wrapping_mul(LCG_MULTIPLIER);
    let r: u64 = p.wrapping_add(1);
    proof {
        let x = s * LCG_MULTIPLIER;
        let m = 0x1_0000_0000_0000_0000int;
        assert(x >= 0) by (nonlinear_arith)
            requires
                x == s * LCG_MULTIPLIER,
        ;
        assert(s as nat * LCG_MULTIPLIER as nat == x) by (nonlinear_arith)
            requires
                x == s * LCG_MULTIPLIER,
        ;
        assert(p == x % m);
        lemma_step_wraps(x, m);
    }
    r
}

/// The draw behind element `i` of a parameter filled with noise.
pub fn noise_draw(i: u64) -> (r: u32)
    ensures
        r == noise(i as int),
{
    let s: u64 = lcg_step(lcg_step(i));
    assert((s >> 32) as u32 == s / 0x1_0000_0000) by (bit_vector);
    (s >> 32) as u32
}

/// What fills a parameter.
#[derive(Debug)]
pub enum Values {
    /// Element `i` is `(2 * draws[i] / (2^32 - 1) - 1) / sqrt(fan)`.
    Noise { draws: Vec<u32>, fan: usize },
    /// Zero everywhere.
    Zeros,
    /// One everywhere.
    Ones,
    /// What the strategy draws for the shape from a generator with this seed.
    Seeded { init: Init, seed: u64 },
}

/// What fills a parameter, as a mathematical value.
pub enum ValuesModel {
    Noise { draws: Seq<u32>, fan: nat },
    Zeros,
    Ones,
    Seeded { init: Init, seed: u64 },
}

impl View for Values {
    type V = ValuesModel;

    open spec fn view(&self) -> ValuesModel {
        match self {
            Values::Noise { draws, fan } => ValuesModel::Noise { draws: draws@, fan: *fan as nat },
            Values::Zeros => ValuesModel::Zeros,
            Values::Ones => ValuesModel::Ones,
            Values::Seeded { init, seed } => ValuesModel::Seeded { init: *init, seed: *seed },
        }
    }
}

/// A trainable parameter.
#[derive(Debug)]
pub struct Parameter {
    pub shape: Vec<usize>,
    pub values: Values,
    /// The present number format.
    pub dtype: Dtype,
    /// The formats that the elements were converted to since they were filled,
    /// in order: each conversion may have rounded them.
    pub casts: Vec<Dtype>,
}

/// A trainable parameter, as a mathematical value.
pub struct ParamModel {
    pub shape: Seq<usize>,
    pub values: ValuesModel,
    pub dtype: Dtype,
    pub casts: Seq<Dtype>,
}

impl View for Parameter {
    type V = ParamModel;

    open spec fn view(&self) -> ParamModel {
        ParamModel {
            shape: self.shape@,
            values: self.values@,
            dtype: self.dtype,
            casts: self.casts@,
        }
    }
}

impl ParamModel {
    /// A parameter as it is filled, before any conversion.
    pub open spec fn fresh(shape: Seq<usize>, values: ValuesModel) -> Self {
        ParamModel { shape, values, dtype: Dtype::F32, casts: seq![] }
    }

    /// The same parameter in another number format: where the format differs,
    /// the elements are converted.
    pub open spec fn cast(self, target: Dtype) -> Self {
        if self.dtype == target {
            self
        } else {
            ParamModel { dtype: target, casts: self.casts.push(target), ..self }
        }
    }

    /// A `[rows, cols]` matrix of noise scaled to `1 / sqrt(fan)`.
    pub open spec fn noise_matrix(rows: usize, cols: usize, fan: usize) -> Self {
        Self::fresh(
            seq![rows, cols],
            ValuesModel::Noise {
                draws: Seq::new((rows * cols) as nat, |i: int| noise(i) as u32),
                fan: fan as nat,
            },
        )
    }

    /// A vector of `n` zeros.
    pub open spec fn zeros(n: usize) -> Self {
        Self::fresh(seq![n], ValuesModel::Zeros)
    }

    /// A vector of `n` ones.
    pub open spec fn ones(n: usize) -> Self {
        Self::fresh(seq![n], ValuesModel::Ones)
    }
}

/// A parameter that may be missing, in another number format.
pub open spec fn option_recast(
    after: Option<Parameter>,
    before: Option<Parameter>,
    target: Dtype,
) -> bool {
    match (after, before) {
        (Some(a), Some(b)) => a@ == b@.cast(target),
        (None, None) => true,
        _ => false,
    }
}

fn copy_words(v: &Vec<u32>) -> (r: Vec<u32>)
    ensures
        r@ == v@,
{
    let mut r: Vec<u32> = Vec::with_capacity(v.len());
    let mut i: usize = 0;
    while i < v.len()
        invariant
            i <= v@.len(),
            r@ == v@.take(i as int),
        decreases v.len() - i,
    {
        r.push(v[i]);
        assert(r@ =~= v@.take(i + 1));
        i += 1;
    }
    assert(v@.take(v@.len() as int) =~= v@);
    r
}

/// A copy of a shape.
pub fn copy_shape(v: &[usize]) -> (r: Vec<usize>)
    ensures
        r@ == v@,
{
    let mut r: Vec<usize> = Vec::with_capacity(v.len());
    let mut i: usize = 0;
    while i < v.len()
        invariant
            i <= v@.len(),
            r@ == v@.take(i as int),
        decreases v.len() - i,
    {
        r.push(v[i]);
        assert(r@ =~= v@.take(i + 1));
        i += 1;
    }
    assert(v@.take(v@.len() as int) =~= v@);
    r
}

fn copy_formats(v: &Vec<Dtype>) -> (r: Vec<Dtype>)
    ensures
        r@ == v@,
{
    let mut r: Vec<Dtype> = Vec::with_capacity(v.len());
    let mut i: usize = 0;
    while i < v.len()
        invariant
            i <= v@.len(),
            r@ == v@.take(i as int),
        decreases v.len() - i,
    {
        r.push(v[i]);
        assert(r@ =~= v@.take(i + 1));
        i += 1;
    }
    assert(v@.take(v@.len() as int) =~= v@);
    r
}

impl Parameter {
    /// A parameter before any conversion.
    fn fresh(shape: Vec<usize>, values: Values) -> (r: Self)
        ensures
            r@ == ParamModel::fresh(shape@, values@),
    {
        let r = Parameter { shape, values, dtype: Dtype::F32, casts: Vec::new() };
        assert(r@.casts =~= seq![]);
        r
    }

    /// A copy.
    pub fn copy(&self) -> (r: Self)
        ensures
            r@ == self@,
    {
        let values = match &self.values {
            Values::Noise { draws, fan } => Values::Noise { draws: copy_words(draws), fan: *fan },
            Values::Zeros => Values::Zeros,
            Values::Ones => Values::Ones,
            Values::Seeded { init, seed } => Values::Seeded { init: *init, seed: *seed },
        };
        Parameter {
            shape: copy_shape(self.shape.as_slice()),
            values,
            dtype: self.dtype,
            casts: copy_formats(&self.casts),
        }
    }

    /// A `[rows, cols]` matrix of noise scaled to `1 / sqrt(fan)`.
    pub fn noise_matrix(rows: usize, cols: usize, fan: usize) -> (r: Self)
        requires
            rows * cols <= usize::MAX,
        ensures
            r@ == ParamModel::noise_matrix(rows, cols, fan),
    {
        let n: usize = rows * cols;
        let mut draws: Vec<u32> = Vec::with_capacity(n);
        let mut i: usize = 0;
        while i < n
            invariant
                i <= n,
                draws@ == Seq::new(i as nat, |j: int| noise(j) as u32),
            decreases n - i,
        {
            draws.push(noise_draw(i as u64));
            assert(draws@ =~= Seq::new((i + 1) as nat, |j: int| noise(j) as u32));
            i += 1;
        }
        let mut shape: Vec<usize> = Vec::new();
        shape.push(rows);
        shape.push(cols);
        assert(shape@ =~= seq![rows, cols]);
        Parameter::fresh(shape, Values::Noise { draws, fan })
    }

    /// A vector of `n` zeros.
    pub fn zeros(n: usize) -> (r: Self)
        ensures
            r@ == ParamModel::zeros(n),
    {
        let mut shape: Vec<usize> = Vec::new();
        shape.push(n);
        assert(shape@ =~= seq![n]);
        Parameter::fresh(shape, Values::Zeros)
    }

    /// A vector of `n` ones.
    pub fn ones(n: usize) -> (r: Self)
        ensures
            r@ == ParamModel::ones(n),
    {
        let mut shape: Vec<usize> = Vec::new();
        shape.push(n);
        assert(shape@ =~= seq![n]);
        Parameter::fresh(shape, Values::Ones)
    }

    /// A parameter filled by a strategy.
    pub fn seeded(shape: Vec<usize>, init: Init, seed: u64) -> (r: Self)
        ensures
            r@ == ParamModel::fresh(shape@, ValuesModel::Seeded { init, seed }),
    {
        Parameter::fresh(shape, Values::Seeded { init, seed })
    }

    /// Converts to another number format where it differs.
    pub fn cast(&mut self, target: Dtype)
        ensures
            final(self)@ == old(self)@.cast(target),
    {
        if self.dtype != target {
            self.dtype = target;
            self.casts.push(target);
        }
    }

    /// Number of elements.
    pub fn numel(&self) -> (r: usize)
        requires
            init::products_fit(self@.shape),
        ensures
            r == init::product(self@.shape),
    {
        assert(self.shape@.skip(0) =~= self.shape@);
        init::product_from(self.shape.as_slice(), 0)
    }
}

/// The draws lie in the 32-bit range, so that the scaled noise lies within
/// the bound.
pub proof fn law_noise_range(i: int)
    ensures
        0 <= noise(i) <= u32::MAX,
{
}

/// The noise is two steps of the generator from the index: the upper half of
/// `i * M^2 + M + 1` modulo 2^64.
pub proof fn law_noise_closed_form(i: int)
    ensures
        noise(i) == ((i * (6_364_136_223_846_793_005 * 6_364_136_223_846_793_005)
            + 6_364_136_223_846_793_005 + 1) % 0x1_0000_0000_0000_0000) / 0x1_0000_0000,
{
    let m = 6_364_136_223_846_793_005int;
    let w = 0x1_0000_0000_0000_0000int;
    let x = i * m + 1;
    vstd::arithmetic::div_mod::lemma_mul_mod_noop_left(x, m, w);
    vstd::arithmetic::div_mod::lemma_add_mod_noop((x % w) * m, 1, w);
    vstd::arithmetic::div_mod::lemma_add_mod_noop(x * m, 1, w);
    assert(lcg(i) == x % w);
    assert(lcg(lcg(i)) == ((x % w) * m + 1) % w);
    assert(lcg(lcg(i)) == (x * m + 1) % w);
    assert(x * m + 1 == i * (m * m) + m + 1) by (nonlinear_arith)
        requires
            x == i * m + 1,
    ;
}

} // verus!
