//! Parameter initialisation: fans, strategies and what they draw.
//!
//! Single-precision constants are carried by their bits. The arithmetic and
//! the generator come in as closures; which of them is called, on what and in
//! which order is fixed here.
use crate::nn::single;
use vstd::prelude::*;

verus! {

/// Product of the entries of a shape.
pub open spec fn product(s: Seq<usize>) -> int
    decreases s.len(),
{
    if s.len() == 0 {
        1
    } else {
        product(s.drop_last()) * s.last()
    }
}

/// Every product that is formed from the left fits the machine.
pub open spec fn products_fit(s: Seq<usize>) -> bool {
    forall|i: int| 0 <= i <= s.len() ==> product(#[trigger] s.take(i)) <= usize::MAX
}

pub proof fn lemma_product_nonneg(s: Seq<usize>)
    ensures
        product(s) >= 0,
    decreases s.len(),
{
    if s.len() > 0 {
        lemma_product_nonneg(s.drop_last());
        assert(product(s.drop_last()) * s.last() >= 0) by (nonlinear_arith)
            requires
                product(s.drop_last()) >= 0,
        ;
    }
}

/// Whether every product that is formed from the left fits the machine.
pub fn check_products(s: &[usize]) -> (r: bool)
    ensures
        r == products_fit(s@),
{
    let mut i: usize = 0;
    let mut acc: usize = 1;
    assert(s@.take(0) =~= Seq::<usize>::empty());
    while i < s.len()
        invariant
            i <= s@.len(),
            acc == product(s@.take(i as int)),
            forall|j: int| 0 <= j <= i ==> product(#[trigger] s@.take(j)) <= usize::MAX,
        decreases s.len() - i,
    {
        proof {
            assert(s@.take(i + 1).drop_last() =~= s@.take(i as int));
            assert(s@.take(i + 1).last() == s@[i as int]);
        }
        match acc.checked_mul(s[i]) {
            Some(next) => {
                acc = next;
            },
            None => {
                assert(product(s@.take(i + 1)) > usize::MAX);
                return false;
            },
        }
        i += 1;
    }
    true
}

/// Whether a product fits the machine.
pub fn check_product(a: usize, b: usize) -> (r: bool)
    ensures
        r == (a * b <= usize::MAX),
{
    a.checked_mul(b).is_some()
}

/// Product of the entries from `from` on.
pub fn product_from(s: &[usize], from: usize) -> (r: usize)
    requires
        from <= s@.len(),
        products_fit(s@.skip(from as int)),
    ensures
        r == product(s@.skip(from as int)),
{
    let ghost t = s@.skip(from as int);
    let n: usize = s.len();
    let mut i: usize = from;
    let mut acc: usize = 1;
    assert(t.take(0) =~= Seq::<usize>::empty());
    while i < n
        invariant
            from <= i <= n,
            n == s@.len(),
            t == s@.skip(from as int),
            products_fit(t),
            acc == product(t.take(i - from)),
        decreases n - i,
    {
        proof {
            assert(t.take(i - from + 1).drop_last() =~= t.take(i - from));
            assert(t.take(i - from + 1).last() == s@[i as int]);
            assert(product(t.take(i - from + 1)) <= usize::MAX);
            lemma_product_nonneg(t.take(i - from + 1));
        }
        acc = acc * s[i];
        i += 1;
    }
    assert(t.take(t.len() as int) =~= t);
    acc
}

/// Which fan a variance-preserving initialisation looks at.
#[derive(Debug, Clone, Copy, PartialEq, Eq, Structural)]
pub enum FanMode {
    /// The number of inputs of a unit.
    FanIn,
    /// The number of units that an input feeds.
    FanOut,
}

/// The nonlinearity behind a layer.
#[derive(Debug, Clone, Copy, PartialEq, Eq, Structural)]
pub enum Nonlinearity {
    Linear,
    Tanh,
    Relu,
    /// With the bits of its negative slope.
    LeakyRelu(u32),
}

/// The gain of a nonlinearity.
#[derive(Debug, Clone, Copy, PartialEq, Eq, Structural)]
pub enum Gain {
    /// `num / den`.
    Ratio(u32, u32),
    /// `sqrt(num / den)`.
    SqrtRatio(u32, u32),
    /// `sqrt(2 / (1 + slope^2))` for the slope with these bits.
    Leaky(u32),
}

impl Nonlinearity {
    /// 1, 5/3, sqrt(2) or sqrt(2 / (1 + slope^2)).
    pub open spec fn gain_spec(self) -> Gain {
        match self {
            Nonlinearity::Linear => Gain::Ratio(1, 1),
            Nonlinearity::Tanh => Gain::Ratio(5, 3),
            Nonlinearity::Relu => Gain::SqrtRatio(2, 1),
            Nonlinearity::LeakyRelu(slope) => Gain::Leaky(slope),
        }
    }

    /// Recommended gain.
    pub fn gain(self) -> (r: Gain)
        ensures
            r == self.gain_spec(),
    {
        match self {
            Nonlinearity::Linear => Gain::Ratio(1, 1),
            Nonlinearity::Tanh => Gain::Ratio(5, 3),
            Nonlinearity::Relu => Gain::SqrtRatio(2, 1),
            Nonlinearity::LeakyRelu(slope) => Gain::Leaky(slope),
        }
    }
}

/// Initialisation strategy. Constants are given by their bits.
#[derive(Debug, Clone, Copy, PartialEq, Eq, Structural)]
pub enum Init {
    Zeros,
    Ones,
    Constant(u32),
    /// Uniform on `[a, b)`.
    Uniform { a: u32, b: u32 },
    Normal { mean: u32, std: u32 },
    /// Uniform within `sqrt(6 / (fan_in + fan_out))`.
    XavierUniform,
    /// Normal of deviation `sqrt(2 / (fan_in + fan_out))`.
    XavierNormal,
    /// Uniform within `gain * sqrt(3 / fan)`.
    KaimingUniform { mode: FanMode, nonlinearity: Nonlinearity },
    /// Normal of deviation `gain / sqrt(fan)`.
    KaimingNormal { mode: FanMode, nonlinearity: Nonlinearity },
}

/// What each element of a fresh tensor is.
#[derive(Debug, Clone, Copy, PartialEq, Eq, Structural)]
pub enum Draw {
    /// The same integer everywhere.
    Fill(u32),
    /// The same constant everywhere, by its bits.
    Constant(u32),
    /// A uniform draw from the half-open interval between two constants.
    Uniform { a: u32, b: u32 },
    /// A normal draw.
    Normal { mean: u32, std: u32 },
    /// A uniform draw within that distance of zero.
    Within(Spread),
    /// A normal draw around zero of that deviation.
    Around(Spread),
}

/// A bound or a deviation.
#[derive(Debug, Clone, Copy, PartialEq, Eq, Structural)]
pub enum Spread {
    /// `sqrt(num / den)`.
    Root { num: u32, den: usize },
    /// `gain * sqrt(num / den)`.
    Times { gain: Gain, num: u32, den: usize },
    /// `gain / sqrt(den)`.
    Over { gain: Gain, den: usize },
}

/// Fan-in and fan-out of a tensor shape: both the number of elements (at
/// least one) for vectors, the two sizes `[in, out]` for matrices, and
/// `in * k` and `out * k` for `[out, in, ..]` with `k` the size of the
/// receptive field behind them.
pub open spec fn fans(s: Seq<usize>) -> (int, int) {
    if s.len() == 0 {
        (1, 1)
    } else if s.len() == 1 {
        if s[0] == 0 {
            (1, 1)
        } else {
            (s[0] as int, s[0] as int)
        }
    } else if s.len() == 2 {
        (s[0] as int, s[1] as int)
    } else {
        (s[1] * product(s.skip(2)), s[0] * product(s.skip(2)))
    }
}

/// The products behind `fans` fit the machine.
pub open spec fn fans_fit(s: Seq<usize>) -> bool {
    s.len() > 2 ==> products_fit(s.skip(2)) && fans(s).0 <= usize::MAX && fans(s).1 <= usize::MAX
}

/// Fan-in and fan-out of a tensor shape.
pub fn calculate_fan(shape: &[usize]) -> (r: (usize, usize))
    requires
        fans_fit(shape@),
    ensures
        r.0 == fans(shape@).0,
        r.1 == fans(shape@).1,
{
    if shape.len() == 0 {
        return (1, 1);
    }
    if shape.len() == 1 {
        let n: usize = if shape[0] == 0 {
            1
        } else {
            shape[0]
        };
        return (n, n);
    }
    if shape.len() == 2 {
        return (shape[0], shape[1]);
    }
    let receptive_field: usize = product_from(shape, 2);
    let fan_in: usize = shape[1] * receptive_field;
    let fan_out: usize = shape[0] * receptive_field;
    (fan_in, fan_out)
}

/// The fan that `mode` selects.
pub open spec fn fan_of(mode: FanMode, s: Seq<usize>) -> int {
    match mode {
        FanMode::FanIn => fans(s).0,
        FanMode::FanOut => fans(s).1,
    }
}

/// What a strategy draws for a tensor of the given shape.
pub open spec fn draw_of(init: Init, s: Seq<usize>) -> Draw {
    match init {
        Init::Zeros => Draw::Fill(0),
        Init::Ones => Draw::Fill(1),
        Init::Constant(c) => Draw::Constant(c),
        Init::Uniform { a, b } => Draw::Uniform { a, b },
        Init::Normal { mean, std } => Draw::Normal { mean, std },
        Init::XavierUniform => Draw::Within(
            Spread::Root { num: 6, den: (fans(s).0 + fans(s).1) as usize },
        ),
        Init::XavierNormal => Draw::Around(
            Spread::Root { num: 2, den: (fans(s).0 + fans(s).1) as usize },
        ),
        Init::KaimingUniform { mode, nonlinearity } => Draw::Within(
            Spread::Times {
                gain: nonlinearity.gain_spec(),
                num: 3,
                den: fan_of(mode, s) as usize,
            },
        ),
        Init::KaimingNormal { mode, nonlinearity } => Draw::Around(
            Spread::Over { gain: nonlinearity.gain_spec(), den: fan_of(mode, s) as usize },
        ),
    }
}

/// Whether a strategy looks at the fans.
pub open spec fn uses_fans(init: Init) -> bool {
    match init {
        Init::XavierUniform | Init::XavierNormal => true,
        Init::KaimingUniform { .. } | Init::KaimingNormal { .. } => true,
        _ => false,
    }
}

/// The sizes that a strategy forms for a shape fit the machine.
pub open spec fn sizes_fit(init: Init, s: Seq<usize>) -> bool {
    &&& products_fit(s)
    &&& uses_fans(init) ==> fans_fit(s)
    &&& init is XavierUniform || init is XavierNormal ==> fans(s).0 + fans(s).1 <= usize::MAX
}

/// Number of elements of a fresh tensor and what each of them is.
pub fn plan_draws(init: Init, shape: &[usize]) -> (r: (usize, Draw))
    requires
        sizes_fit(init, shape@),
    ensures
        r.0 == product(shape@),
        r.1 == draw_of(init, shape@),
{
    assert(shape@.skip(0) =~= shape@);
    let numel: usize = product_from(shape, 0);
    let draw = match init {
        Init::Zeros => Draw::Fill(0),
        Init::Ones => Draw::Fill(1),
        Init::Constant(c) => Draw::Constant(c),
        Init::Uniform { a, b } => Draw::Uniform { a, b },
        Init::Normal { mean, std } => Draw::Normal { mean, std },
        Init::XavierUniform => {
            let (fan_in, fan_out) = calculate_fan(shape);
            Draw::Within(Spread::Root { num: 6, den: fan_in + fan_out })
        },
        Init::XavierNormal => {
            let (fan_in, fan_out) = calculate_fan(shape);
            Draw::Around(Spread::Root { num: 2, den: fan_in + fan_out })
        },
        Init::KaimingUniform { mode, nonlinearity } => {
            let (fan_in, fan_out) = calculate_fan(shape);
            let fan: usize = match mode {
                FanMode::FanIn => fan_in,
                FanMode::FanOut => fan_out,
            };
            Draw::Within(Spread::Times { gain: nonlinearity.gain(), num: 3, den: fan })
        },
        Init::KaimingNormal { mode, nonlinearity } => {
            let (fan_in, fan_out) = calculate_fan(shape);
            let fan: usize = match mode {
                FanMode::FanIn => fan_in,
                FanMode::FanOut => fan_out,
            };
            Draw::Around(Spread::Over { gain: nonlinearity.gain(), den: fan })
        },
    };
    (numel, draw)
}

/// The arithmetic and the generator behind a draw. `T` are the numbers and
/// `R` the states of the generator.
pub struct Sampler<G, W, B, S, N, U, M> {
    /// A generator with the given seed.
    pub seeded: G,
    /// An integer as a number.
    pub whole: W,
    /// The number with the given bits.
    pub of_bits: B,
    /// A bound or a deviation.
    pub spread: S,
    /// `-x`.
    pub negated: N,
    /// A uniform draw from `[a, b)`, and the generator behind it.
    pub uniform: U,
    /// A normal draw of the given mean and deviation, and the generator
    /// behind it.
    pub normal: M,
}

/// Every closure but the uniform draw may be called on anything.
pub open spec fn callable<
    T,
    R,
    G: Fn(u64) -> R,
    W: Fn(u32) -> T,
    B: Fn(u32) -> T,
    S: Fn(Spread) -> T,
    N: Fn(T) -> T,
    U: Fn(R, T, T) -> (T, R),
    M: Fn(R, T, T) -> (T, R),
>(k: Sampler<G, W, B, S, N, U, M>) -> bool {
    &&& forall|seed: u64| #[trigger] call_requires(k.seeded, (seed,))
    &&& forall|v: u32| #[trigger] call_requires(k.whole, (v,))
    &&& forall|v: u32| #[trigger] call_requires(k.of_bits, (v,))
    &&& forall|v: Spread| #[trigger] call_requires(k.spread, (v,))
    &&& forall|v: T| #[trigger] call_requires(k.negated, (v,))
    &&& forall|g: R, a: T, b: T| #[trigger] call_requires(k.normal, (g, a, b))
}

/// The two numbers that a draw is made with: the ends of an interval, or a
/// mean and a deviation.
pub open spec fn is_range<
    T,
    W: Fn(u32) -> T,
    B: Fn(u32) -> T,
    S: Fn(Spread) -> T,
    N: Fn(T) -> T,
>(whole: W, of_bits: B, spread: S, negated: N, draw: Draw, a: T, b: T) -> bool {
    match draw {
        Draw::Fill(v) => call_ensures(whole, (v,), a) && a == b,
        Draw::Constant(c) => call_ensures(of_bits, (c,), a) && a == b,
        Draw::Uniform { a: low, b: high } => call_ensures(of_bits, (low,), a) && call_ensures(
            of_bits,
            (high,),
            b,
        ),
        Draw::Normal { mean, std } => call_ensures(of_bits, (mean,), a) && call_ensures(
            of_bits,
            (std,),
            b,
        ),
        Draw::Within(s) => call_ensures(spread, (s,), b) && call_ensures(negated, (b,), a),
        Draw::Around(s) => call_ensures(whole, (0u32,), a) && call_ensures(spread, (s,), b),
    }
}

/// Whether a draw is uniform on an interval.
pub open spec fn is_uniform(draw: Draw) -> bool {
    draw is Uniform || draw is Within
}

/// The interval of a uniform draw may be drawn from.
pub open spec fn range_ok<
    T,
    R,
    W: Fn(u32) -> T,
    B: Fn(u32) -> T,
    S: Fn(Spread) -> T,
    N: Fn(T) -> T,
    U: Fn(R, T, T) -> (T, R),
>(whole: W, of_bits: B, spread: S, negated: N, uniform: U, draw: Draw) -> bool {
    is_uniform(draw) ==> forall|g: R, a: T, b: T|
        is_range(whole, of_bits, spread, negated, draw, a, b) ==> #[trigger] call_requires(
            uniform,
            (g, a, b),
        )
}

/// Element `i` and generator `i + 1` come out of generator `i`.
pub open spec fn drawn_at<T, R, F: Fn(R, T, T) -> (T, R)>(
    f: F,
    a: T,
    b: T,
    xs: Seq<T>,
    st: Seq<R>,
    i: int,
) -> bool {
    call_ensures(f, (st[i], a, b), (xs[i], st[i + 1]))
}

/// `xs` are drawn one after the other, by way of the generators `st`.
pub open spec fn drawn_by<T, R, F: Fn(R, T, T) -> (T, R)>(
    f: F,
    start: R,
    a: T,
    b: T,
    xs: Seq<T>,
    st: Seq<R>,
) -> bool {
    &&& st.len() == xs.len() + 1
    &&& st[0] == start
    &&& forall|i: int| 0 <= i < xs.len() ==> #[trigger] drawn_at(f, a, b, xs, st, i)
}

/// `xs` are drawn one after the other from the generator `start`.
pub open spec fn is_drawn<T, R, F: Fn(R, T, T) -> (T, R)>(
    f: F,
    start: R,
    a: T,
    b: T,
    xs: Seq<T>,
) -> bool {
    exists|st: Seq<R>| #[trigger] drawn_by(f, start, a, b, xs, st)
}

/// Draws `n` elements one after the other.
fn draw_all<T: Copy, R, F: Fn(R, T, T) -> (T, R)>(f: &F, start: R, a: T, b: T, n: usize) -> (r:
    Vec<T>)
    requires
        n > 0 ==> forall|g: R| #[trigger] call_requires(f, (g, a, b)),
    ensures
        r@.len() == n,
        is_drawn(*f, start, a, b, r@),
{
    let mut r: Vec<T> = Vec::new();
    let ghost mut st: Seq<R> = seq![start];
    let ghost first = start;
    let mut state = start;
    let mut i: usize = 0;
    while i < n
        invariant
            0 <= i <= n,
            n > 0 ==> forall|g: R| #[trigger] call_requires(f, (g, a, b)),
            r@.len() == i,
            st.len() == i + 1,
            st[i as int] == state,
            drawn_by(*f, first, a, b, r@, st),
        decreases n - i,
    {
        let ghost xs = r@;
        let ghost before = st;
        let (x, next) = f(state, a, b);
        r.push(x);
        proof {
            st = st.push(next);
            assert forall|j: int| 0 <= j < r@.len() implies #[trigger] drawn_at(
                *f,
                a,
                b,
                r@,
                st,
                j,
            ) by {
                if j < i {
                    assert(drawn_at(*f, a, b, xs, before, j));
                }
            }
        }
        state = next;
        i += 1;
    }
    assert(drawn_by(*f, first, a, b, r@, st));
    r
}

/// `n` times the same element.
fn fill_all<T: Copy>(x: T, n: usize) -> (r: Vec<T>)
    ensures
        r@ == Seq::new(n as nat, |i: int| x),
{
    let mut r: Vec<T> = Vec::new();
    let mut i: usize = 0;
    while i < n
        invariant
            0 <= i <= n,
            r@ == Seq::new(i as nat, |j: int| x),
        decreases n - i,
    {
        r.push(x);
        i += 1;
        assert(r@ =~= Seq::new(i as nat, |j: int| x));
    }
    r
}

/// `xs` are what a draw gives from a generator with the given seed, `a` and
/// `b` being the numbers that it is made with.
pub open spec fn filled_with<
    T,
    R,
    G: Fn(u64) -> R,
    U: Fn(R, T, T) -> (T, R),
    M: Fn(R, T, T) -> (T, R),
>(seeded: G, uniform: U, normal: M, draw: Draw, seed: u64, a: T, b: T, xs: Seq<T>) -> bool {
    match draw {
        Draw::Fill(_) | Draw::Constant(_) => forall|i: int| 0 <= i < xs.len() ==> xs[i] == a,
        Draw::Uniform { .. } | Draw::Within(_) => exists|g: R|
            #[trigger] call_ensures(seeded, (seed,), g) && is_drawn(uniform, g, a, b, xs),
        Draw::Normal { .. } | Draw::Around(_) => exists|g: R|
            #[trigger] call_ensures(seeded, (seed,), g) && is_drawn(normal, g, a, b, xs),
    }
}

/// `xs` are what a draw gives from a generator with the given seed.
pub open spec fn is_filled<
    T,
    R,
    G: Fn(u64) -> R,
    W: Fn(u32) -> T,
    B: Fn(u32) -> T,
    S: Fn(Spread) -> T,
    N: Fn(T) -> T,
    U: Fn(R, T, T) -> (T, R),
    M: Fn(R, T, T) -> (T, R),
>(k: Sampler<G, W, B, S, N, U, M>, draw: Draw, seed: u64, xs: Seq<T>) -> bool {
    exists|a: T, b: T|
        #[trigger] is_range(k.whole, k.of_bits, k.spread, k.negated, draw, a, b) && filled_with(
            k.seeded,
            k.uniform,
            k.normal,
            draw,
            seed,
            a,
            b,
            xs,
        )
}

/// The elements of a fresh tensor: as many as the shape has, drawn in order
/// from a generator that is seeded once.
pub fn init_with_seed<
    T: Copy,
    R,
    G: Fn(u64) -> R,
    W: Fn(u32) -> T,
    B: Fn(u32) -> T,
    S: Fn(Spread) -> T,
    N: Fn(T) -> T,
    U: Fn(R, T, T) -> (T, R),
    M: Fn(R, T, T) -> (T, R),
>(init: Init, shape: &[usize], seed: u64, k: &Sampler<G, W, B, S, N, U, M>) -> (r: Vec<T>)
    requires
        sizes_fit(init, shape@),
        callable(*k),
        product(shape@) > 0 ==> range_ok(
            k.whole,
            k.of_bits,
            k.spread,
            k.negated,
            k.uniform,
            draw_of(init, shape@),
        ),
    ensures
        r@.len() == product(shape@),
        is_filled(*k, draw_of(init, shape@), seed, r@),
{
    let (numel, draw) = plan_draws(init, shape);
    let rng = (k.seeded)(seed);
    let ghost g = rng;
    let (a, b): (T, T) = match draw {
        Draw::Fill(v) => {
            let x = (k.whole)(v);
            (x, x)
        },
        Draw::Constant(c) => {
            let x = (k.of_bits)(c);
            (x, x)
        },
        Draw::Uniform { a, b } => ((k.of_bits)(a), (k.of_bits)(b)),
        Draw::Normal { mean, std } => ((k.of_bits)(mean), (k.of_bits)(std)),
        Draw::Within(s) => {
            let bound = (k.spread)(s);
            ((k.negated)(bound), bound)
        },
        Draw::Around(s) => ((k.whole)(0), (k.spread)(s)),
    };
    assert(is_range(k.whole, k.of_bits, k.spread, k.negated, draw, a, b));
    let r = match draw {
        Draw::Fill(_) | Draw::Constant(_) => fill_all(a, numel),
        Draw::Uniform { .. } | Draw::Within(_) => draw_all(&k.uniform, rng, a, b, numel),
        Draw::Normal { .. } | Draw::Around(_) => draw_all(&k.normal, rng, a, b, numel),
    };
    assert(call_ensures(k.seeded, (seed,), g));
    assert(filled_with(k.seeded, k.uniform, k.normal, draw, seed, a, b, r@));
    r
}

proof fn lemma_drawn_once<T, R, F: Fn(R, T, T) -> (T, R)>(
    f: F,
    start: R,
    a: T,
    b: T,
    xs: Seq<T>,
    st: Seq<R>,
    ys: Seq<T>,
    tt: Seq<R>,
    n: int,
)
    requires
        single::single_valued3(f),
        drawn_by(f, start, a, b, xs, st),
        drawn_by(f, start, a, b, ys, tt),
        0 <= n <= xs.len(),
        n <= ys.len(),
    ensures
        st[n] == tt[n],
        forall|i: int| 0 <= i < n ==> xs[i] == ys[i],
    decreases n,
{
    if n > 0 {
        lemma_drawn_once(f, start, a, b, xs, st, ys, tt, n - 1);
        assert(drawn_at(f, a, b, xs, st, n - 1));
        assert(drawn_at(f, a, b, ys, tt, n - 1));
    }
}

/// The same seed gives the same elements, as long as the arithmetic and the
/// generator have no other inputs.
pub proof fn law_seed_is_reproducible<
    T,
    R,
    G: Fn(u64) -> R,
    W: Fn(u32) -> T,
    B: Fn(u32) -> T,
    S: Fn(Spread) -> T,
    N: Fn(T) -> T,
    U: Fn(R, T, T) -> (T, R),
    M: Fn(R, T, T) -> (T, R),
>(k: Sampler<G, W, B, S, N, U, M>, draw: Draw, seed: u64, xs: Seq<T>, ys: Seq<T>)
    requires
        single::single_valued1(k.seeded),
        single::single_valued1(k.whole),
        single::single_valued1(k.of_bits),
        single::single_valued1(k.spread),
        single::single_valued1(k.negated),
        single::single_valued3(k.uniform),
        single::single_valued3(k.normal),
        is_filled(k, draw, seed, xs),
        is_filled(k, draw, seed, ys),
        xs.len() == ys.len(),
    ensures
        xs == ys,
{
    let (a, b) = choose|a: T, b: T|
        #[trigger] is_range(k.whole, k.of_bits, k.spread, k.negated, draw, a, b) && filled_with(
            k.seeded,
            k.uniform,
            k.normal,
            draw,
            seed,
            a,
            b,
            xs,
        );
    let (c, d) = choose|a: T, b: T|
        #[trigger] is_range(k.whole, k.of_bits, k.spread, k.negated, draw, a, b) && filled_with(
            k.seeded,
            k.uniform,
            k.normal,
            draw,
            seed,
            a,
            b,
            ys,
        );
    assert(a == c && b == d);
    match draw {
        Draw::Fill(_) | Draw::Constant(_) => {},
        Draw::Uniform { .. } | Draw::Within(_) => {
            lemma_same_draws(k.seeded, k.uniform, seed, a, b, xs, ys);
        },
        Draw::Normal { .. } | Draw::Around(_) => {
            lemma_same_draws(k.seeded, k.normal, seed, a, b, xs, ys);
        },
    }
    assert(xs =~= ys);
}

proof fn lemma_same_draws<T, R, G: Fn(u64) -> R, F: Fn(R, T, T) -> (T, R)>(
    seeded: G,
    f: F,
    seed: u64,
    a: T,
    b: T,
    xs: Seq<T>,
    ys: Seq<T>,
)
    requires
        single::single_valued1(seeded),
        single::single_valued3(f),
        exists|g: R| #[trigger] call_ensures(seeded, (seed,), g) && is_drawn(f, g, a, b, xs),
        exists|g: R| #[trigger] call_ensures(seeded, (seed,), g) && is_drawn(f, g, a, b, ys),
        xs.len() == ys.len(),
    ensures
        forall|i: int| 0 <= i < xs.len() ==> xs[i] == ys[i],
{
    let g = choose|g: R| #[trigger]
        call_ensures(seeded, (seed,), g) && is_drawn(f, g, a, b, xs);
    let h = choose|g: R| #[trigger]
        call_ensures(seeded, (seed,), g) && is_drawn(f, g, a, b, ys);
    assert(g == h);
    let st = choose|st: Seq<R>| #[trigger] drawn_by(f, g, a, b, xs, st);
    let tt = choose|st: Seq<R>| #[trigger] drawn_by(f, g, a, b, ys, st);
    lemma_drawn_once(f, g, a, b, xs, st, ys, tt, xs.len() as int);
}

/// What every uniform draw keeps, every element of a uniformly drawn tensor
/// keeps: it lies inside the interval that the strategy asks for where the
/// draws do.
pub proof fn law_elements_stay_inside<
    T,
    R,
    G: Fn(u64) -> R,
    W: Fn(u32) -> T,
    B: Fn(u32) -> T,
    S: Fn(Spread) -> T,
    N: Fn(T) -> T,
    U: Fn(R, T, T) -> (T, R),
    M: Fn(R, T, T) -> (T, R),
>(
    k: Sampler<G, W, B, S, N, U, M>,
    draw: Draw,
    seed: u64,
    xs: Seq<T>,
    inside: spec_fn(T, T, T) -> bool,
)
    requires
        is_uniform(draw),
        is_filled(k, draw, seed, xs),
        forall|g: R, a: T, b: T, x: T, h: R|
            #[trigger] call_ensures(k.uniform, (g, a, b), (x, h)) ==> inside(a, b, x),
    ensures
        exists|a: T, b: T|
            #[trigger] is_range(k.whole, k.of_bits, k.spread, k.negated, draw, a, b) && forall|
                i: int,
            |
                0 <= i < xs.len() ==> inside(a, b, #[trigger] xs[i]),
{
    let (a, b) = choose|a: T, b: T|
        #[trigger] is_range(k.whole, k.of_bits, k.spread, k.negated, draw, a, b) && filled_with(
            k.seeded,
            k.uniform,
            k.normal,
            draw,
            seed,
            a,
            b,
            xs,
        );
    let g = choose|g: R| #[trigger]
        call_ensures(k.seeded, (seed,), g) && is_drawn(k.uniform, g, a, b, xs);
    let st = choose|st: Seq<R>| #[trigger] drawn_by(k.uniform, g, a, b, xs, st);
    assert forall|i: int| 0 <= i < xs.len() implies inside(a, b, #[trigger] xs[i]) by {
        assert(drawn_at(k.uniform, a, b, xs, st, i));
    }
}

/// Exchanging the two leading sizes of a shape exchanges its fans.
pub proof fn law_fans_exchange(s: Seq<usize>, t: Seq<usize>)
    requires
        s.len() >= 2,
        t == s.update(0, s[1]).update(1, s[0]),
    ensures
        fans(t) == (fans(s).1, fans(s).0),
{
    assert(t.skip(2) =~= s.skip(2));
}

/// The fans of a convolution weight have the ratio of its channel counts.
pub proof fn law_fan_ratio(s: Seq<usize>)
    requires
        s.len() > 2,
    ensures
        fans(s).0 * s[0] == fans(s).1 * s[1],
{
    let k = product(s.skip(2));
    let a = s[0] as int;
    let b = s[1] as int;
    assert(b * k * a == a * k * b) by (nonlinear_arith);
}

proof fn lemma_product_splits(s: Seq<usize>)
    requires
        s.len() >= 2,
    ensures
        product(s) == s[0] * s[1] * product(s.skip(2)),
    decreases s.len(),
{
    reveal_with_fuel(product, 3);
    if s.len() == 2 {
        assert(s.drop_last().drop_last() =~= seq![]);
        assert(s.skip(2) =~= seq![]);
        assert(product(s.drop_last()) == s[0]);
    } else {
        let t = s.drop_last();
        lemma_product_splits(t);
        assert(t.skip(2) =~= s.skip(2).drop_last());
        assert(s.skip(2).last() == s.last());
        let a = s[0] as int;
        let b = s[1] as int;
        let p = product(t.skip(2));
        let l = s.last() as int;
        assert(a * b * p * l == a * b * (p * l)) by (nonlinear_arith);
    }
}

/// The fans count connections: with one unit per leading entry, the fan-in of
/// a unit times the number of units is the number of weights, and so is the
/// fan-out of an input times the number of inputs. A matrix is `[in, out]`.
pub proof fn law_fans_count_weights(s: Seq<usize>)
    ensures
        s.len() >= 3 ==> fans(s).0 * s[0] == product(s) && fans(s).1 * s[1] == product(s),
        s.len() == 2 ==> fans(s).0 == s[0] && fans(s).1 == s[1],
{
    if s.len() >= 3 {
        lemma_product_splits(s);
        let a = s[0] as int;
        let b = s[1] as int;
        let p = product(s.skip(2));
        assert((b * p) * a == a * b * p && (a * p) * b == a * b * p) by (nonlinear_arith);
    }
}

/// The square of a gain, as a fraction; `slope2` is the square of the slope
/// with the given bits.
pub open spec fn gain_square(slope2: spec_fn(u32) -> (int, int), g: Gain) -> (int, int) {
    match g {
        Gain::Ratio(num, den) => (num * num, den * den),
        Gain::SqrtRatio(num, den) => (num as int, den as int),
        Gain::Leaky(slope) => (2 * slope2(slope).1, slope2(slope).1 + slope2(slope).0),
    }
}

/// The square of a bound or a deviation, as a fraction.
pub open spec fn spread_square(slope2: spec_fn(u32) -> (int, int), s: Spread) -> (int, int) {
    match s {
        Spread::Root { num, den } => (num as int, den as int),
        Spread::Times { gain, num, den } => (
            gain_square(slope2, gain).0 * num,
            gain_square(slope2, gain).1 * den,
        ),
        Spread::Over { gain, den } => (
            gain_square(slope2, gain).0,
            gain_square(slope2, gain).1 * den,
        ),
    }
}

/// The variance of a draw that is spread around zero, as a fraction: a third
/// of the square of the bound, or the square of the deviation.
pub open spec fn variance(slope2: spec_fn(u32) -> (int, int), d: Draw) -> (int, int) {
    match d {
        Draw::Within(s) => (spread_square(slope2, s).0, 3 * spread_square(slope2, s).1),
        Draw::Around(s) => spread_square(slope2, s),
        _ => (0, 1),
    }
}

/// The square of the gain that keeps the variance of a signal behind a
/// nonlinearity: 1 behind none, 25/9, 2 where half of the signal is cut off,
/// and `2 / (1 + slope^2)` where it is scaled by the slope.
pub open spec fn kept_variance(
    slope2: spec_fn(u32) -> (int, int),
    f: Nonlinearity,
) -> (int, int) {
    match f {
        Nonlinearity::Linear => (1, 1),
        Nonlinearity::Tanh => (25, 9),
        Nonlinearity::Relu => (2, 1),
        Nonlinearity::LeakyRelu(slope) => (2 * slope2(slope).1, slope2(slope).1 + slope2(slope).0),
    }
}

/// The Xavier strategies draw with variance `2 / (fan_in + fan_out)` and the
/// Kaiming strategies with the square of the gain over the selected fan,
/// whether uniformly or normally.
pub proof fn law_initial_variance(
    s: Seq<usize>,
    mode: FanMode,
    f: Nonlinearity,
    slope2: spec_fn(u32) -> (int, int),
)
    requires
        fans_fit(s),
    ensures
        fans(s).0 + fans(s).1 <= usize::MAX ==> {
            let u = variance(slope2, draw_of(Init::XavierUniform, s));
            let v = variance(slope2, draw_of(Init::XavierNormal, s));
            &&& u.0 * (fans(s).0 + fans(s).1) == 2 * u.1
            &&& v.0 * (fans(s).0 + fans(s).1) == 2 * v.1
            &&& draw_of(Init::XavierUniform, s) is Within
            &&& draw_of(Init::XavierNormal, s) is Around
        },
        ({
            let fan = if mode == FanMode::FanIn {
                fans(s).0
            } else {
                fans(s).1
            };
            let g = kept_variance(slope2, f);
            let uniform = draw_of(Init::KaimingUniform { mode, nonlinearity: f }, s);
            let normal = draw_of(Init::KaimingNormal { mode, nonlinearity: f }, s);
            let u = variance(slope2, uniform);
            let v = variance(slope2, normal);
            &&& u.0 * (fan * g.1) == g.0 * u.1
            &&& v.0 * (fan * g.1) == g.0 * v.1
            &&& uniform is Within
            &&& normal is Around
        }),
{
    if s.len() > 2 {
        lemma_product_nonneg(s.skip(2));
        let p = product(s.skip(2));
        assert(s[1] * p >= 0 && s[0] * p >= 0) by (nonlinear_arith)
            requires
                p >= 0,
        ;
    }
    let fan = fan_of(mode, s);
    let g = kept_variance(slope2, f);
    assert(5u32 * 5u32 == 25 && 3u32 * 3u32 == 9 && 1u32 * 1u32 == 1) by (nonlinear_arith);
    assert(gain_square(slope2, f.gain_spec()) == g);
    assert((g.0 * 3) * (fan * g.1) == g.0 * (3 * (g.1 * fan))) by (nonlinear_arith);
    assert(g.0 * (fan * g.1) == g.0 * (g.1 * fan)) by (nonlinear_arith);
}

/// The strategies without fans draw what they name: zeros, ones, a constant,
/// a uniform draw between the ends in their order, and a normal draw of the
/// mean and deviation in theirs. A draw that is spread around zero is
/// symmetric: between the negated bound and the bound, or around zero.
pub proof fn law_draws_are_as_named<
    T,
    W: Fn(u32) -> T,
    B: Fn(u32) -> T,
    S: Fn(Spread) -> T,
    N: Fn(T) -> T,
>(whole: W, of_bits: B, spread: S, negated: N, s: Seq<usize>, c: u32, d: u32, x: Spread, a: T, b: T)
    ensures
        is_range(whole, of_bits, spread, negated, draw_of(Init::Zeros, s), a, b) <==> a == b
            && call_ensures(whole, (0u32,), a),
        is_range(whole, of_bits, spread, negated, draw_of(Init::Ones, s), a, b) <==> a == b
            && call_ensures(whole, (1u32,), a),
        is_range(whole, of_bits, spread, negated, draw_of(Init::Constant(c), s), a, b) <==> a == b
            && call_ensures(of_bits, (c,), a),
        is_range(whole, of_bits, spread, negated, draw_of(Init::Uniform { a: c, b: d }, s), a, b)
            <==> call_ensures(of_bits, (c,), a) && call_ensures(of_bits, (d,), b),
        is_uniform(draw_of(Init::Uniform { a: c, b: d }, s)),
        is_range(
            whole,
            of_bits,
            spread,
            negated,
            draw_of(Init::Normal { mean: c, std: d }, s),
            a,
            b,
        ) <==> call_ensures(of_bits, (c,), a) && call_ensures(of_bits, (d,), b),
        !is_uniform(draw_of(Init::Normal { mean: c, std: d }, s)),
        is_range(whole, of_bits, spread, negated, Draw::Within(x), a, b) <==> call_ensures(
            spread,
            (x,),
            b,
        ) && call_ensures(negated, (b,), a),
        is_range(whole, of_bits, spread, negated, Draw::Around(x), a, b) <==> call_ensures(
            whole,
            (0u32,),
            a,
        ) && call_ensures(spread, (x,), b),
{
}

/// What the calls give: the fans count the weights of a unit and of an input,
/// and the gain keeps the variance behind the nonlinearity.
pub proof fn law_fan_and_gain_calls(
    shape: &[usize],
    r: (usize, usize),
    f: Nonlinearity,
    g: Gain,
    slope2: spec_fn(u32) -> (int, int),
)
    ensures
        call_ensures(calculate_fan, (shape,), r) && shape@.len() >= 3 ==> r.0 * shape@[0] == product(
            shape@,
        ) && r.1 * shape@[1] == product(shape@),
        call_ensures(calculate_fan, (shape,), r) && shape@.len() == 2 ==> r.0 == shape@[0] && r.1
            == shape@[1],
        call_ensures(calculate_fan, (shape,), r) && shape@.len() == 1 ==> r.0 == r.1 && r.0 == if shape@[0]
            == 0 {
            1int
        } else {
            shape@[0] as int
        },
        call_ensures(calculate_fan, (shape,), r) && shape@.len() == 0 ==> r == (1usize, 1usize),
        call_ensures(Nonlinearity::gain, (f,), g) ==> gain_square(slope2, g) == kept_variance(
            slope2,
            f,
        ),
{
    law_fans_count_weights(shape@);
    assert(5u32 * 5u32 == 25 && 3u32 * 3u32 == 9 && 1u32 * 1u32 == 1) by (nonlinear_arith);
}

/// `st[0]` comes from the seed, and each draw makes an element and the next
/// generator.
pub open spec fn in_order<T, R, G: Fn(u64) -> R, F: Fn(R, T, T) -> (T, R)>(
    seeded: G,
    f: F,
    seed: u64,
    a: T,
    b: T,
    xs: Seq<T>,
    st: Seq<R>,
) -> bool {
    &&& call_ensures(seeded, (seed,), st[0])
    &&& st.len() == xs.len() + 1
    &&& forall|i: int|
        0 <= i < xs.len() ==> call_ensures(f, (#[trigger] st[i], a, b), (xs[i], st[i + 1]))
}

proof fn lemma_in_order<T, R, G: Fn(u64) -> R, F: Fn(R, T, T) -> (T, R)>(
    seeded: G,
    f: F,
    seed: u64,
    a: T,
    b: T,
    xs: Seq<T>,
)
    requires
        exists|g: R| #[trigger] call_ensures(seeded, (seed,), g) && is_drawn(f, g, a, b, xs),
    ensures
        exists|st: Seq<R>| #[trigger] in_order(seeded, f, seed, a, b, xs, st),
{
    let g = choose|g: R| #[trigger] call_ensures(seeded, (seed,), g) && is_drawn(f, g, a, b, xs);
    let st = choose|st: Seq<R>| #[trigger] drawn_by(f, g, a, b, xs, st);
    assert forall|i: int| 0 <= i < xs.len() implies call_ensures(
        f,
        (#[trigger] st[i], a, b),
        (xs[i], st[i + 1]),
    ) by {
        assert(drawn_at(f, a, b, xs, st, i));
    }
    assert(in_order(seeded, f, seed, a, b, xs, st));
}

/// The elements of a filled tensor are all the number that the strategy names,
/// and those of a drawn one come out of the generator that the seed gives, each
/// draw going on from where the one before it left off.
pub proof fn law_elements_are_drawn_in_order<
    T,
    R,
    G: Fn(u64) -> R,
    W: Fn(u32) -> T,
    B: Fn(u32) -> T,
    S: Fn(Spread) -> T,
    N: Fn(T) -> T,
    U: Fn(R, T, T) -> (T, R),
    M: Fn(R, T, T) -> (T, R),
>(k: Sampler<G, W, B, S, N, U, M>, draw: Draw, seed: u64, xs: Seq<T>)
    requires
        is_filled(k, draw, seed, xs),
    ensures
        draw matches Draw::Fill(c) ==> exists|x: T| #[trigger]
            call_ensures(k.whole, (c,), x) && forall|i: int| 0 <= i < xs.len() ==> xs[i] == x,
        draw matches Draw::Constant(c) ==> exists|x: T| #[trigger]
            call_ensures(k.of_bits, (c,), x) && forall|i: int| 0 <= i < xs.len() ==> xs[i] == x,
        draw is Normal || draw is Around ==> exists|a: T, b: T, st: Seq<R>|
            is_range(k.whole, k.of_bits, k.spread, k.negated, draw, a, b)
                && #[trigger] in_order(k.seeded, k.normal, seed, a, b, xs, st),
        draw is Uniform || draw is Within ==> exists|a: T, b: T, st: Seq<R>|
            is_range(k.whole, k.of_bits, k.spread, k.negated, draw, a, b)
                && #[trigger] in_order(k.seeded, k.uniform, seed, a, b, xs, st),
{
    let (a, b) = choose|a: T, b: T|
        #[trigger] is_range(k.whole, k.of_bits, k.spread, k.negated, draw, a, b) && filled_with(
            k.seeded,
            k.uniform,
            k.normal,
            draw,
            seed,
            a,
            b,
            xs,
        );
    match draw {
        Draw::Fill(_) | Draw::Constant(_) => {},
        Draw::Uniform { .. } | Draw::Within(_) => {
            lemma_in_order(k.seeded, k.uniform, seed, a, b, xs);
        },
        Draw::Normal { .. } | Draw::Around(_) => {
            lemma_in_order(k.seeded, k.normal, seed, a, b, xs);
        },
    }
}

} // verus!
