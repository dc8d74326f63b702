//! The numbers that the signal-processing chain works on.
//!
//! The chain itself holds no floating point. Every formula and every decision
//! stands in this crate; a single operation on numbers is left to an
//! implementation of `Arithmetic`. Contracts speak of the operations through
//! `call_ensures`: a result is one that the operation gave on the stated
//! arguments.

use vstd::prelude::*;

verus! {

/// Operations on numbers.
pub trait Arithmetic {
    /// A real number.
    type Real: Copy;

    /// A complex number.
    type Iq: Copy;

    /// The transform of a frame of complex numbers.
    type Bins;

    /// The real zero.
    fn zero() -> Self::Real;

    /// A whole number.
    fn integer(x: i64) -> Self::Real;

    /// A number of things.
    fn count(n: usize) -> Self::Real;

    /// The quotient of two whole numbers.
    fn fraction(numerator: i64, denominator: i64) -> Self::Real;

    /// The circle constant.
    fn pi() -> Self::Real;

    /// `a + b`.
    fn plus(a: Self::Real, b: Self::Real) -> Self::Real;

    /// `a - b`.
    fn minus(a: Self::Real, b: Self::Real) -> Self::Real;

    /// `a * b`.
    fn times(a: Self::Real, b: Self::Real) -> Self::Real;

    /// `a / b`.
    fn ratio(a: Self::Real, b: Self::Real) -> Self::Real;

    /// The sine of `x`.
    fn sin(x: Self::Real) -> Self::Real;

    /// The cosine of `x`.
    fn cos(x: Self::Real) -> Self::Real;

    /// The angle of the point with the coordinates `x` and `y`.
    fn atan2(y: Self::Real, x: Self::Real) -> Self::Real;

    /// The decimal logarithm of `x`.
    fn log10(x: Self::Real) -> Self::Real;

    /// The larger of two numbers.
    fn larger(a: Self::Real, b: Self::Real) -> Self::Real;

    /// `x`, brought into the range from `low` to `high`.
    fn clamp(x: Self::Real, low: Self::Real, high: Self::Real) -> Self::Real;

    /// Whether `a < b`.
    fn less(a: Self::Real, b: Self::Real) -> bool;

    /// The whole part of `x`, brought into the range of a byte.
    fn to_byte(x: Self::Real) -> u8;

    /// The complex zero.
    fn iq_zero() -> Self::Iq;

    /// The complex number with the given parts.
    fn iq(re: Self::Real, im: Self::Real) -> Self::Iq;

    /// The real part.
    fn re(z: Self::Iq) -> Self::Real;

    /// The imaginary part.
    fn im(z: Self::Iq) -> Self::Real;

    /// `a + b`.
    fn iq_plus(a: Self::Iq, b: Self::Iq) -> Self::Iq;

    /// `a * b`.
    fn iq_times(a: Self::Iq, b: Self::Iq) -> Self::Iq;

    /// `z * factor`.
    fn iq_scaled(z: Self::Iq, factor: Self::Real) -> Self::Iq;

    /// The complex conjugate.
    fn conj(z: Self::Iq) -> Self::Iq;

    /// The magnitude.
    fn norm(z: Self::Iq) -> Self::Real;

    /// The forward transform of a frame.
    fn transform(frame: Vec<Self::Iq>) -> Self::Bins;

    /// Bin `index` of a transform.
    fn bin(bins: &Self::Bins, index: usize) -> Self::Iq;
}

// ── Formulas that several stages share ─────────────────────────────────────

/// Whether `out` is a full turn: twice the circle constant.
pub open spec fn is_turn<A: Arithmetic>(out: A::Real) -> bool {
    exists|two: A::Real, pi: A::Real|
        {
            &&& #[trigger] call_ensures(A::integer, (2i64,), two)
            &&& #[trigger] call_ensures(A::pi, (), pi)
            &&& call_ensures(A::times, (two, pi), out)
        }
}

/// A full turn.
pub fn turn<A: Arithmetic>() -> (out: A::Real)
    ensures
        is_turn::<A>(out),
{
    let two: A::Real = A::integer(2);
    let pi: A::Real = A::pi();
    A::times(two, pi)
}

/// Whether these are the steps to `1/2 * (1 - cos(turn * place / span))`.
pub open spec fn hann_steps<A: Arithmetic>(
    place: A::Real,
    span: A::Real,
    turn: A::Real,
    product: A::Real,
    angle: A::Real,
    cosine: A::Real,
    one: A::Real,
    bump: A::Real,
    half: A::Real,
    out: A::Real,
) -> bool {
    &&& is_turn::<A>(turn)
    &&& call_ensures(A::times, (turn, place), product)
    &&& call_ensures(A::ratio, (product, span), angle)
    &&& call_ensures(A::cos, (angle,), cosine)
    &&& call_ensures(A::integer, (1i64,), one)
    &&& call_ensures(A::minus, (one, cosine), bump)
    &&& call_ensures(A::fraction, (1i64, 2i64), half)
    &&& call_ensures(A::times, (half, bump), out)
}

/// Whether `out` is the weight of the Hann window at `place`, where the window
/// repeats after `span` places.
pub open spec fn is_hann<A: Arithmetic>(place: A::Real, span: A::Real, out: A::Real) -> bool {
    exists|
        turn: A::Real,
        product: A::Real,
        angle: A::Real,
        cosine: A::Real,
        one: A::Real,
        bump: A::Real,
        half: A::Real,
    | #[trigger]
        hann_steps::<A>(place, span, turn, product, angle, cosine, one, bump, half, out)
}

/// The weight of the Hann window at `place`, where the window repeats after
/// `span` places.
pub fn hann<A: Arithmetic>(place: A::Real, span: A::Real) -> (out: A::Real)
    ensures
        is_hann::<A>(place, span, out),
{
    let turn: A::Real = turn::<A>();
    let product: A::Real = A::times(turn, place);
    let angle: A::Real = A::ratio(product, span);
    let cosine: A::Real = A::cos(angle);
    let one: A::Real = A::integer(1);
    let bump: A::Real = A::minus(one, cosine);
    let half: A::Real = A::fraction(1, 2);
    let out: A::Real = A::times(half, bump);
    assert(hann_steps::<A>(place, span, turn, product, angle, cosine, one, bump, half, out));
    out
}

} // verus!
