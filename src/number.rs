use vstd::prelude::*;

verus! {

/// A question about doubles that the caller's arithmetic answers with the bit
/// pattern of a double: a sum, difference, product or quotient of two
/// doubles, or the double nearest to a decimal text.
#[derive(Debug)]
pub enum NumOp {
    Add(u64, u64),
    Sub(u64, u64),
    Mul(u64, u64),
    Div(u64, u64),
    Parse(String),
}

pub enum NumOpView {
    Add(u64, u64),
    Sub(u64, u64),
    Mul(u64, u64),
    Div(u64, u64),
    Parse(Seq<char>),
}

impl View for NumOp {
    type V = NumOpView;

    open spec fn view(&self) -> NumOpView {
        match self {
            NumOp::Add(a, b) => NumOpView::Add(*a, *b),
            NumOp::Sub(a, b) => NumOpView::Sub(*a, *b),
            NumOp::Mul(a, b) => NumOpView::Mul(*a, *b),
            NumOp::Div(a, b) => NumOpView::Div(*a, *b),
            NumOp::Parse(s) => NumOpView::Parse(s@),
        }
    }
}

/// The arithmetic can be asked any question.
pub open spec fn answers_all<F: Fn(NumOp) -> u64>(f: F) -> bool {
    forall|q: NumOp| #[trigger] call_requires(f, (q,))
}

/// The arithmetic gives one answer to each question.
pub open spec fn deterministic<F: Fn(NumOp) -> u64>(f: F) -> bool {
    forall|a: NumOp, b: NumOp, x: u64, y: u64|
        a@ == b@ && #[trigger] call_ensures(f, (a,), x) && #[trigger] call_ensures(f, (b,), y)
            ==> x == y
}

/// `x` is an answer that the arithmetic `f` may give to the question `q`.
pub open spec fn may_answer<F: Fn(NumOp) -> u64>(f: F, q: NumOpView, x: u64) -> bool {
    exists|a: NumOp| a@ == q && #[trigger] call_ensures(f, (a,), x)
}

/// The answer of the arithmetic `f` to the question `q`.
pub open spec fn answer<F: Fn(NumOp) -> u64>(f: F, q: NumOpView) -> u64 {
    choose|x: u64| #[trigger] may_answer(f, q, x)
}

/// Asks the arithmetic `f` the question `q`.
pub fn ask<F: Fn(NumOp) -> u64>(f: &F, q: NumOp) -> (r: u64)
    requires
        answers_all(*f),
    ensures
        deterministic(*f) ==> r == answer(*f, q@),
{
    let ghost qv = q@;
    let ghost q0 = q;
    let r = f(q);
    proof {
        assert(call_ensures(*f, (q0,), r));
        assert(may_answer(*f, qv, r));
        if deterministic(*f) {
            let x = answer(*f, qv);
            let a = choose|a: NumOp| a@ == qv && #[trigger] call_ensures(*f, (a,), x);
            assert(call_ensures(*f, (a,), x));
        }
    }
    r
}

// ---------------------------------------------------------------------------
// Sign and order of doubles, read from their bit patterns.
// ---------------------------------------------------------------------------

pub open spec fn sign_bit() -> u64 {
    0x8000_0000_0000_0000u64
}

/// The bit pattern of a NaN: every exponent bit set and a nonzero fraction.
pub open spec fn is_nan(b: u64) -> bool {
    (b / 0x10_0000_0000_0000u64) % 2048 == 2047 && b % 0x10_0000_0000_0000u64 != 0
}

/// A key that orders doubles that are not NaN as their values are ordered;
/// both zeros have key 0.
pub open spec fn order_key(b: u64) -> int {
    if b >= sign_bit() {
        -((b - sign_bit()) as int)
    } else {
        b as int
    }
}

/// The negation of a double: its sign bit flipped.
pub open spec fn negate(b: u64) -> u64 {
    if b >= sign_bit() {
        (b - sign_bit()) as u64
    } else {
        (b + sign_bit()) as u64
    }
}

pub open spec fn num_less(a: u64, b: u64) -> bool {
    !is_nan(a) && !is_nan(b) && order_key(a) < order_key(b)
}

pub open spec fn num_less_eq(a: u64, b: u64) -> bool {
    !is_nan(a) && !is_nan(b) && order_key(a) <= order_key(b)
}

/// Numeric equality: no NaN equals anything, and the two zeros are equal.
pub open spec fn num_eq(a: u64, b: u64) -> bool {
    !is_nan(a) && !is_nan(b) && order_key(a) == order_key(b)
}

pub fn nan(b: u64) -> (r: bool)
    ensures
        r == is_nan(b),
{
    b / 0x10_0000_0000_0000u64 % 2048 == 2047 && b % 0x10_0000_0000_0000u64 != 0
}

fn key(b: u64) -> (r: i128)
    ensures
        r == order_key(b),
{
    if b >= 0x8000_0000_0000_0000u64 {
        -((b - 0x8000_0000_0000_0000u64) as i128)
    } else {
        b as i128
    }
}

pub fn neg(b: u64) -> (r: u64)
    ensures
        r == negate(b),
{
    if b >= 0x8000_0000_0000_0000u64 {
        b - 0x8000_0000_0000_0000u64
    } else {
        b + 0x8000_0000_0000_0000u64
    }
}

pub fn less(a: u64, b: u64) -> (r: bool)
    ensures
        r == num_less(a, b),
{
    !nan(a) && !nan(b) && key(a) < key(b)
}

pub fn less_eq(a: u64, b: u64) -> (r: bool)
    ensures
        r == num_less_eq(a, b),
{
    !nan(a) && !nan(b) && key(a) <= key(b)
}

pub fn equal(a: u64, b: u64) -> (r: bool)
    ensures
        r == num_eq(a, b),
{
    !nan(a) && !nan(b) && key(a) == key(b)
}

} // verus!
