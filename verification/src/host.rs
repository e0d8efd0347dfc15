//! The services that the interpreter asks of the program around it.
//!
//! A binary64 number is held as its IEEE 754 bit pattern in a `u64`; the
//! interpreter moves such patterns around and never computes with them. Each
//! arithmetic step is a [`Request`] to the host, a callback of type
//! `Fn(Request) -> Reply`. Contracts speak of a host through its [`Numerics`]:
//! the functions that its answers define.
use vstd::prelude::*;

verus! {

/// The four operations on two numbers.
#[derive(Clone, Copy, Debug, PartialEq, Eq, Structural)]
pub enum Arith {
    Add,
    Sub,
    Mul,
    Div,
}

/// The operations on one number.
#[derive(Clone, Copy, Debug, PartialEq, Eq, Structural)]
pub enum Func {
    Sin,
    Cos,
    Sqrt,
    /// Nearest integer, halves away from zero.
    Round,
    /// The part behind the decimal point, with the sign of the number.
    Fract,
    /// The number with its sign changed.
    Neg,
}

/// The bit pattern of the number zero.
pub const ZERO: u64 = 0;

/// The bit pattern of the number one.
pub const ONE: u64 = 0x3ff0_0000_0000_0000;

/// The bit pattern of the number minus one.
pub const MINUS_ONE: u64 = 0xbff0_0000_0000_0000;

/// The bit pattern is one of the two that stand for zero: all bits clear,
/// or only the sign bit set.
pub open spec fn is_zero(bits: u64) -> bool {
    bits == 0 || bits == 0x8000_0000_0000_0000
}

/// Tells whether a number is zero.
pub fn float_is_zero(bits: u64) -> (zero: bool)
    ensures
        zero == is_zero(bits),
{
    bits == 0 || bits == 0x8000_0000_0000_0000
}

/// What the interpreter asks of its host.
#[derive(Debug)]
pub enum Request {
    /// The number that a decimal literal denotes.
    Literal(String),
    /// The result of an operation on two numbers.
    Binary(Arith, u64, u64),
    /// The result of an operation on one number.
    Unary(Func, u64),
    /// The number nearest to an integer.
    FromInt(i64),
    /// A number cut off towards zero, and held to the range of `i64`.
    ToInt(u64),
    /// A number written with eight decimal places.
    Show(u64),
    /// Draw the points whose coordinates are the two lists, pair by pair.
    Plot(Vec<u64>, Vec<u64>),
    /// End the program.
    Exit,
}

/// What a host answers.
#[derive(Debug)]
pub enum Reply {
    Float(u64),
    Int(i64),
    Text(String),
    Done,
}

/// The arithmetic of a host, as mathematical functions on bit patterns.
pub struct Numerics {
    pub literal: spec_fn(Seq<char>) -> u64,
    pub binary: spec_fn(Arith, u64, u64) -> u64,
    pub unary: spec_fn(Func, u64) -> u64,
    pub from_int: spec_fn(i64) -> u64,
    pub to_int: spec_fn(u64) -> i64,
    pub show: spec_fn(u64) -> Seq<char>,
}

/// `host` may answer `bits` to a request for the value of a literal spelled
/// `spelling`.
pub open spec fn answers_literal<H: Fn(Request) -> Reply>(
    host: &H,
    spelling: Seq<char>,
    bits: u64,
) -> bool {
    exists|s: String| s@ == spelling && host.ensures((Request::Literal(s),), Reply::Float(bits))
}

/// `host` may answer a text spelled `spelling` to a request to show `bits`.
pub open spec fn answers_show<H: Fn(Request) -> Reply>(
    host: &H,
    bits: u64,
    spelling: Seq<char>,
) -> bool {
    exists|s: String| s@ == spelling && host.ensures((Request::Show(bits),), Reply::Text(s))
}

/// The functions that the answers of `host` define.
pub open spec fn numerics<H: Fn(Request) -> Reply>(host: &H) -> Numerics {
    Numerics {
        literal: |t: Seq<char>| choose|b: u64| answers_literal(host, t, b),
        binary: |op: Arith, x: u64, y: u64|
            choose|b: u64| host.ensures((Request::Binary(op, x, y),), Reply::Float(b)),
        unary: |f: Func, x: u64|
            choose|b: u64| host.ensures((Request::Unary(f, x),), Reply::Float(b)),
        from_int: |i: i64| choose|b: u64| host.ensures((Request::FromInt(i),), Reply::Float(b)),
        to_int: |x: u64| choose|i: i64| host.ensures((Request::ToInt(x),), Reply::Int(i)),
        show: |x: u64| choose|t: Seq<char>| answers_show(host, x, t),
    }
}

/// The kind of answer that a request calls for.
pub open spec fn fits(request: Request, reply: Reply) -> bool {
    match request {
        Request::Literal(_) => reply is Float,
        Request::Binary(_, _, _) => reply is Float,
        Request::Unary(_, _) => reply is Float,
        Request::FromInt(_) => reply is Float,
        Request::ToInt(_) => reply is Int,
        Request::Show(_) => reply is Text,
        Request::Plot(_, _) => true,
        Request::Exit => true,
    }
}

/// A host that the interpreter can work with: it accepts every request,
/// answers each in kind, and its arithmetic is a function of the request.
pub open spec fn well_behaved<H: Fn(Request) -> Reply>(host: &H) -> bool {
    &&& forall|q: Request| #[trigger] host.requires((q,))
    &&& forall|q: Request, r: Reply| #[trigger] host.ensures((q,), r) ==> fits(q, r)
    &&& forall|s1: String, s2: String, b1: u64, b2: u64|
        s1@ == s2@ && #[trigger] host.ensures((Request::Literal(s1),), Reply::Float(b1))
            && #[trigger] host.ensures((Request::Literal(s2),), Reply::Float(b2)) ==> b1 == b2
    &&& forall|op: Arith, x: u64, y: u64, b1: u64, b2: u64|
        #[trigger] host.ensures((Request::Binary(op, x, y),), Reply::Float(b1))
            && #[trigger] host.ensures((Request::Binary(op, x, y),), Reply::Float(b2)) ==> b1
            == b2
    &&& forall|f: Func, x: u64, b1: u64, b2: u64|
        #[trigger] host.ensures((Request::Unary(f, x),), Reply::Float(b1))
            && #[trigger] host.ensures((Request::Unary(f, x),), Reply::Float(b2)) ==> b1 == b2
    &&& forall|i: i64, b1: u64, b2: u64|
        #[trigger] host.ensures((Request::FromInt(i),), Reply::Float(b1))
            && #[trigger] host.ensures((Request::FromInt(i),), Reply::Float(b2)) ==> b1 == b2
    &&& forall|x: u64, i1: i64, i2: i64|
        #[trigger] host.ensures((Request::ToInt(x),), Reply::Int(i1))
            && #[trigger] host.ensures((Request::ToInt(x),), Reply::Int(i2)) ==> i1 == i2
    &&& forall|x: u64, s1: String, s2: String|
        #[trigger] host.ensures((Request::Show(x),), Reply::Text(s1))
            && #[trigger] host.ensures((Request::Show(x),), Reply::Text(s2)) ==> s1@ == s2@
}

/// Asks the host for the number that a decimal literal denotes.
pub fn literal<H: Fn(Request) -> Reply>(host: &H, text: String) -> (bits: u64)
    requires
        well_behaved(host),
    ensures
        bits == (numerics(host).literal)(text@),
{
    match host(Request::Literal(text)) {
        Reply::Float(b) => {
            assert(answers_literal(host, text@, b));
            b
        },
        _ => 0,
    }
}

/// Asks the host for the result of `op` on `x` and `y`.
pub fn binary<H: Fn(Request) -> Reply>(host: &H, op: Arith, x: u64, y: u64) -> (bits: u64)
    requires
        well_behaved(host),
    ensures
        bits == (numerics(host).binary)(op, x, y),
{
    match host(Request::Binary(op, x, y)) {
        Reply::Float(b) => b,
        _ => 0,
    }
}

/// Asks the host for the result of `f` on `x`.
pub fn unary<H: Fn(Request) -> Reply>(host: &H, f: Func, x: u64) -> (bits: u64)
    requires
        well_behaved(host),
    ensures
        bits == (numerics(host).unary)(f, x),
{
    match host(Request::Unary(f, x)) {
        Reply::Float(b) => b,
        _ => 0,
    }
}

/// Asks the host for the number nearest to `i`.
pub fn from_int<H: Fn(Request) -> Reply>(host: &H, i: i64) -> (bits: u64)
    requires
        well_behaved(host),
    ensures
        bits == (numerics(host).from_int)(i),
{
    match host(Request::FromInt(i)) {
        Reply::Float(b) => b,
        _ => 0,
    }
}

/// Asks the host for `x` cut off to an integer.
pub fn to_int<H: Fn(Request) -> Reply>(host: &H, x: u64) -> (i: i64)
    requires
        well_behaved(host),
    ensures
        i == (numerics(host).to_int)(x),
{
    match host(Request::ToInt(x)) {
        Reply::Int(i) => i,
        _ => 0,
    }
}

/// Asks the host to write `x` with eight decimal places.
pub fn show<H: Fn(Request) -> Reply>(host: &H, x: u64) -> (text: String)
    requires
        well_behaved(host),
    ensures
        text@ == (numerics(host).show)(x),
{
    match host(Request::Show(x)) {
        Reply::Text(s) => {
            assert(answers_show(host, x, s@));
            s
        },
        _ => String::new(),
    }
}

/// Hands two lists of coordinates to the host for drawing.
pub fn plot<H: Fn(Request) -> Reply>(host: &H, xs: Vec<u64>, ys: Vec<u64>)
    requires
        well_behaved(host),
{
    let _ = host(Request::Plot(xs, ys));
}

/// Asks the host to end the program. Returns if the host declines.
pub fn exit<H: Fn(Request) -> Reply>(host: &H)
    requires
        well_behaved(host),
{
    let _ = host(Request::Exit);
}

} // verus!
