//! The built-in functions of the language.
//!
//! Each takes and returns matrices. The interpreter finds them by name.
use vstd::prelude::*;

pub mod cross;
pub mod determinant;
pub mod dot;
pub mod elementwise;
pub mod exit;
pub mod get_minors;
pub mod identity;
pub mod invert;
pub mod linspace;
pub mod plot;
pub mod rotation;
pub mod routh;
pub mod transpose;

use crate::error::ErrorView;
use crate::host::{numerics, well_behaved, Func, Numerics, Reply, Request};
use crate::matrix::{agrees, empty_matrix, views, Matrix, MatrixView};
use crate::text::same_text;

pub use cross::Cross;
pub use determinant::Determinant;
pub use dot::Dot;
pub use elementwise::{Cos, Sin, Sqrt};
pub use exit::Exit;
pub use get_minors::GetMinors;
pub use identity::Identity;
pub use invert::Invert;
pub use linspace::Linspace;
pub use plot::Plt;
pub use rotation::Rotation2d;
pub use routh::Routh;
pub use transpose::Transpose;

verus! {

/// The functions that have a name in the language.
#[derive(Clone, Copy, Debug, PartialEq, Eq, Structural)]
pub enum StdFunction {
    Transpose,
    Determinant,
    Identity,
    Invert,
    Sqrt,
    Sin,
    Cos,
    Exit,
    Cross,
    Dot,
    Linspace,
    Plot,
    Rotation2d,
    /// The stand-in for a function that is not found: it returns the matrix
    /// without cells, whatever its arguments.
    Missing,
}

/// What a lookup gives: a function, and the error that the lookup reports
/// where it found none and hands out the stand-in.
#[derive(Debug, PartialEq, Eq)]
pub struct Lookup {
    pub function: StdFunction,
    pub reported: Option<crate::error::Error>,
}

/// The function that a name stands for, if any.
pub open spec fn function_named(name: Seq<char>) -> Option<StdFunction> {
    if name == "t"@ {
        Some(StdFunction::Transpose)
    } else if name == "det"@ {
        Some(StdFunction::Determinant)
    } else if name == "I"@ {
        Some(StdFunction::Identity)
    } else if name == "inv"@ {
        Some(StdFunction::Invert)
    } else if name == "sqrt"@ {
        Some(StdFunction::Sqrt)
    } else if name == "sin"@ {
        Some(StdFunction::Sin)
    } else if name == "cos"@ {
        Some(StdFunction::Cos)
    } else if name == "exit"@ {
        Some(StdFunction::Exit)
    } else if name == "cross"@ {
        Some(StdFunction::Cross)
    } else if name == "dot"@ {
        Some(StdFunction::Dot)
    } else if name == "linspace"@ {
        Some(StdFunction::Linspace)
    } else if name == "plot"@ {
        Some(StdFunction::Plot)
    } else if name == "rotation2d"@ {
        Some(StdFunction::Rotation2d)
    } else {
        None
    }
}

/// The function that a lookup of `name` hands out: the function of that
/// name, or the stand-in where there is none.
pub open spec fn found(name: Seq<char>) -> StdFunction {
    match function_named(name) {
        Some(f) => f,
        None => StdFunction::Missing,
    }
}

/// What a lookup of `name` reports: `CouldNotFindFunction` where no function
/// has that name, nothing where one has.
pub open spec fn reported_for(name: Seq<char>) -> Option<crate::error::Error> {
    if function_named(name) is None {
        Some(crate::error::Error::CouldNotFindFunction)
    } else {
        None
    }
}

/// What a function of one argument returns: `WrongNumberOfArgs` but for one
/// argument.
pub open spec fn of_one(
    args: Seq<MatrixView>,
    result: spec_fn(MatrixView) -> Result<MatrixView, ErrorView>,
) -> Result<MatrixView, ErrorView> {
    if args.len() != 1 {
        Err(ErrorView::WrongNumberOfArgs)
    } else {
        result(args[0])
    }
}

/// What a function of two arguments returns: `WrongNumberOfArgs` but for two
/// arguments.
pub open spec fn of_two(
    args: Seq<MatrixView>,
    result: spec_fn(MatrixView, MatrixView) -> Result<MatrixView, ErrorView>,
) -> Result<MatrixView, ErrorView> {
    if args.len() != 2 {
        Err(ErrorView::WrongNumberOfArgs)
    } else {
        result(args[0], args[1])
    }
}

/// What the function `f` returns for the arguments `args`.
pub open spec fn applied(f: StdFunction, args: Seq<MatrixView>, n: Numerics) -> Result<
    MatrixView,
    ErrorView,
> {
    match f {
        StdFunction::Transpose => of_one(args, |m: MatrixView| Ok(transpose::transposed(m))),
        StdFunction::Determinant => determinant::determinant_of(args, n),
        StdFunction::Identity => of_one(args, |m: MatrixView| identity::identity_for(m, n)),
        StdFunction::Invert => of_one(args, |m: MatrixView| invert::inverted(m, n)),
        StdFunction::Sqrt => of_one(
            args,
            |m: MatrixView| Ok(elementwise::mapped(m, Func::Sqrt, n)),
        ),
        StdFunction::Sin => of_one(args, |m: MatrixView| Ok(elementwise::mapped(m, Func::Sin, n))),
        StdFunction::Cos => of_one(args, |m: MatrixView| Ok(elementwise::mapped(m, Func::Cos, n))),
        StdFunction::Exit => Ok(empty_matrix()),
        StdFunction::Cross => of_two(
            args,
            |a: MatrixView, b: MatrixView| cross::cross_of(a, b, n),
        ),
        StdFunction::Dot => of_two(args, |a: MatrixView, b: MatrixView| dot::dot_of(a, b, n)),
        StdFunction::Linspace => linspace::linspace_of(args, n),
        StdFunction::Plot => of_two(args, |a: MatrixView, b: MatrixView| plot::plot_of(a, b)),
        StdFunction::Rotation2d => of_one(args, |m: MatrixView| rotation::rotation_for(m, n)),
        StdFunction::Missing => Ok(empty_matrix()),
    }
}

/// Every matrix of the sequence holds one value for each of its cells.
pub open spec fn all_shaped(args: Seq<MatrixView>) -> bool {
    forall|i: int| 0 <= i < args.len() ==> (#[trigger] args[i]).shaped()
}

/// The arguments of a call, one by one, are what their views are, and each
/// is shaped where all are.
pub proof fn lemma_args(args: Seq<Matrix>)
    requires
        all_shaped(views(args)),
    ensures
        views(args).len() == args.len(),
        forall|i: int|
            0 <= i < args.len() ==> (#[trigger] args[i])@.shaped() && views(args)[i] == args[i]@,
{
    assert forall|i: int| 0 <= i < args.len() implies (#[trigger] args[i])@.shaped() && views(
        args,
    )[i] == args[i]@ by {
        assert(views(args)[i].shaped());
    }
}

/// Any function available in the standard library satisfies this trait.
pub trait StdFunc {
    /// What the function returns for the arguments `args`.
    spec fn result(&self, args: Seq<MatrixView>, n: Numerics) -> Result<MatrixView, ErrorView>;

    /// Applies the function to its arguments.
    fn eval<H: Fn(Request) -> Reply>(&self, args: &Vec<Matrix>, host: &H) -> (outcome: Result<
        Matrix,
        crate::error::Error,
    >)
        requires
            all_shaped(views(args@)),
            well_behaved(host),
        ensures
            agrees(outcome, self.result(views(args@), numerics(host))),
            outcome matches Ok(m) ==> m@.shaped(),
    ;
}

/// Get a function based on that function's name.
///
/// Where no function has the name, the lookup reports `CouldNotFindFunction`
/// and hands out the stand-in, so that the evaluation can go on.
pub fn get_std_function(name: &String) -> (outcome: Lookup)
    ensures
        outcome.function == found(name@),
        outcome.reported == reported_for(name@),
{
    let name = name.as_str();
    let function = if same_text(name, "t") {
        StdFunction::Transpose
    } else if same_text(name, "det") {
        StdFunction::Determinant
    } else if same_text(name, "I") {
        StdFunction::Identity
    } else if same_text(name, "inv") {
        StdFunction::Invert
    } else if same_text(name, "sqrt") {
        StdFunction::Sqrt
    } else if same_text(name, "sin") {
        StdFunction::Sin
    } else if same_text(name, "cos") {
        StdFunction::Cos
    } else if same_text(name, "exit") {
        StdFunction::Exit
    } else if same_text(name, "cross") {
        StdFunction::Cross
    } else if same_text(name, "dot") {
        StdFunction::Dot
    } else if same_text(name, "linspace") {
        StdFunction::Linspace
    } else if same_text(name, "plot") {
        StdFunction::Plot
    } else if same_text(name, "rotation2d") {
        StdFunction::Rotation2d
    } else {
        return Lookup {
            function: StdFunction::Missing,
            reported: Some(crate::error::Error::CouldNotFindFunction),
        };
    };
    Lookup { function, reported: None }
}

impl StdFunc for Transpose {
    open spec fn result(&self, args: Seq<MatrixView>, n: Numerics) -> Result<MatrixView, ErrorView> {
        applied(StdFunction::Transpose, args, n)
    }

    fn eval<H: Fn(Request) -> Reply>(&self, args: &Vec<Matrix>, host: &H) -> (outcome: Result<
        Matrix,
        crate::error::Error,
    >) {
        proof {
            lemma_args(args@);
        }
        if args.len() != 1 {
            return Err(crate::error::Error::WrongNumberOfArgs);
        }
        Ok(Transpose::evalpure(&args[0]))
    }
}

impl StdFunc for Determinant {
    open spec fn result(&self, args: Seq<MatrixView>, n: Numerics) -> Result<MatrixView, ErrorView> {
        applied(StdFunction::Determinant, args, n)
    }

    fn eval<H: Fn(Request) -> Reply>(&self, args: &Vec<Matrix>, host: &H) -> (outcome: Result<
        Matrix,
        crate::error::Error,
    >) {
        proof {
            lemma_args(args@);
        }
        if args.len() != 1 {
            return Err(crate::error::Error::WrongNumberOfArgs);
        }
        match Determinant::evalpure(&args[0], host) {
            Ok(d) => {
                let mut vals: Vec<u64> = Vec::new();
                vals.push(d);
                assert(vals@ == seq![d]);
                assert(vals.len() == 1 * 1);
                Ok(Matrix::new(1, 1, vals))
            },
            Err(e) => Err(e),
        }
    }
}

impl StdFunc for Identity {
    open spec fn result(&self, args: Seq<MatrixView>, n: Numerics) -> Result<MatrixView, ErrorView> {
        applied(StdFunction::Identity, args, n)
    }

    fn eval<H: Fn(Request) -> Reply>(&self, args: &Vec<Matrix>, host: &H) -> (outcome: Result<
        Matrix,
        crate::error::Error,
    >) {
        proof {
            lemma_args(args@);
        }
        if args.len() != 1 {
            return Err(crate::error::Error::WrongNumberOfArgs);
        }
        Identity::evalpure(&args[0], host)
    }
}

impl StdFunc for Invert {
    open spec fn result(&self, args: Seq<MatrixView>, n: Numerics) -> Result<MatrixView, ErrorView> {
        applied(StdFunction::Invert, args, n)
    }

    fn eval<H: Fn(Request) -> Reply>(&self, args: &Vec<Matrix>, host: &H) -> (outcome: Result<
        Matrix,
        crate::error::Error,
    >) {
        proof {
            lemma_args(args@);
        }
        if args.len() != 1 {
            return Err(crate::error::Error::WrongNumberOfArgs);
        }
        Invert::evalpure(&args[0], host)
    }
}

impl StdFunc for Sqrt {
    open spec fn result(&self, args: Seq<MatrixView>, n: Numerics) -> Result<MatrixView, ErrorView> {
        applied(StdFunction::Sqrt, args, n)
    }

    fn eval<H: Fn(Request) -> Reply>(&self, args: &Vec<Matrix>, host: &H) -> (outcome: Result<
        Matrix,
        crate::error::Error,
    >) {
        proof {
            lemma_args(args@);
        }
        if args.len() != 1 {
            return Err(crate::error::Error::WrongNumberOfArgs);
        }
        Ok(Sqrt::evalpure(&args[0], host))
    }
}

impl StdFunc for Sin {
    open spec fn result(&self, args: Seq<MatrixView>, n: Numerics) -> Result<MatrixView, ErrorView> {
        applied(StdFunction::Sin, args, n)
    }

    fn eval<H: Fn(Request) -> Reply>(&self, args: &Vec<Matrix>, host: &H) -> (outcome: Result<
        Matrix,
        crate::error::Error,
    >) {
        proof {
            lemma_args(args@);
        }
        if args.len() != 1 {
            return Err(crate::error::Error::WrongNumberOfArgs);
        }
        Ok(Sin::evalpure(&args[0], host))
    }
}

impl StdFunc for Cos {
    open spec fn result(&self, args: Seq<MatrixView>, n: Numerics) -> Result<MatrixView, ErrorView> {
        applied(StdFunction::Cos, args, n)
    }

    fn eval<H: Fn(Request) -> Reply>(&self, args: &Vec<Matrix>, host: &H) -> (outcome: Result<
        Matrix,
        crate::error::Error,
    >) {
        proof {
            lemma_args(args@);
        }
        if args.len() != 1 {
            return Err(crate::error::Error::WrongNumberOfArgs);
        }
        Ok(Cos::evalpure(&args[0], host))
    }
}

impl StdFunc for Exit {
    open spec fn result(&self, args: Seq<MatrixView>, n: Numerics) -> Result<MatrixView, ErrorView> {
        applied(StdFunction::Exit, args, n)
    }

    fn eval<H: Fn(Request) -> Reply>(&self, args: &Vec<Matrix>, host: &H) -> (outcome: Result<
        Matrix,
        crate::error::Error,
    >) {
        proof {
            lemma_args(args@);
        }
        crate::host::exit(host);
        Ok(Matrix::empty())
    }
}

impl StdFunc for Cross {
    open spec fn result(&self, args: Seq<MatrixView>, n: Numerics) -> Result<MatrixView, ErrorView> {
        applied(StdFunction::Cross, args, n)
    }

    fn eval<H: Fn(Request) -> Reply>(&self, args: &Vec<Matrix>, host: &H) -> (outcome: Result<
        Matrix,
        crate::error::Error,
    >) {
        proof {
            lemma_args(args@);
        }
        if args.len() != 2 {
            return Err(crate::error::Error::WrongNumberOfArgs);
        }
        Cross::evalpure(&args[0], &args[1], host)
    }
}

impl StdFunc for Dot {
    open spec fn result(&self, args: Seq<MatrixView>, n: Numerics) -> Result<MatrixView, ErrorView> {
        applied(StdFunction::Dot, args, n)
    }

    fn eval<H: Fn(Request) -> Reply>(&self, args: &Vec<Matrix>, host: &H) -> (outcome: Result<
        Matrix,
        crate::error::Error,
    >) {
        proof {
            lemma_args(args@);
        }
        if args.len() != 2 {
            return Err(crate::error::Error::WrongNumberOfArgs);
        }
        Dot::evalpure(&args[0], &args[1], host)
    }
}

impl StdFunc for Linspace {
    open spec fn result(&self, args: Seq<MatrixView>, n: Numerics) -> Result<MatrixView, ErrorView> {
        applied(StdFunction::Linspace, args, n)
    }

    fn eval<H: Fn(Request) -> Reply>(&self, args: &Vec<Matrix>, host: &H) -> (outcome: Result<
        Matrix,
        crate::error::Error,
    >) {
        proof {
            lemma_args(args@);
        }
        if args.len() != 2 && args.len() != 3 {
            return Err(crate::error::Error::WrongNumberOfArgs);
        }
        let mut i: usize = 0;
        while i < args.len()
            invariant
                args.len() == 2 || args.len() == 3,
                forall|k: int| 0 <= k < args.len() ==> views(args@)[k] == (#[trigger] args[k])@,
                i <= args.len(),
                forall|k: int| 0 <= k < i ==> (#[trigger] views(args@)[k]).vals.len() != 0,
            decreases args.len() - i,
        {
            if args[i].vals().len() == 0 {
                assert(views(args@)[i as int].vals.len() == 0);
                assert(linspace::linspace_of(views(args@), numerics(host)) == Err::<
                    MatrixView,
                    ErrorView,
                >(ErrorView::RequiresUnitMatrix));
                return Err(crate::error::Error::RequiresUnitMatrix);
            }
            i += 1;
        }
        assert(views(args@)[0].vals.len() != 0);
        assert(views(args@)[1].vals.len() != 0);
        assert(args.len() == 3 ==> views(args@)[2].vals.len() != 0);
        let start = args[0].vals()[0];
        let end = args[1].vals()[0];
        let count = if args.len() == 2 {
            crate::host::unary(
                host,
                Func::Round,
                crate::host::binary(host, crate::host::Arith::Sub, end, start),
            )
        } else {
            args[2].vals()[0]
        };
        Linspace::evalpure(start, end, count, host)
    }
}

impl StdFunc for Plt {
    open spec fn result(&self, args: Seq<MatrixView>, n: Numerics) -> Result<MatrixView, ErrorView> {
        applied(StdFunction::Plot, args, n)
    }

    fn eval<H: Fn(Request) -> Reply>(&self, args: &Vec<Matrix>, host: &H) -> (outcome: Result<
        Matrix,
        crate::error::Error,
    >) {
        proof {
            lemma_args(args@);
        }
        if args.len() != 2 {
            return Err(crate::error::Error::WrongNumberOfArgs);
        }
        Plt::evalpure(&args[0], &args[1], host)
    }
}

impl StdFunc for Rotation2d {
    open spec fn result(&self, args: Seq<MatrixView>, n: Numerics) -> Result<MatrixView, ErrorView> {
        applied(StdFunction::Rotation2d, args, n)
    }

    fn eval<H: Fn(Request) -> Reply>(&self, args: &Vec<Matrix>, host: &H) -> (outcome: Result<
        Matrix,
        crate::error::Error,
    >) {
        proof {
            lemma_args(args@);
        }
        if args.len() != 1 {
            return Err(crate::error::Error::WrongNumberOfArgs);
        }
        Rotation2d::evalpure(&args[0], host)
    }
}

impl StdFunc for Routh {
    open spec fn result(&self, args: Seq<MatrixView>, n: Numerics) -> Result<MatrixView, ErrorView> {
        Ok(empty_matrix())
    }

    fn eval<H: Fn(Request) -> Reply>(&self, args: &Vec<Matrix>, host: &H) -> (outcome: Result<
        Matrix,
        crate::error::Error,
    >) {
        proof {
            lemma_args(args@);
        }
        Ok(Matrix::empty())
    }
}

/// The function that stands in for one that is not found: it returns the
/// matrix without cells, whatever its arguments.
#[derive(Clone, Copy)]
pub struct Error;

impl StdFunc for Error {
    open spec fn result(&self, args: Seq<MatrixView>, n: Numerics) -> Result<MatrixView, ErrorView> {
        Ok(empty_matrix())
    }

    fn eval<H: Fn(Request) -> Reply>(&self, args: &Vec<Matrix>, host: &H) -> (outcome: Result<
        Matrix,
        crate::error::Error,
    >) {
        Ok(Matrix::empty())
    }
}

impl StdFunc for StdFunction {
    open spec fn result(&self, args: Seq<MatrixView>, n: Numerics) -> Result<MatrixView, ErrorView> {
        applied(*self, args, n)
    }

    fn eval<H: Fn(Request) -> Reply>(&self, args: &Vec<Matrix>, host: &H) -> (outcome: Result<
        Matrix,
        crate::error::Error,
    >) {
        proof {
            lemma_args(args@);
        }
        match self {
            StdFunction::Transpose => Transpose.eval(args, host),
            StdFunction::Determinant => Determinant.eval(args, host),
            StdFunction::Identity => Identity.eval(args, host),
            StdFunction::Invert => Invert.eval(args, host),
            StdFunction::Sqrt => Sqrt.eval(args, host),
            StdFunction::Sin => Sin.eval(args, host),
            StdFunction::Cos => Cos.eval(args, host),
            StdFunction::Exit => Exit.eval(args, host),
            StdFunction::Cross => Cross.eval(args, host),
            StdFunction::Dot => Dot.eval(args, host),
            StdFunction::Linspace => Linspace.eval(args, host),
            StdFunction::Plot => Plt.eval(args, host),
            StdFunction::Rotation2d => Rotation2d.eval(args, host),
            StdFunction::Missing => Error.eval(args, host),
        }
    }
}

} // verus!
