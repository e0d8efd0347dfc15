//! Generates linear spaces (linspaces).
use vstd::prelude::*;

use crate::error::{Error, ErrorView};
use crate::host::{
    binary, from_int, numerics, to_int, unary, well_behaved, Arith, Func, Numerics, Reply, Request,
};
use crate::matrix::{agrees, Matrix, MatrixView};

verus! {

/// Generates a row of evenly spaced numbers.
#[derive(Clone, Copy)]
pub struct Linspace;

/// The sample at position `k`: `start` with `step` added `k` times, one
/// addition after the other.
pub open spec fn sample(start: u64, step: u64, k: int, n: Numerics) -> u64
    decreases k,
{
    if k <= 0 {
        start
    } else {
        (n.binary)(Arith::Add, sample(start, step, k - 1, n), step)
    }
}

/// The row of `count` samples from `start` on, with the step
/// `(end - start) / count`, where `count` is the third number cut off to an
/// integer. No sample where that is not positive.
pub open spec fn linspace(start: u64, end: u64, count: u64, n: Numerics) -> Result<
    MatrixView,
    ErrorView,
> {
    let wanted = (n.to_int)(count);
    let step = (n.binary)(Arith::Div, (n.binary)(Arith::Sub, end, start), (n.from_int)(wanted));
    let len: int = if wanted < 0 {
        0
    } else {
        wanted as int
    };
    if len > usize::MAX {
        Err(ErrorView::ImproperDimensions)
    } else {
        Ok(
            MatrixView {
                rows: 1,
                cols: len as usize,
                vals: Seq::new(len as nat, |k: int| sample(start, step, k, n)),
            },
        )
    }
}

/// The linspace that two or three arguments ask for: from the first cell of
/// the first to that of the second, with as many samples as the first cell
/// of the third says, or, without a third, as the rounded distance says.
pub open spec fn linspace_of(args: Seq<MatrixView>, n: Numerics) -> Result<MatrixView, ErrorView> {
    if args.len() != 2 && args.len() != 3 {
        Err(ErrorView::WrongNumberOfArgs)
    } else if exists|i: int| 0 <= i < args.len() && (#[trigger] args[i]).vals.len() == 0 {
        Err(ErrorView::RequiresUnitMatrix)
    } else {
        let start = args[0].vals[0];
        let end = args[1].vals[0];
        let count = if args.len() == 2 {
            (n.unary)(Func::Round, (n.binary)(Arith::Sub, end, start))
        } else {
            args[2].vals[0]
        };
        linspace(start, end, count, n)
    }
}

impl Linspace {
    /// The row of samples from `start` towards `end`.
    ///
    /// Fails with `ImproperDimensions` where there would be more samples than
    /// a vector can hold.
    pub fn evalpure<H: Fn(Request) -> Reply>(start: u64, end: u64, count: u64, host: &H) -> (outcome:
        Result<Matrix, Error>)
        requires
            well_behaved(host),
        ensures
            agrees(outcome, linspace(start, end, count, numerics(host))),
            outcome matches Ok(r) ==> r@.shaped(),
    {
        let ghost n = numerics(host);
        // Arbitrary step computed from count given
        let wanted = to_int(host, count);
        let step = binary(
            host,
            Arith::Div,
            binary(host, Arith::Sub, end, start),
            from_int(host, wanted),
        );
        let wide: u64 = if wanted < 0 {
            0
        } else {
            wanted as u64
        };
        if wide > usize::MAX as u64 {
            return Err(Error::ImproperDimensions);
        }
        let len = wide as usize;
        let mut current = start;
        let mut output: Vec<u64> = Vec::new();
        let mut i: usize = 0;
        while i < len
            invariant
                n == numerics(host),
                well_behaved(host),
                i <= len,
                output.len() == i,
                current == sample(start, step, i as int, n),
                forall|k: int| 0 <= k < i ==> output[k] == sample(start, step, k, n),
            decreases len - i,
        {
            output.push(current);
            current = binary(host, Arith::Add, current, step);
            i += 1;
        }
        assert(output@ =~= Seq::new(len as nat, |k: int| sample(start, step, k, n)));
        assert(1 * len == len) by (nonlinear_arith);
        Ok(Matrix::new(1, len, output))
    }
}

} // verus!
