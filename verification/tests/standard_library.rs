use elemental::host::{self, Arith, Func, Reply, Request};
use elemental::standard::{
    get_std_function, Lookup, Cos, Cross, Determinant, Dot, Exit, GetMinors, Identity, Invert, Linspace,
    Plt, Rotation2d, Routh, Sin, Sqrt, StdFunc, StdFunction, Transpose,
};
use elemental::{Error, Matrix};

fn unit(request: Request) -> Reply {
    match request {
        Request::Literal(text) => Reply::Float(text.parse::<f64>().unwrap_or(f64::NAN).to_bits()),
        Request::Binary(op, x, y) => {
            let x = f64::from_bits(x);
            let y = f64::from_bits(y);
            let result = match op {
                Arith::Add => x + y,
                Arith::Sub => x - y,
                Arith::Mul => x * y,
                Arith::Div => x / y,
            };
            Reply::Float(result.to_bits())
        }
        Request::Unary(f, x) => {
            let x = f64::from_bits(x);
            let result = match f {
                Func::Sin => x.sin(),
                Func::Cos => x.cos(),
                Func::Sqrt => x.sqrt(),
                Func::Round => x.round(),
                Func::Fract => x.fract(),
                Func::Neg => -x,
            };
            Reply::Float(result.to_bits())
        }
        Request::FromInt(i) => Reply::Float((i as f64).to_bits()),
        Request::ToInt(x) => Reply::Int(f64::from_bits(x) as i64),
        Request::Show(x) => Reply::Text(format!("{:.8}", f64::from_bits(x))),
        Request::Plot(_, _) => Reply::Done,
        Request::Exit => Reply::Done,
    }
}

fn matrix(rows: usize, cols: usize, values: &[f64]) -> Matrix {
    Matrix::new(rows, cols, values.iter().map(|x| x.to_bits()).collect())
}

fn numbers(m: &Matrix) -> Vec<f64> {
    m.vals().iter().map(|x| f64::from_bits(*x)).collect()
}

#[test]
fn host_calls_reach_the_host() {
    assert_eq!(host::literal(&unit, "2.5".to_string()), 2.5f64.to_bits());
    assert_eq!(host::binary(&unit, Arith::Add, 1.0f64.to_bits(), 2.0f64.to_bits()), 3.0f64.to_bits());
    assert_eq!(host::binary(&unit, Arith::Sub, 1.0f64.to_bits(), 2.0f64.to_bits()), (-1.0f64).to_bits());
    assert_eq!(host::binary(&unit, Arith::Mul, 3.0f64.to_bits(), 2.0f64.to_bits()), 6.0f64.to_bits());
    assert_eq!(host::binary(&unit, Arith::Div, 3.0f64.to_bits(), 2.0f64.to_bits()), 1.5f64.to_bits());
    assert_eq!(host::unary(&unit, Func::Sqrt, 9.0f64.to_bits()), 3.0f64.to_bits());
    assert_eq!(host::unary(&unit, Func::Neg, 9.0f64.to_bits()), (-9.0f64).to_bits());
    assert_eq!(host::unary(&unit, Func::Round, 2.5f64.to_bits()), 3.0f64.to_bits());
    assert_eq!(host::unary(&unit, Func::Fract, 2.25f64.to_bits()), 0.25f64.to_bits());
    assert_eq!(host::from_int(&unit, -4), (-4.0f64).to_bits());
    assert_eq!(host::to_int(&unit, (-4.9f64).to_bits()), -4);
    assert_eq!(host::show(&unit, 0.125f64.to_bits()), "0.12500000");
    host::plot(&unit, vec![1.0f64.to_bits()], vec![2.0f64.to_bits()]);
    host::exit(&unit);
    assert!(host::float_is_zero(0.0f64.to_bits()));
    assert!(host::float_is_zero((-0.0f64).to_bits()));
    assert!(!host::float_is_zero(1e-300f64.to_bits()));
    assert!(!host::float_is_zero(f64::NAN.to_bits()));
    assert_eq!(host::ZERO, 0.0f64.to_bits());
    assert_eq!(host::ONE, 1.0f64.to_bits());
    assert_eq!(host::MINUS_ONE, (-1.0f64).to_bits());
}

#[test]
fn matrix_accessors() {
    let mut m = matrix(2, 3, &[1.0, 2.0, 3.0, 4.0, 5.0, 6.0]);
    assert_eq!(m.rows(), 2);
    assert_eq!(m.cols(), 3);
    assert_eq!(numbers(&m), vec![1.0, 2.0, 3.0, 4.0, 5.0, 6.0]);
    assert_eq!(m.copy_vals(), m.vals().clone());
    assert_eq!(f64::from_bits(m.at(1, 0)), 4.0);
    assert_eq!(f64::from_bits(m.at(0, 2)), 3.0);
    m.set(1, 2, 9.0f64.to_bits());
    assert_eq!(numbers(&m), vec![1.0, 2.0, 3.0, 4.0, 5.0, 9.0]);
    m.vals_mut()[0] = 7.0f64.to_bits();
    assert_eq!(f64::from_bits(m.at(0, 0)), 7.0);
    let copy = m.clone();
    assert_eq!(numbers(&copy), numbers(&m));
    let empty = Matrix::empty();
    assert_eq!((empty.rows(), empty.cols(), empty.vals().len()), (0, 0, 0));
}

#[test]
fn matrix_arithmetic() {
    let a = matrix(1, 3, &[1.0, 2.0, 3.0]);
    let b = matrix(1, 3, &[0.5, 0.5, 0.5]);
    assert_eq!(numbers(&a.scalar_multiply(2.0f64.to_bits(), &unit)), vec![2.0, 4.0, 6.0]);
    assert_eq!(numbers(&a.add(&b, &unit).unwrap()), vec![1.5, 2.5, 3.5]);
    assert_eq!(numbers(&a.sub(&b, &unit).unwrap()), vec![0.5, 1.5, 2.5]);
    let c = matrix(3, 1, &[1.0, 2.0, 3.0]);
    assert_eq!(a.add(&c, &unit).err(), Some(Error::ImproperDimensions));
    assert_eq!(a.sub(&c, &unit).err(), Some(Error::ImproperDimensions));
}

#[test]
fn transpose_swaps_rows_and_columns() {
    let m = matrix(2, 3, &[1.0, 2.0, 3.0, 4.0, 5.0, 6.0]);
    let t = Transpose::evalpure(&m);
    assert_eq!((t.rows(), t.cols()), (3, 2));
    assert_eq!(numbers(&t), vec![1.0, 4.0, 2.0, 5.0, 3.0, 6.0]);
    let back = Transpose::evalpure(&t);
    assert_eq!((back.rows(), back.cols()), (2, 3));
    assert_eq!(numbers(&back), numbers(&m));
    let none = Transpose::evalpure(&Matrix::new(0, 3, vec![]));
    assert_eq!((none.rows(), none.cols(), none.vals().len()), (3, 0, 0));
}

#[test]
fn minors_leave_out_a_row_and_a_column() {
    let m = matrix(3, 3, &[1.0, 2.0, 3.0, 4.0, 5.0, 6.0, 7.0, 8.0, 9.0]);
    let corner = GetMinors::evalpure(&m, 0, 0);
    assert_eq!((corner.rows(), corner.cols()), (2, 2));
    assert_eq!(numbers(&corner), vec![5.0, 6.0, 8.0, 9.0]);
    assert_eq!(numbers(&GetMinors::evalpure(&m, 1, 1)), vec![1.0, 3.0, 7.0, 9.0]);
    assert_eq!(numbers(&GetMinors::evalpure(&m, 2, 0)), vec![2.0, 3.0, 5.0, 6.0]);
    let wide = matrix(2, 3, &[1.0, 2.0, 3.0, 4.0, 5.0, 6.0]);
    let rest = GetMinors::evalpure(&wide, 0, 1);
    assert_eq!((rest.rows(), rest.cols()), (1, 2));
    assert_eq!(numbers(&rest), vec![4.0, 6.0]);
    let one = GetMinors::evalpure(&matrix(1, 1, &[5.0]), 0, 0);
    assert_eq!((one.rows(), one.cols(), one.vals().len()), (0, 0, 0));
}

#[test]
fn determinants() {
    let det = |m: &Matrix| Determinant::evalpure(m, &unit).map(f64::from_bits);
    assert_eq!(det(&matrix(1, 1, &[5.0])), Ok(5.0));
    assert_eq!(det(&matrix(2, 2, &[1.0, 2.0, 3.0, 4.0])), Ok(-2.0));
    assert_eq!(det(&matrix(3, 3, &[2.0, 0.0, 0.0, 0.0, 3.0, 0.0, 0.0, 0.0, 4.0])), Ok(24.0));
    assert_eq!(det(&matrix(3, 3, &[1.0, 2.0, 3.0, 4.0, 5.0, 6.0, 7.0, 8.0, 10.0])), Ok(-3.0));
    assert_eq!(
        det(&matrix(4, 4, &[1.0, 0.0, 2.0, -1.0, 3.0, 0.0, 0.0, 5.0, 2.0, 1.0, 4.0, -3.0, 1.0, 0.0, 5.0, 0.0])),
        Ok(30.0)
    );
    assert_eq!(det(&Matrix::empty()), Ok(1.0));
    assert_eq!(det(&matrix(2, 3, &[1.0, 2.0, 3.0, 4.0, 5.0, 6.0])), Err(Error::SquareMatrixRequired));
}

#[test]
fn inverses() {
    let inverse = Invert::evalpure(&matrix(2, 2, &[1.0, 2.0, 3.0, 4.0]), &unit).unwrap();
    assert_eq!((inverse.rows(), inverse.cols()), (2, 2));
    assert_eq!(numbers(&inverse), vec![-2.0, 1.0, 1.5, -0.5]);
    let diagonal = Invert::evalpure(&matrix(3, 3, &[2.0, 0.0, 0.0, 0.0, 4.0, 0.0, 0.0, 0.0, 8.0]), &unit).unwrap();
    assert_eq!(numbers(&diagonal), vec![0.5, -0.0, 0.0, -0.0, 0.25, -0.0, 0.0, -0.0, 0.125]);
    assert_eq!(numbers(&Invert::evalpure(&matrix(1, 1, &[4.0]), &unit).unwrap()), vec![0.25]);
    assert_eq!(
        Invert::evalpure(&matrix(2, 2, &[1.0, 2.0, 2.0, 4.0]), &unit).err(),
        Some(Error::DividedByZero)
    );
    assert_eq!(
        Invert::evalpure(&matrix(1, 2, &[1.0, 2.0]), &unit).err(),
        Some(Error::SquareMatrixRequired)
    );
}

#[test]
fn identities() {
    let two = Identity::evalpure(&matrix(1, 1, &[2.0]), &unit).unwrap();
    assert_eq!((two.rows(), two.cols()), (2, 2));
    assert_eq!(numbers(&two), vec![1.0, 0.0, 0.0, 1.0]);
    let three = Identity::evalpure(&matrix(1, 1, &[3.9]), &unit).unwrap();
    assert_eq!(numbers(&three), vec![1.0, 0.0, 0.0, 0.0, 1.0, 0.0, 0.0, 0.0, 1.0]);
    let none = Identity::evalpure(&matrix(1, 1, &[-2.0]), &unit).unwrap();
    assert_eq!((none.rows(), none.cols(), none.vals().len()), (0, 0, 0));
    assert_eq!(
        Identity::evalpure(&matrix(1, 2, &[1.0, 2.0]), &unit).err(),
        Some(Error::RequiresUnitMatrix)
    );
    assert_eq!(
        Identity::evalpure(&matrix(1, 1, &[1e18]), &unit).err(),
        Some(Error::ImproperDimensions)
    );
}

#[test]
fn dot_and_cross_products() {
    let a = matrix(1, 3, &[1.0, 2.0, 3.0]);
    let b = matrix(1, 3, &[4.0, 5.0, 6.0]);
    let dot = Dot::evalpure(&a, &b, &unit).unwrap();
    assert_eq!((dot.rows(), dot.cols()), (1, 1));
    assert_eq!(numbers(&dot), vec![32.0]);
    let cross = Cross::evalpure(&a, &b, &unit).unwrap();
    assert_eq!((cross.rows(), cross.cols()), (1, 3));
    assert_eq!(numbers(&cross), vec![-3.0, 6.0, -3.0]);
    let column = matrix(3, 1, &[4.0, 5.0, 6.0]);
    assert_eq!(Dot::evalpure(&a, &column, &unit).err(), Some(Error::ImproperDimensions));
    assert_eq!(Cross::evalpure(&a, &column, &unit).err(), Some(Error::ImproperDimensions));
    let short = matrix(1, 2, &[4.0, 5.0]);
    assert_eq!(Dot::evalpure(&short, &short, &unit).err(), Some(Error::ImproperDimensions));
    assert_eq!(Cross::evalpure(&short, &short, &unit).err(), Some(Error::ImproperDimensions));
}

#[test]
fn functions_of_each_cell() {
    let m = matrix(1, 2, &[0.0, 4.0]);
    assert_eq!(numbers(&Sqrt::evalpure(&m, &unit)), vec![0.0, 2.0]);
    assert_eq!(numbers(&Sin::evalpure(&m, &unit)), vec![0.0, 4.0f64.sin()]);
    assert_eq!(numbers(&Cos::evalpure(&m, &unit)), vec![1.0, 4.0f64.cos()]);
    let shaped = Sqrt::evalpure(&matrix(2, 1, &[9.0, 16.0]), &unit);
    assert_eq!((shaped.rows(), shaped.cols()), (2, 1));
}

#[test]
fn rotations() {
    let quarter = std::f64::consts::FRAC_PI_2;
    let r = Rotation2d::evalpure(&matrix(1, 1, &[quarter]), &unit).unwrap();
    assert_eq!((r.rows(), r.cols()), (2, 2));
    assert_eq!(numbers(&r), vec![quarter.cos(), -quarter.sin(), quarter.sin(), quarter.cos()]);
    assert_eq!(
        Rotation2d::evalpure(&matrix(2, 1, &[1.0, 2.0]), &unit).err(),
        Some(Error::RequiresUnitMatrix)
    );
}

#[test]
fn linspaces() {
    let l = Linspace::evalpure(0.0f64.to_bits(), 1.0f64.to_bits(), 4.0f64.to_bits(), &unit).unwrap();
    assert_eq!((l.rows(), l.cols()), (1, 4));
    assert_eq!(numbers(&l), vec![0.0, 0.25, 0.5, 0.75]);
    let down = Linspace::evalpure(2.0f64.to_bits(), 0.0f64.to_bits(), 2.0f64.to_bits(), &unit).unwrap();
    assert_eq!(numbers(&down), vec![2.0, 1.0]);
    let none = Linspace::evalpure(0.0f64.to_bits(), 1.0f64.to_bits(), (-3.0f64).to_bits(), &unit).unwrap();
    assert_eq!((none.rows(), none.cols(), none.vals().len()), (1, 0, 0));
    let two = Linspace.eval(&vec![matrix(1, 1, &[1.0]), matrix(1, 1, &[3.4])], &unit).unwrap();
    assert_eq!(numbers(&two), vec![1.0, 2.2]);
    let three = Linspace
        .eval(&vec![matrix(1, 1, &[1.0]), matrix(1, 1, &[2.0]), matrix(1, 1, &[2.0])], &unit)
        .unwrap();
    assert_eq!(numbers(&three), vec![1.0, 1.5]);
    assert_eq!(
        Linspace.eval(&vec![matrix(1, 1, &[1.0]), Matrix::empty()], &unit).err(),
        Some(Error::RequiresUnitMatrix)
    );
    assert_eq!(Linspace.eval(&vec![], &unit).err(), Some(Error::WrongNumberOfArgs));
}

#[test]
fn plots_return_the_empty_matrix() {
    let a = matrix(1, 3, &[1.0, 2.0, 3.0]);
    let b = matrix(1, 3, &[4.0, 5.0, 6.0]);
    let p = Plt::evalpure(&a, &b, &unit).unwrap();
    assert_eq!((p.rows(), p.cols(), p.vals().len()), (0, 0, 0));
    let c = matrix(3, 1, &[4.0, 5.0, 6.0]);
    assert_eq!(Plt::evalpure(&a, &c, &unit).err(), Some(Error::ImproperDimensions));
}

#[test]
fn functions_by_name() {
    let named = |name: &str| get_std_function(&name.to_string());
    let found = |function: StdFunction| Lookup { function, reported: None };
    assert_eq!(named("t"), found(StdFunction::Transpose));
    assert_eq!(named("det"), found(StdFunction::Determinant));
    assert_eq!(named("I"), found(StdFunction::Identity));
    assert_eq!(named("inv"), found(StdFunction::Invert));
    assert_eq!(named("sqrt"), found(StdFunction::Sqrt));
    assert_eq!(named("sin"), found(StdFunction::Sin));
    assert_eq!(named("cos"), found(StdFunction::Cos));
    assert_eq!(named("exit"), found(StdFunction::Exit));
    assert_eq!(named("cross"), found(StdFunction::Cross));
    assert_eq!(named("dot"), found(StdFunction::Dot));
    assert_eq!(named("linspace"), found(StdFunction::Linspace));
    assert_eq!(named("plot"), found(StdFunction::Plot));
    assert_eq!(named("rotation2d"), found(StdFunction::Rotation2d));
    for name in ["T", "", "routh", "det ", "transpose", "Missing"] {
        let lookup = named(name);
        assert_eq!(
            lookup,
            Lookup { function: StdFunction::Missing, reported: Some(Error::CouldNotFindFunction) }
        );
        for args in [vec![], vec![matrix(1, 1, &[1.0])], vec![matrix(1, 2, &[1.0, 2.0]), Matrix::empty()]] {
            let result = lookup.function.eval(&args, &unit).unwrap();
            assert_eq!((result.rows(), result.cols(), result.vals().len()), (0, 0, 0));
        }
    }
}

#[test]
fn functions_check_the_number_of_arguments() {
    let one = vec![matrix(2, 2, &[1.0, 2.0, 3.0, 4.0])];
    let two = vec![matrix(1, 3, &[1.0, 2.0, 3.0]), matrix(1, 3, &[4.0, 5.0, 6.0])];
    let none: Vec<Matrix> = vec![];
    assert_eq!(numbers(&Transpose.eval(&one, &unit).unwrap()), vec![1.0, 3.0, 2.0, 4.0]);
    assert_eq!(numbers(&Determinant.eval(&one, &unit).unwrap()), vec![-2.0]);
    assert_eq!(numbers(&Invert.eval(&one, &unit).unwrap()), vec![-2.0, 1.0, 1.5, -0.5]);
    assert_eq!(numbers(&Sqrt.eval(&one, &unit).unwrap()), vec![1.0, 2.0f64.sqrt(), 3.0f64.sqrt(), 2.0]);
    assert_eq!(numbers(&Dot.eval(&two, &unit).unwrap()), vec![32.0]);
    assert_eq!(numbers(&Cross.eval(&two, &unit).unwrap()), vec![-3.0, 6.0, -3.0]);
    assert_eq!(StdFunction::Dot.eval(&two, &unit).map(|m| numbers(&m)).ok(), Some(vec![32.0]));
    assert_eq!(Plt.eval(&two, &unit).unwrap().vals().len(), 0);
    assert_eq!(Exit.eval(&two, &unit).unwrap().vals().len(), 0);
    assert_eq!(Exit.eval(&none, &unit).unwrap().vals().len(), 0);
    assert_eq!(Routh.eval(&one, &unit).unwrap().vals().len(), 0);
    assert_eq!(elemental::standard::Error.eval(&two, &unit).unwrap().vals().len(), 0);
    assert_eq!(Routh::evalpure(&matrix(1, 3, &[1.0, 2.0, 3.0])).unwrap().vals().len(), 0);
    assert_eq!(Routh::evalpure(&one[0]).err(), Some(Error::RequiresUnitMatrix));
    assert_eq!(Transpose.eval(&two, &unit).err(), Some(Error::WrongNumberOfArgs));
    assert_eq!(Determinant.eval(&none, &unit).err(), Some(Error::WrongNumberOfArgs));
    assert_eq!(Identity.eval(&two, &unit).err(), Some(Error::WrongNumberOfArgs));
    assert_eq!(Invert.eval(&two, &unit).err(), Some(Error::WrongNumberOfArgs));
    assert_eq!(Sqrt.eval(&two, &unit).err(), Some(Error::WrongNumberOfArgs));
    assert_eq!(Sin.eval(&none, &unit).err(), Some(Error::WrongNumberOfArgs));
    assert_eq!(Cos.eval(&two, &unit).err(), Some(Error::WrongNumberOfArgs));
    assert_eq!(Rotation2d.eval(&two, &unit).err(), Some(Error::WrongNumberOfArgs));
    assert_eq!(Dot.eval(&one, &unit).err(), Some(Error::WrongNumberOfArgs));
    assert_eq!(Cross.eval(&one, &unit).err(), Some(Error::WrongNumberOfArgs));
    assert_eq!(Plt.eval(&one, &unit).err(), Some(Error::WrongNumberOfArgs));
}
