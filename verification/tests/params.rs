use break_eternity::strategy::{Arm, DecimalParams};
use break_eternity::{ArithmeticError, ArithmeticErrorKind, BreakEternityError, LambertBranch, Notation, TetrationMode};

#[test]
fn presets() {
    let d = DecimalParams::default();
    assert!(d.zero && d.negative && d.fractional && !d.infinite);
    assert_eq!(d.max_layer, 4);
    assert_eq!(DecimalParams::finite(), d);
    assert!(DecimalParams::any().infinite);
    let p = DecimalParams::positive();
    assert!(!p.zero && !p.negative && p.fractional);
    assert!(!DecimalParams::integer().fractional);
    assert_eq!(DecimalParams::layer0().max_layer, 0);
}

#[test]
fn builders_change_one_field() {
    let d = DecimalParams::default();
    assert_eq!(d.with_zero(false), DecimalParams::default().with_zero(false));
    assert!(!d.with_zero(false).zero);
    assert!(!d.with_negative(false).negative);
    assert!(!d.with_fractional(false).fractional);
    assert!(d.with_infinite(true).infinite);
    assert_eq!(d.with_max_layer(9).max_layer, 9);
    let p = d.with_max_layer(9);
    assert!(p.zero && p.negative && p.fractional && !p.infinite);
}

#[test]
fn default_arms() {
    let arms = DecimalParams::default().arms();
    assert_eq!(
        arms,
        vec![
            (2, Arm::Zero),
            (6, Arm::SmallInteger),
            (4, Arm::WholeNumber),
            (2, Arm::TopOfLayerZero { crosses_layer: true }),
            (4, Arm::Fraction),
            (4, Arm::BelowOne),
            (6, Arm::Layer { layer: 1, negative_mag: false }),
            (1, Arm::TinyBoundary),
            (1, Arm::LayerOneBoundary),
            (3, Arm::Layer { layer: 1, negative_mag: true }),
            (3, Arm::Layer { layer: 2, negative_mag: false }),
            (1, Arm::Layer { layer: 2, negative_mag: true }),
            (3, Arm::Layer { layer: 3, negative_mag: false }),
            (1, Arm::Layer { layer: 3, negative_mag: true }),
            (3, Arm::Layer { layer: 4, negative_mag: false }),
            (1, Arm::Layer { layer: 4, negative_mag: true }),
        ]
    );
}

#[test]
fn narrowed_arms() {
    let arms = DecimalParams::layer0().with_zero(false).with_fractional(false).arms();
    assert_eq!(
        arms,
        vec![
            (6, Arm::SmallInteger),
            (4, Arm::WholeNumber),
            (2, Arm::TopOfLayerZero { crosses_layer: false }),
        ]
    );
    let arms = DecimalParams::any().with_max_layer(8).arms();
    assert_eq!(arms[arms.len() - 2], (1, Arm::HighLayers { max_layer: 8 }));
    assert_eq!(arms[arms.len() - 1], (1, Arm::Infinity));
}

#[test]
fn selectors() {
    assert_eq!(TetrationMode::default(), TetrationMode::Analytic);
    assert_eq!(TetrationMode::from_linear_flag(true), TetrationMode::Linear);
    assert_eq!(TetrationMode::from_linear_flag(false), TetrationMode::Analytic);
    assert_eq!(LambertBranch::default(), LambertBranch::Principal);
    assert_eq!(Notation::from_name("Standard"), Some(Notation::Standard));
    assert_eq!(Notation::from_name("LOGARITHM"), Some(Notation::Logarithm));
    assert_eq!(Notation::from_name("engineering"), Some(Notation::Engineering));
    assert_eq!(Notation::from_name("letters"), Some(Notation::Letters));
    assert_eq!(Notation::from_name("scientific"), Some(Notation::Scientific));
    assert_eq!(Notation::from_name("roman"), None);
}

#[test]
fn error_constructors() {
    let e = ArithmeticError::new(ArithmeticErrorKind::Overflow, "pow");
    assert_eq!(e.kind, ArithmeticErrorKind::Overflow);
    assert_eq!(e.op, "pow");
    assert_eq!(ArithmeticError::undefined("sub").kind, ArithmeticErrorKind::Undefined);
    assert_eq!(ArithmeticError::division_by_zero("div").kind, ArithmeticErrorKind::DivisionByZero);
    assert_eq!(ArithmeticError::negative_base("pow").kind, ArithmeticErrorKind::NegativeBase);
    assert_eq!(ArithmeticError::out_of_domain("ln").kind, ArithmeticErrorKind::OutOfDomain);
    assert_eq!(ArithmeticError::diverged("slog").kind, ArithmeticErrorKind::IterationDiverged);
    let wrapped = BreakEternityError::from(e);
    assert!(matches!(wrapped, BreakEternityError::Arithmetic(inner) if inner == e));
}
