use break_eternity::parse::{
    decide, parse_plan, Choice, Fragment, MantissaText, ParsePlan, Reading, Readings,
};

fn reading(text: &str) -> Reading {
    match text.parse::<f64>() {
        Err(_) => Reading::Invalid,
        Ok(x) if x.is_finite() => Reading::Finite,
        Ok(_) => Reading::NotFinite,
    }
}

fn lenient(text: &str) -> Reading {
    reading(text.trim())
}

fn readings(plan: &ParsePlan) -> Readings {
    let mantissa = match &plan.exponent.mantissa {
        MantissaText::Number(m) => Some(reading(m)),
        _ => None,
    };
    let mantissa_is_zero = match &plan.exponent.mantissa {
        MantissaText::Number(m) => m.parse::<f64>().map(|x| x == 0.0).unwrap_or(false),
        _ => false,
    };
    Readings {
        pentation_base: plan.pentation.as_ref().map(|o| lenient(&o.base)),
        pentation_height: plan.pentation.as_ref().map(|o| lenient(&o.height)),
        tetration_base: plan.tetration.as_ref().map(|o| lenient(&o.base)),
        tetration_height: plan.tetration.as_ref().map(|o| lenient(&o.height)),
        power_base: plan.power.as_ref().map(|o| lenient(&o.0)),
        power_exponent: plan.power.as_ref().map(|o| lenient(&o.1)),
        pt_height: plan.pt.as_ref().map(|o| lenient(&o.height)),
        p_height: plan.p.as_ref().map(|o| lenient(&o.height)),
        f_height: plan.f.as_ref().map(|o| lenient(&o.height)),
        value: lenient(&plan.value),
        value_is_ordinary: plan
            .value
            .parse::<f64>()
            .map(|n| n.is_finite() && n.abs() > 1e-307)
            .unwrap_or(false),
        caret_layer: plan.caret.as_ref().map(|c| lenient(&c.layer)),
        caret_mag: plan.caret.as_ref().map(|c| lenient(&c.mag)),
        mantissa,
        mantissa_is_zero,
        last: lenient(&plan.exponent.last),
    }
}

fn choice(s: &str) -> Choice {
    let plan = parse_plan(s);
    let r = readings(&plan);
    decide(&plan, &r)
}

#[test]
fn decision_specials() {
    assert_eq!(choice("Infinity"), Choice::Infinity);
    assert_eq!(choice("-inf"), Choice::NegInfinity);
    assert_eq!(choice("NaN"), Choice::Malformed);
    assert_eq!(choice("nan"), Choice::Malformed);
    assert_eq!(choice(""), Choice::Malformed);
}

#[test]
fn decision_operators_and_shorthands() {
    assert_eq!(choice("2^^^2"), Choice::Pentate);
    assert_eq!(choice("2^^^2;2"), Choice::Pentate);
    assert_eq!(choice("2^^3"), Choice::Tetrate);
    assert_eq!(choice("2^^2;3"), Choice::Tetrate);
    // A parenthesized base is a base: the value of `(-2)^^2.5` is undefined, not malformed.
    assert_eq!(choice("(-2)^^2.5"), Choice::Tetrate);
    assert_eq!(choice("(2)^^^2"), Choice::Pentate);
    assert_eq!(choice("10^3"), Choice::Power);
    assert_eq!(choice("2^10"), Choice::Power);
    assert_eq!(choice("3pt2"), Choice::PtShorthand);
    assert_eq!(choice("3 PT (2)"), Choice::PtShorthand);
    assert_eq!(choice("2p3"), Choice::PShorthand);
    assert_eq!(choice("2f3"), Choice::FShorthand);
    assert_eq!(choice("f2"), Choice::FShorthand);
}

#[test]
fn decision_exponent_forms() {
    assert_eq!(choice("42"), Choice::Plain);
    assert_eq!(choice("1,000,000"), Choice::Plain);
    assert_eq!(choice(".5"), Choice::Plain);
    assert_eq!(choice("1e5"), Choice::Ordinary);
    assert_eq!(choice("1e1000"), Choice::MantissaOne);
    assert_eq!(choice("2.47e-324"), Choice::MantissaOne);
    assert_eq!(choice("0e5"), Choice::Zero);
    assert_eq!(choice("0e5000"), Choice::Zero);
    assert_eq!(choice("e3"), Choice::Stacked);
    assert_eq!(choice("-e3"), Choice::Stacked);
    assert_eq!(choice("ee3"), Choice::Stacked);
    assert_eq!(choice("2ee3"), Choice::MantissaTwo);
    assert_eq!(choice("1e1e3"), Choice::MantissaTwo);
    assert_eq!(choice("2eee3"), Choice::MantissaMany);
    assert_eq!(choice("(e^100)15000000000"), Choice::Caret);
    assert_eq!(choice("-(e^7)15.5"), Choice::Caret);
    assert_eq!(choice("(e^-1)5"), Choice::Caret);
}

#[test]
fn decision_garbage_is_refused() {
    for s in [
        "", "abc", "1e", "e", "1_000", "1e5e", "--5", "(e^5", "1..2", "e^", "pt", "f",
    ] {
        let c = choice(s);
        assert!(
            matches!(c, Choice::Malformed | Choice::FloatError(_)),
            "{s:?} should fail, got {c:?}"
        );
    }
    assert_eq!(choice("1e"), Choice::FloatError(Fragment::LastExponent));
    assert_eq!(choice("abc"), Choice::FloatError(Fragment::Value));
}

fn refused(c: Choice) -> bool {
    matches!(c, Choice::Malformed | Choice::FloatError(_))
}

#[test]
fn decision_accepts_every_notation() {
    let accepted = [
        "0", "-5", "3.14", "1,000,000", ".5", "5.", "+7", "1.23e45", "1.23E+45", "1.23e-45",
        "1e1000", "2.47e-324", "1e100.5", "e10", "ee10", "eee10", "eeeee10", "5e3e2",
        "-ee-100.5", "ee-100", "(e^7)10", "-(e^7)10", "(e^1000)33.3", "(e^2.5)10", "2^10",
        "2^^3", "2^^3;1.5", "10^^5", "2^^^2", "3^^^2;2", "1e5^2", "3 PT 4", "3 PT (4)", "3pt4",
        "3p4", "10 pt 2", "2f3", "f3", "f(3)", "-2f3", "Infinity", "-Infinity", "inf", "-inf",
        "+Infinity", "INFINITY", "  42  ", " 1e5 ",
    ];
    for s in accepted {
        let c = choice(s);
        assert!(!refused(c), "{s:?} should be read in some notation, got {c:?}");
    }
    assert_eq!(choice("1e5^2"), Choice::Power);
    assert_eq!(choice("-ee-100.5"), Choice::Stacked);
    assert_eq!(choice("1e100.5"), Choice::MantissaOne);
    assert_eq!(choice("(e^2.5)10"), Choice::Caret);
    assert_eq!(choice("INFINITY"), Choice::Infinity);
    assert_eq!(choice("  42  "), Choice::Plain);
}

#[test]
fn decision_refuses_text_outside_the_grammar() {
    let rejected = [
        "", "abc", "lots", "1e1O0", "10x", "NaN", "nan", "1_000", "0x10", "1 000", "é",
        "1e5 apples", "e", "^", "(e^5", "--5", "1..2", "..", "2^^", ";5", "f", "pt", "p",
        "2)^^3", "(2^^3", "((2))^^3", "2)^^^2", "(2^^^2",
    ];
    for s in rejected {
        let c = choice(s);
        assert!(refused(c), "{s:?} should be refused, got {c:?}");
    }
}
