use break_eternity::parse::{parse_plan, Literal, MantissaText};

#[test]
fn plan_normalizes_whitespace_commas_and_case() {
    let plan = parse_plan("  1,000,000  ");
    assert_eq!(plan.value, "1000000");
    assert_eq!(plan.literal, Literal::Number);
    assert_eq!(plan.exponent.e_count, 0);
    assert_eq!(parse_plan("1E5").value, "1e5");
    assert_eq!(parse_plan("3 PT 2").value, "3 pt 2");
}

#[test]
fn plan_literals() {
    assert_eq!(parse_plan("").literal, Literal::Empty);
    assert_eq!(parse_plan("   ").literal, Literal::Empty);
    for s in ["NaN", "nan", "+nan", "-NAN"] {
        assert_eq!(parse_plan(s).literal, Literal::NotANumber, "{s}");
    }
    for s in ["Infinity", "+infinity", "inf", "+Inf", " INFINITY "] {
        assert_eq!(parse_plan(s).literal, Literal::Infinity, "{s}");
    }
    for s in ["-Infinity", "-inf"] {
        assert_eq!(parse_plan(s).literal, Literal::NegInfinity, "{s}");
    }
    assert_eq!(parse_plan("infinit").literal, Literal::Number);
}

#[test]
fn plan_operators() {
    let p = parse_plan("2^^^2;2");
    let pent = p.pentation.unwrap();
    assert_eq!((pent.base.as_str(), pent.height.as_str()), ("2", "2"));
    assert_eq!(pent.payload.as_deref(), Some("2"));
    // `^^` splits "2^^^2;2" into "2" and "^2;2".
    let tet = p.tetration.unwrap();
    assert_eq!((tet.base.as_str(), tet.height.as_str()), ("2", "^2"));

    let p = parse_plan("2^^3");
    assert!(p.pentation.is_none());
    let tet = p.tetration.unwrap();
    assert_eq!((tet.base.as_str(), tet.height.as_str(), tet.payload), ("2", "3", None));

    let p = parse_plan("2^^2;(3)");
    assert_eq!(p.tetration.unwrap().payload.as_deref(), Some("3"));

    let p = parse_plan("2^10");
    assert!(p.tetration.is_none());
    assert_eq!(p.power, Some(("2".to_string(), "10".to_string())));

    // Two separators give more than two pieces: no operator form.
    assert!(parse_plan("2^3^4").power.is_none());
    assert!(parse_plan("2^^3^^4").tetration.is_none());
}

#[test]
fn plan_tetrate_shorthands() {
    let p = parse_plan("3 PT (2)");
    let pt = p.pt.unwrap();
    assert!(!pt.negative);
    assert_eq!((pt.height.as_str(), pt.payload.as_str()), ("3", "2"));

    let pt = parse_plan("-3pt2").pt.unwrap();
    assert!(pt.negative);
    assert_eq!((pt.height.as_str(), pt.payload.as_str()), ("3", "2"));

    let p = parse_plan("2p3");
    assert!(p.pt.is_none());
    let short = p.p.unwrap();
    assert_eq!((short.height.as_str(), short.payload.as_str()), ("2", "3"));

    let f = parse_plan("-2f(3)").f.unwrap();
    assert!(f.negative);
    assert_eq!((f.height.as_str(), f.payload.as_str()), ("3", "2"));

    let f = parse_plan("f2").f.unwrap();
    assert!(!f.negative);
    assert_eq!((f.height.as_str(), f.payload.as_str()), ("2", ""));
}

#[test]
fn plan_exponent_forms() {
    let e = parse_plan("1.5e100").exponent;
    assert_eq!(e.e_count, 1);
    assert_eq!(e.mantissa, MantissaText::Number("1.5".to_string()));
    assert_eq!(e.last, "100");
    assert_eq!(e.second_last, None);

    let e = parse_plan("ee3").exponent;
    assert_eq!(e.e_count, 2);
    assert_eq!(e.mantissa, MantissaText::Absent);
    assert_eq!(e.last, "3");
    assert_eq!(e.second_last.as_deref(), Some(""));

    let e = parse_plan("-e3").exponent;
    assert_eq!(e.mantissa, MantissaText::Minus);
    let e = parse_plan("+e3").exponent;
    assert_eq!(e.mantissa, MantissaText::Absent);

    let e = parse_plan("5e3e2").exponent;
    assert_eq!(e.e_count, 2);
    assert_eq!(e.mantissa, MantissaText::Number("5".to_string()));
    assert_eq!(e.last, "2");
    assert_eq!(e.second_last.as_deref(), Some("3"));

    let e = parse_plan("42").exponent;
    assert_eq!(e.e_count, 0);
    assert_eq!(e.last, "42");
}

#[test]
fn plan_parenthesized_layer() {
    let c = parse_plan("(e^100)15000000000").caret.unwrap();
    assert!(!c.negative);
    assert_eq!((c.layer.as_str(), c.mag.as_str()), ("100", "15000000000"));

    let c = parse_plan("-(e^7)15.5").caret.unwrap();
    assert!(c.negative);
    assert_eq!((c.layer.as_str(), c.mag.as_str()), ("7", "15.5"));

    let c = parse_plan("(e^-1)5").caret.unwrap();
    assert_eq!((c.layer.as_str(), c.mag.as_str()), ("-1", "5"));

    let c = parse_plan("(e^1e300)5").caret.unwrap();
    assert_eq!(c.layer, "1e300");

    // No character ends the layer: not the `(e^N)X` form.
    assert!(parse_plan("(e^5").caret.is_none());
}

#[test]
fn plan_non_ascii_does_not_panic() {
    for s in ["(e^é)5", "５", "1e５", "ｅ5", "—5", "e^ü)3"] {
        let _ = parse_plan(s);
    }
    let c = parse_plan("(e^é)5").caret.unwrap();
    assert_eq!((c.layer.as_str(), c.mag.as_str()), ("", ")5"));
}

#[test]
fn plan_lowercases_non_ascii_text() {
    assert_eq!(parse_plan("ΣE5").value, "σe5");
    assert_eq!(parse_plan(" ÉE3 ").value, "ée3");
    assert_eq!(parse_plan("ÉE3").exponent.e_count, 1);
}

#[test]
fn plan_operator_base_loses_one_enclosing_pair_only() {
    assert_eq!(parse_plan("(-2)^^2.5").tetration.unwrap().base, "-2");
    assert_eq!(parse_plan("( 3 )^^^2").pentation.unwrap().base, "3");
    assert_eq!(parse_plan("2)^^3").tetration.unwrap().base, "2)");
    assert_eq!(parse_plan("(2^^3").tetration.unwrap().base, "(2");
    assert_eq!(parse_plan("((2))^^3").tetration.unwrap().base, "(2)");
}
