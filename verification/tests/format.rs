use break_eternity::format::{decimal_text, tower_text};
use break_eternity::parse::{parse_plan, MantissaText};

#[test]
fn decimal_digits() {
    assert_eq!(decimal_text(0), "0");
    assert_eq!(decimal_text(7), "7");
    assert_eq!(decimal_text(10), "10");
    assert_eq!(decimal_text(9_000_000_000_000_000), "9000000000000000");
    assert_eq!(decimal_text(u64::MAX), u64::MAX.to_string());
    for n in 0u64..2000 {
        assert_eq!(decimal_text(n), n.to_string());
    }
}

#[test]
fn stacked_and_parenthesized_towers() {
    assert_eq!(tower_text(false, 2, false, "100"), "ee100");
    assert_eq!(tower_text(true, 2, false, "100"), "-ee100");
    assert_eq!(tower_text(false, 3, false, "5.5"), "eee5.5");
    assert_eq!(tower_text(false, 5, true, "10"), "EEEEE10");
    assert_eq!(tower_text(false, 7, false, "20.00"), "(e^7)20.00");
    assert_eq!(tower_text(true, 7, false, "15.5"), "-(e^7)15.5");
    assert_eq!(tower_text(false, 10, true, "1"), "(E^10)1");
    assert_eq!(tower_text(false, 2, false, "-20"), "ee-20");
}

#[test]
fn tower_text_reads_back() {
    for layer in 2u64..=5 {
        for (neg, mag) in [(false, "100"), (true, "15.5"), (false, "-20")] {
            let text = tower_text(neg, layer, false, mag);
            let plan = parse_plan(&text);
            assert_eq!(plan.exponent.e_count as u64, layer);
            assert_eq!(
                plan.exponent.mantissa,
                if neg { MantissaText::Minus } else { MantissaText::Absent }
            );
            assert_eq!(plan.exponent.last, mag);
            assert!(plan.caret.is_none());
        }
    }
    for layer in [6u64, 7, 100, 9_000_000_000_000_000] {
        let text = tower_text(true, layer, false, "33.3");
        let caret = parse_plan(&text).caret.unwrap();
        assert!(caret.negative);
        assert_eq!(caret.layer, layer.to_string());
        assert_eq!(caret.mag, "33.3");
    }
}

#[test]
fn upper_case_tower_text_reads_back_as_lower_case() {
    for layer in 2u64..=5 {
        let upper = parse_plan(&tower_text(true, layer, true, "2.5"));
        let lower = parse_plan(&tower_text(true, layer, false, "2.5"));
        assert_eq!(upper, lower);
        assert_eq!(upper.exponent.e_count as u64, layer);
    }
    let caret = parse_plan(&tower_text(false, 12, true, "7")).caret.unwrap();
    assert!(!caret.negative);
    assert_eq!(caret.layer, "12");
    assert_eq!(caret.mag, "7");
}
