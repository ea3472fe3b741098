use break_eternity::notation::{letters_abbreviation, standard_abbreviation};
use break_eternity::Notation;

#[test]
fn illion_table() {
    let names = [
        (1, "K"),
        (2, "M"),
        (10, "No"),
        (11, "Dc"),
        (12, "UDc"),
        (13, "DDc"),
        (21, "Vg"),
        (22, "UVg"),
        (101, "Ce"),
        (102, "UCe"),
        (111, "DcCe"),
        (112, "UDcCe"),
        (1000, "NNnNe"),
        (1001, "MI"),
        (1002, "MI-U"),
        (1012, "MI-UDc"),
        (2001, "DMI"),
        (1_000_001, "MC"),
        (1_001_001, "MC-MI"),
        (2_001_002, "DMC-MI-U"),
    ];
    for (k, name) in names {
        assert_eq!(standard_abbreviation(k), name, "{k}");
    }
    assert_eq!(standard_abbreviation(0), "");
    assert_eq!(
        standard_abbreviation(u64::MAX),
        "ODcAT-SxQdQeFM-QaQdSiPC-TStNA-NSiMC-UQiQuMI-QaDcSc"
    );
}

#[test]
fn letters_table() {
    assert_eq!(letters_abbreviation(0), "");
    assert_eq!(letters_abbreviation(26), "z");
    assert_eq!(letters_abbreviation(27), "aa");
    assert_eq!(letters_abbreviation(52), "az");
    assert_eq!(letters_abbreviation(53), "ba");
    assert_eq!(letters_abbreviation(702), "zz");
}

#[test]
fn documented_abbreviations() {
    assert_eq!(standard_abbreviation(1), "K");
    assert_eq!(standard_abbreviation(12), "UDc");
    assert_eq!(standard_abbreviation(21), "Vg");
    assert_eq!(standard_abbreviation(1002), "MI-U");
    assert_eq!(letters_abbreviation(1), "a");
    assert_eq!(letters_abbreviation(27), "aa");
    assert_eq!(letters_abbreviation(703), "aaa");
}

#[test]
fn short_illion_names() {
    let short = ["", "K", "M", "B", "T", "Qa", "Qt", "Sx", "Sp", "Oc", "No"];
    for (k, name) in short.iter().enumerate() {
        assert_eq!(standard_abbreviation(k as u64), *name);
    }
    // 1e33 is Dc, 1e303 is Ce, 1e3003 is MI, 1e3006 is MI-U.
    assert_eq!(standard_abbreviation(33 / 3), "Dc");
    assert_eq!(standard_abbreviation(303 / 3), "Ce");
    assert_eq!(standard_abbreviation(3003 / 3), "MI");
    assert_eq!(standard_abbreviation(3006 / 3), "MI-U");
    // 1e78 is z and 1e81 is aa in letters.
    assert_eq!(letters_abbreviation(78 / 3), "z");
    assert_eq!(letters_abbreviation(81 / 3), "aa");
}

#[test]
fn letters_decode_back() {
    for n in 0u64..5000 {
        let s = letters_abbreviation(n);
        let mut v: u64 = 0;
        for b in s.bytes() {
            assert!(b.is_ascii_lowercase());
            v = v * 26 + (b - b'a' + 1) as u64;
        }
        assert_eq!(v, n);
    }
}

#[test]
fn notation_default_is_scientific() {
    assert_eq!(Notation::default(), Notation::Scientific);
}
