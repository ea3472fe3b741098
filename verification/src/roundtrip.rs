//! The text a tall value is written as reads back as the same sign, layer and `mag`.
//!
//! A value above layer 1 is written by [`tower`] around the text of its `mag`, which for a
//! finite float is digits, `.` and `-` only. The parser's reading of that text
//! ([`crate::parse::plan_of`]) hands back exactly those pieces: up to five layers as a run of
//! `e`s with the sign before them and `mag` after them, and beyond that as the `(e^N)X` form
//! with the sign, the layer's digits and `mag`.

use vstd::prelude::*;

use crate::format::{decimal, lemma_decimal_digits, tower};
use crate::parse::{
    decision, normalized, plan_of, Choice, ParsePlan, Reading, Readings,
    caret_form, f_form, head_text, last_text, layer_end_from, literal_of, operator_form,
    power_form, shorthand_form, Literal,
};
use crate::scan::{
    ascii_lower, ascii_lower_char, is_ascii_text, lemma_without_absent, count_char, is_white, lemma_count_absent, lemma_count_concat,
    lemma_count_run, lemma_find_absent, lemma_find_at, lemma_find_none, lemma_last_index_after,
    lemma_last_index_before, lemma_trim_unchanged, occurs_at, trim, two_parts,
};

verus! {

/// A character that the text of a finite float holds: a digit, `.` or `-`.
pub open spec fn is_plain_number_char(c: char) -> bool {
    ('0' <= c && c <= '9') || c == '.' || c == '-'
}

/// The text of a finite float as `{}` or `{:.N}` writes it: digits, `.` and `-` only.
pub open spec fn is_plain_number(m: Seq<char>) -> bool {
    m.len() > 0 && forall|i: int| 0 <= i < m.len() ==> is_plain_number_char(#[trigger] m[i])
}

pub open spec fn sign_text(negative: bool) -> Seq<char> {
    if negative {
        seq!['-']
    } else {
        Seq::<char>::empty()
    }
}

proof fn lemma_plain_trim(m: Seq<char>)
    requires
        is_plain_number(m),
    ensures
        trim(m) == m,
{
    assert(is_plain_number_char(m[0]));
    assert(is_plain_number_char(m[m.len() - 1]));
    lemma_trim_unchanged(m);
}

proof fn lemma_no_single(v: Seq<char>, sep: Seq<char>)
    requires
        sep.len() > 0,
        forall|k: int| 0 <= k < v.len() ==> v[k] != sep[0],
    ensures
        two_parts(v, sep) is None,
{
    lemma_find_absent(v, sep, 0);
}

/// A character of a tower text: the number's characters, the exponent letter in either
/// case, and the `(`, `^`, `)` of the `(e^N)` form.
pub open spec fn is_tower_char(c: char) -> bool {
    is_plain_number_char(c) || c == 'e' || c == 'E' || c == '(' || c == '^' || c == ')'
}

proof fn lemma_tower_chars(negative: bool, layer: nat, upper: bool, m: Seq<char>)
    requires
        is_plain_number(m),
    ensures
        forall|i: int|
            0 <= i < tower(negative, layer, upper, m).len() ==> is_tower_char(
                #[trigger] tower(negative, layer, upper, m)[i],
            ),
{
    lemma_decimal_digits(layer);
    let t = tower(negative, layer, upper, m);
    let e = if upper { 'E' } else { 'e' };
    let sign = sign_text(negative);
    assert forall|i: int| 0 <= i < t.len() implies is_tower_char(#[trigger] t[i]) by {
        if layer <= 5 {
            let run = Seq::new(layer, |k: int| e);
            assert(t == sign + run + m);
            if i < sign.len() {
            } else if i < sign.len() + run.len() {
                assert(t[i] == run[i - sign.len()]);
            } else {
                assert(t[i] == m[i - sign.len() - run.len()]);
            }
        } else {
            let d = decimal(layer);
            let open = seq!['(', e, '^'];
            assert(t == sign + open + d + seq![')'] + m);
            if i < sign.len() {
            } else if i < sign.len() + 3 {
                assert(t[i] == open[i - sign.len()]);
            } else if i < sign.len() + 3 + d.len() {
                assert(t[i] == d[i - sign.len() - 3]);
            } else if i == sign.len() + 3 + d.len() {
            } else {
                assert(t[i] == m[i - sign.len() - 4 - d.len()]);
            }
        }
    }
}

/// A tower text is already in the form the parser reads, once its exponent letter is
/// lowercased: nothing to trim, no commas, all ASCII. So the `E` form reads as the `e` form.
pub proof fn tower_text_is_normalized(negative: bool, layer: nat, upper: bool, m: Seq<char>)
    requires
        is_plain_number(m),
    ensures
        normalized(tower(negative, layer, upper, m)) == tower(negative, layer, false, m),
{
    let t = tower(negative, layer, upper, m);
    let lower = tower(negative, layer, false, m);
    lemma_tower_chars(negative, layer, upper, m);
    lemma_decimal_digits(layer);
    assert(t.len() > 0 && t.last() == m.last()) by {
        assert(is_plain_number_char(m[m.len() - 1]));
    }
    assert(is_plain_number_char(m[m.len() - 1]));
    assert(is_tower_char(t[0]));
    lemma_trim_unchanged(t);
    assert forall|i: int| 0 <= i < t.len() implies t[i] != ',' by {
        assert(is_tower_char(t[i]));
    }
    lemma_without_absent(t, ',');
    assert(is_ascii_text(t)) by {
        assert forall|i: int| 0 <= i < t.len() implies #[trigger] t[i] < '\u{80}' by {
            assert(is_tower_char(t[i]));
        }
    }
    assert(ascii_lower_char('E') == 'e');
    assert(ascii_lower(t) =~= lower) by {
        assert(t.len() == lower.len());
        assert forall|i: int| 0 <= i < t.len() implies #[trigger] ascii_lower(t)[i] == lower[i] by {
            assert(is_tower_char(t[i]));
            if !upper {
                assert(t == lower);
            }
        }
    }
}

/// Up to five layers, the text is a run of `e`s: the parser sees no operator, shorthand or
/// `(e^N)` form in it, counts one `e` per layer, finds the sign before them and `mag` after
/// them.
pub proof fn stacked_tower_reads_back(negative: bool, layer: nat, m: Seq<char>)
    requires
        2 <= layer <= 5,
        is_plain_number(m),
    ensures
        ({
            let v = tower(negative, layer, false, m);
            &&& literal_of(v) == Literal::Number
            &&& operator_form(v, seq!['^', '^', '^']) is None
            &&& operator_form(v, seq!['^', '^']) is None
            &&& power_form(v) is None
            &&& shorthand_form(v, seq!['p', 't']) is None
            &&& shorthand_form(v, seq!['p']) is None
            &&& f_form(v) is None
            &&& caret_form(v) is None
            &&& count_char(v, 'e') == layer
            &&& head_text(v) == sign_text(negative)
            &&& last_text(v) == m
        }),
{
    let sign = sign_text(negative);
    let run = Seq::new(layer, |i: int| 'e');
    let v = tower(negative, layer, false, m);
    assert(v == sign + run + m);
    let s = sign.len() as int;
    assert forall|k: int| 0 <= k < v.len() implies (#[trigger] v[k] == '-' || v[k] == 'e'
        || is_plain_number_char(v[k])) by {
        if k < s {
        } else if k < s + layer {
            assert(v[k] == run[k - s]);
        } else {
            assert(v[k] == m[k - s - layer]);
        }
    }
    assert(v[s] == 'e');
    lemma_no_single(v, seq!['^', '^', '^']);
    lemma_no_single(v, seq!['^', '^']);
    lemma_no_single(v, seq!['^']);
    lemma_no_single(v, seq!['p', 't']);
    lemma_no_single(v, seq!['p']);
    lemma_no_single(v, seq!['f']);
    assert forall|k: int| 0 <= k implies !occurs_at(v, seq!['e', '^'], k) by {
        if occurs_at(v, seq!['e', '^'], k) {
            assert(v.subrange(k, k + 2)[1] == v[k + 1]);
        }
    }
    lemma_find_none(v, seq!['e', '^'], 0);
    // The count of `e`s.
    assert forall|k: int| 0 <= k < m.len() implies m[k] != 'e' by {
        assert(is_plain_number_char(m[k]));
    }
    lemma_count_absent(m, 'e');
    lemma_count_absent(sign, 'e');
    lemma_count_run(layer, 'e');
    lemma_count_concat(sign, run, 'e');
    lemma_count_concat(sign + run, m, 'e');
    // The first `e` ends the sign.
    assert(occurs_at(v, seq!['e'], s)) by {
        assert(v.subrange(s, s + 1) =~= seq!['e']);
    }
    assert forall|k: int| 0 <= k < s implies !occurs_at(v, seq!['e'], k) by {
        if occurs_at(v, seq!['e'], k) {
            assert(v.subrange(k, k + 1)[0] == v[k]);
        }
    }
    lemma_find_at(v, seq!['e'], 0, s);
    assert(v.subrange(0, s) =~= sign);
    lemma_trim_unchanged(sign);
    // The last `e` ends the run.
    lemma_last_index_after(sign, run, 'e');
    lemma_last_index_before(sign + run, m, 'e');
    assert(v.subrange(s + layer, v.len() as int) =~= m);
    lemma_plain_trim(m);
}

/// The characters of a tall tower's text: a sign, `(`, one `e` right after it, one `^` right
/// after that, the layer's digits, `)`, and the characters of `mag`.
proof fn lemma_tall_chars(negative: bool, layer: nat, m: Seq<char>)
    requires
        layer > 5,
        is_plain_number(m),
    ensures
        ({
            let v = tower(negative, layer, false, m);
            let s = sign_text(negative).len() as int;
            &&& v == sign_text(negative) + seq!['(', 'e', '^'] + decimal(layer) + seq![')'] + m
            &&& forall|k: int|
                0 <= k < v.len() ==> (#[trigger] v[k] == '-' || v[k] == '(' || v[k] == ')' || (
                v[k] == 'e' && k == s + 1) || (v[k] == '^' && k == s + 2) || is_plain_number_char(
                v[k],
            ))
            &&& v[s] == '(' && v[s + 1] == 'e' && v[s + 2] == '^'
            &&& '0' <= v[s + 3] <= '9'
        }),
{
    let sign = sign_text(negative);
    let d = decimal(layer);
    lemma_decimal_digits(layer);
    let opening = seq!['(', 'e', '^'];
    let closing = seq![')'];
    let v = tower(negative, layer, false, m);
    assert(v =~= sign + opening + d + closing + m);
    let s = sign.len() as int;
    let dl = d.len() as int;
    assert forall|k: int| 0 <= k < v.len() implies (#[trigger] v[k] == '-' || v[k] == '(' || v[k]
        == ')' || (v[k] == 'e' && k == s + 1) || (v[k] == '^' && k == s + 2)
        || is_plain_number_char(v[k])) by {
        if k < s {
        } else if k < s + 3 {
            assert(v[k] == opening[k - s]);
        } else if k < s + 3 + dl {
            assert(v[k] == d[k - s - 3]);
        } else if k == s + 3 + dl {
            assert(v[k] == closing[0]);
        } else {
            assert(v[k] == m[k - s - 4 - dl]);
        }
    }
    assert(v[s + 3] == d[0]);
}

proof fn lemma_tall_operators(negative: bool, layer: nat, m: Seq<char>)
    requires
        layer > 5,
        is_plain_number(m),
    ensures
        ({
            let v = tower(negative, layer, false, m);
            &&& literal_of(v) == Literal::Number
            &&& operator_form(v, seq!['^', '^', '^']) is None
            &&& operator_form(v, seq!['^', '^']) is None
            &&& shorthand_form(v, seq!['p', 't']) is None
            &&& shorthand_form(v, seq!['p']) is None
            &&& f_form(v) is None
        }),
{
    lemma_tall_chars(negative, layer, m);
    let v = tower(negative, layer, false, m);
    let s = sign_text(negative).len() as int;
    assert forall|k: int| 0 <= k implies !occurs_at(v, seq!['^', '^'], k) by {
        if occurs_at(v, seq!['^', '^'], k) {
            assert(v.subrange(k, k + 2)[0] == v[k]);
            assert(v.subrange(k, k + 2)[1] == v[k + 1]);
        }
    }
    assert forall|k: int| 0 <= k implies !occurs_at(v, seq!['^', '^', '^'], k) by {
        if occurs_at(v, seq!['^', '^', '^'], k) {
            assert(v.subrange(k, k + 3)[0] == v[k]);
            assert(v.subrange(k, k + 3)[1] == v[k + 1]);
        }
    }
    lemma_find_none(v, seq!['^', '^'], 0);
    lemma_find_none(v, seq!['^', '^', '^'], 0);
    lemma_no_single(v, seq!['p', 't']);
    lemma_no_single(v, seq!['p']);
    lemma_no_single(v, seq!['f']);
    assert(v[s] == '(');
}

proof fn lemma_tall_power(negative: bool, layer: nat, m: Seq<char>)
    requires
        layer > 5,
        is_plain_number(m),
    ensures
        power_form(tower(negative, layer, false, m)) == Some(
            (sign_text(negative) + seq!['(', 'e'], decimal(layer) + seq![')'] + m),
        ),
{
    lemma_tall_chars(negative, layer, m);
    let v = tower(negative, layer, false, m);
    let sign = sign_text(negative);
    let d = decimal(layer);
    let s = sign.len() as int;
    let caret_at = s + 2;
    assert(occurs_at(v, seq!['^'], caret_at)) by {
        assert(v.subrange(caret_at, caret_at + 1) =~= seq!['^']);
    }
    assert forall|k: int| 0 <= k < caret_at implies !occurs_at(v, seq!['^'], k) by {
        if occurs_at(v, seq!['^'], k) {
            assert(v.subrange(k, k + 1)[0] == v[k]);
        }
    }
    lemma_find_at(v, seq!['^'], 0, caret_at);
    lemma_find_absent(v, seq!['^'], caret_at + 1);
    let before = v.subrange(0, caret_at);
    let after = v.subrange(caret_at + 1, v.len() as int);
    assert(before =~= sign + seq!['(', 'e']);
    assert(after =~= d + seq![')'] + m);
    assert(!is_white(before[0]) && !is_white(before.last()));
    lemma_trim_unchanged(before);
    assert(after[0] == v[s + 3]);
    assert(after.last() == m.last());
    assert(is_plain_number_char(m[m.len() - 1]));
    lemma_trim_unchanged(after);
}

proof fn lemma_tall_count(negative: bool, layer: nat, m: Seq<char>)
    requires
        layer > 5,
        is_plain_number(m),
    ensures
        count_char(tower(negative, layer, false, m), 'e') == 1,
{
    lemma_tall_chars(negative, layer, m);
    let v = tower(negative, layer, false, m);
    let s = sign_text(negative).len() as int;
    let front = v.subrange(0, s + 2);
    let back = v.subrange(s + 2, v.len() as int);
    assert(v =~= front + back);
    assert forall|k: int| 0 <= k < back.len() implies back[k] != 'e' by {
        assert(back[k] == v[k + s + 2]);
    }
    lemma_count_absent(back, 'e');
    let pre = v.subrange(0, s + 1);
    assert(front.drop_last() =~= pre);
    assert(front.last() == 'e');
    assert forall|k: int| 0 <= k < pre.len() implies pre[k] != 'e' by {
        assert(pre[k] == v[k]);
    }
    lemma_count_absent(pre, 'e');
    lemma_count_concat(front, back, 'e');
}

proof fn lemma_tall_caret(negative: bool, layer: nat, m: Seq<char>)
    requires
        layer > 5,
        is_plain_number(m),
    ensures
        caret_form(tower(negative, layer, false, m)) == Some((negative, decimal(layer), m)),
{
    lemma_tall_chars(negative, layer, m);
    lemma_decimal_digits(layer);
    let v = tower(negative, layer, false, m);
    let sign = sign_text(negative);
    let d = decimal(layer);
    let s = sign.len() as int;
    let dl = d.len() as int;
    let es = seq!['e', '^'];
    assert(occurs_at(v, es, s + 1)) by {
        assert(v.subrange(s + 1, s + 3) =~= es);
    }
    assert forall|k: int| 0 <= k < s + 1 implies !occurs_at(v, es, k) by {
        if occurs_at(v, es, k) {
            assert(v.subrange(k, k + 2)[0] == v[k]);
        }
    }
    lemma_find_at(v, es, 0, s + 1);
    lemma_find_absent(v, es, s + 3);
    let a = v.subrange(0, s + 1);
    let b = v.subrange(s + 3, v.len() as int);
    assert(a =~= sign + seq!['(']);
    assert(b =~= d + seq![')'] + m);
    assert(a.len() > 0 && a[0] == '-' <==> negative);
    assert forall|k: int| 0 <= k < dl implies crate::parse::is_layer_char(#[trigger] b[k]) by {
        assert(b[k] == d[k]);
    }
    assert(b[dl] == ')');
    lemma_layer_end_at(b, 0, dl);
    assert(b.subrange(0, dl) =~= d);
    assert(b.subrange(dl + 1, b.len() as int) =~= m);
    assert(!is_white(d[0]) && !is_white(d.last())) by {
        assert('0' <= d[dl - 1] <= '9');
    }
    lemma_trim_unchanged(d);
    lemma_plain_trim(m);
}

/// Beyond five layers, the text is the `(e^N)X` form: the parser sees no tetration,
/// pentation or shorthand in it, cuts the power form at its `^` (where neither side is a
/// number), counts one `e`, and reads the sign, the layer's digits and `mag` from the
/// `(e^N)X` form.
pub proof fn tall_tower_reads_back(negative: bool, layer: nat, m: Seq<char>)
    requires
        layer > 5,
        is_plain_number(m),
    ensures
        ({
            let v = tower(negative, layer, false, m);
            &&& literal_of(v) == Literal::Number
            &&& operator_form(v, seq!['^', '^', '^']) is None
            &&& operator_form(v, seq!['^', '^']) is None
            &&& power_form(v) == Some(
                (sign_text(negative) + seq!['(', 'e'], decimal(layer) + seq![')'] + m),
            )
            &&& shorthand_form(v, seq!['p', 't']) is None
            &&& shorthand_form(v, seq!['p']) is None
            &&& f_form(v) is None
            &&& count_char(v, 'e') == 1
            &&& caret_form(v) == Some((negative, decimal(layer), m))
        }),
{
    lemma_tall_operators(negative, layer, m);
    lemma_tall_power(negative, layer, m);
    lemma_tall_count(negative, layer, m);
    lemma_tall_caret(negative, layer, m);
}

proof fn lemma_layer_end_at(b: Seq<char>, i: int, j: int)
    requires
        0 <= i <= j < b.len(),
        !crate::parse::is_layer_char(b[j]),
        forall|k: int| i <= k < j ==> crate::parse::is_layer_char(#[trigger] b[k]),
    ensures
        layer_end_from(b, i) == j,
    decreases j - i,
{
    if i < j {
        lemma_layer_end_at(b, i + 1, j);
    }
}

/// The parser settles on the stacked-`e` reading of the text written for a value of two to
/// five layers (with `e` or `E`), as long as the float reader accepts the text of `mag`.
pub proof fn stacked_tower_is_read_as_stacked(
    plan: ParsePlan,
    r: Readings,
    negative: bool,
    layer: nat,
    upper: bool,
    m: Seq<char>,
)
    requires
        2 <= layer <= 5,
        is_plain_number(m),
        plan_of(plan, normalized(tower(negative, layer, upper, m))),
        r.last != Reading::Invalid,
    ensures
        decision(plan, r) == Choice::Stacked,
{
    tower_text_is_normalized(negative, layer, upper, m);
    stacked_tower_reads_back(negative, layer, m);
}

/// The parser settles on the `(e^N)X` reading of the text written for a value of more than
/// five layers (with `e` or `E`), when the float reader refuses the text before its `^` (`(e`
/// or `-(e`) and the whole text, and accepts the layer's digits and the text of `mag`.
pub proof fn tall_tower_is_read_as_caret(
    plan: ParsePlan,
    r: Readings,
    negative: bool,
    layer: nat,
    upper: bool,
    m: Seq<char>,
)
    requires
        layer > 5,
        is_plain_number(m),
        plan_of(plan, normalized(tower(negative, layer, upper, m))),
        r.power_base != Some(Reading::Finite),
        !r.value_is_ordinary,
        r.caret_layer == Some(Reading::Finite),
        r.caret_mag == Some(Reading::Finite),
    ensures
        decision(plan, r) == Choice::Caret,
{
    tower_text_is_normalized(negative, layer, upper, m);
    tall_tower_reads_back(negative, layer, m);
}

} // verus!
