//! The text layout of values above layer 1.
//!
//! A value `sign * 10^10^...^mag` with `layer >= 2` is written as its sign, one `e` per layer
//! and its `mag` (`ee100.5`, `-eee3`), and past [`MAX_ES_IN_A_ROW`] layers as `(e^N)` followed
//! by `mag` (`(e^7)20`). How `mag` itself is written (all its digits, or a fixed number of
//! places) is the caller's choice; the layout around it is built here.

use vstd::prelude::*;

use crate::constants::MAX_ES_IN_A_ROW;
use crate::text::{chars_of, string_of};

verus! {

/// The decimal digit character for `d` (`0..10`).
pub open spec fn digit_char(d: nat) -> char {
    (48 + d) as char
}

/// The decimal digits of `n`, most significant first, without leading zeros (`0` is `"0"`).
pub open spec fn decimal(n: nat) -> Seq<char>
    decreases n,
{
    if n < 10 {
        seq![digit_char(n)]
    } else {
        decimal(n / 10).push(digit_char(n % 10))
    }
}

/// The decimal digits of a number are at least one, each in `0..=9`.
pub proof fn lemma_decimal_digits(n: nat)
    ensures
        decimal(n).len() > 0,
        forall|i: int| 0 <= i < decimal(n).len() ==> '0' <= #[trigger] decimal(n)[i] && decimal(n)[i]
            <= '9',
    decreases n,
{
    if n >= 10 {
        lemma_decimal_digits(n / 10);
    }
}

/// The layout of a value with layer `layer` around the text `mag` of its `mag`: the sign,
/// then `layer` copies of the exponent letter while `layer <= MAX_ES_IN_A_ROW`, and `(e^N)`
/// with the layer's decimal digits beyond that. `upper` selects `E` over `e`.
pub open spec fn tower(negative: bool, layer: nat, upper: bool, mag: Seq<char>) -> Seq<char> {
    let e = if upper { 'E' } else { 'e' };
    let sign = if negative { seq!['-'] } else { Seq::<char>::empty() };
    if layer <= MAX_ES_IN_A_ROW {
        sign + Seq::new(layer, |i: int| e) + mag
    } else {
        sign + seq!['(', e, '^'] + decimal(layer) + seq![')'] + mag
    }
}

/// The decimal digits of `n`.
pub fn decimal_text(n: u64) -> (s: String)
    ensures
        s@ == decimal(n as nat),
{
    let mut digits: Vec<char> = Vec::new();
    let mut m: u64 = n;
    let c: char = ((48u8 + (m % 10) as u8) as char);
    digits.push(c);
    assert(digits@ =~= seq![digit_char((n % 10) as nat)]);
    m = m / 10;
    while m > 0
        invariant
            decimal(n as nat) =~= (if m == 0 {
                Seq::<char>::empty()
            } else {
                decimal(m as nat)
            }) + digits@,
            m < n || n < 10,
            n >= 10 ==> m > 0 || decimal(n as nat) =~= digits@,
        decreases m,
    {
        let c: char = ((48u8 + (m % 10) as u8) as char);
        let ghost old_digits = digits@;
        digits.insert(0, c);
        if m >= 10 {
            assert(decimal(m as nat) == decimal((m / 10) as nat).push(c));
        } else {
            assert(decimal(m as nat) == seq![c]);
        }
        m = m / 10;
    }
    string_of(&digits)
}

/// Writes a value of layer `layer` around the text `mag` of its `mag`; see [`tower`].
pub fn tower_text(negative: bool, layer: u64, upper: bool, mag: &str) -> (s: String)
    ensures
        s@ == tower(negative, layer as nat, upper, mag@),
{
    let e = if upper {
        'E'
    } else {
        'e'
    };
    let mut out: Vec<char> = Vec::new();
    if negative {
        out.push('-');
    }
    let ghost sign = out@;
    if layer <= MAX_ES_IN_A_ROW {
        let mut i: u64 = 0;
        while i < layer
            invariant
                i <= layer,
                out@ =~= sign + Seq::new(i as nat, |k: int| e),
            decreases layer - i,
        {
            out.push(e);
            i += 1;
        }
    } else {
        out.push('(');
        out.push(e);
        out.push('^');
        let mut digits = chars_of(decimal_text(layer).as_str());
        out.append(&mut digits);
        out.push(')');
    }
    let mut rest = chars_of(mag);
    out.append(&mut rest);
    proof {
        if layer <= MAX_ES_IN_A_ROW {
        }
    }
    assert(out@ =~= tower(negative, layer as nat, upper, mag@));
    string_of(&out)
}

/// The sign is written in front of the unsigned layout, whatever the case of the letter:
/// `-EE100` is `-` followed by `EE100`.
pub proof fn tower_sign_is_a_prefix(negative: bool, layer: nat, upper: bool, m: Seq<char>)
    ensures
        tower(negative, layer, upper, m) == (if negative {
            seq!['-']
        } else {
            Seq::<char>::empty()
        }) + tower(false, layer, upper, m),
{
    let e = if upper { 'E' } else { 'e' };
    if layer <= MAX_ES_IN_A_ROW {
        let run = Seq::new(layer, |i: int| e);
        assert(Seq::<char>::empty() + run + m =~= run + m);
        if negative {
            assert(seq!['-'] + run + m =~= seq!['-'] + (run + m));
        }
    } else {
        let tail = seq!['(', e, '^'] + decimal(layer) + seq![')'] + m;
        assert(Seq::<char>::empty() + seq!['(', e, '^'] + decimal(layer) + seq![')'] + m =~= tail);
        if negative {
            assert(seq!['-'] + seq!['(', e, '^'] + decimal(layer) + seq![')'] + m =~= seq!['-']
                + tail);
        }
    }
}

/// The exponent letter is `E` exactly when `upper` is set, for either sign: a layout of at
/// least one layer around a `mag` without letters holds that letter and never the other.
pub proof fn tower_letter_follows_upper(negative: bool, layer: nat, upper: bool, m: Seq<char>)
    requires
        layer >= 1,
        forall|i: int| 0 <= i < m.len() ==> m[i] != 'e' && m[i] != 'E',
    ensures
        tower(negative, layer, upper, m).contains(if upper { 'E' } else { 'e' }),
        !tower(negative, layer, upper, m).contains(if upper { 'e' } else { 'E' }),
{
    let e = if upper { 'E' } else { 'e' };
    let other = if upper { 'e' } else { 'E' };
    let sign = if negative { seq!['-'] } else { Seq::<char>::empty() };
    let t = tower(negative, layer, upper, m);
    lemma_decimal_digits(layer);
    if layer <= MAX_ES_IN_A_ROW {
        let run = Seq::new(layer, |i: int| e);
        assert(t == sign + run + m);
        assert(t[sign.len() as int] == e);
        assert forall|i: int| 0 <= i < t.len() implies t[i] != other by {
            if i < sign.len() {
            } else if i < sign.len() + run.len() {
                assert(t[i] == run[i - sign.len()]);
            } else {
                assert(t[i] == m[i - sign.len() - run.len()]);
            }
        }
    } else {
        let d = decimal(layer);
        let open = seq!['(', e, '^'];
        assert(t == sign + open + d + seq![')'] + m);
        assert(t[sign.len() + 1int] == e);
        assert forall|i: int| 0 <= i < t.len() implies t[i] != other by {
            if i < sign.len() {
            } else if i < sign.len() + 3 {
                assert(t[i] == open[i - sign.len()]);
            } else if i < sign.len() + 3 + d.len() {
                assert(t[i] == d[i - sign.len() - 3]);
            } else if i == sign.len() + 3 + d.len() {
            } else {
                assert(t[i] == m[i - sign.len() - 4 - d.len()]);
            }
        }
    }
}

} // verus!
