//! Game-style notations and their suffix tables.
//!
//! The illion abbreviations follow the scheme used by *Antimatter Dimensions* (`K`, `M`, `B`,
//! `T`, `Qa`, `Qt`, `Sx`, `Sp`, `Oc`, `No`, `Dc`, `UDc`, ... `Ce`, ... `MI`).
//! [`standard_abbreviation`] and [`letters_abbreviation`] expose the suffix tables for
//! building custom formatters.

use vstd::prelude::*;

use crate::scan::{ascii_lower, ascii_lower_char, ascii_lower_chars};
use crate::text::{chars_of, string_of};

verus! {

/// A way of writing a `Decimal` for display in a game UI.
#[derive(Debug, Clone, Copy, PartialEq, Eq, Hash, Structural)]
#[non_exhaustive]
pub enum Notation {
    /// `1.23e45`. The default.
    Scientific,
    /// `123.45e42`: the exponent is a multiple of three and the mantissa is in `[1, 1000)`.
    Engineering,
    /// `1.23 QaDc`: illion abbreviations, see [`standard_abbreviation`].
    Standard,
    /// `1.23 ab`: bijective base-26 letters, one step per factor of `1000` (`a` = `1e3`,
    /// `z` = `1e78`, `aa` = `1e81`).
    Letters,
    /// `e45.09`: the base-10 logarithm, prefixed with `e`.
    Logarithm,
}

impl Default for Notation {
    fn default() -> (n: Self)
        ensures
            n == Notation::Scientific,
    {
        Notation::Scientific
    }
}

/// The notation a name selects, letters compared without regard to ASCII case:
/// `scientific`, `engineering`, `standard`, `letters` or `logarithm`.
pub open spec fn notation_named(name: Seq<char>) -> Option<Notation> {
    let n = ascii_lower(name);
    if n == seq!['s', 'c', 'i', 'e', 'n', 't', 'i', 'f', 'i', 'c'] {
        Some(Notation::Scientific)
    } else if n == seq!['e', 'n', 'g', 'i', 'n', 'e', 'e', 'r', 'i', 'n', 'g'] {
        Some(Notation::Engineering)
    } else if n == seq!['s', 't', 'a', 'n', 'd', 'a', 'r', 'd'] {
        Some(Notation::Standard)
    } else if n == seq!['l', 'e', 't', 't', 'e', 'r', 's'] {
        Some(Notation::Letters)
    } else if n == seq!['l', 'o', 'g', 'a', 'r', 'i', 't', 'h', 'm'] {
        Some(Notation::Logarithm)
    } else {
        None
    }
}

fn same_chars(a: &Vec<char>, b: &Vec<char>) -> (r: bool)
    ensures
        r == (a@ == b@),
{
    if a.len() != b.len() {
        return false;
    }
    let mut i: usize = 0;
    while i < a.len()
        invariant
            i <= a.len() == b.len(),
            forall|k: int| 0 <= k < i ==> a@[k] == b@[k],
        decreases a.len() - i,
    {
        if a[i] != b[i] {
            return false;
        }
        i += 1;
    }
    assert(a@ =~= b@);
    true
}

impl Notation {
    /// The notation a name selects, as script bindings spell it: `"scientific"`,
    /// `"engineering"`, `"standard"`, `"letters"` or `"logarithm"`, in any ASCII case; `None`
    /// for any other name.
    pub fn from_name(name: &str) -> (r: Option<Notation>)
        ensures
            r == notation_named(name@),
    {
        let n = ascii_lower_chars(&chars_of(name));
        let scientific = vec!['s', 'c', 'i', 'e', 'n', 't', 'i', 'f', 'i', 'c'];
        let engineering = vec!['e', 'n', 'g', 'i', 'n', 'e', 'e', 'r', 'i', 'n', 'g'];
        let standard = vec!['s', 't', 'a', 'n', 'd', 'a', 'r', 'd'];
        let letters = vec!['l', 'e', 't', 't', 'e', 'r', 's'];
        let logarithm = vec!['l', 'o', 'g', 'a', 'r', 'i', 't', 'h', 'm'];
        assert(scientific@ =~= seq!['s', 'c', 'i', 'e', 'n', 't', 'i', 'f', 'i', 'c']);
        assert(engineering@ =~= seq!['e', 'n', 'g', 'i', 'n', 'e', 'e', 'r', 'i', 'n', 'g']);
        assert(standard@ =~= seq!['s', 't', 'a', 'n', 'd', 'a', 'r', 'd']);
        assert(letters@ =~= seq!['l', 'e', 't', 't', 'e', 'r', 's']);
        assert(logarithm@ =~= seq!['l', 'o', 'g', 'a', 'r', 'i', 't', 'h', 'm']);
        if same_chars(&n, &scientific) {
            Some(Notation::Scientific)
        } else if same_chars(&n, &engineering) {
            Some(Notation::Engineering)
        } else if same_chars(&n, &standard) {
            Some(Notation::Standard)
        } else if same_chars(&n, &letters) {
            Some(Notation::Letters)
        } else if same_chars(&n, &logarithm) {
            Some(Notation::Logarithm)
        } else {
            None
        }
    }
}

// ---------------------------------------------------------------------------
// The illion tables
// ---------------------------------------------------------------------------

/// The names of `1000^t` for `t` in `0..=10`.
pub open spec fn short_name(t: nat) -> Seq<char> {
    if t == 0 {
        seq![]
    } else if t == 1 {
        seq!['K']
    } else if t == 2 {
        seq!['M']
    } else if t == 3 {
        seq!['B']
    } else if t == 4 {
        seq!['T']
    } else if t == 5 {
        seq!['Q', 'a']
    } else if t == 6 {
        seq!['Q', 't']
    } else if t == 7 {
        seq!['S', 'x']
    } else if t == 8 {
        seq!['S', 'p']
    } else if t == 9 {
        seq!['O', 'c']
    } else {
        seq!['N', 'o']
    }
}

/// The prefix for a ones digit `d` of a group.
pub open spec fn ones_prefix(d: nat) -> Seq<char> {
    if d == 0 {
        seq![]
    } else if d == 1 {
        seq!['U']
    } else if d == 2 {
        seq!['D']
    } else if d == 3 {
        seq!['T']
    } else if d == 4 {
        seq!['Q', 'a']
    } else if d == 5 {
        seq!['Q', 't']
    } else if d == 6 {
        seq!['S', 'x']
    } else if d == 7 {
        seq!['S', 'p']
    } else if d == 8 {
        seq!['O']
    } else {
        seq!['N']
    }
}

/// The prefix for a tens digit `d` of a group.
pub open spec fn tens_prefix(d: nat) -> Seq<char> {
    if d == 0 {
        seq![]
    } else if d == 1 {
        seq!['D', 'c']
    } else if d == 2 {
        seq!['V', 'g']
    } else if d == 3 {
        seq!['T', 'g']
    } else if d == 4 {
        seq!['Q', 'd']
    } else if d == 5 {
        seq!['Q', 'i']
    } else if d == 6 {
        seq!['S', 'e']
    } else if d == 7 {
        seq!['S', 't']
    } else if d == 8 {
        seq!['O', 'g']
    } else {
        seq!['N', 'n']
    }
}

/// The prefix for a hundreds digit `d` of a group.
pub open spec fn hundreds_prefix(d: nat) -> Seq<char> {
    if d == 0 {
        seq![]
    } else if d == 1 {
        seq!['C', 'e']
    } else if d == 2 {
        seq!['D', 'n']
    } else if d == 3 {
        seq!['T', 'c']
    } else if d == 4 {
        seq!['Q', 'e']
    } else if d == 5 {
        seq!['Q', 'u']
    } else if d == 6 {
        seq!['S', 'c']
    } else if d == 7 {
        seq!['S', 'i']
    } else if d == 8 {
        seq!['O', 'e']
    } else {
        seq!['N', 'e']
    }
}

/// The joiner written after the base-1000 group `g` (`MI-` after the thousands group, ...).
pub open spec fn group_joiner(g: nat) -> Seq<char> {
    if g == 0 {
        seq![]
    } else if g == 1 {
        seq!['M', 'I', '-']
    } else if g == 2 {
        seq!['M', 'C', '-']
    } else if g == 3 {
        seq!['N', 'A', '-']
    } else if g == 4 {
        seq!['P', 'C', '-']
    } else if g == 5 {
        seq!['F', 'M', '-']
    } else if g == 6 {
        seq!['A', 'T', '-']
    } else {
        seq!['Z', 'P', '-']
    }
}

/// The name of one base-1000 group with value `v` at position `g`: nothing for a zero group;
/// otherwise its ones, tens and hundreds prefixes and its joiner, where a lone `U` above the
/// lowest group is dropped ("millillion", not "unmillillion").
pub open spec fn group_name(v: nat, g: nat) -> Seq<char> {
    if v == 0 {
        seq![]
    } else {
        (if g > 0 && v == 1 {
            seq![]
        } else {
            ones_prefix(v % 10)
        }) + tens_prefix((v / 10) % 10) + hundreds_prefix(v / 100) + group_joiner(g)
    }
}

/// `1000^g`.
pub open spec fn pow1000(g: nat) -> nat
    decreases g,
{
    if g == 0 {
        1
    } else {
        1000 * pow1000((g - 1) as nat)
    }
}

/// The base-1000 digit of `n` at position `g`.
pub open spec fn group_of(n: nat, g: nat) -> nat {
    (n / pow1000(g)) % 1000
}

/// The names of the groups `g`, `g - 1`, ..., `0` of `n`, most significant first.
pub open spec fn groups_from(n: nat, g: nat) -> Seq<char>
    decreases g,
{
    if g == 0 {
        group_name(group_of(n, 0), 0)
    } else {
        group_name(group_of(n, g), g) + groups_from(n, (g - 1) as nat)
    }
}

/// `s` without one trailing `-`, if it has one.
pub open spec fn without_trailing_dash(s: Seq<char>) -> Seq<char> {
    if s.len() > 0 && s.last() == '-' {
        s.drop_last()
    } else {
        s
    }
}

/// The illion abbreviation of `1000^t`: the short table up to `t == 10`; beyond it the names
/// of the seven base-1000 groups of `t - 1` (a `u64` has at most seven), joined, with the
/// joiner of the lowest named group dropped.
pub open spec fn standard_name(t: nat) -> Seq<char> {
    if t <= 10 {
        short_name(t)
    } else {
        without_trailing_dash(groups_from((t - 1) as nat, 6))
    }
}

fn append_chars(out: &mut Vec<char>, mut s: Vec<char>)
    ensures
        final(out)@ == old(out)@ + s@,
{
    out.append(&mut s);
}

fn short_name_chars(t: u64) -> (s: Vec<char>)
    requires
        t <= 10,
    ensures
        s@ == short_name(t as nat),
{
    let s = match t {
        0 => vec![],
        1 => vec!['K'],
        2 => vec!['M'],
        3 => vec!['B'],
        4 => vec!['T'],
        5 => vec!['Q', 'a'],
        6 => vec!['Q', 't'],
        7 => vec!['S', 'x'],
        8 => vec!['S', 'p'],
        9 => vec!['O', 'c'],
        _ => vec!['N', 'o'],
    };
    assert(s@ =~= short_name(t as nat));
    s
}

fn ones_chars(d: u64) -> (s: Vec<char>)
    requires
        d < 10,
    ensures
        s@ == ones_prefix(d as nat),
{
    let s = match d {
        0 => vec![],
        1 => vec!['U'],
        2 => vec!['D'],
        3 => vec!['T'],
        4 => vec!['Q', 'a'],
        5 => vec!['Q', 't'],
        6 => vec!['S', 'x'],
        7 => vec!['S', 'p'],
        8 => vec!['O'],
        _ => vec!['N'],
    };
    assert(s@ =~= ones_prefix(d as nat));
    s
}

fn tens_chars(d: u64) -> (s: Vec<char>)
    requires
        d < 10,
    ensures
        s@ == tens_prefix(d as nat),
{
    let s = match d {
        0 => vec![],
        1 => vec!['D', 'c'],
        2 => vec!['V', 'g'],
        3 => vec!['T', 'g'],
        4 => vec!['Q', 'd'],
        5 => vec!['Q', 'i'],
        6 => vec!['S', 'e'],
        7 => vec!['S', 't'],
        8 => vec!['O', 'g'],
        _ => vec!['N', 'n'],
    };
    assert(s@ =~= tens_prefix(d as nat));
    s
}

fn hundreds_chars(d: u64) -> (s: Vec<char>)
    requires
        d < 10,
    ensures
        s@ == hundreds_prefix(d as nat),
{
    let s = match d {
        0 => vec![],
        1 => vec!['C', 'e'],
        2 => vec!['D', 'n'],
        3 => vec!['T', 'c'],
        4 => vec!['Q', 'e'],
        5 => vec!['Q', 'u'],
        6 => vec!['S', 'c'],
        7 => vec!['S', 'i'],
        8 => vec!['O', 'e'],
        _ => vec!['N', 'e'],
    };
    assert(s@ =~= hundreds_prefix(d as nat));
    s
}

fn joiner_chars(g: u64) -> (s: Vec<char>)
    requires
        g < 8,
    ensures
        s@ == group_joiner(g as nat),
{
    let s = match g {
        0 => vec![],
        1 => vec!['M', 'I', '-'],
        2 => vec!['M', 'C', '-'],
        3 => vec!['N', 'A', '-'],
        4 => vec!['P', 'C', '-'],
        5 => vec!['F', 'M', '-'],
        6 => vec!['A', 'T', '-'],
        _ => vec!['Z', 'P', '-'],
    };
    assert(s@ =~= group_joiner(g as nat));
    s
}

/// Appends the name of the group with value `v` at position `g`.
fn push_group(out: &mut Vec<char>, v: u64, g: u64)
    requires
        v < 1000,
        g < 8,
    ensures
        final(out)@ == old(out)@ + group_name(v as nat, g as nat),
{
    if v == 0 {
        assert(group_name(v as nat, g as nat) =~= seq![]);
        assert(old(out)@ + seq![] =~= old(out)@);
        return;
    }
    let ghost start = out@;
    if !(g > 0 && v == 1) {
        append_chars(out, ones_chars(v % 10));
    }
    append_chars(out, tens_chars((v / 10) % 10));
    append_chars(out, hundreds_chars(v / 100));
    append_chars(out, joiner_chars(g));
    assert(out@ =~= start + group_name(v as nat, g as nat));
}

proof fn lemma_pow1000_positive(g: nat)
    ensures
        pow1000(g) >= 1,
    decreases g,
{
    if g > 0 {
        lemma_pow1000_positive((g - 1) as nat);
    }
}

proof fn lemma_pow1000_steps()
    ensures
        pow1000(0) == 1,
        pow1000(1) == 1000,
        pow1000(2) == 1000000,
        pow1000(3) == 1000000000,
        pow1000(4) == 1000000000000,
        pow1000(5) == 1000000000000000,
        pow1000(6) == 1000000000000000000,
{
    reveal_with_fuel(pow1000, 7);
}

/// Returns the illion abbreviation for `1000^thousands`.
///
/// `0` is the empty string, `1` is `K`, `2` is `M`, `11` (`1e33`) is `Dc`, `101` (`1e303`) is
/// `Ce`, and `1001` (`1e3003`) is `MI`. Beyond the first ten, the name is assembled from
/// ones / tens / hundreds prefixes per base-1000 group of `thousands - 1`, with the groups
/// joined by `MI-`, `MC-`, `NA-`, `PC-`, `FM-`, `AT-`, `ZP-`; every `u64` has a name.
pub fn standard_abbreviation(thousands: u64) -> (name: String)
    ensures
        name@ == standard_name(thousands as nat),
{
    if thousands <= 10 {
        return string_of(&short_name_chars(thousands));
    }
    let exp: u64 = thousands - 1;
    let mut out: Vec<char> = Vec::new();
    let mut scale: u64 = 1000000000000000000;
    let mut left: u64 = 7;
    proof {
        lemma_pow1000_steps();
    }
    while left > 0
        invariant
            left <= 7,
            scale >= 1,
            left > 0 ==> scale as nat == pow1000((left - 1) as nat),
            out@ + (if left == 0 {
                seq![]
            } else {
                groups_from(exp as nat, (left - 1) as nat)
            }) =~= groups_from(exp as nat, 6),
        decreases left,
    {
        let g: u64 = left - 1;
        let v: u64 = (exp / scale) % 1000;
        let ghost before = out@;
        push_group(&mut out, v, g);
        proof {
            assert(v as nat == group_of(exp as nat, g as nat));
            if g > 0 {
                assert(groups_from(exp as nat, g as nat) == group_name(v as nat, g as nat)
                    + groups_from(exp as nat, (g - 1) as nat));
                assert(pow1000(g as nat) == 1000 * pow1000((g - 1) as nat));
                lemma_pow1000_positive((g - 1) as nat);
            }
        }
        if g > 0 {
            scale = scale / 1000;
        }
        left = g;
    }
    if out.len() > 0 && out[out.len() - 1] == '-' {
        out.pop();
    }
    assert(out@ =~= standard_name(thousands as nat));
    string_of(&out)
}

// ---------------------------------------------------------------------------
// The letters table
// ---------------------------------------------------------------------------

/// The letter for digit `k` (`0..26`) of bijective base 26: `a` for 0, `z` for 25.
pub open spec fn letter(k: nat) -> char {
    (97 + k) as char
}

/// Bijective base-26 letters: `0` is empty, `1` is `a`, `26` is `z`, `27` is `aa`.
pub open spec fn letters_name(n: nat) -> Seq<char>
    decreases n,
{
    if n == 0 {
        seq![]
    } else {
        letters_name(((n - 1) / 26) as nat).push(letter(((n - 1) % 26) as nat))
    }
}

/// Returns the letters abbreviation for `1000^thousands`: bijective base 26, so `1` is `a`,
/// `26` is `z`, `27` is `aa`. `0` is the empty string.
pub fn letters_abbreviation(thousands: u64) -> (name: String)
    ensures
        name@ == letters_name(thousands as nat),
{
    let mut n: u64 = thousands;
    let mut letters: Vec<char> = Vec::new();
    while n > 0
        invariant
            letters_name(thousands as nat) =~= letters_name(n as nat) + letters@,
        decreases n,
    {
        let k: u64 = (n - 1) % 26;
        let c: char = ((97u8 + k as u8) as char);
        assert(c == letter(k as nat));
        let ghost old_letters = letters@;
        letters.insert(0, c);
        assert(letters_name(n as nat) == letters_name(((n - 1) / 26) as nat).push(c));
        n = (n - 1) / 26;
        assert(letters_name(n as nat).push(c) + old_letters =~= letters_name(n as nat) + letters@);
    }
    string_of(&letters)
}

/// The number a letters word stands for: bijective base 26 read back (`a` is 1, `z` is 26).
pub open spec fn letters_value(s: Seq<char>) -> nat
    decreases s.len(),
{
    if s.len() == 0 {
        0
    } else {
        26 * letters_value(s.drop_last()) + ((s.last() as int) - 96) as nat
    }
}

/// Every character of `s` is one of `a..=z`.
pub open spec fn is_letters_word(s: Seq<char>) -> bool {
    forall|i: int| 0 <= i < s.len() ==> 'a' <= #[trigger] s[i] && s[i] <= 'z'
}

proof fn lemma_base26_split(w: nat, k: nat)
    requires
        k < 26,
    ensures
        ((26 * w + k) as int) / 26 == w,
        ((26 * w + k) as int) % 26 == k,
{
    assert(((26 * w + k) as int) / 26 == w && ((26 * w + k) as int) % 26 == k) by (nonlinear_arith)
        requires
            k < 26,
    ;
}

/// A letters abbreviation uses only `a..=z`, and reads back as the number it was made from.
pub proof fn letters_read_back(n: nat)
    ensures
        is_letters_word(letters_name(n)),
        letters_value(letters_name(n)) == n,
    decreases n,
{
    if n > 0 {
        let q = ((n - 1) / 26) as nat;
        let r = ((n - 1) % 26) as nat;
        letters_read_back(q);
        let s = letters_name(n);
        assert(s == letters_name(q).push(letter(r)));
        assert(s.drop_last() =~= letters_name(q));
        assert((letter(r) as int) == 97 + r);
        assert(26 * q + r == n - 1) by (nonlinear_arith)
            requires
                q == (n - 1) / 26,
                r == (n - 1) % 26,
                n > 0,
        ;
    }
}

/// Every word of lowercase letters is the letters abbreviation of the number it stands for.
pub proof fn letters_onto(s: Seq<char>)
    requires
        is_letters_word(s),
    ensures
        letters_name(letters_value(s)) == s,
    decreases s.len(),
{
    if s.len() > 0 {
        let w = letters_value(s.drop_last());
        let c = s.last();
        assert(is_letters_word(s.drop_last())) by {
            assert forall|i: int| 0 <= i < s.drop_last().len() implies 'a' <= #[trigger] s.drop_last()[i]
                && s.drop_last()[i] <= 'z' by {
                assert(s.drop_last()[i] == s[i]);
            }
        }
        letters_onto(s.drop_last());
        assert('a' <= s[s.len() - 1] <= 'z');
        let k = ((c as int) - 97) as nat;
        let n = letters_value(s);
        assert(n == 26 * w + k + 1);
        lemma_base26_split(w, k);
        assert(((n - 1) / 26) as nat == w);
        assert(((n - 1) % 26) as nat == k);
        assert(letter(k) == c);
        assert(letters_name(n) == letters_name(w).push(letter(k)));
        assert(s =~= s.drop_last().push(c));
    }
}

/// Distinct numbers get distinct letters abbreviations.
pub proof fn letters_injective(a: nat, b: nat)
    requires
        letters_name(a) == letters_name(b),
    ensures
        a == b,
{
    letters_read_back(a);
    letters_read_back(b);
}

proof fn lemma_ascii_lower_idempotent(s: Seq<char>)
    ensures
        ascii_lower(ascii_lower(s)) == ascii_lower(s),
{
    assert forall|i: int| 0 <= i < s.len() implies ascii_lower_char(ascii_lower_char(s[i]))
        == ascii_lower_char(s[i]) by {
        let c = s[i];
        if 'A' <= c && c <= 'Z' {
            assert(!('A' <= ascii_lower_char(c) && ascii_lower_char(c) <= 'Z'));
        }
    }
    assert(ascii_lower(ascii_lower(s)) =~= ascii_lower(s));
}

proof fn lemma_lower_unchanged(s: Seq<char>)
    requires
        forall|i: int| 0 <= i < s.len() ==> 'a' <= #[trigger] s[i] <= 'z',
    ensures
        ascii_lower(s) == s,
{
    assert(ascii_lower(s) =~= s);
}

/// A notation's name is matched without regard to ASCII case: a name selects what its
/// lowercase form selects, so `"Engineering"`, `"ENGINEERING"` and `"engineering"` agree.
pub proof fn notation_names_ignore_case(name: Seq<char>)
    ensures
        notation_named(name) == notation_named(ascii_lower(name)),
{
    lemma_ascii_lower_idempotent(name);
}

/// The five names, in lowercase, select the five notations.
pub proof fn notation_names_select_their_notation()
    ensures
        notation_named(seq!['s', 'c', 'i', 'e', 'n', 't', 'i', 'f', 'i', 'c']) == Some(
            Notation::Scientific,
        ),
        notation_named(seq!['e', 'n', 'g', 'i', 'n', 'e', 'e', 'r', 'i', 'n', 'g']) == Some(
            Notation::Engineering,
        ),
        notation_named(seq!['s', 't', 'a', 'n', 'd', 'a', 'r', 'd']) == Some(Notation::Standard),
        notation_named(seq!['l', 'e', 't', 't', 'e', 'r', 's']) == Some(Notation::Letters),
        notation_named(seq!['l', 'o', 'g', 'a', 'r', 'i', 't', 'h', 'm']) == Some(
            Notation::Logarithm,
        ),
{
    lemma_lower_unchanged(seq!['s', 'c', 'i', 'e', 'n', 't', 'i', 'f', 'i', 'c']);
    lemma_lower_unchanged(seq!['e', 'n', 'g', 'i', 'n', 'e', 'e', 'r', 'i', 'n', 'g']);
    lemma_lower_unchanged(seq!['s', 't', 'a', 'n', 'd', 'a', 'r', 'd']);
    lemma_lower_unchanged(seq!['l', 'e', 't', 't', 'e', 'r', 's']);
    lemma_lower_unchanged(seq!['l', 'o', 'g', 'a', 'r', 'i', 't', 'h', 'm']);
}

/// The ones prefixes of the illion names, by digit.
pub open spec fn ones_table() -> Seq<Seq<char>> {
    seq![
        seq![], seq!['U'], seq!['D'], seq!['T'], seq!['Q', 'a'], seq!['Q', 't'], seq!['S', 'x'],
        seq!['S', 'p'], seq!['O'], seq!['N'],
    ]
}

/// The tens prefixes of the illion names, by digit.
pub open spec fn tens_table() -> Seq<Seq<char>> {
    seq![
        seq![], seq!['D', 'c'], seq!['V', 'g'], seq!['T', 'g'], seq!['Q', 'd'], seq!['Q', 'i'],
        seq!['S', 'e'], seq!['S', 't'], seq!['O', 'g'], seq!['N', 'n'],
    ]
}

/// The hundreds prefixes of the illion names, by digit.
pub open spec fn hundreds_table() -> Seq<Seq<char>> {
    seq![
        seq![], seq!['C', 'e'], seq!['D', 'n'], seq!['T', 'c'], seq!['Q', 'e'], seq!['Q', 'u'],
        seq!['S', 'c'], seq!['S', 'i'], seq!['O', 'e'], seq!['N', 'e'],
    ]
}

proof fn lemma_prefix_tables(d: nat)
    requires
        d < 10,
    ensures
        ones_prefix(d) == ones_table()[d as int],
        tens_prefix(d) == tens_table()[d as int],
        hundreds_prefix(d) == hundreds_table()[d as int],
{
}

proof fn lemma_pow1000_grows(g: nat)
    requires
        g >= 1,
    ensures
        pow1000(g) >= 1000,
    decreases g,
{
    if g > 1 {
        lemma_pow1000_grows((g - 1) as nat);
    } else {
        assert(pow1000(0) == 1);
    }
    assert(pow1000(g) == 1000 * pow1000((g - 1) as nat));
}

proof fn lemma_groups_of_small(n: nat, g: nat)
    requires
        n < 1000,
    ensures
        groups_from(n, g) == group_name(n, 0),
    decreases g,
{
    if g > 0 {
        lemma_groups_of_small(n, (g - 1) as nat);
        lemma_pow1000_grows(g);
        assert(n / pow1000(g) == 0) by (nonlinear_arith)
            requires
                n < 1000,
                pow1000(g) >= 1000,
        ;
        assert(group_of(n, g) == 0);
        assert(group_name(0, g) =~= Seq::<char>::empty());
        assert(Seq::<char>::empty() + group_name(n, 0) =~= group_name(n, 0));
    } else {
        assert(pow1000(0) == 1);
        assert(group_of(n, 0) == n);
    }
}

/// From `1000^11` up to `1000^1000` the illion name of `1000^t` is spelled from the digits of
/// `t - 1`: the ones prefix (`U D T Qa Qt Sx Sp O N`), then the tens prefix
/// (`Dc Vg Tg Qd Qi Se St Og Nn`), then the hundreds prefix (`Ce Dn Tc Qe Qu Sc Si Oe Ne`).
/// So `1000^33` (`1e99`) is `DTg` and `1000^81` is `Og`.
pub proof fn illion_names_spell_the_digits(t: nat)
    requires
        11 <= t <= 1000,
    ensures
        standard_name(t) == ones_table()[((t - 1) % 10) as int] + tens_table()[(((t - 1) / 10)
            % 10) as int] + hundreds_table()[((t - 1) / 100) as int],
{
    let n = (t - 1) as nat;
    lemma_groups_of_small(n, 6);
    lemma_prefix_tables(n % 10);
    lemma_prefix_tables((n / 10) % 10);
    lemma_prefix_tables(n / 100);
    let name = ones_prefix(n % 10) + tens_prefix((n / 10) % 10) + hundreds_prefix(n / 100);
    assert(group_name(n, 0) =~= name);
    // The name ends with a letter of its highest non-zero digit, never with `-`.
    assert(name.len() > 0 && name.last() != '-') by {
        if n / 100 > 0 {
            assert(name.last() == hundreds_prefix(n / 100).last());
        } else {
            assert(hundreds_prefix(n / 100) =~= Seq::<char>::empty());
            assert((n / 10) % 10 > 0);
            assert(name =~= ones_prefix(n % 10) + tens_prefix((n / 10) % 10));
            assert(name.last() == tens_prefix((n / 10) % 10).last());
        }
    }
}

} // verus!
