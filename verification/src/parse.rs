//! The string grammar of the `Decimal` parser.
//!
//! [`parse_plan`] takes the text apart the way the parser reads it: it normalizes the text
//! (surrounding whitespace trimmed, commas dropped, letters lowercased), recognizes the
//! special literals, and cuts out the pieces of every notation the text could be written in,
//! in the order the parser tries them: `X^^^N[;P]`, `X^^N[;P]`, `X^Y`, `N PT M`, `NpM`,
//! `MfN`, then the `e` forms (`MeX`, `eeX`, `MeXeY`, ...) and the `(e^N)X` form. Each piece is
//! the exact text the parser hands to the float reader; what those numbers are worth, and
//! which notation therefore applies, is decided by the caller.

use vstd::prelude::*;

use crate::constants::{commas_are_decimal_points, ignore_commas};
use crate::scan::{
    ascii_lower, ascii_lower_chars, is_ascii_chars, is_ascii_text, count_char, count_char_exec, find_from, find_from_exec, last_index, last_index_exec,
    slice_chars, split_once, split_once_exec, trim, trim_chars, two_parts, two_parts_exec, without,
    without_chars, without_parens, without_parens_chars, replace_chars,
};
use crate::text::{chars_of, string_of};

verus! {

/// The JSON Schema `pattern` for the string form of a `Decimal`. Anchored; whitespace-tolerant
/// at the ends like the parser; case-insensitive by spelling out both cases (ECMA-262 patterns
/// carry no flags).
///
/// The alternatives are, in order: scientific and stacked exponents (`1.5e100`, `1e-45`,
/// `ee10`, `5e3e2`); a plain number; the `(e^N)M` form for high layers; `X^Y`, `X^^N[;P]` and
/// `X^^^N[;P]`; the `N PT M` / `NpM` tetrate shorthands; the `MfN` / `fN` shorthands; and
/// `Infinity` / `inf`. The number grammar, `[0-9][0-9,]*(\.[0-9]*)?|\.[0-9]+` (a digit run with
/// the thousands separators the parser strips, and an optional fraction), is spelled out in
/// every alternative. The pattern errs on the side of accepting: what it rejects is text
/// outside the grammar's alphabet.
pub const DECIMAL_PATTERN: &'static str = r"^\s*[+-]?(?:(?:[0-9][0-9,]*(?:\.[0-9]*)?|\.[0-9]+)?(?:[eE][+-]?(?:[0-9][0-9,]*(?:\.[0-9]*)?|\.[0-9]+)?)*[eE][+-]?(?:[0-9][0-9,]*(?:\.[0-9]*)?|\.[0-9]+)|(?:[0-9][0-9,]*(?:\.[0-9]*)?|\.[0-9]+)|\([eE]\^[+-]?(?:[0-9][0-9,]*(?:\.[0-9]*)?|\.[0-9]+)(?:[eE][+-]?[0-9]+)?\)[+-]?(?:[0-9][0-9,]*(?:\.[0-9]*)?|\.[0-9]+)(?:[eE][+-]?[0-9]+)?|(?:[0-9][0-9,]*(?:\.[0-9]*)?|\.[0-9]+)(?:[eE][+-]?[0-9]+)?\^{1,3}[+-]?(?:[0-9][0-9,]*(?:\.[0-9]*)?|\.[0-9]+)(?:[eE][+-]?[0-9]+)?(?:;[+-]?(?:[0-9][0-9,]*(?:\.[0-9]*)?|\.[0-9]+)(?:[eE][+-]?[0-9]+)?)?|(?:(?:[0-9][0-9,]*(?:\.[0-9]*)?|\.[0-9]+)(?:[eE][+-]?[0-9]+)?)?\s*[pP][tT]?\s*\(?\s*[+-]?(?:[0-9][0-9,]*(?:\.[0-9]*)?|\.[0-9]+)(?:[eE][+-]?[0-9]+)?\s*\)?|(?:(?:[0-9][0-9,]*(?:\.[0-9]*)?|\.[0-9]+)(?:[eE][+-]?[0-9]+)?)?[fF]\(?[+-]?(?:[0-9][0-9,]*(?:\.[0-9]*)?|\.[0-9]+)(?:[eE][+-]?[0-9]+)?\)?|[iI][nN][fF](?:[iI][nN][iI][tT][yY])?)\s*$";

/// The JSON Schema `pattern` for the string form; see [`DECIMAL_PATTERN`].
pub fn concat_pattern() -> (p: &'static str)
    ensures
        p == DECIMAL_PATTERN,
{
    DECIMAL_PATTERN
}

/// What `str::to_lowercase` gives for a text: its Unicode lowercase mapping.
pub uninterp spec fn lowercase(s: Seq<char>) -> Seq<char>;

/// std's `str::to_lowercase`, for text that is not all ASCII. Its result is named
/// [`lowercase`]: Unicode lowercasing is a table of its own, and nothing more of it is stated
/// here.
#[verifier::external_body]
fn to_lowercase(s: &str) -> (r: String)
    ensures
        r@ == lowercase(s@),
{
    s.to_lowercase()
}

/// The text the parser works on: trimmed, without commas, lowercased. An ASCII text is
/// lowercased letter by letter, which is what `str::to_lowercase` does to ASCII.
pub open spec fn normalized(s: Seq<char>) -> Seq<char> {
    let t = without(trim(s), ',');
    if is_ascii_text(t) {
        ascii_lower(t)
    } else {
        lowercase(t)
    }
}

/// The special literals and the empty text.
#[derive(Debug, Clone, Copy, PartialEq, Eq, Structural)]
pub enum Literal {
    /// Nothing is left after trimming.
    Empty,
    /// `nan`, `+nan` or `-nan`: refused, NaN is not a value.
    NotANumber,
    /// `infinity`, `+infinity`, `inf` or `+inf`.
    Infinity,
    /// `-infinity` or `-inf`.
    NegInfinity,
    /// Anything else: a number in one of the notations.
    Number,
}

pub open spec fn literal_of(v: Seq<char>) -> Literal {
    if v.len() == 0 {
        Literal::Empty
    } else if v == seq!['n', 'a', 'n'] || v == seq!['+', 'n', 'a', 'n'] || v == seq![
        '-',
        'n',
        'a',
        'n',
    ] {
        Literal::NotANumber
    } else if v == seq!['i', 'n', 'f', 'i', 'n', 'i', 't', 'y'] || v == seq![
        '+',
        'i',
        'n',
        'f',
        'i',
        'n',
        'i',
        't',
        'y',
    ] || v == seq!['i', 'n', 'f'] || v == seq!['+', 'i', 'n', 'f'] {
        Literal::Infinity
    } else if v == seq!['-', 'i', 'n', 'f', 'i', 'n', 'i', 't', 'y'] || v == seq!['-', 'i', 'n', 'f'] {
        Literal::NegInfinity
    } else {
        Literal::Number
    }
}

/// `s` with a leading `-` removed, and whether there was one.
pub open spec fn strip_minus(s: Seq<char>) -> (bool, Seq<char>) {
    if s.len() > 0 && s[0] == '-' {
        (true, s.drop_first())
    } else {
        (false, s)
    }
}

/// `t` without one enclosing pair of parentheses (and the whitespace inside it), when it
/// starts with `(` and ends with `)`; else `t` as it is.
pub open spec fn unwrapped(t: Seq<char>) -> Seq<char> {
    if t.len() >= 2 && t[0] == '(' && t.last() == ')' {
        trim(t.subrange(1, t.len() - 1))
    } else {
        t
    }
}

/// `X^^^N;P` and `X^^N;P` (`sep` is `^^^` or `^^`): the base, trimmed and without one
/// enclosing pair of parentheses (so that `(-2)^^2.5` names the base `-2`, while `2)^^3`
/// keeps its stray `)`), the height and, after a `;`, the payload without
/// parentheses, each trimmed.
pub open spec fn operator_form(v: Seq<char>, sep: Seq<char>) -> Option<
    (Seq<char>, Seq<char>, Option<Seq<char>>),
> {
    match two_parts(v, sep) {
        None => None,
        Some((a, b)) => Some(
            (
                unwrapped(trim(a)),
                trim(split_once(b, ';').0),
                match split_once(b, ';').1 {
                    Some(q) => Some(trim(without_parens(q))),
                    None => None,
                },
            ),
        ),
    }
}

/// `X^Y`: base and exponent, trimmed.
pub open spec fn power_form(v: Seq<char>) -> Option<(Seq<char>, Seq<char>)> {
    match two_parts(v, seq!['^']) {
        None => None,
        Some((a, b)) => Some((trim(a), trim(b))),
    }
}

/// `N PT M` and `NpM` (`sep` is `pt` or `p`): whether the height is negated, the height
/// without its `-`, and the payload without parentheses, each trimmed.
pub open spec fn shorthand_form(v: Seq<char>, sep: Seq<char>) -> Option<
    (bool, Seq<char>, Seq<char>),
> {
    match two_parts(v, sep) {
        None => None,
        Some((a, b)) => Some(
            (strip_minus(trim(a)).0, trim(strip_minus(trim(a)).1), trim(without_parens(b))),
        ),
    }
}

/// `MfN`: whether the payload is negated, the height and the payload (without its `-`), both
/// without parentheses and trimmed.
pub open spec fn f_form(v: Seq<char>) -> Option<(bool, Seq<char>, Seq<char>)> {
    match two_parts(v, seq!['f']) {
        None => None,
        Some((a, b)) => Some(
            (
                strip_minus(trim(a)).0,
                trim(without_parens(b)),
                trim(without_parens(strip_minus(trim(a)).1)),
            ),
        ),
    }
}

/// The mantissa written before the first `e`.
#[derive(Debug, Clone, PartialEq, Eq)]
pub enum MantissaText {
    /// Nothing, or a bare `+`.
    Absent,
    /// A bare `-`.
    Minus,
    /// The mantissa's text, trimmed.
    Number(String),
}

/// The text before the first `e` (all of `v` when there is none), trimmed.
pub open spec fn head_text(v: Seq<char>) -> Seq<char> {
    let j = find_from(v, seq!['e'], 0);
    trim(
        if j < 0 {
            v
        } else {
            v.subrange(0, j)
        },
    )
}

/// The text after the last `e` (all of `v` when there is none), trimmed.
pub open spec fn last_text(v: Seq<char>) -> Seq<char> {
    let l = last_index(v, 'e');
    trim(
        if l < 0 {
            v
        } else {
            v.subrange(l + 1, v.len() as int)
        },
    )
}

/// The text between the last two `e`s, trimmed, when there are two.
pub open spec fn second_last_text(v: Seq<char>) -> Option<Seq<char>> {
    if count_char(v, 'e') >= 2 {
        let l = last_index(v, 'e');
        let l2 = last_index(v.subrange(0, l), 'e');
        Some(trim(v.subrange(l2 + 1, l)))
    } else {
        None
    }
}

/// A character that may appear in the layer of an `(e^N)X` form.
pub open spec fn is_layer_char(c: char) -> bool {
    c == '+' || c == '-' || c == '.' || c == '/' || c == ',' || c == 'e' || ('0' <= c && c <= '9')
}

/// The first index `>= i` of a character of `s` that cannot be part of a layer, or `-1`.
pub open spec fn layer_end_from(s: Seq<char>, i: int) -> int
    decreases s.len() - i,
{
    if i < 0 || i >= s.len() {
        -1
    } else if !is_layer_char(s[i]) {
        i
    } else {
        layer_end_from(s, i + 1)
    }
}

/// `(e^N)X` and `-(e^N)X`: whether the text starts with `-`, the layer (up to the first
/// character that cannot belong to it) and the rest after that character, both trimmed.
pub open spec fn caret_form(v: Seq<char>) -> Option<(bool, Seq<char>, Seq<char>)> {
    match two_parts(v, seq!['e', '^']) {
        None => None,
        Some((a, b)) => {
            let end = layer_end_from(b, 0);
            if end < 0 {
                None
            } else {
                Some(
                    (
                        a.len() > 0 && a[0] == '-',
                        trim(b.subrange(0, end)),
                        trim(b.subrange(end + 1, b.len() as int)),
                    ),
                )
            }
        },
    }
}

/// The pieces of an operator form.
#[derive(Debug, Clone, PartialEq, Eq)]
pub struct OperatorText {
    pub base: String,
    pub height: String,
    pub payload: Option<String>,
}

/// The pieces of a base-10 tetration shorthand.
#[derive(Debug, Clone, PartialEq, Eq)]
pub struct ShorthandText {
    pub negative: bool,
    pub height: String,
    pub payload: String,
}

/// The pieces of an `(e^N)X` form.
#[derive(Debug, Clone, PartialEq, Eq)]
pub struct CaretText {
    pub negative: bool,
    pub layer: String,
    pub mag: String,
}

/// The pieces of the `e` forms.
#[derive(Debug, Clone, PartialEq, Eq)]
pub struct ExponentText {
    /// How many `e`s the text holds.
    pub e_count: usize,
    /// What stands before the first `e`.
    pub mantissa: MantissaText,
    /// The text after the last `e`, trimmed.
    pub last: String,
    /// The text between the last two `e`s, trimmed, when there are two.
    pub second_last: Option<String>,
}

/// Every reading of a text that the parser considers, in the order it tries them.
#[derive(Debug, Clone, PartialEq, Eq)]
pub struct ParsePlan {
    /// The normalized text.
    pub value: String,
    pub literal: Literal,
    pub pentation: Option<OperatorText>,
    pub tetration: Option<OperatorText>,
    pub power: Option<(String, String)>,
    pub pt: Option<ShorthandText>,
    pub p: Option<ShorthandText>,
    pub f: Option<ShorthandText>,
    pub exponent: ExponentText,
    pub caret: Option<CaretText>,
}

pub open spec fn text_is(t: Option<String>, m: Option<Seq<char>>) -> bool {
    match m {
        Some(x) => t matches Some(y) && y@ == x,
        None => t is None,
    }
}

pub open spec fn operator_is(
    t: Option<OperatorText>,
    m: Option<(Seq<char>, Seq<char>, Option<Seq<char>>)>,
) -> bool {
    match m {
        Some((a, b, c)) => t matches Some(o) && o.base@ == a && o.height@ == b && text_is(
            o.payload,
            c,
        ),
        None => t is None,
    }
}

pub open spec fn pair_is(t: Option<(String, String)>, m: Option<(Seq<char>, Seq<char>)>) -> bool {
    match m {
        Some((a, b)) => t matches Some(o) && o.0@ == a && o.1@ == b,
        None => t is None,
    }
}

pub open spec fn shorthand_is(t: Option<ShorthandText>, m: Option<(bool, Seq<char>, Seq<char>)>) -> bool {
    match m {
        Some((n, h, p)) => t matches Some(o) && o.negative == n && o.height@ == h && o.payload@ == p,
        None => t is None,
    }
}

pub open spec fn caret_is(t: Option<CaretText>, m: Option<(bool, Seq<char>, Seq<char>)>) -> bool {
    match m {
        Some((n, l, x)) => t matches Some(o) && o.negative == n && o.layer@ == l && o.mag@ == x,
        None => t is None,
    }
}

pub open spec fn mantissa_is(t: MantissaText, head: Seq<char>) -> bool {
    if head == Seq::<char>::empty() || head == seq!['+'] {
        t is Absent
    } else if head == seq!['-'] {
        t is Minus
    } else {
        t matches MantissaText::Number(m) && m@ == head
    }
}

pub open spec fn exponent_is(t: ExponentText, v: Seq<char>) -> bool {
    &&& t.e_count == count_char(v, 'e')
    &&& mantissa_is(t.mantissa, head_text(v))
    &&& t.last@ == last_text(v)
    &&& text_is(t.second_last, second_last_text(v))
}

/// `plan` takes the normalized text `v` apart as the parser does.
pub open spec fn plan_of(plan: ParsePlan, v: Seq<char>) -> bool {
    &&& plan.value@ == v
    &&& plan.literal == literal_of(v)
    &&& operator_is(plan.pentation, operator_form(v, seq!['^', '^', '^']))
    &&& operator_is(plan.tetration, operator_form(v, seq!['^', '^']))
    &&& pair_is(plan.power, power_form(v))
    &&& shorthand_is(plan.pt, shorthand_form(v, seq!['p', 't']))
    &&& shorthand_is(plan.p, shorthand_form(v, seq!['p']))
    &&& shorthand_is(plan.f, f_form(v))
    &&& exponent_is(plan.exponent, v)
    &&& caret_is(plan.caret, caret_form(v))
}

/// Surrounding whitespace is trimmed: text with whitespace around it reads exactly as the
/// text alone.
pub proof fn surrounding_whitespace_is_ignored(w1: Seq<char>, s: Seq<char>, w2: Seq<char>)
    requires
        crate::scan::all_white(w1),
        crate::scan::all_white(w2),
    ensures
        normalized(w1 + s + w2) == normalized(s),
{
    crate::scan::lemma_trim_ignores_surrounding_white(w1, s, w2);
}

/// The base-10 shorthands `N PT M` and `NpM` read their sign alike: where the text splits
/// once at the separator, a leading `-` before it (after trimming) marks the shorthand
/// negative and is not part of the height; so `-2p3` is the negation of `2p3`, height `2`,
/// payload `3`, and `-3pt2` the negation of `3pt2`.
pub proof fn shorthand_sign_is_read_off_the_height(v: Seq<char>, sep: Seq<char>)
    requires
        sep == seq!['p', 't'] || sep == seq!['p'],
        two_parts(v, sep) is Some,
    ensures
        ({
            let h = trim(two_parts(v, sep).unwrap().0);
            let b = two_parts(v, sep).unwrap().1;
            let negative = h.len() > 0 && h[0] == '-';
            shorthand_form(v, sep) == Some(
                (
                    negative,
                    if negative {
                        trim(h.subrange(1, h.len() as int))
                    } else {
                        h
                    },
                    trim(without_parens(b)),
                ),
            )
        }),
{
    let a = two_parts(v, sep).unwrap().0;
    let b = two_parts(v, sep).unwrap().1;
    let h = trim(a);
    assert(two_parts(v, sep) == Some((a, b)));
    assert(shorthand_form(v, sep) == Some(
        (strip_minus(h).0, trim(strip_minus(h).1), trim(without_parens(b))),
    ));
    if h.len() > 0 && h[0] == '-' {
        assert(strip_minus(h).1 =~= h.subrange(1, h.len() as int));
    } else {
        assert(strip_minus(h) == (false, h));
        crate::scan::lemma_trim_idempotent(a);
    }
}

/// The sign and the height of a base-10 shorthand depend only on the text before the
/// separator, and `pt` and `p` read that text the same way.
pub proof fn shorthand_separators_agree(v: Seq<char>, w: Seq<char>)
    requires
        two_parts(v, seq!['p']) is Some,
        two_parts(w, seq!['p', 't']) is Some,
        two_parts(v, seq!['p']).unwrap().0 == two_parts(w, seq!['p', 't']).unwrap().0,
    ensures
        shorthand_form(v, seq!['p']).unwrap().0 == shorthand_form(w, seq!['p', 't']).unwrap().0,
        shorthand_form(v, seq!['p']).unwrap().1 == shorthand_form(w, seq!['p', 't']).unwrap().1,
{
    shorthand_sign_is_read_off_the_height(v, seq!['p']);
    shorthand_sign_is_read_off_the_height(w, seq!['p', 't']);
}

/// Commas are ignored: a comma between the first and the last character of the trimmed text
/// changes nothing.
pub proof fn inner_commas_are_ignored(a: Seq<char>, b: Seq<char>)
    requires
        a.len() > 0,
        b.len() > 0,
        !crate::scan::is_white(a[0]),
        !crate::scan::is_white(b.last()),
    ensures
        normalized(a + seq![','] + b) == normalized(a + b),
{
    let with = a + seq![','] + b;
    let plain = a + b;
    assert(with[0] == a[0] && with.last() == b.last());
    assert(plain[0] == a[0] && plain.last() == b.last());
    crate::scan::lemma_trim_unchanged(with);
    crate::scan::lemma_trim_unchanged(plain);
    crate::scan::lemma_without_concat(a + seq![','], b, ',');
    crate::scan::lemma_without_concat(a, seq![','], ',');
    crate::scan::lemma_without_concat(a, b, ',');
    assert(without(seq![','], ',') =~= Seq::<char>::empty()) by {
        reveal_with_fuel(without, 2);
        assert(seq![','].drop_last() =~= Seq::<char>::empty());
    }
    assert(without(a, ',') + Seq::<char>::empty() =~= without(a, ','));
}

fn eq_chars(a: &Vec<char>, b: &Vec<char>) -> (r: bool)
    ensures
        r == (a@ == b@),
{
    if a.len() != b.len() {
        return false;
    }
    let mut i: usize = 0;
    while i < a.len()
        invariant
            i <= a.len() == b.len(),
            forall|k: int| 0 <= k < i ==> a@[k] == b@[k],
        decreases a.len() - i,
    {
        if a[i] != b[i] {
            return false;
        }
        i += 1;
    }
    assert(a@ =~= b@);
    true
}

fn literal_exec(v: &Vec<char>) -> (r: Literal)
    ensures
        r == literal_of(v@),
{
    let nan = vec!['n', 'a', 'n'];
    let pnan = vec!['+', 'n', 'a', 'n'];
    let mnan = vec!['-', 'n', 'a', 'n'];
    let infinity = vec!['i', 'n', 'f', 'i', 'n', 'i', 't', 'y'];
    let pinfinity = vec!['+', 'i', 'n', 'f', 'i', 'n', 'i', 't', 'y'];
    let inf = vec!['i', 'n', 'f'];
    let pinf = vec!['+', 'i', 'n', 'f'];
    let minfinity = vec!['-', 'i', 'n', 'f', 'i', 'n', 'i', 't', 'y'];
    let minf = vec!['-', 'i', 'n', 'f'];
    assert(nan@ =~= seq!['n', 'a', 'n']);
    assert(pnan@ =~= seq!['+', 'n', 'a', 'n']);
    assert(mnan@ =~= seq!['-', 'n', 'a', 'n']);
    assert(infinity@ =~= seq!['i', 'n', 'f', 'i', 'n', 'i', 't', 'y']);
    assert(pinfinity@ =~= seq!['+', 'i', 'n', 'f', 'i', 'n', 'i', 't', 'y']);
    assert(inf@ =~= seq!['i', 'n', 'f']);
    assert(pinf@ =~= seq!['+', 'i', 'n', 'f']);
    assert(minfinity@ =~= seq!['-', 'i', 'n', 'f', 'i', 'n', 'i', 't', 'y']);
    assert(minf@ =~= seq!['-', 'i', 'n', 'f']);
    if v.len() == 0 {
        Literal::Empty
    } else if eq_chars(v, &nan) || eq_chars(v, &pnan) || eq_chars(v, &mnan) {
        Literal::NotANumber
    } else if eq_chars(v, &infinity) || eq_chars(v, &pinfinity) || eq_chars(v, &inf) || eq_chars(
        v,
        &pinf,
    ) {
        Literal::Infinity
    } else if eq_chars(v, &minfinity) || eq_chars(v, &minf) {
        Literal::NegInfinity
    } else {
        Literal::Number
    }
}

fn strip_minus_exec(s: &Vec<char>) -> (r: (bool, Vec<char>))
    ensures
        r.0 == strip_minus(s@).0,
        r.1@ == strip_minus(s@).1,
{
    if s.len() > 0 && s[0] == '-' {
        let rest = slice_chars(s, 1, s.len());
        assert(rest@ =~= s@.drop_first());
        (true, rest)
    } else {
        (false, slice_chars(s, 0, s.len()))
    }
}

fn trimmed_text(s: &Vec<char>) -> (r: String)
    ensures
        r@ == trim(s@),
{
    string_of(&trim_chars(s))
}

fn unparenthesized_text(s: &Vec<char>) -> (r: String)
    ensures
        r@ == trim(without_parens(s@)),
{
    string_of(&trim_chars(&without_parens_chars(s)))
}

fn unwrapped_text(s: &Vec<char>) -> (r: String)
    ensures
        r@ == unwrapped(trim(s@)),
{
    let t = trim_chars(s);
    let n = t.len();
    if n >= 2 && t[0] == '(' && t[n - 1] == ')' {
        trimmed_text(&slice_chars(&t, 1, n - 1))
    } else {
        string_of(&t)
    }
}

fn operator_exec(v: &Vec<char>, sep: &Vec<char>) -> (r: Option<OperatorText>)
    requires
        sep.len() > 0,
    ensures
        operator_is(r, operator_form(v@, sep@)),
{
    match two_parts_exec(v, sep) {
        None => None,
        Some((a, b)) => {
            let (h, p) = split_once_exec(&b, ';');
            let payload = match p {
                Some(q) => Some(unparenthesized_text(&q)),
                None => None,
            };
            Some(
                OperatorText { base: unwrapped_text(&a), height: trimmed_text(&h), payload },
            )
        },
    }
}

fn power_exec(v: &Vec<char>) -> (r: Option<(String, String)>)
    ensures
        pair_is(r, power_form(v@)),
{
    let sep = vec!['^'];
    assert(sep@ =~= seq!['^']);
    match two_parts_exec(v, &sep) {
        None => None,
        Some((a, b)) => Some((trimmed_text(&a), trimmed_text(&b))),
    }
}

fn shorthand_exec(v: &Vec<char>, sep: &Vec<char>) -> (r: Option<ShorthandText>)
    requires
        sep.len() > 0,
    ensures
        shorthand_is(r, shorthand_form(v@, sep@)),
{
    match two_parts_exec(v, sep) {
        None => None,
        Some((a, b)) => {
            let (negative, h) = strip_minus_exec(&trim_chars(&a));
            Some(ShorthandText { negative, height: trimmed_text(&h), payload: unparenthesized_text(&b) })
        },
    }
}

fn f_exec(v: &Vec<char>) -> (r: Option<ShorthandText>)
    ensures
        shorthand_is(r, f_form(v@)),
{
    let sep = vec!['f'];
    assert(sep@ =~= seq!['f']);
    match two_parts_exec(v, &sep) {
        None => None,
        Some((a, b)) => {
            let (negative, pp) = strip_minus_exec(&trim_chars(&a));
            Some(ShorthandText { negative, height: unparenthesized_text(&b), payload: unparenthesized_text(&pp) })
        },
    }
}

fn exponent_exec(v: &Vec<char>) -> (r: ExponentText)
    ensures
        exponent_is(r, v@),
{
    let e_count = count_char_exec(v, 'e');
    let sep = vec!['e'];
    assert(sep@ =~= seq!['e']);
    let head = match find_from_exec(v, &sep, 0) {
        None => trim_chars(v),
        Some(j) => trim_chars(&slice_chars(v, 0, j)),
    };
    let plus = vec!['+'];
    let minus = vec!['-'];
    assert(plus@ =~= seq!['+']);
    assert(minus@ =~= seq!['-']);
    let mantissa = if head.len() == 0 || eq_chars(&head, &plus) {
        assert(head.len() == 0 ==> head@ =~= Seq::<char>::empty());
        MantissaText::Absent
    } else if eq_chars(&head, &minus) {
        MantissaText::Minus
    } else {
        MantissaText::Number(string_of(&head))
    };
    proof {
        crate::scan::lemma_last_index(v@, 'e');
        let l = last_index(v@, 'e');
        if l >= 0 {
            crate::scan::lemma_last_index(v@.subrange(0, l), 'e');
        }
    }
    let (last, second_last) = match last_index_exec(v, 'e') {
        None => (trimmed_text(v), None),
        Some(l) => {
            let last = trimmed_text(&slice_chars(v, l + 1, v.len()));
            let before = slice_chars(v, 0, l);
            let second_last = if e_count >= 2 {
                match last_index_exec(&before, 'e') {
                    Some(l2) => {
                        assert(before@ =~= v@.subrange(0, l as int));
                        Some(trimmed_text(&slice_chars(v, l2 + 1, l)))
                    },
                    None => None,
                }
            } else {
                None
            };
            (last, second_last)
        },
    };
    ExponentText { e_count, mantissa, last, second_last }
}

fn is_layer_char_exec(c: char) -> (r: bool)
    ensures
        r == is_layer_char(c),
{
    c == '+' || c == '-' || c == '.' || c == '/' || c == ',' || c == 'e' || ('0' <= c && c <= '9')
}

fn layer_end_exec(s: &Vec<char>) -> (r: Option<usize>)
    ensures
        match r {
            Some(j) => layer_end_from(s@, 0) == j as int && j < s.len(),
            None => layer_end_from(s@, 0) == -1,
        },
{
    let mut i: usize = 0;
    while i < s.len()
        invariant
            i <= s.len(),
            layer_end_from(s@, 0) == layer_end_from(s@, i as int),
        decreases s.len() - i,
    {
        if !is_layer_char_exec(s[i]) {
            return Some(i);
        }
        i += 1;
    }
    None
}

fn caret_exec(v: &Vec<char>) -> (r: Option<CaretText>)
    ensures
        caret_is(r, caret_form(v@)),
{
    let sep = vec!['e', '^'];
    assert(sep@ =~= seq!['e', '^']);
    match two_parts_exec(v, &sep) {
        None => None,
        Some((a, b)) => match layer_end_exec(&b) {
            None => None,
            Some(end) => {
                let negative = a.len() > 0 && a[0] == '-';
                Some(
                    CaretText {
                        negative,
                        layer: trimmed_text(&slice_chars(&b, 0, end)),
                        mag: trimmed_text(&slice_chars(&b, end + 1, b.len())),
                    },
                )
            },
        },
    }
}

/// Takes a text apart the way the parser reads it; see the module documentation.
pub fn parse_plan(s: &str) -> (plan: ParsePlan)
    ensures
        plan_of(plan, normalized(s@)),
{
    let trimmed = trim_chars(&chars_of(s));
    let cleaned = if ignore_commas() {
        without_chars(&trimmed, ',')
    } else if commas_are_decimal_points() {
        replace_chars(&trimmed, ',', '.')
    } else {
        trimmed
    };
    let v = if is_ascii_chars(&cleaned) {
        ascii_lower_chars(&cleaned)
    } else {
        chars_of(to_lowercase(string_of(&cleaned).as_str()).as_str())
    };
    let pentation_sep = vec!['^', '^', '^'];
    let tetration_sep = vec!['^', '^'];
    let pt_sep = vec!['p', 't'];
    let p_sep = vec!['p'];
    assert(pentation_sep@ =~= seq!['^', '^', '^']);
    assert(tetration_sep@ =~= seq!['^', '^']);
    assert(pt_sep@ =~= seq!['p', 't']);
    assert(p_sep@ =~= seq!['p']);
    ParsePlan {
        value: string_of(&v),
        literal: literal_exec(&v),
        pentation: operator_exec(&v, &pentation_sep),
        tetration: operator_exec(&v, &tetration_sep),
        power: power_exec(&v),
        pt: shorthand_exec(&v, &pt_sep),
        p: shorthand_exec(&v, &p_sep),
        f: f_exec(&v),
        exponent: exponent_exec(&v),
        caret: caret_exec(&v),
    }
}

/// What `str::parse::<f64>` makes of a piece of text.
#[derive(Debug, Clone, Copy, PartialEq, Eq, Structural)]
pub enum Reading {
    /// Not a float: the parse fails.
    Invalid,
    /// A finite float.
    Finite,
    /// An infinity or NaN (`"inf"`, `"nan"`, or a literal past the float range).
    NotFinite,
}

/// How the float reader judged the pieces of a [`ParsePlan`]. A field is `None` when its piece
/// is not in the plan.
#[derive(Debug, Clone, Copy, PartialEq, Eq, Structural)]
pub struct Readings {
    pub pentation_base: Option<Reading>,
    pub pentation_height: Option<Reading>,
    pub tetration_base: Option<Reading>,
    pub tetration_height: Option<Reading>,
    pub power_base: Option<Reading>,
    pub power_exponent: Option<Reading>,
    pub pt_height: Option<Reading>,
    pub p_height: Option<Reading>,
    pub f_height: Option<Reading>,
    /// The whole normalized text, trimmed once more.
    pub value: Reading,
    /// The whole normalized text, as it stands, is a finite float of magnitude above `1e-307`.
    pub value_is_ordinary: bool,
    pub caret_layer: Option<Reading>,
    pub caret_mag: Option<Reading>,
    /// The mantissa of the `e` forms, when it is written out.
    pub mantissa: Option<Reading>,
    /// That mantissa is a float equal to zero.
    pub mantissa_is_zero: bool,
    /// The text after the last `e`.
    pub last: Reading,
}

/// A piece whose own float error the parser reports.
#[derive(Debug, Clone, Copy, PartialEq, Eq, Structural)]
pub enum Fragment {
    Value,
    CaretLayer,
    CaretMag,
    Mantissa,
    LastExponent,
}

/// The notation the parser settles on for a text, or why it refuses it.
#[derive(Debug, Clone, Copy, PartialEq, Eq, Structural)]
pub enum Choice {
    /// The text is malformed (empty, NaN, no notation fits, a non-finite number).
    Malformed,
    /// The float reader refuses this piece; its error is the parser's.
    FloatError(Fragment),
    /// Positive infinity.
    Infinity,
    /// Negative infinity.
    NegInfinity,
    /// `X^^^N[;P]`.
    Pentate,
    /// `X^^N[;P]`.
    Tetrate,
    /// `X^Y`.
    Power,
    /// `N PT M`.
    PtShorthand,
    /// `NpM`.
    PShorthand,
    /// `MfN`.
    FShorthand,
    /// A plain number without `e`.
    Plain,
    /// A text with one `e` that the float reader takes as it is.
    Ordinary,
    /// `(e^N)X`.
    Caret,
    /// A zero mantissa: the value is zero whatever follows.
    Zero,
    /// `eX`, `eeX`, ...: no mantissa, `e_count` layers.
    Stacked,
    /// `MeX`: `10^(X + log10(M))`.
    MantissaOne,
    /// `MeeX`: `M * 10^10^X`.
    MantissaTwo,
    /// `Meee...X`: the mantissa only gives the sign.
    MantissaMany,
}

pub open spec fn finite(r: Option<Reading>) -> bool {
    r == Some(Reading::Finite)
}

/// The parser's choice for a plan and the float reader's judgments, in the parser's order:
/// specials; then each operator and shorthand form whose numbers are finite; then the `e`
/// forms.
pub open spec fn decision(plan: ParsePlan, r: Readings) -> Choice {
    match plan.literal {
        Literal::Empty => Choice::Malformed,
        Literal::NotANumber => Choice::Malformed,
        Literal::Infinity => Choice::Infinity,
        Literal::NegInfinity => Choice::NegInfinity,
        Literal::Number => {
            if plan.pentation is Some && finite(r.pentation_base) && finite(r.pentation_height) {
                Choice::Pentate
            } else if plan.tetration is Some && finite(r.tetration_base) && finite(
                r.tetration_height,
            ) {
                Choice::Tetrate
            } else if plan.power is Some && finite(r.power_base) && finite(r.power_exponent) {
                Choice::Power
            } else if plan.pt is Some && finite(r.pt_height) {
                Choice::PtShorthand
            } else if plan.p is Some && finite(r.p_height) {
                Choice::PShorthand
            } else if plan.f is Some && finite(r.f_height) {
                Choice::FShorthand
            } else {
                exponent_decision(plan, r)
            }
        },
    }
}

/// The `e` forms, once no operator or shorthand applies.
pub open spec fn exponent_decision(plan: ParsePlan, r: Readings) -> Choice {
    let e_count = plan.exponent.e_count;
    if e_count == 0 {
        if r.value == Reading::Invalid {
            Choice::FloatError(Fragment::Value)
        } else if r.value == Reading::NotFinite {
            Choice::Malformed
        } else {
            Choice::Plain
        }
    } else if e_count == 1 && r.value_is_ordinary {
        Choice::Ordinary
    } else if plan.caret is Some && r.caret_layer == Some(Reading::Invalid) {
        Choice::FloatError(Fragment::CaretLayer)
    } else if plan.caret is Some && r.caret_mag == Some(Reading::Invalid) {
        Choice::FloatError(Fragment::CaretMag)
    } else if plan.caret is Some {
        Choice::Caret
    } else {
        match plan.exponent.mantissa {
            MantissaText::Number(_) => {
                if r.mantissa == Some(Reading::Invalid) {
                    Choice::FloatError(Fragment::Mantissa)
                } else if r.mantissa_is_zero {
                    Choice::Zero
                } else if r.last == Reading::Invalid {
                    Choice::FloatError(Fragment::LastExponent)
                } else if r.mantissa != Some(Reading::Finite) {
                    Choice::Malformed
                } else if e_count == 1 {
                    Choice::MantissaOne
                } else if e_count == 2 {
                    Choice::MantissaTwo
                } else {
                    Choice::MantissaMany
                }
            },
            _ => {
                if r.last == Reading::Invalid {
                    Choice::FloatError(Fragment::LastExponent)
                } else {
                    Choice::Stacked
                }
            },
        }
    }
}

fn is_finite_reading(r: Option<Reading>) -> (b: bool)
    ensures
        b == finite(r),
{
    match r {
        Some(Reading::Finite) => true,
        _ => false,
    }
}

fn decide_exponent(plan: &ParsePlan, r: &Readings) -> (c: Choice)
    ensures
        c == exponent_decision(*plan, *r),
{
    let e_count = plan.exponent.e_count;
    if e_count == 0 {
        return match r.value {
            Reading::Invalid => Choice::FloatError(Fragment::Value),
            Reading::NotFinite => Choice::Malformed,
            Reading::Finite => Choice::Plain,
        };
    }
    if e_count == 1 && r.value_is_ordinary {
        return Choice::Ordinary;
    }
    if plan.caret.is_some() {
        if r.caret_layer == Some(Reading::Invalid) {
            return Choice::FloatError(Fragment::CaretLayer);
        }
        if r.caret_mag == Some(Reading::Invalid) {
            return Choice::FloatError(Fragment::CaretMag);
        }
        return Choice::Caret;
    }
    match &plan.exponent.mantissa {
        MantissaText::Number(_) => {
            if r.mantissa == Some(Reading::Invalid) {
                Choice::FloatError(Fragment::Mantissa)
            } else if r.mantissa_is_zero {
                Choice::Zero
            } else if r.last == Reading::Invalid {
                Choice::FloatError(Fragment::LastExponent)
            } else if r.mantissa != Some(Reading::Finite) {
                Choice::Malformed
            } else if e_count == 1 {
                Choice::MantissaOne
            } else if e_count == 2 {
                Choice::MantissaTwo
            } else {
                Choice::MantissaMany
            }
        },
        _ => {
            if r.last == Reading::Invalid {
                Choice::FloatError(Fragment::LastExponent)
            } else {
                Choice::Stacked
            }
        },
    }
}

/// The notation the parser settles on; see [`decision`].
pub fn decide(plan: &ParsePlan, r: &Readings) -> (c: Choice)
    ensures
        c == decision(*plan, *r),
{
    match plan.literal {
        Literal::Empty | Literal::NotANumber => Choice::Malformed,
        Literal::Infinity => Choice::Infinity,
        Literal::NegInfinity => Choice::NegInfinity,
        Literal::Number => {
            if plan.pentation.is_some() && is_finite_reading(r.pentation_base) && is_finite_reading(
                r.pentation_height,
            ) {
                Choice::Pentate
            } else if plan.tetration.is_some() && is_finite_reading(r.tetration_base)
                && is_finite_reading(r.tetration_height) {
                Choice::Tetrate
            } else if plan.power.is_some() && is_finite_reading(r.power_base) && is_finite_reading(
                r.power_exponent,
            ) {
                Choice::Power
            } else if plan.pt.is_some() && is_finite_reading(r.pt_height) {
                Choice::PtShorthand
            } else if plan.p.is_some() && is_finite_reading(r.p_height) {
                Choice::PShorthand
            } else if plan.f.is_some() && is_finite_reading(r.f_height) {
                Choice::FShorthand
            } else {
                decide_exponent(plan, r)
            }
        },
    }
}

} // verus!
