//! Scanning primitives over character sequences: whitespace trimming, character removal,
//! and the searches behind `split`, `splitn` and `rfind`, each stated as a spec function.

use vstd::prelude::*;

verus! {

/// Unicode `White_Space`, the set that `char::is_whitespace` and `str::trim` use.
pub open spec fn is_white(c: char) -> bool {
    ||| c == ' '
    ||| ('\t' <= c && c <= '\r')
    ||| c == '\u{85}'
    ||| c == '\u{A0}'
    ||| c == '\u{1680}'
    ||| ('\u{2000}' <= c && c <= '\u{200A}')
    ||| c == '\u{2028}'
    ||| c == '\u{2029}'
    ||| c == '\u{202F}'
    ||| c == '\u{205F}'
    ||| c == '\u{3000}'
}

/// `s` without its leading whitespace.
pub open spec fn trim_start(s: Seq<char>) -> Seq<char>
    decreases s.len(),
{
    if s.len() > 0 && is_white(s[0]) {
        trim_start(s.drop_first())
    } else {
        s
    }
}

/// `s` without its trailing whitespace.
pub open spec fn trim_end(s: Seq<char>) -> Seq<char>
    decreases s.len(),
{
    if s.len() > 0 && is_white(s.last()) {
        trim_end(s.drop_last())
    } else {
        s
    }
}

/// `s` without leading and trailing whitespace (`str::trim`).
pub open spec fn trim(s: Seq<char>) -> Seq<char> {
    trim_end(trim_start(s))
}

/// `s` with every occurrence of `c` removed.
pub open spec fn without(s: Seq<char>, c: char) -> Seq<char>
    decreases s.len(),
{
    if s.len() == 0 {
        s
    } else if s.last() == c {
        without(s.drop_last(), c)
    } else {
        without(s.drop_last(), c).push(s.last())
    }
}

/// `s` with every `a` replaced by `b`.
pub open spec fn replaced(s: Seq<char>, a: char, b: char) -> Seq<char> {
    s.map_values(|x: char| if x == a { b } else { x })
}

/// `s` with every parenthesis removed.
pub open spec fn without_parens(s: Seq<char>) -> Seq<char> {
    without(without(s, '('), ')')
}

/// `sep` occurs in `s` starting at index `i`.
pub open spec fn occurs_at(s: Seq<char>, sep: Seq<char>, i: int) -> bool {
    0 <= i && i + sep.len() <= s.len() && s.subrange(i, i + sep.len()) == sep
}

/// The first index `>= i` at which `sep` occurs in `s`, or `-1`.
pub open spec fn find_from(s: Seq<char>, sep: Seq<char>, i: int) -> int
    decreases s.len() + 1 - i,
{
    if i < 0 || i + sep.len() > s.len() {
        -1
    } else if occurs_at(s, sep, i) {
        i
    } else {
        find_from(s, sep, i + 1)
    }
}

/// A found index is an occurrence at or after `i`, with none before it.
pub proof fn lemma_find_from(s: Seq<char>, sep: Seq<char>, i: int)
    ensures
        find_from(s, sep, i) == -1 || (i <= find_from(s, sep, i) && occurs_at(
            s,
            sep,
            find_from(s, sep, i),
        )),
        forall|k: int| i <= k < find_from(s, sep, i) ==> !occurs_at(s, sep, k),
        0 <= i && find_from(s, sep, i) == -1 ==> forall|k: int| i <= k ==> !occurs_at(s, sep, k),
    decreases s.len() + 1 - i,
{
    if i < 0 || i + sep.len() > s.len() {
    } else if occurs_at(s, sep, i) {
    } else {
        lemma_find_from(s, sep, i + 1);
    }
}

/// The two pieces of `s` when splitting it at a non-empty `sep` gives exactly two pieces,
/// as `s.split(sep)` does: the leftmost occurrence is the only one that does not overlap it.
pub open spec fn two_parts(s: Seq<char>, sep: Seq<char>) -> Option<(Seq<char>, Seq<char>)> {
    let j = find_from(s, sep, 0);
    if j < 0 || find_from(s, sep, j + sep.len()) >= 0 {
        None
    } else {
        Some((s.subrange(0, j), s.subrange(j + sep.len(), s.len() as int)))
    }
}

/// `s.splitn(2, c)`: the text before the first `c` and, if there is one, the text after it.
pub open spec fn split_once(s: Seq<char>, c: char) -> (Seq<char>, Option<Seq<char>>) {
    let j = find_from(s, seq![c], 0);
    if j < 0 {
        (s, None)
    } else {
        (s.subrange(0, j), Some(s.subrange(j + 1, s.len() as int)))
    }
}

/// The index of the last `c` in `s`, or `-1`.
pub open spec fn last_index(s: Seq<char>, c: char) -> int
    decreases s.len(),
{
    if s.len() == 0 {
        -1
    } else if s.last() == c {
        s.len() - 1
    } else {
        last_index(s.drop_last(), c)
    }
}

/// The number of occurrences of `c` in `s`.
pub open spec fn count_char(s: Seq<char>, c: char) -> nat
    decreases s.len(),
{
    if s.len() == 0 {
        0
    } else if s.last() == c {
        count_char(s.drop_last(), c) + 1
    } else {
        count_char(s.drop_last(), c)
    }
}

/// `c` occurs in `s` exactly when it has a last index, and the text before that index holds
/// one `c` fewer.
pub proof fn lemma_last_index(s: Seq<char>, c: char)
    ensures
        (last_index(s, c) == -1) == (count_char(s, c) == 0),
        last_index(s, c) >= 0 ==> last_index(s, c) < s.len() && s[last_index(s, c)] == c
            && count_char(s.subrange(0, last_index(s, c)), c) + 1 == count_char(s, c),
    decreases s.len(),
{
    if s.len() > 0 {
        lemma_last_index(s.drop_last(), c);
        if s.last() == c {
            assert(s.subrange(0, s.len() - 1) =~= s.drop_last());
        } else {
            let l = last_index(s.drop_last(), c);
            if l >= 0 {
                assert(s.drop_last().subrange(0, l) =~= s.subrange(0, l));
            }
        }
    }
}

/// `c` with ASCII `A..=Z` mapped to `a..=z` (`char::to_ascii_lowercase`).
pub open spec fn ascii_lower_char(c: char) -> char {
    if 'A' <= c && c <= 'Z' {
        ((c as u32) + 32) as char
    } else {
        c
    }
}

/// `s` with ASCII letters lowercased (`str::to_ascii_lowercase`).
pub open spec fn ascii_lower(s: Seq<char>) -> Seq<char> {
    s.map_values(|c: char| ascii_lower_char(c))
}

/// `s` with ASCII letters lowercased.
pub fn ascii_lower_chars(s: &Vec<char>) -> (r: Vec<char>)
    ensures
        r@ == ascii_lower(s@),
{
    let mut r: Vec<char> = Vec::new();
    let mut i: usize = 0;
    while i < s.len()
        invariant
            i <= s.len(),
            r@ =~= ascii_lower(s@.subrange(0, i as int)),
        decreases s.len() - i,
    {
        let c = s[i];
        if 'A' <= c && c <= 'Z' {
            let lower: char = ((c as u8) + 32) as char;
            assert(lower == ascii_lower_char(c));
            r.push(lower);
        } else {
            r.push(c);
        }
        i += 1;
    }
    assert(s@.subrange(0, s@.len() as int) =~= s@);
    r
}

/// Every character of `s` is ASCII.
pub open spec fn is_ascii_text(s: Seq<char>) -> bool {
    forall|i: int| 0 <= i < s.len() ==> #[trigger] s[i] < '\u{80}'
}

/// Whether every character of `s` is ASCII.
pub fn is_ascii_chars(s: &Vec<char>) -> (r: bool)
    ensures
        r == is_ascii_text(s@),
{
    let mut i: usize = 0;
    while i < s.len()
        invariant
            i <= s.len(),
            forall|k: int| 0 <= k < i ==> #[trigger] s@[k] < '\u{80}',
        decreases s.len() - i,
    {
        if s[i] >= '\u{80}' {
            return false;
        }
        i += 1;
    }
    true
}

/// Removing a character that does not occur changes nothing.
pub proof fn lemma_without_absent(s: Seq<char>, c: char)
    requires
        forall|i: int| 0 <= i < s.len() ==> s[i] != c,
    ensures
        without(s, c) == s,
    decreases s.len(),
{
    if s.len() > 0 {
        lemma_without_absent(s.drop_last(), c);
        assert(s.drop_last().push(s.last()) =~= s);
    }
}

proof fn lemma_trim_start_head(s: Seq<char>)
    ensures
        trim_start(s).len() > 0 ==> !is_white(trim_start(s)[0]),
    decreases s.len(),
{
    if s.len() > 0 && is_white(s[0]) {
        lemma_trim_start_head(s.drop_first());
    }
}

proof fn lemma_trim_end_shape(s: Seq<char>)
    ensures
        trim_end(s).len() <= s.len(),
        trim_end(s) == s.subrange(0, trim_end(s).len() as int),
        trim_end(s).len() > 0 ==> !is_white(trim_end(s).last()),
    decreases s.len(),
{
    if s.len() > 0 && is_white(s.last()) {
        lemma_trim_end_shape(s.drop_last());
        let t = trim_end(s.drop_last());
        assert(s.drop_last().subrange(0, t.len() as int) =~= s.subrange(0, t.len() as int));
    } else {
        assert(s.subrange(0, s.len() as int) =~= s);
    }
}

/// Trimming twice is trimming once.
pub proof fn lemma_trim_idempotent(s: Seq<char>)
    ensures
        trim(trim(s)) == trim(s),
{
    let u = trim_start(s);
    let t = trim_end(u);
    lemma_trim_start_head(s);
    lemma_trim_end_shape(u);
    if t.len() > 0 {
        assert(t[0] == u[0]);
    }
    lemma_trim_unchanged(t);
}

/// Every character of `s` is whitespace.
pub open spec fn all_white(s: Seq<char>) -> bool {
    forall|i: int| 0 <= i < s.len() ==> is_white(#[trigger] s[i])
}

proof fn lemma_trim_start_white_prefix(w: Seq<char>, x: Seq<char>)
    requires
        all_white(w),
    ensures
        trim_start(w + x) == trim_start(x),
    decreases w.len(),
{
    if w.len() > 0 {
        assert((w + x)[0] == w[0]);
        assert((w + x).drop_first() =~= w.drop_first() + x);
        assert(all_white(w.drop_first())) by {
            assert forall|i: int| 0 <= i < w.drop_first().len() implies is_white(
                #[trigger] w.drop_first()[i],
            ) by {
                assert(w.drop_first()[i] == w[i + 1]);
            }
        }
        lemma_trim_start_white_prefix(w.drop_first(), x);
    } else {
        assert(w + x =~= x);
    }
}

proof fn lemma_trim_end_white_suffix(x: Seq<char>, w: Seq<char>)
    requires
        all_white(w),
    ensures
        trim_end(x + w) == trim_end(x),
    decreases w.len(),
{
    if w.len() > 0 {
        assert((x + w).last() == w.last());
        assert((x + w).drop_last() =~= x + w.drop_last());
        assert(all_white(w.drop_last())) by {
            assert forall|i: int| 0 <= i < w.drop_last().len() implies is_white(
                #[trigger] w.drop_last()[i],
            ) by {
                assert(w.drop_last()[i] == w[i]);
            }
        }
        lemma_trim_end_white_suffix(x, w.drop_last());
    } else {
        assert(x + w =~= x);
    }
}

proof fn lemma_trim_start_append(x: Seq<char>, w: Seq<char>)
    ensures
        trim_start(x).len() > 0 ==> trim_start(x + w) == trim_start(x) + w,
        trim_start(x).len() == 0 ==> trim_start(x + w) == trim_start(w),
    decreases x.len(),
{
    if x.len() > 0 {
        assert((x + w)[0] == x[0]);
        if is_white(x[0]) {
            assert((x + w).drop_first() =~= x.drop_first() + w);
            lemma_trim_start_append(x.drop_first(), w);
        }
    } else {
        assert(x + w =~= w);
    }
}

/// Whitespace around a text does not change what `trim` leaves of it.
pub proof fn lemma_trim_ignores_surrounding_white(w1: Seq<char>, s: Seq<char>, w2: Seq<char>)
    requires
        all_white(w1),
        all_white(w2),
    ensures
        trim(w1 + s + w2) == trim(s),
{
    assert(w1 + s + w2 =~= w1 + (s + w2));
    lemma_trim_start_white_prefix(w1, s + w2);
    lemma_trim_start_append(s, w2);
    if trim_start(s).len() > 0 {
        lemma_trim_end_white_suffix(trim_start(s), w2);
    } else {
        lemma_trim_start_white_prefix(w2, Seq::<char>::empty());
        assert(w2 + Seq::<char>::empty() =~= w2);
    }
}

/// When no index from `i` on holds the first character of `sep`, `sep` is not found there.
pub proof fn lemma_find_absent(s: Seq<char>, sep: Seq<char>, i: int)
    requires
        sep.len() > 0,
        0 <= i,
        forall|k: int| i <= k < s.len() ==> s[k] != sep[0],
    ensures
        find_from(s, sep, i) == -1,
{
    lemma_find_from(s, sep, i);
    let r = find_from(s, sep, i);
    if r >= 0 {
        assert(s.subrange(r, r + sep.len())[0] == s[r]);
    }
}

/// When `sep` does not occur at any index from `i` on, it is not found there.
pub proof fn lemma_find_none(s: Seq<char>, sep: Seq<char>, i: int)
    requires
        0 <= i,
        forall|k: int| i <= k ==> !occurs_at(s, sep, k),
    ensures
        find_from(s, sep, i) == -1,
{
    lemma_find_from(s, sep, i);
}

/// `sep` is found at `j` when it occurs there and nowhere in `i..j`.
pub proof fn lemma_find_at(s: Seq<char>, sep: Seq<char>, i: int, j: int)
    requires
        0 <= i <= j,
        occurs_at(s, sep, j),
        forall|k: int| i <= k < j ==> !occurs_at(s, sep, k),
    ensures
        find_from(s, sep, i) == j,
    decreases j - i,
{
    if i < j {
        lemma_find_at(s, sep, i + 1, j);
    }
}

/// Counting over a concatenation adds up.
pub proof fn lemma_count_concat(a: Seq<char>, b: Seq<char>, c: char)
    ensures
        count_char(a + b, c) == count_char(a, c) + count_char(b, c),
    decreases b.len(),
{
    if b.len() == 0 {
        assert(a + b =~= a);
    } else {
        assert((a + b).drop_last() =~= a + b.drop_last());
        lemma_count_concat(a, b.drop_last(), c);
    }
}

/// A text without `c` holds no `c`.
pub proof fn lemma_count_absent(s: Seq<char>, c: char)
    requires
        forall|k: int| 0 <= k < s.len() ==> s[k] != c,
    ensures
        count_char(s, c) == 0,
        last_index(s, c) == -1,
    decreases s.len(),
{
    if s.len() > 0 {
        lemma_count_absent(s.drop_last(), c);
    }
}

/// A run of `n` copies of `c` holds `n` of them, the last at `n - 1`.
pub proof fn lemma_count_run(n: nat, c: char)
    ensures
        count_char(Seq::new(n, |i: int| c), c) == n,
        n > 0 ==> last_index(Seq::new(n, |i: int| c), c) == n - 1,
    decreases n,
{
    if n > 0 {
        assert(Seq::new(n, |i: int| c).drop_last() =~= Seq::new((n - 1) as nat, |i: int| c));
        lemma_count_run((n - 1) as nat, c);
    }
}

/// The last `c` of `a + b`, when `b` holds none, is the last `c` of `a`.
pub proof fn lemma_last_index_before(a: Seq<char>, b: Seq<char>, c: char)
    requires
        forall|k: int| 0 <= k < b.len() ==> b[k] != c,
    ensures
        last_index(a + b, c) == last_index(a, c),
    decreases b.len(),
{
    if b.len() == 0 {
        assert(a + b =~= a);
    } else {
        assert((a + b).drop_last() =~= a + b.drop_last());
        lemma_last_index_before(a, b.drop_last(), c);
    }
}

/// The last `c` of `a + b`, when `b` holds one, lies in `b`.
pub proof fn lemma_last_index_after(a: Seq<char>, b: Seq<char>, c: char)
    requires
        last_index(b, c) >= 0,
    ensures
        last_index(a + b, c) == a.len() + last_index(b, c),
    decreases b.len(),
{
    if b.len() > 0 {
        assert((a + b).drop_last() =~= a + b.drop_last());
        if b.last() != c {
            lemma_last_index_after(a, b.drop_last(), c);
        }
    }
}

/// A text that neither starts nor ends with whitespace is its own trim.
pub proof fn lemma_trim_unchanged(s: Seq<char>)
    requires
        s.len() > 0 ==> !is_white(s[0]) && !is_white(s.last()),
    ensures
        trim(s) == s,
{
}

/// Removing a character from a concatenation removes it from each part.
pub proof fn lemma_without_concat(x: Seq<char>, y: Seq<char>, c: char)
    ensures
        without(x + y, c) == without(x, c) + without(y, c),
    decreases y.len(),
{
    if y.len() == 0 {
        assert(x + y =~= x);
        assert(without(x, c) + without(y, c) =~= without(x, c));
    } else {
        assert((x + y).drop_last() =~= x + y.drop_last());
        lemma_without_concat(x, y.drop_last(), c);
        if y.last() != c {
            assert(without(x, c) + without(y.drop_last(), c).push(y.last()) =~= (without(x, c)
                + without(y.drop_last(), c)).push(y.last()));
        }
    }
}

pub fn is_white_exec(c: char) -> (r: bool)
    ensures
        r == is_white(c),
{
    c == ' ' || ('\t' <= c && c <= '\r') || c == '\u{85}' || c == '\u{A0}' || c == '\u{1680}'
        || ('\u{2000}' <= c && c <= '\u{200A}') || c == '\u{2028}' || c == '\u{2029}'
        || c == '\u{202F}' || c == '\u{205F}' || c == '\u{3000}'
}

/// The characters `s[lo..hi]`.
pub fn slice_chars(s: &Vec<char>, lo: usize, hi: usize) -> (r: Vec<char>)
    requires
        lo <= hi <= s.len(),
    ensures
        r@ == s@.subrange(lo as int, hi as int),
{
    let mut r: Vec<char> = Vec::new();
    let mut i = lo;
    while i < hi
        invariant
            lo <= i <= hi <= s.len(),
            r@ =~= s@.subrange(lo as int, i as int),
        decreases hi - i,
    {
        r.push(s[i]);
        i += 1;
    }
    r
}

proof fn lemma_trim_start_skip(s: Seq<char>, i: int)
    requires
        0 <= i < s.len(),
        is_white(s[i]),
    ensures
        trim_start(s.subrange(i, s.len() as int)) == trim_start(s.subrange(i + 1, s.len() as int)),
{
    let t = s.subrange(i, s.len() as int);
    assert(t.drop_first() =~= s.subrange(i + 1, s.len() as int));
}

proof fn lemma_trim_end_skip(s: Seq<char>, j: int)
    requires
        0 < j <= s.len(),
        is_white(s[j - 1]),
    ensures
        trim_end(s.subrange(0, j)) == trim_end(s.subrange(0, j - 1)),
{
    let t = s.subrange(0, j);
    assert(t.drop_last() =~= s.subrange(0, j - 1));
}

/// `s` without leading and trailing whitespace.
pub fn trim_chars(s: &Vec<char>) -> (r: Vec<char>)
    ensures
        r@ == trim(s@),
{
    let mut i: usize = 0;
    assert(s@.subrange(0, s@.len() as int) =~= s@);
    while i < s.len() && is_white_exec(s[i])
        invariant
            i <= s.len(),
            trim_start(s@) == trim_start(s@.subrange(i as int, s@.len() as int)),
        decreases s.len() - i,
    {
        proof {
            lemma_trim_start_skip(s@, i as int);
        }
        i += 1;
    }
    let ghost rest = s@.subrange(i as int, s@.len() as int);
    assert(trim_start(s@) == rest) by {
        if rest.len() > 0 {
            assert(rest[0] == s@[i as int]);
        }
    }
    let mut j: usize = s.len();
    assert(rest.subrange(0, rest.len() as int) =~= rest);
    while j > i && is_white_exec(s[j - 1])
        invariant
            i <= j <= s.len(),
            rest == s@.subrange(i as int, s@.len() as int),
            trim_end(rest) == trim_end(rest.subrange(0, j - i)),
        decreases j,
    {
        proof {
            lemma_trim_end_skip(rest, (j - i) as int);
        }
        j -= 1;
    }
    let r = slice_chars(s, i, j);
    assert(r@ =~= rest.subrange(0, j - i));
    assert(trim_end(rest.subrange(0, j - i)) == rest.subrange(0, j - i)) by {
        let t = rest.subrange(0, j - i);
        if t.len() > 0 {
            assert(t.last() == s@[j - 1]);
        }
    }
    r
}

/// `s` with every occurrence of `c` removed.
pub fn without_chars(s: &Vec<char>, c: char) -> (r: Vec<char>)
    ensures
        r@ == without(s@, c),
{
    let mut r: Vec<char> = Vec::new();
    let mut i: usize = 0;
    while i < s.len()
        invariant
            i <= s.len(),
            r@ == without(s@.subrange(0, i as int), c),
        decreases s.len() - i,
    {
        let ghost pre = s@.subrange(0, i as int + 1);
        assert(pre.drop_last() =~= s@.subrange(0, i as int));
        if s[i] != c {
            r.push(s[i]);
        }
        i += 1;
    }
    assert(s@.subrange(0, s@.len() as int) =~= s@);
    r
}

/// `s` with every `a` replaced by `b`.
pub fn replace_chars(s: &Vec<char>, a: char, b: char) -> (r: Vec<char>)
    ensures
        r@ == replaced(s@, a, b),
{
    let mut r: Vec<char> = Vec::new();
    let mut i: usize = 0;
    while i < s.len()
        invariant
            i <= s.len(),
            r@ =~= replaced(s@.subrange(0, i as int), a, b),
        decreases s.len() - i,
    {
        if s[i] == a {
            r.push(b);
        } else {
            r.push(s[i]);
        }
        i += 1;
    }
    assert(s@.subrange(0, s@.len() as int) =~= s@);
    r
}

/// `s` with every parenthesis removed.
pub fn without_parens_chars(s: &Vec<char>) -> (r: Vec<char>)
    ensures
        r@ == without_parens(s@),
{
    let a = without_chars(s, '(');
    without_chars(&a, ')')
}

/// Whether `sep` occurs in `s` at index `i`.
pub fn occurs_at_exec(s: &Vec<char>, sep: &Vec<char>, i: usize) -> (r: bool)
    ensures
        r == occurs_at(s@, sep@, i as int),
{
    if i > s.len() || sep.len() > s.len() - i {
        return false;
    }
    let mut k: usize = 0;
    while k < sep.len()
        invariant
            k <= sep.len(),
            i + sep.len() <= s.len(),
            forall|m: int| 0 <= m < k ==> s@[i + m] == sep@[m],
        decreases sep.len() - k,
    {
        if s[i + k] != sep[k] {
            assert(s@.subrange(i as int, i + sep.len())[k as int] != sep@[k as int]);
            return false;
        }
        k += 1;
    }
    assert(s@.subrange(i as int, i + sep.len()) =~= sep@);
    true
}

/// The first index `>= i` at which `sep` occurs in `s`, if any.
pub fn find_from_exec(s: &Vec<char>, sep: &Vec<char>, i: usize) -> (r: Option<usize>)
    requires
        sep.len() > 0,
    ensures
        match r {
            Some(j) => i <= j && j + sep.len() <= s.len(),
            None => true,
        },
        match r {
            Some(j) => find_from(s@, sep@, i as int) == j as int,
            None => find_from(s@, sep@, i as int) == -1,
        },
{
    let mut k = i;
    while k <= s.len() && sep.len() <= s.len() - k
        invariant
            i <= k,
            sep.len() > 0,
            find_from(s@, sep@, i as int) == find_from(s@, sep@, k as int),
        decreases s.len() + 1 - k,
    {
        if occurs_at_exec(s, sep, k) {
            return Some(k);
        }
        assert(k < s.len());
        k += 1;
    }
    None
}

/// The two pieces of `s` around `sep` when `s.split(sep)` gives exactly two.
pub fn two_parts_exec(s: &Vec<char>, sep: &Vec<char>) -> (r: Option<(Vec<char>, Vec<char>)>)
    requires
        sep.len() > 0,
    ensures
        match two_parts(s@, sep@) {
            Some((a, b)) => r matches Some((x, y)) && x@ == a && y@ == b,
            None => r is None,
        },
{
    match find_from_exec(s, sep, 0) {
        None => None,
        Some(j) => {
            match find_from_exec(s, sep, j + sep.len()) {
                Some(_) => None,
                None => Some((slice_chars(s, 0, j), slice_chars(s, j + sep.len(), s.len()))),
            }
        },
    }
}

/// `s.splitn(2, c)`.
pub fn split_once_exec(s: &Vec<char>, c: char) -> (r: (Vec<char>, Option<Vec<char>>))
    ensures
        r.0@ == split_once(s@, c).0,
        match split_once(s@, c).1 {
            Some(b) => r.1 matches Some(y) && y@ == b,
            None => r.1 is None,
        },
{
    let sep = vec![c];
    assert(sep@ =~= seq![c]);
    match find_from_exec(s, &sep, 0) {
        None => (slice_chars(s, 0, s.len()), None),
        Some(j) => (slice_chars(s, 0, j), Some(slice_chars(s, j + 1, s.len()))),
    }
}

/// The index of the last `c` in `s`, if any.
pub fn last_index_exec(s: &Vec<char>, c: char) -> (r: Option<usize>)
    ensures
        match r {
            Some(j) => last_index(s@, c) == j as int && j < s.len(),
            None => last_index(s@, c) == -1,
        },
{
    let mut j: usize = s.len();
    assert(s@.subrange(0, s@.len() as int) =~= s@);
    while j > 0
        invariant
            j <= s.len(),
            last_index(s@, c) == last_index(s@.subrange(0, j as int), c),
        decreases j,
    {
        let ghost t = s@.subrange(0, j as int);
        assert(t.drop_last() =~= s@.subrange(0, j - 1));
        if s[j - 1] == c {
            return Some(j - 1);
        }
        j -= 1;
    }
    None
}

/// The number of occurrences of `c` in `s`.
pub fn count_char_exec(s: &Vec<char>, c: char) -> (r: usize)
    ensures
        r == count_char(s@, c),
{
    let mut n: usize = 0;
    let mut i: usize = 0;
    while i < s.len()
        invariant
            i <= s.len(),
            n == count_char(s@.subrange(0, i as int), c),
            n <= i,
        decreases s.len() - i,
    {
        let ghost pre = s@.subrange(0, i as int + 1);
        assert(pre.drop_last() =~= s@.subrange(0, i as int));
        if s[i] == c {
            n += 1;
        }
        i += 1;
    }
    assert(s@.subrange(0, s@.len() as int) =~= s@);
    n
}

} // verus!
