//! Character-level helpers on which the output parsers are built: whitespace
//! and digit classes, trimming, splitting and decimal conversion, each with a
//! specification over `Seq<char>`.
use vstd::prelude::*;

verus! {

// ---------------------------------------------------------------------------
// Character classes
// ---------------------------------------------------------------------------

/// Unicode `White_Space`: the set that `char::is_whitespace`, `str::trim`,
/// `str::split_whitespace` and the regex class `\s` all use.
pub open spec fn is_ws(c: char) -> bool {
    let u = c as u32;
    ||| (0x09 <= u && u <= 0x0D)
    ||| u == 0x20
    ||| u == 0x85
    ||| u == 0xA0
    ||| u == 0x1680
    ||| (0x2000 <= u && u <= 0x200A)
    ||| u == 0x2028
    ||| u == 0x2029
    ||| u == 0x202F
    ||| u == 0x205F
    ||| u == 0x3000
}

pub fn is_whitespace(c: char) -> (b: bool)
    ensures
        b == is_ws(c),
{
    let u = c as u32;
    (0x09 <= u && u <= 0x0D) || u == 0x20 || u == 0x85 || u == 0xA0 || u == 0x1680 || (0x2000
        <= u && u <= 0x200A) || u == 0x2028 || u == 0x2029 || u == 0x202F || u == 0x205F || u
        == 0x3000
}

pub open spec fn is_ascii_digit(c: char) -> bool {
    '0' <= c && c <= '9'
}

/// Unicode `Decimal_Number` (general category Nd), the class `\d` of an
/// output pattern.
pub open spec fn is_nd_digit(c: char) -> bool {
    let u = c as u32;
    ||| (0x30 <= u && u <= 0x39)
    ||| (0x660 <= u && u <= 0x669)
    ||| (0x6F0 <= u && u <= 0x6F9)
    ||| (0x7C0 <= u && u <= 0x7C9)
    ||| (0x966 <= u && u <= 0x96F)
    ||| (0x9E6 <= u && u <= 0x9EF)
    ||| (0xA66 <= u && u <= 0xA6F)
    ||| (0xAE6 <= u && u <= 0xAEF)
    ||| (0xB66 <= u && u <= 0xB6F)
    ||| (0xBE6 <= u && u <= 0xBEF)
    ||| (0xC66 <= u && u <= 0xC6F)
    ||| (0xCE6 <= u && u <= 0xCEF)
    ||| (0xD66 <= u && u <= 0xD6F)
    ||| (0xDE6 <= u && u <= 0xDEF)
    ||| (0xE50 <= u && u <= 0xE59)
    ||| (0xED0 <= u && u <= 0xED9)
    ||| (0xF20 <= u && u <= 0xF29)
    ||| (0x1040 <= u && u <= 0x1049)
    ||| (0x1090 <= u && u <= 0x1099)
    ||| (0x17E0 <= u && u <= 0x17E9)
    ||| (0x1810 <= u && u <= 0x1819)
    ||| (0x1946 <= u && u <= 0x194F)
    ||| (0x19D0 <= u && u <= 0x19D9)
    ||| (0x1A80 <= u && u <= 0x1A89)
    ||| (0x1A90 <= u && u <= 0x1A99)
    ||| (0x1B50 <= u && u <= 0x1B59)
    ||| (0x1BB0 <= u && u <= 0x1BB9)
    ||| (0x1C40 <= u && u <= 0x1C49)
    ||| (0x1C50 <= u && u <= 0x1C59)
    ||| (0xA620 <= u && u <= 0xA629)
    ||| (0xA8D0 <= u && u <= 0xA8D9)
    ||| (0xA900 <= u && u <= 0xA909)
    ||| (0xA9D0 <= u && u <= 0xA9D9)
    ||| (0xA9F0 <= u && u <= 0xA9F9)
    ||| (0xAA50 <= u && u <= 0xAA59)
    ||| (0xABF0 <= u && u <= 0xABF9)
    ||| (0xFF10 <= u && u <= 0xFF19)
    ||| (0x104A0 <= u && u <= 0x104A9)
    ||| (0x10D30 <= u && u <= 0x10D39)
    ||| (0x10D40 <= u && u <= 0x10D49)
    ||| (0x11066 <= u && u <= 0x1106F)
    ||| (0x110F0 <= u && u <= 0x110F9)
    ||| (0x11136 <= u && u <= 0x1113F)
    ||| (0x111D0 <= u && u <= 0x111D9)
    ||| (0x112F0 <= u && u <= 0x112F9)
    ||| (0x11450 <= u && u <= 0x11459)
    ||| (0x114D0 <= u && u <= 0x114D9)
    ||| (0x11650 <= u && u <= 0x11659)
    ||| (0x116C0 <= u && u <= 0x116C9)
    ||| (0x116D0 <= u && u <= 0x116E3)
    ||| (0x11730 <= u && u <= 0x11739)
    ||| (0x118E0 <= u && u <= 0x118E9)
    ||| (0x11950 <= u && u <= 0x11959)
    ||| (0x11BF0 <= u && u <= 0x11BF9)
    ||| (0x11C50 <= u && u <= 0x11C59)
    ||| (0x11D50 <= u && u <= 0x11D59)
    ||| (0x11DA0 <= u && u <= 0x11DA9)
    ||| (0x11F50 <= u && u <= 0x11F59)
    ||| (0x16130 <= u && u <= 0x16139)
    ||| (0x16A60 <= u && u <= 0x16A69)
    ||| (0x16AC0 <= u && u <= 0x16AC9)
    ||| (0x16B50 <= u && u <= 0x16B59)
    ||| (0x16D70 <= u && u <= 0x16D79)
    ||| (0x1CCF0 <= u && u <= 0x1CCF9)
    ||| (0x1D7CE <= u && u <= 0x1D7FF)
    ||| (0x1E140 <= u && u <= 0x1E149)
    ||| (0x1E2F0 <= u && u <= 0x1E2F9)
    ||| (0x1E4F0 <= u && u <= 0x1E4F9)
    ||| (0x1E5F1 <= u && u <= 0x1E5FA)
    ||| (0x1E950 <= u && u <= 0x1E959)
    ||| (0x1FBF0 <= u && u <= 0x1FBF9)
}

pub fn is_decimal_digit(c: char) -> (b: bool)
    ensures
        b == is_nd_digit(c),
{
    let u = c as u32;
    if u < 0x80 {
        return 0x30 <= u && u <= 0x39;
    }
    (0x660 <= u && u <= 0x669) || (0x6F0 <= u && u <= 0x6F9) || (0x7C0 <= u && u <= 0x7C9) || (
    0x966 <= u && u <= 0x96F) || (0x9E6 <= u && u <= 0x9EF) || (0xA66 <= u && u <= 0xA6F) || (
    0xAE6 <= u && u <= 0xAEF) || (0xB66 <= u && u <= 0xB6F) || (0xBE6 <= u && u <= 0xBEF) || (
    0xC66 <= u && u <= 0xC6F) || (0xCE6 <= u && u <= 0xCEF) || (0xD66 <= u && u <= 0xD6F) || (
    0xDE6 <= u && u <= 0xDEF) || (0xE50 <= u && u <= 0xE59) || (0xED0 <= u && u <= 0xED9) || (
    0xF20 <= u && u <= 0xF29) || (0x1040 <= u && u <= 0x1049) || (0x1090 <= u && u <= 0x1099)
        || (0x17E0 <= u && u <= 0x17E9) || (0x1810 <= u && u <= 0x1819) || (0x1946 <= u && u
        <= 0x194F) || (0x19D0 <= u && u <= 0x19D9) || (0x1A80 <= u && u <= 0x1A89) || (0x1A90
        <= u && u <= 0x1A99) || (0x1B50 <= u && u <= 0x1B59) || (0x1BB0 <= u && u <= 0x1BB9) || (
    0x1C40 <= u && u <= 0x1C49) || (0x1C50 <= u && u <= 0x1C59) || (0xA620 <= u && u <= 0xA629)
        || (0xA8D0 <= u && u <= 0xA8D9) || (0xA900 <= u && u <= 0xA909) || (0xA9D0 <= u && u
        <= 0xA9D9) || (0xA9F0 <= u && u <= 0xA9F9) || (0xAA50 <= u && u <= 0xAA59) || (0xABF0
        <= u && u <= 0xABF9) || (0xFF10 <= u && u <= 0xFF19) || (0x104A0 <= u && u <= 0x104A9)
        || (0x10D30 <= u && u <= 0x10D39) || (0x10D40 <= u && u <= 0x10D49) || (0x11066 <= u
        && u <= 0x1106F) || (0x110F0 <= u && u <= 0x110F9) || (0x11136 <= u && u <= 0x1113F) || (
    0x111D0 <= u && u <= 0x111D9) || (0x112F0 <= u && u <= 0x112F9) || (0x11450 <= u && u
        <= 0x11459) || (0x114D0 <= u && u <= 0x114D9) || (0x11650 <= u && u <= 0x11659) || (
    0x116C0 <= u && u <= 0x116C9) || (0x116D0 <= u && u <= 0x116E3) || (0x11730 <= u && u
        <= 0x11739) || (0x118E0 <= u && u <= 0x118E9) || (0x11950 <= u && u <= 0x11959) || (
    0x11BF0 <= u && u <= 0x11BF9) || (0x11C50 <= u && u <= 0x11C59) || (0x11D50 <= u && u
        <= 0x11D59) || (0x11DA0 <= u && u <= 0x11DA9) || (0x11F50 <= u && u <= 0x11F59) || (
    0x16130 <= u && u <= 0x16139) || (0x16A60 <= u && u <= 0x16A69) || (0x16AC0 <= u && u
        <= 0x16AC9) || (0x16B50 <= u && u <= 0x16B59) || (0x16D70 <= u && u <= 0x16D79) || (
    0x1CCF0 <= u && u <= 0x1CCF9) || (0x1D7CE <= u && u <= 0x1D7FF) || (0x1E140 <= u && u
        <= 0x1E149) || (0x1E2F0 <= u && u <= 0x1E2F9) || (0x1E4F0 <= u && u <= 0x1E4F9) || (
    0x1E5F1 <= u && u <= 0x1E5FA) || (0x1E950 <= u && u <= 0x1E959) || (0x1FBF0 <= u && u
        <= 0x1FBF9)
}

// ---------------------------------------------------------------------------
// Conversions between `str`/`String` and `Vec<char>`
// ---------------------------------------------------------------------------

/// The characters of a string slice, in order.
pub fn chars_of(s: &str) -> (v: Vec<char>)
    ensures
        v@ == s@,
{
    let mut v: Vec<char> = Vec::new();
    for c in it: s.chars()
        invariant
            v@ == it.seq().take(it.index() as int),
    {
        v.push(c);
    }
    v
}

/// `String::from_iter`: the string made of the given characters in order.
#[verifier::external_body]
pub(crate) fn string_from_chars(v: Vec<char>) -> (s: String)
    ensures
        s@ == v@,
{
    String::from_iter(v)
}

/// An owned string holding the characters of `v`.
pub fn string_of(v: &Vec<char>) -> (s: String)
    ensures
        s@ == v@,
{
    let c = slice_chars(v, 0, v.len());
    assert(c@ =~= v@);
    string_from_chars(c)
}

/// A copy of `v[from..to]`.
pub fn slice_chars(v: &Vec<char>, from: usize, to: usize) -> (r: Vec<char>)
    requires
        from <= to <= v.len(),
    ensures
        r@ == v@.subrange(from as int, to as int),
{
    let mut r: Vec<char> = Vec::new();
    let mut i = from;
    while i < to
        invariant
            from <= i <= to <= v.len(),
            r@ == v@.subrange(from as int, i as int),
        decreases to - i,
    {
        r.push(v[i]);
        i = i + 1;
    }
    r
}

/// The concatenation of two character vectors.
pub fn concat_chars(a: &Vec<char>, b: &Vec<char>) -> (r: Vec<char>)
    ensures
        r@ == a@ + b@,
{
    let mut r = a.clone();
    let mut i: usize = 0;
    while i < b.len()
        invariant
            i <= b.len(),
            r@ == a@ + b@.take(i as int),
        decreases b.len() - i,
    {
        r.push(b[i]);
        i = i + 1;
        assert(b@.take(i as int) == b@.take(i - 1).push(b@[i - 1]));
    }
    assert(b@.take(b.len() as int) == b@);
    r
}

/// Whether two character vectors hold the same characters.
pub fn chars_eq(a: &Vec<char>, b: &Vec<char>) -> (r: bool)
    ensures
        r == (a@ == b@),
{
    if a.len() != b.len() {
        return false;
    }
    let mut i: usize = 0;
    while i < a.len()
        invariant
            i <= a.len() == b.len(),
            forall|j: int| 0 <= j < i ==> a@[j] == b@[j],
        decreases a.len() - i,
    {
        if a[i] != b[i] {
            return false;
        }
        i = i + 1;
    }
    assert(a@ =~= b@);
    true
}

// ---------------------------------------------------------------------------
// Prefixes and occurrences
// ---------------------------------------------------------------------------

/// `lit` occurs in `s` starting at position `i`.
pub open spec fn occurs_at(s: Seq<char>, i: int, lit: Seq<char>) -> bool {
    0 <= i && i + lit.len() <= s.len() && s.subrange(i, i + lit.len()) == lit
}

pub open spec fn has_prefix(s: Seq<char>, lit: Seq<char>) -> bool {
    occurs_at(s, 0, lit)
}

/// `lit` occurs somewhere in `s`.
pub open spec fn contains_seq(s: Seq<char>, lit: Seq<char>) -> bool {
    exists|i: int| 0 <= i <= s.len() - lit.len() && #[trigger] occurs_at(s, i, lit)
}

pub fn matches_at(s: &Vec<char>, i: usize, lit: &Vec<char>) -> (b: bool)
    ensures
        b == occurs_at(s@, i as int, lit@),
{
    if i > s.len() || lit.len() > s.len() - i {
        return false;
    }
    let mut k: usize = 0;
    while k < lit.len()
        invariant
            i + lit.len() <= s.len(),
            k <= lit.len(),
            forall|j: int| 0 <= j < k ==> s@[i + j] == lit@[j],
        decreases lit.len() - k,
    {
        if s[i + k] != lit[k] {
            assert(s@.subrange(i as int, i + lit.len())[k as int] != lit@[k as int]);
            return false;
        }
        k = k + 1;
    }
    assert(s@.subrange(i as int, i + lit.len()) =~= lit@);
    true
}

pub fn starts_with(s: &Vec<char>, lit: &Vec<char>) -> (b: bool)
    ensures
        b == has_prefix(s@, lit@),
{
    matches_at(s, 0, lit)
}

pub fn contains(s: &Vec<char>, lit: &Vec<char>) -> (b: bool)
    ensures
        b == contains_seq(s@, lit@),
{
    if lit.len() > s.len() {
        return false;
    }
    let n = s.len() - lit.len();
    let mut i: usize = 0;
    loop
        invariant
            lit.len() <= s.len(),
            n == s.len() - lit.len(),
            i <= n,
            forall|j: int| 0 <= j < i ==> !occurs_at(s@, j, lit@),
        decreases n - i,
    {
        if matches_at(s, i, lit) {
            return true;
        }
        if i == n {
            return false;
        }
        i = i + 1;
    }
}

/// Whether `c` occurs in `s`.
pub fn contains_char(s: &Vec<char>, c: char) -> (b: bool)
    ensures
        b == s@.contains(c),
{
    let mut i: usize = 0;
    while i < s.len()
        invariant
            i <= s.len(),
            forall|j: int| 0 <= j < i ==> s@[j] != c,
        decreases s.len() - i,
    {
        if s[i] == c {
            return true;
        }
        i = i + 1;
    }
    false
}

/// `str::trim_start_matches` with a string pattern: the prefix `lit` removed
/// as many times as it occurs in a row.
pub open spec fn strip_prefix_repeated(s: Seq<char>, lit: Seq<char>) -> Seq<char>
    decreases s.len(),
{
    if lit.len() > 0 && has_prefix(s, lit) {
        strip_prefix_repeated(s.skip(lit.len() as int), lit)
    } else {
        s
    }
}

pub fn trim_start_matches(s: &Vec<char>, lit: &Vec<char>) -> (r: Vec<char>)
    ensures
        r@ == strip_prefix_repeated(s@, lit@),
{
    let mut i: usize = 0;
    if lit.len() == 0 {
        return s.clone();
    }
    assert(s@.skip(0) =~= s@);
    while matches_at(s, i, lit)
        invariant
            i <= s.len(),
            lit.len() > 0,
            strip_prefix_repeated(s@.skip(i as int), lit@) == strip_prefix_repeated(s@, lit@),
        decreases s.len() - i,
    {
        assert(has_prefix(s@.skip(i as int), lit@)) by {
            assert(s@.skip(i as int).subrange(0, lit.len() as int) =~= s@.subrange(
                i as int,
                i + lit.len(),
            ));
        }
        assert(s@.skip(i as int).skip(lit.len() as int) =~= s@.skip(i + lit.len()));
        i = i + lit.len();
    }
    assert(!has_prefix(s@.skip(i as int), lit@)) by {
        if has_prefix(s@.skip(i as int), lit@) {
            assert(s@.skip(i as int).subrange(0, lit.len() as int) =~= s@.subrange(
                i as int,
                i + lit.len(),
            ));
        }
    }
    slice_chars(s, i, s.len())
}

// ---------------------------------------------------------------------------
// Trimming
// ---------------------------------------------------------------------------

/// The number of leading whitespace characters.
pub open spec fn lead_ws(s: Seq<char>) -> nat
    decreases s.len(),
{
    if s.len() > 0 && is_ws(s[0]) {
        1 + lead_ws(s.drop_first())
    } else {
        0
    }
}

/// The number of trailing whitespace characters.
pub open spec fn trail_ws(s: Seq<char>) -> nat
    decreases s.len(),
{
    if s.len() > 0 && is_ws(s.last()) {
        1 + trail_ws(s.drop_last())
    } else {
        0
    }
}

/// `str::trim`: leading and trailing whitespace removed.
pub open spec fn trim(s: Seq<char>) -> Seq<char> {
    if lead_ws(s) >= s.len() {
        Seq::empty()
    } else {
        s.subrange(lead_ws(s) as int, s.len() - trail_ws(s))
    }
}

pub proof fn lemma_lead_ws(s: Seq<char>, i: int)
    requires
        0 <= i <= s.len(),
        forall|j: int| 0 <= j < i ==> is_ws(s[j]),
        i == s.len() || !is_ws(s[i]),
    ensures
        lead_ws(s) == i,
    decreases i,
{
    if i > 0 {
        lemma_lead_ws(s.drop_first(), i - 1);
    }
}

pub proof fn lemma_trail_ws(s: Seq<char>, i: int)
    requires
        0 <= i <= s.len(),
        forall|j: int| i <= j < s.len() ==> is_ws(s[j]),
        i == 0 || !is_ws(s[i - 1]),
    ensures
        trail_ws(s) == s.len() - i,
    decreases s.len() - i,
{
    if i < s.len() {
        lemma_trail_ws(s.drop_last(), i);
    }
}

pub fn trim_chars(s: &Vec<char>) -> (r: Vec<char>)
    ensures
        r@ == trim(s@),
{
    let mut a: usize = 0;
    while a < s.len() && is_whitespace(s[a])
        invariant
            a <= s.len(),
            forall|j: int| 0 <= j < a ==> is_ws(s@[j]),
        decreases s.len() - a,
    {
        a = a + 1;
    }
    proof {
        lemma_lead_ws(s@, a as int);
    }
    if a == s.len() {
        return Vec::new();
    }
    let mut b: usize = s.len();
    while b > a && is_whitespace(s[b - 1])
        invariant
            a < s.len(),
            !is_ws(s@[a as int]),
            a <= b <= s.len(),
            forall|j: int| b <= j < s.len() ==> is_ws(s@[j]),
        decreases b,
    {
        b = b - 1;
    }
    proof {
        lemma_trail_ws(s@, b as int);
    }
    slice_chars(s, a, b)
}

// ---------------------------------------------------------------------------
// Splitting
// ---------------------------------------------------------------------------

/// The character sequences held by a sequence of character vectors.
pub open spec fn views(v: Seq<Vec<char>>) -> Seq<Seq<char>> {
    Seq::new(v.len(), |i: int| v[i]@)
}

pub proof fn lemma_views_push(v: Seq<Vec<char>>, x: Vec<char>)
    ensures
        views(v.push(x)) == views(v).push(x@),
{
    assert(views(v.push(x)) =~= views(v).push(x@));
}

/// `str::split` on a single character: the pieces between occurrences of
/// `sep`, empty pieces included; always at least one piece.
pub open spec fn split_on(s: Seq<char>, sep: char) -> Seq<Seq<char>>
    decreases s.len(),
{
    if s.len() == 0 {
        seq![Seq::<char>::empty()]
    } else {
        let p = split_on(s.drop_last(), sep);
        if s.last() == sep {
            p.push(Seq::<char>::empty())
        } else {
            p.update(p.len() - 1, p.last().push(s.last()))
        }
    }
}

pub proof fn lemma_split_on_nonempty(s: Seq<char>, sep: char)
    ensures
        split_on(s, sep).len() >= 1,
    decreases s.len(),
{
    if s.len() > 0 {
        lemma_split_on_nonempty(s.drop_last(), sep);
    }
}

/// The pieces of `s` between occurrences of `sep`.
pub fn split_chars(s: &Vec<char>, sep: char) -> (r: Vec<Vec<char>>)
    ensures
        views(r@) == split_on(s@, sep),
{
    let mut done: Vec<Vec<char>> = Vec::new();
    let mut cur: Vec<char> = Vec::new();
    let mut i: usize = 0;
    while i < s.len()
        invariant
            i <= s.len(),
            views(done@).push(cur@) == split_on(s@.take(i as int), sep),
        decreases s.len() - i,
    {
        let c = s[i];
        proof {
            assert(s@.take(i + 1).drop_last() =~= s@.take(i as int));
            lemma_split_on_nonempty(s@.take(i as int), sep);
        }
        if c == sep {
            proof {
                lemma_views_push(done@, cur);
            }
            done.push(cur);
            cur = Vec::new();
            assert(views(done@).push(cur@) =~= split_on(s@.take(i + 1), sep));
        } else {
            cur.push(c);
            assert(views(done@).push(cur@) =~= split_on(s@.take(i + 1), sep));
        }
        i = i + 1;
    }
    proof {
        lemma_views_push(done@, cur);
    }
    done.push(cur);
    assert(s@.take(s.len() as int) =~= s@);
    done
}

/// The state of a left-to-right scan for whitespace-separated words: the
/// words completed so far and the word in progress.
pub open spec fn words_scan(s: Seq<char>) -> (Seq<Seq<char>>, Seq<char>)
    decreases s.len(),
{
    if s.len() == 0 {
        (Seq::empty(), Seq::empty())
    } else {
        let (done, cur) = words_scan(s.drop_last());
        if is_ws(s.last()) {
            if cur.len() > 0 {
                (done.push(cur), Seq::empty())
            } else {
                (done, cur)
            }
        } else {
            (done, cur.push(s.last()))
        }
    }
}

/// `str::split_whitespace`: the maximal runs of non-whitespace characters.
pub open spec fn words(s: Seq<char>) -> Seq<Seq<char>> {
    let (done, cur) = words_scan(s);
    if cur.len() > 0 {
        done.push(cur)
    } else {
        done
    }
}

pub fn split_whitespace(s: &Vec<char>) -> (r: Vec<Vec<char>>)
    ensures
        views(r@) == words(s@),
{
    let mut done: Vec<Vec<char>> = Vec::new();
    let mut cur: Vec<char> = Vec::new();
    let mut i: usize = 0;
    while i < s.len()
        invariant
            i <= s.len(),
            (views(done@), cur@) == words_scan(s@.take(i as int)),
        decreases s.len() - i,
    {
        let c = s[i];
        proof {
            assert(s@.take(i + 1).drop_last() =~= s@.take(i as int));
        }
        if is_whitespace(c) {
            if cur.len() > 0 {
                proof {
                    lemma_views_push(done@, cur);
                }
                done.push(cur);
                cur = Vec::new();
            }
        } else {
            cur.push(c);
        }
        assert((views(done@), cur@) =~= words_scan(s@.take(i + 1)));
        i = i + 1;
    }
    assert(s@.take(s.len() as int) =~= s@);
    if cur.len() > 0 {
        proof {
            lemma_views_push(done@, cur);
        }
        done.push(cur);
    }
    done
}

// ---------------------------------------------------------------------------
// ASCII case
// ---------------------------------------------------------------------------

pub open spec fn ascii_lower(c: char) -> char {
    if 'A' <= c && c <= 'Z' {
        ((c as u32) + 32) as char
    } else {
        c
    }
}

pub fn to_ascii_lower(c: char) -> (r: char)
    ensures
        r == ascii_lower(c),
{
    if 'A' <= c && c <= 'Z' {
        ((c as u8) + 32) as char
    } else {
        c
    }
}

pub open spec fn lower_all(s: Seq<char>) -> Seq<char> {
    s.map_values(|c: char| ascii_lower(c))
}

pub fn lowercase_chars(s: &Vec<char>) -> (r: Vec<char>)
    ensures
        r@ == lower_all(s@),
{
    let mut r: Vec<char> = Vec::new();
    let mut i: usize = 0;
    while i < s.len()
        invariant
            i <= s.len(),
            r@ == lower_all(s@.take(i as int)),
        decreases s.len() - i,
    {
        r.push(to_ascii_lower(s[i]));
        i = i + 1;
        assert(lower_all(s@.take(i as int)) =~= lower_all(s@.take(i - 1)).push(
            ascii_lower(s@[i - 1]),
        ));
    }
    assert(s@.take(s.len() as int) =~= s@);
    r
}

// ---------------------------------------------------------------------------
// Integers in text
// ---------------------------------------------------------------------------

/// The value of an ASCII alphanumeric digit (`char::to_digit(36)`); 36 for
/// any other character, so that no radix accepts it.
pub open spec fn digit_value(c: char) -> nat {
    if '0' <= c && c <= '9' {
        (c as u32 - '0' as u32) as nat
    } else if 'a' <= c && c <= 'z' {
        (c as u32 - 'a' as u32 + 10) as nat
    } else if 'A' <= c && c <= 'Z' {
        (c as u32 - 'A' as u32 + 10) as nat
    } else {
        36
    }
}

pub fn digit_of(c: char) -> (d: u32)
    ensures
        d == digit_value(c),
{
    if '0' <= c && c <= '9' {
        (c as u32) - ('0' as u32)
    } else if 'a' <= c && c <= 'z' {
        (c as u32) - ('a' as u32) + 10
    } else if 'A' <= c && c <= 'Z' {
        (c as u32) - ('A' as u32) + 10
    } else {
        36
    }
}

pub open spec fn all_digits(s: Seq<char>, radix: nat) -> bool {
    forall|i: int| 0 <= i < s.len() ==> digit_value(#[trigger] s[i]) < radix
}

/// The number that the digits `s` denote in base `radix`.
pub open spec fn digits_val(s: Seq<char>, radix: nat) -> nat
    decreases s.len(),
{
    if s.len() == 0 {
        0
    } else {
        digits_val(s.drop_last(), radix) * radix + digit_value(s.last())
    }
}

/// The digits of a number without sign, as `from_str_radix` reads them: an
/// optional `+`, then at least one digit of the radix.
pub open spec fn unsigned_digits(s: Seq<char>) -> Seq<char> {
    if s.len() > 0 && s[0] == '+' {
        s.skip(1)
    } else {
        s
    }
}

/// The value of an unsigned integer literal in base `radix`, if `s` is one.
pub open spec fn parse_unsigned(s: Seq<char>, radix: nat) -> Option<nat> {
    let d = unsigned_digits(s);
    if d.len() > 0 && all_digits(d, radix) {
        Some(digits_val(d, radix))
    } else {
        None
    }
}

/// The value of a signed integer literal in base `radix`: an optional `+` or
/// `-`, then at least one digit.
pub open spec fn parse_signed(s: Seq<char>, radix: nat) -> Option<int> {
    if s.len() > 0 && s[0] == '-' {
        let d = s.skip(1);
        if d.len() > 0 && all_digits(d, radix) {
            Some(-(digits_val(d, radix) as int))
        } else {
            None
        }
    } else {
        match parse_unsigned(s, radix) {
            Some(v) => Some(v as int),
            None => None,
        }
    }
}

pub proof fn lemma_digits_val_monotone(s: Seq<char>, radix: nat, i: int)
    requires
        radix >= 1,
        0 <= i <= s.len(),
    ensures
        digits_val(s.take(i), radix) <= digits_val(s, radix),
    decreases s.len() - i,
{
    if i < s.len() {
        lemma_digits_val_monotone(s, radix, i + 1);
        assert(s.take(i + 1).drop_last() =~= s.take(i));
        let v = digits_val(s.take(i), radix);
        assert(v <= v * radix) by (nonlinear_arith)
            requires
                radix >= 1,
        ;
    } else {
        assert(s.take(i) =~= s);
    }
}

/// The value of the decimal digits `d` (all ASCII digits), if it is at most
/// `max`.
fn decimal_value_upto(d: &Vec<char>, max: u64) -> (r: Option<u64>)
    requires
        all_digits(d@, 10),
    ensures
        match r {
            Some(v) => v == digits_val(d@, 10) && v <= max,
            None => digits_val(d@, 10) > max,
        },
{
    let mut acc: u64 = 0;
    let mut i: usize = 0;
    while i < d.len()
        invariant
            i <= d.len(),
            all_digits(d@, 10),
            acc == digits_val(d@.take(i as int), 10),
            acc <= max,
        decreases d.len() - i,
    {
        let dv = digit_of(d[i]) as u64;
        assert(d@.take(i + 1).drop_last() =~= d@.take(i as int));
        assert(digit_value(d@[i as int]) < 10);
        if dv > max || acc > (max - dv) / 10 {
            proof {
                assert(acc * 10 + dv > max) by (nonlinear_arith)
                    requires
                        dv > max || acc > (max - dv) / 10,
                        dv < 10,
                ;
                lemma_digits_val_monotone(d@, 10, i + 1);
            }
            return None;
        }
        assert(acc * 10 + dv <= max) by (nonlinear_arith)
            requires
                acc <= (max - dv) / 10,
                dv <= max,
        ;
        acc = acc * 10 + dv;
        i = i + 1;
    }
    assert(d@.take(d.len() as int) =~= d@);
    Some(acc)
}

/// `str::parse::<u64>`-style reading of an unsigned decimal literal,
/// accepting it only if its value is at most `max`.
pub fn parse_decimal_upto(s: &Vec<char>, max: u64) -> (r: Option<u64>)
    ensures
        r == (match parse_unsigned(s@, 10) {
            Some(v) => if v <= max {
                Some(v as u64)
            } else {
                None::<u64>
            },
            None => None::<u64>,
        }),
{
    let start: usize = if s.len() > 0 && s[0] == '+' {
        1
    } else {
        0
    };
    let d = slice_chars(s, start, s.len());
    assert(d@ == unsigned_digits(s@));
    if d.len() == 0 {
        return None;
    }
    let mut i: usize = 0;
    while i < d.len()
        invariant
            i <= d.len(),
            d@ == unsigned_digits(s@),
            forall|j: int| 0 <= j < i ==> digit_value(#[trigger] d@[j]) < 10,
        decreases d.len() - i,
    {
        if digit_of(d[i]) >= 10 {
            assert(!all_digits(d@, 10));
            return None;
        }
        i = i + 1;
    }
    decimal_value_upto(&d, max)
}

/// `str::parse::<u32>`.
pub fn parse_u32(s: &Vec<char>) -> (r: Option<u32>)
    ensures
        r == (match parse_unsigned(s@, 10) {
            Some(v) => if v <= u32::MAX {
                Some(v as u32)
            } else {
                None::<u32>
            },
            None => None::<u32>,
        }),
{
    match parse_decimal_upto(s, 0xffff_ffff) {
        Some(v) => Some(v as u32),
        None => None,
    }
}

/// `str::parse::<usize>`.
pub fn parse_usize(s: &Vec<char>) -> (r: Option<usize>)
    ensures
        r == (match parse_unsigned(s@, 10) {
            Some(v) => if v <= usize::MAX {
                Some(v as usize)
            } else {
                None::<usize>
            },
            None => None::<usize>,
        }),
{
    match parse_decimal_upto(s, usize::MAX as u64) {
        Some(v) => Some(v as usize),
        None => None,
    }
}

/// `str::parse::<i32>`.
pub fn parse_i32(s: &Vec<char>) -> (r: Option<i32>)
    ensures
        r == (match parse_signed(s@, 10) {
            Some(v) => if i32::MIN <= v <= i32::MAX {
                Some(v as i32)
            } else {
                None::<i32>
            },
            None => None::<i32>,
        }),
{
    if s.len() > 0 && s[0] == '-' {
        let d = slice_chars(s, 1, s.len());
        if d.len() == 0 {
            return None;
        }
        let mut i: usize = 0;
        while i < d.len()
            invariant
                i <= d.len(),
                s@.len() > 0 && s@[0] == '-',
                d@ == s@.skip(1),
                forall|j: int| 0 <= j < i ==> digit_value(#[trigger] d@[j]) < 10,
            decreases d.len() - i,
        {
            if digit_of(d[i]) >= 10 {
                assert(!all_digits(d@, 10));
                return None;
            }
            i = i + 1;
        }
        match decimal_value_upto(&d, 0x8000_0000) {
            Some(v) => Some((0 - (v as i64)) as i32),
            None => None,
        }
    } else {
        match parse_decimal_upto(s, 0x7fff_ffff) {
            Some(v) => Some(v as i32),
            None => None,
        }
    }
}

/// The character of a decimal digit value.
pub open spec fn digit_char(d: nat) -> char {
    ((d + '0' as u32) as u32) as char
}

/// The decimal representation of `n`, without leading zeros (`to_string`).
pub open spec fn decimal(n: nat) -> Seq<char>
    decreases n,
{
    if n < 10 {
        seq![digit_char(n)]
    } else {
        decimal(n / 10).push(digit_char(n % 10))
    }
}

pub fn format_decimal(n: u64) -> (r: Vec<char>)
    ensures
        r@ == decimal(n as nat),
{
    let mut acc: Vec<char> = Vec::new();
    let mut m: u64 = n;
    loop
        invariant
            decimal(n as nat) == decimal(m as nat) + acc@,
        decreases m,
    {
        let d = m % 10;
        let c = ((d as u8) + 48) as char;
        assert(c == digit_char(d as nat));
        if m < 10 {
            let ghost prev = acc@;
            acc.insert(0, c);
            assert(acc@ =~= seq![c] + prev);
            assert(decimal(m as nat) == seq![c]);
            assert(decimal(n as nat) =~= acc@);
            return acc;
        }
        let ghost prev = acc@;
        acc.insert(0, c);
        assert(decimal(m as nat) == decimal((m / 10) as nat).push(c));
        assert(decimal(m as nat) + prev =~= decimal((m / 10) as nat) + acc@);
        m = m / 10;
    }
}

/// The decimal representation of a signed `n`: a `-` before the digits of
/// its magnitude when it is negative.
pub open spec fn signed_decimal(n: int) -> Seq<char> {
    if n < 0 {
        seq!['-'] + decimal((-n) as nat)
    } else {
        decimal(n as nat)
    }
}

pub fn format_signed(n: i32) -> (r: Vec<char>)
    ensures
        r@ == signed_decimal(n as int),
{
    if n < 0 {
        let m: u64 = (0i64 - (n as i64)) as u64;
        let d = format_decimal(m);
        let mut r: Vec<char> = Vec::new();
        r.push('-');
        let r = concat_chars(&r, &d);
        assert(r@ =~= seq!['-'] + decimal((-n) as nat));
        r
    } else {
        format_decimal(n as u64)
    }
}

pub proof fn lemma_lead_ws_props(s: Seq<char>)
    ensures
        lead_ws(s) <= s.len(),
        forall|j: int| 0 <= j < lead_ws(s) ==> is_ws(#[trigger] s[j]),
        lead_ws(s) < s.len() ==> !is_ws(s[lead_ws(s) as int]),
    decreases s.len(),
{
    if s.len() > 0 && is_ws(s[0]) {
        lemma_lead_ws_props(s.drop_first());
        assert forall|j: int| 0 <= j < lead_ws(s) implies is_ws(#[trigger] s[j]) by {
            if j > 0 {
                assert(s[j] == s.drop_first()[j - 1]);
            }
        }
    }
}

pub proof fn lemma_trail_ws_props(s: Seq<char>)
    ensures
        trail_ws(s) <= s.len(),
        forall|j: int| s.len() - trail_ws(s) <= j < s.len() ==> is_ws(#[trigger] s[j]),
        trail_ws(s) < s.len() ==> !is_ws(s[s.len() - trail_ws(s) - 1]),
    decreases s.len(),
{
    if s.len() > 0 && is_ws(s.last()) {
        lemma_trail_ws_props(s.drop_last());
        assert forall|j: int| s.len() - trail_ws(s) <= j < s.len() implies is_ws(#[trigger] s[j]) by {
            if j < s.len() - 1 {
                assert(s[j] == s.drop_last()[j]);
            }
        }
    }
}

/// What `trim` leaves, when anything, begins and ends with a character that
/// is not whitespace.
pub proof fn lemma_trim_ends(s: Seq<char>)
    ensures
        trim(s).len() > 0 ==> !is_ws(trim(s)[0]) && !is_ws(trim(s).last()),
{
    lemma_lead_ws_props(s);
    lemma_trail_ws_props(s);
    if lead_ws(s) < s.len() {
        let l = lead_ws(s) as int;
        let t = trail_ws(s) as int;
        if s.len() - t <= l {
            assert(is_ws(s[l]));
        }
    }
}

proof fn lemma_digit_char(d: nat)
    requires
        d < 10,
    ensures
        '0' <= digit_char(d) <= '9',
        digit_value(digit_char(d)) == d,
{
    assert((d + '0' as u32) as u32 == d + 48);
}

/// The decimal representation of `n` is made of decimal digits and reads
/// back as `n`.
pub proof fn lemma_decimal_digits(n: nat)
    ensures
        decimal(n).len() > 0,
        forall|i: int| 0 <= i < decimal(n).len() ==> '0' <= #[trigger] decimal(n)[i] <= '9',
        all_digits(decimal(n), 10),
        digits_val(decimal(n), 10) == n,
    decreases n,
{
    if n < 10 {
        lemma_digit_char(n);
        let s = decimal(n);
        assert(s.drop_last() =~= Seq::<char>::empty());
        assert(digits_val(s, 10) == digits_val(s.drop_last(), 10) * 10 + digit_value(s.last()));
    } else {
        lemma_decimal_digits(n / 10);
        lemma_digit_char(n % 10);
        let s = decimal(n);
        assert(s.drop_last() =~= decimal(n / 10));
        assert forall|i: int| 0 <= i < s.len() implies '0' <= #[trigger] s[i] <= '9' by {
            if i < s.len() - 1 {
                assert(s[i] == decimal(n / 10)[i]);
            }
        }
        assert forall|i: int| 0 <= i < s.len() implies digit_value(#[trigger] s[i]) < 10 by {
            if i < s.len() - 1 {
                assert(s[i] == decimal(n / 10)[i]);
            }
        }
        assert(n == (n / 10) * 10 + n % 10);
        assert(s.last() == digit_char(n % 10));
        assert(digits_val(s, 10) == digits_val(s.drop_last(), 10) * 10 + digit_value(s.last()));
    }
}

/// A signed decimal representation reads back as its number.
pub proof fn lemma_parse_signed_decimal(n: int)
    ensures
        parse_signed(signed_decimal(n), 10) == Some(n),
        signed_decimal(n).len() > 0,
        forall|i: int|
            0 <= i < signed_decimal(n).len() ==> #[trigger] signed_decimal(n)[i] == '-' || ('0'
                <= signed_decimal(n)[i] <= '9'),
        '0' <= signed_decimal(n).last() <= '9',
{
    if n < 0 {
        let m = (-n) as nat;
        lemma_decimal_digits(m);
        let s = signed_decimal(n);
        assert(s.skip(1) =~= decimal(m));
        assert forall|i: int| 0 <= i < s.len() implies #[trigger] s[i] == '-' || ('0' <= s[i]
            <= '9') by {
            if i > 0 {
                assert(s[i] == decimal(m)[i - 1]);
            }
        }
        assert(s.last() == decimal(m)[decimal(m).len() - 1]);
    } else {
        lemma_decimal_digits(n as nat);
        assert(decimal(n as nat)[0] != '+');
        assert(decimal(n as nat)[0] != '-');
    }
}

/// Splitting text that does not hold the separator gives the text itself.
pub proof fn lemma_split_extend(p: Seq<char>, b: Seq<char>, sep: char)
    requires
        !b.contains(sep),
    ensures
        split_on(p + b, sep) == split_on(p, sep).update(
            split_on(p, sep).len() - 1,
            split_on(p, sep).last() + b,
        ),
    decreases b.len(),
{
    lemma_split_on_nonempty(p, sep);
    let q0 = split_on(p, sep);
    if b.len() == 0 {
        assert(p + b =~= p);
        assert(q0.last() + b =~= q0.last());
        assert(q0.update(q0.len() - 1, q0.last()) =~= q0);
    } else {
        let b0 = b.drop_last();
        assert(!b0.contains(sep)) by {
            if b0.contains(sep) {
                let k = choose|k: int| 0 <= k < b0.len() && b0[k] == sep;
                assert(b[k] == sep);
            }
        }
        lemma_split_extend(p, b0, sep);
        assert((p + b).drop_last() =~= p + b0);
        assert((p + b).last() == b.last());
        assert(b.last() != sep) by {
            if b.last() == sep {
                assert(b[b.len() - 1] == sep);
            }
        }
        let q = split_on(p + b0, sep);
        assert(q.last() + seq![b.last()] =~= (q0.last() + b0).push(b.last()));
        assert((q0.last() + b0).push(b.last()) =~= q0.last() + b);
        assert(q.update(q.len() - 1, q.last().push(b.last())) =~= q0.update(
            q0.len() - 1,
            q0.last() + b,
        ));
    }
}

/// Two pieces without the separator, joined by it, split back into the two.
pub proof fn lemma_split_two(a: Seq<char>, b: Seq<char>, sep: char)
    requires
        !a.contains(sep),
        !b.contains(sep),
    ensures
        split_on(a + seq![sep] + b, sep) == seq![a, b],
{
    lemma_split_extend(Seq::empty(), a, sep);
    assert(Seq::<char>::empty() + a =~= a);
    assert(split_on(a, sep) =~= seq![a]);
    let p = a + seq![sep];
    assert(p.drop_last() =~= a);
    assert(split_on(p, sep) =~= seq![a, Seq::<char>::empty()]);
    lemma_split_extend(p, b, sep);
    assert(Seq::<char>::empty() + b =~= b);
    assert(seq![a, Seq::<char>::empty()].update(1, Seq::<char>::empty() + b) =~= seq![a, b]);
}

} // verus!
