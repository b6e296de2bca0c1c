//! Runs of characters of one class, the building block of the simulator
//! output grammars (`\s`, `\S`, `\d`, `\w` and `.` in the patterns that the
//! simulator's transcript lines follow).
use crate::text::{is_decimal_digit, is_nd_digit, is_whitespace, is_ws};
use vstd::prelude::*;

verus! {

/// Whether `c` is a Unicode word character (the class `\w`: Alphabetic,
/// Join_Control, Decimal_Number, Mark or Connector_Punctuation).
pub uninterp spec fn word_char(c: char) -> bool;

/// `regex_syntax::is_word_character`. The contract claims only that the
/// result is a fixed function of the character, named `word_char`; which
/// characters it accepts is the crate's Unicode table and is not restated.
#[verifier::external_body]
fn is_word_character(c: char) -> (b: bool)
    ensures
        b == word_char(c),
{
    regex_syntax::is_word_character(c)
}

/// The character classes that the output grammars use.
#[derive(Clone, Copy, Debug, PartialEq, Eq)]
pub enum CharClass {
    /// `\s`
    Space,
    /// `\S`
    NonSpace,
    /// `\d`
    Digit,
    /// `\w`
    Word,
    /// `.`: anything but a newline
    NotNewline,
    /// `[` or `]`
    Bracket,
    /// a letter that names a radix in a Verilog literal: `b`, `o`, `d`, `x`,
    /// either case
    BaseLetter,
}

pub open spec fn in_class(cls: CharClass, c: char) -> bool {
    match cls {
        CharClass::Space => is_ws(c),
        CharClass::NonSpace => !is_ws(c),
        CharClass::Digit => is_nd_digit(c),
        CharClass::Word => word_char(c),
        CharClass::NotNewline => c != '\n',
        CharClass::Bracket => c == '[' || c == ']',
        CharClass::BaseLetter => c == 'b' || c == 'B' || c == 'o' || c == 'O' || c == 'x' || c
            == 'X' || c == 'd' || c == 'D',
    }
}

pub fn char_in_class(cls: CharClass, c: char) -> (b: bool)
    ensures
        b == in_class(cls, c),
{
    match cls {
        CharClass::Space => is_whitespace(c),
        CharClass::NonSpace => !is_whitespace(c),
        CharClass::Digit => is_decimal_digit(c),
        CharClass::Word => is_word_character(c),
        CharClass::NotNewline => c != '\n',
        CharClass::Bracket => c == '[' || c == ']',
        CharClass::BaseLetter => c == 'b' || c == 'B' || c == 'o' || c == 'O' || c == 'x' || c
            == 'X' || c == 'd' || c == 'D',
    }
}

/// The length of the longest run of `cls` characters starting at `i`.
pub open spec fn run(s: Seq<char>, i: int, cls: CharClass) -> nat
    decreases s.len() - i,
{
    if 0 <= i < s.len() && in_class(cls, s[i]) {
        1 + run(s, i + 1, cls)
    } else {
        0
    }
}

pub proof fn lemma_run(s: Seq<char>, i: int, k: int, cls: CharClass)
    requires
        0 <= i,
        0 <= k,
        i + k <= s.len(),
        forall|j: int| i <= j < i + k ==> in_class(cls, s[j]),
        i + k == s.len() || !in_class(cls, s[i + k]),
    ensures
        run(s, i, cls) == k,
    decreases k,
{
    if k > 0 {
        lemma_run(s, i + 1, k - 1, cls);
    }
}

pub proof fn lemma_run_bound(s: Seq<char>, i: int, cls: CharClass)
    requires
        0 <= i,
    ensures
        i + run(s, i, cls) <= s.len() || run(s, i, cls) == 0,
        forall|j: int| i <= j < i + run(s, i, cls) ==> in_class(cls, #[trigger] s[j]),
        i + run(s, i, cls) < s.len() ==> !in_class(cls, s[i + run(s, i, cls)]),
    decreases s.len() - i,
{
    if 0 <= i < s.len() && in_class(cls, s[i]) {
        lemma_run_bound(s, i + 1, cls);
    }
}

/// The length of the run of `cls` characters of `s` that starts at `i`.
pub fn class_run(s: &Vec<char>, i: usize, cls: CharClass) -> (r: usize)
    ensures
        r == run(s@, i as int, cls),
        i + r <= s.len() || r == 0,
{
    let mut k: usize = i;
    while k < s.len() && char_in_class(cls, s[k])
        invariant
            i <= k,
            k <= s.len() || k == i,
            forall|j: int| i <= j < k ==> in_class(cls, s@[j]),
        decreases s.len() - k,
    {
        k = k + 1;
    }
    proof {
        if i <= s.len() {
            lemma_run(s@, i as int, k - i, cls);
        } else {
            assert(run(s@, i as int, cls) == 0);
        }
    }
    k - i
}

/// The length of the longest run of `cls` characters that ends just before
/// position `j`.
pub open spec fn run_back(s: Seq<char>, j: int, cls: CharClass) -> nat
    decreases j,
{
    if 0 < j <= s.len() && in_class(cls, s[j - 1]) {
        1 + run_back(s, j - 1, cls)
    } else {
        0
    }
}

pub proof fn lemma_run_back(s: Seq<char>, j: int, k: int, cls: CharClass)
    requires
        0 <= k <= j <= s.len(),
        forall|x: int| j - k <= x < j ==> in_class(cls, s[x]),
        j - k == 0 || !in_class(cls, s[j - k - 1]),
    ensures
        run_back(s, j, cls) == k,
    decreases k,
{
    if k > 0 {
        lemma_run_back(s, j - 1, k - 1, cls);
    }
}

/// The length of the run of `cls` characters of `s` that ends at `j`.
pub fn class_run_back(s: &Vec<char>, j: usize, cls: CharClass) -> (r: usize)
    requires
        j <= s.len(),
    ensures
        r == run_back(s@, j as int, cls),
        r <= j,
{
    let mut k: usize = j;
    while k > 0 && char_in_class(cls, s[k - 1])
        invariant
            k <= j <= s.len(),
            forall|x: int| k <= x < j ==> in_class(cls, s@[x]),
        decreases k,
    {
        k = k - 1;
    }
    proof {
        lemma_run_back(s@, j as int, (j - k) as int, cls);
    }
    j - k
}

/// The first result of `f` at a position in `[i, n)`, scanning upwards: a
/// leftmost search.
pub open spec fn first_from<A>(f: spec_fn(int) -> Option<A>, i: int, n: int) -> Option<A>
    decreases n - i,
{
    if i < n {
        match f(i) {
            Some(x) => Some(x),
            None => first_from(f, i + 1, n),
        }
    } else {
        None
    }
}

pub proof fn lemma_first_from_skip<A>(f: spec_fn(int) -> Option<A>, a: int, i: int, n: int)
    requires
        a <= i <= n,
        forall|j: int| a <= j < i ==> #[trigger] f(j) is None,
    ensures
        first_from(f, a, n) == first_from(f, i, n),
    decreases i - a,
{
    if a < i {
        lemma_first_from_skip(f, a + 1, i, n);
    }
}

pub proof fn lemma_first_from_found<A>(f: spec_fn(int) -> Option<A>, a: int, i: int, n: int)
    requires
        a <= i < n,
        forall|j: int| a <= j < i ==> #[trigger] f(j) is None,
        f(i) is Some,
    ensures
        first_from(f, a, n) == f(i),
{
    lemma_first_from_skip(f, a, i, n);
}

} // verus!
