use vstd::prelude::*;

verus! {

/// The three classes of characters the grammar reads in runs.
#[derive(Debug, Clone, Copy, PartialEq, Eq, Structural)]
pub enum CharClass {
    /// Space, tab, carriage return and line feed.
    Space,
    /// The decimal digits `0` to `9`.
    Digit,
    /// The ASCII letters, either case.
    Alpha,
}

impl CharClass {
    pub open spec fn holds(self, c: char) -> bool {
        match self {
            CharClass::Space => c == ' ' || c == '\t' || c == '\r' || c == '\n',
            CharClass::Digit => '0' <= c <= '9',
            CharClass::Alpha => ('a' <= c <= 'z') || ('A' <= c <= 'Z'),
        }
    }

    pub fn contains(self, c: char) -> (r: bool)
        ensures
            r == self.holds(c),
    {
        match self {
            CharClass::Space => c == ' ' || c == '\t' || c == '\r' || c == '\n',
            CharClass::Digit => '0' <= c && c <= '9',
            CharClass::Alpha => ('a' <= c && c <= 'z') || ('A' <= c && c <= 'Z'),
        }
    }
}

/// The length of the longest run of characters of class `k` in `s` starting at `i`.
pub open spec fn span(s: Seq<char>, i: int, k: CharClass) -> nat
    decreases s.len() - i,
{
    if 0 <= i < s.len() && k.holds(s[i]) {
        1 + span(s, i + 1, k)
    } else {
        0
    }
}

/// The position reached from `i` after skipping whitespace.
pub open spec fn ws_end(s: Seq<char>, i: int) -> int {
    i + span(s, i, CharClass::Space)
}

/// Whether every character of `s` is of class `k`.
pub open spec fn all_in(s: Seq<char>, k: CharClass) -> bool {
    forall|j: int| 0 <= j < s.len() ==> k.holds(#[trigger] s[j])
}

pub open spec fn all_digits(s: Seq<char>) -> bool {
    all_in(s, CharClass::Digit)
}

/// Every character inside a run belongs to its class.
pub proof fn lemma_span_holds(s: Seq<char>, i: int, k: CharClass, j: int)
    requires
        i <= j < i + span(s, i, k),
    ensures
        0 <= j < s.len(),
        k.holds(s[j]),
    decreases s.len() - i,
{
    if j > i {
        lemma_span_holds(s, i + 1, k, j);
    }
}

/// A run ends within the text.
pub proof fn lemma_span_bound(s: Seq<char>, i: int, k: CharClass)
    requires
        0 <= i <= s.len(),
    ensures
        i + span(s, i, k) <= s.len(),
    decreases s.len() - i,
{
    if i < s.len() && k.holds(s[i]) {
        lemma_span_bound(s, i + 1, k);
    }
}

/// A run does not depend on the text before it.
pub proof fn lemma_span_shift(x: Seq<char>, s: Seq<char>, i: int, k: CharClass)
    requires
        0 <= i,
    ensures
        span(x + s, x.len() + i, k) == span(s, i, k),
    decreases s.len() - i,
{
    if i < s.len() {
        assert((x + s)[x.len() + i] == s[i]);
        lemma_span_shift(x, s, i + 1, k);
    }
}

/// A stretch of characters of class `k` from `i` to `j` is part of the run at `i`.
pub proof fn lemma_span_prefix(s: Seq<char>, i: int, j: int, k: CharClass)
    requires
        0 <= i <= j <= s.len(),
        forall|m: int| i <= m < j ==> k.holds(#[trigger] s[m]),
    ensures
        span(s, i, k) == (j - i) + span(s, j, k),
    decreases j - i,
{
    if i < j {
        lemma_span_prefix(s, i + 1, j, k);
    }
}

/// From any position inside a run, the run ends at the same place.
pub proof fn lemma_span_within(s: Seq<char>, i: int, j: int, k: CharClass)
    requires
        0 <= i <= j <= i + span(s, i, k),
    ensures
        span(s, i, k) == (j - i) + span(s, j, k),
    decreases j - i,
{
    if i < j {
        lemma_span_within(s, i + 1, j, k);
    }
}

/// The number that a run of decimal digits denotes.
pub open spec fn digits_value(s: Seq<char>) -> nat
    decreases s.len(),
{
    if s.len() == 0 {
        0
    } else {
        10 * digits_value(s.drop_last()) + ((s.last() as u32) - ('0' as u32)) as nat
    }
}

/// Whether `c` is a decimal digit.
pub fn is_int_digit(c: char) -> (r: bool)
    ensures
        r == CharClass::Digit.holds(c),
{
    CharClass::Digit.contains(c)
}

/// The end of the run of class `k` that starts at `start`.
pub fn scan(input: &str, len: usize, start: usize, k: CharClass) -> (end: usize)
    requires
        len == input@.len(),
        start <= len,
    ensures
        end == start + span(input@, start as int, k),
        end <= len,
{
    let mut i: usize = start;
    while i < len && k.contains(input.get_char(i))
        invariant
            len == input@.len(),
            start <= i <= len,
            span(input@, start as int, k) == (i - start) + span(input@, i as int, k),
        decreases len - i,
    {
        i = i + 1;
    }
    i
}

/// Skips the whitespace at `start`: the position of the first other character.
pub fn ws(input: &str, len: usize, start: usize) -> (end: usize)
    requires
        len == input@.len(),
        start <= len,
    ensures
        end == ws_end(input@, start as int),
        end <= len,
{
    scan(input, len, start, CharClass::Space)
}

#[verifier::external_type_specification]
#[verifier::external_body]
pub struct ExParseIntError(core::num::ParseIntError);

/// Relies on `u8::from_str_radix`, which panics on a radix outside 2 to 36, and
/// which turns a non-empty string of decimal digits, in base 10, into its value
/// when that value fits in a `u8` and into an error otherwise.
pub assume_specification[ u8::from_str_radix ](src: &str, radix: u32) -> (r: Result<u8, core::num::ParseIntError>)
    requires
        2 <= radix <= 36,
    ensures
        radix == 10 && src@.len() > 0 && all_digits(src@) ==> (r is Ok <==> digits_value(src@) <= 255),
        radix == 10 && src@.len() > 0 && all_digits(src@) && r is Ok ==> r->Ok_0 as nat == digits_value(src@),
;

/// Reads a non-empty run of decimal digits as a `u8`; the value must fit.
pub fn from_int(input: &str) -> (r: Result<u8, core::num::ParseIntError>)
    ensures
        input@.len() > 0 && all_digits(input@) ==> (r is Ok <==> digits_value(input@) <= 255),
        input@.len() > 0 && all_digits(input@) && r is Ok ==> r->Ok_0 as nat == digits_value(input@),
{
    u8::from_str_radix(input, 10)
}

} // verus!
