use vstd::prelude::*;
use crate::expr::{Expr, ParseError, Term};
use crate::lexer::{all_digits, digits_value, from_int, lemma_span_holds, scan, span, ws, ws_end, CharClass};

verus! {

/// The number of digits the integer rule takes at `p`: the digit run, at most twelve.
pub open spec fn digit_count(s: Seq<char>, p: int) -> nat {
    let d = span(s, p, CharClass::Digit);
    if d > 12 {
        12
    } else {
        d
    }
}

/// The digits at `p`, with no whitespace skipped, read as a `u8`, and the position after them.
pub open spec fn digits_rule(s: Seq<char>, p: int) -> Result<(u8, int), ParseError> {
    let d = digit_count(s, p);
    let v = digits_value(s.subrange(p, p + d));
    if d == 0 {
        Err(ParseError::NoMatch)
    } else if v > 255 {
        Err(ParseError::OutOfRange)
    } else {
        Ok((v as u8, p + d))
    }
}

/// Integer rule: whitespace, then one to twelve digits whose value fits in a `u8`.
pub open spec fn int_rule(s: Seq<char>, i: int) -> Result<(Term, int), ParseError> {
    match digits_rule(s, ws_end(s, i)) {
        Ok((v, end)) => Ok((Term::Int(v), end)),
        Err(k) => Err(k),
    }
}

/// Variable rule: whitespace, then a non-empty run of letters.
pub open spec fn var_rule(s: Seq<char>, i: int) -> Result<(Term, int), ParseError> {
    let p = ws_end(s, i);
    let a = span(s, p, CharClass::Alpha);
    if a == 0 {
        Err(ParseError::NoMatch)
    } else {
        Ok((Term::Var(s.subrange(p, p + a)), p + a))
    }
}

/// The head of a function, `\name ->`: whitespace, a backslash, the name right
/// after it, whitespace, and the arrow. Gives the name and where the body starts.
pub open spec fn fn_head(s: Seq<char>, i: int) -> Result<(Seq<char>, int), ParseError> {
    let p = ws_end(s, i);
    if !(0 <= p < s.len() && s[p] == '\\') {
        Err(ParseError::NoMatch)
    } else {
        let a = span(s, p + 1, CharClass::Alpha);
        let r = ws_end(s, p + 1 + a);
        if a == 0 {
            Err(ParseError::NoMatch)
        } else if r + 1 < s.len() && s[r] == '-' && s[r + 1] == '>' {
            Ok((s.subrange(p + 1, p + 1 + a), r + 2))
        } else {
            Err(ParseError::NoMatch)
        }
    }
}

/// Function rule: a head, then a body parsed by the expression rule.
pub open spec fn fn_rule(s: Seq<char>, i: int) -> Result<(Term, int), ParseError>
    decreases s.len() - i, 0int,
{
    match fn_head(s, i) {
        Err(k) => Err(k),
        Ok((name, b)) => match expr_rule(s, b) {
            Ok((body, end)) => Ok((Term::Fun(name, Box::new(body)), end)),
            Err(k) => Err(k),
        },
    }
}

/// Expression rule: the first of the integer, variable and function rules
/// that matches at `i`, all tried at the same position.
pub open spec fn expr_rule(s: Seq<char>, i: int) -> Result<(Term, int), ParseError>
    decreases s.len() - i, 1int,
{
    if int_rule(s, i) is Ok {
        int_rule(s, i)
    } else if var_rule(s, i) is Ok {
        var_rule(s, i)
    } else {
        fn_rule(s, i)
    }
}

/// The value of an executable outcome that reports an end position.
pub open spec fn outcome(r: Result<(Expr, usize), ParseError>) -> Result<(Term, int), ParseError> {
    match r {
        Ok((e, end)) => Ok((e@, end as int)),
        Err(k) => Err(k),
    }
}

/// Whether `r`, a tree and the text left over, is what the rule result `m` gives on `s`.
pub open spec fn agrees(s: Seq<char>, r: Result<(&str, Expr), ParseError>, m: Result<(Term, int), ParseError>) -> bool {
    match m {
        Ok((t, end)) => r is Ok && r->Ok_0.1@ == t && r->Ok_0.0@ == s.subrange(end, s.len() as int),
        Err(k) => r is Err && r->Err_0 == k,
    }
}

fn digits_at(input: &str, len: usize, p: usize) -> (r: Result<(u8, usize), ParseError>)
    requires
        len == input@.len(),
        p <= len,
    ensures
        match r {
            Ok((v, end)) => digits_rule(input@, p as int) == Ok::<(u8, int), ParseError>((v, end as int)) && end <= len,
            Err(k) => digits_rule(input@, p as int) == Err::<(u8, int), ParseError>(k),
        },
{
    let e = scan(input, len, p, CharClass::Digit);
    let d: usize = if e - p > 12 { 12 } else { e - p };
    if d == 0 {
        return Err(ParseError::NoMatch);
    }
    let run = input.substring_char(p, p + d);
    proof {
        assert forall|j: int| 0 <= j < run@.len() implies CharClass::Digit.holds(#[trigger] run@[j]) by {
            lemma_span_holds(input@, p as int, CharClass::Digit, p + j);
        }
        assert(all_digits(run@));
    }
    match from_int(run) {
        Ok(v) => Ok((v, p + d)),
        Err(_) => Err(ParseError::OutOfRange),
    }
}

fn int_at(input: &str, len: usize, i: usize) -> (r: Result<(Expr, usize), ParseError>)
    requires
        len == input@.len(),
        i <= len,
    ensures
        outcome(r) == int_rule(input@, i as int),
        r is Ok ==> r->Ok_0.1 <= len,
{
    let p = ws(input, len, i);
    match digits_at(input, len, p) {
        Ok((v, end)) => Ok((Expr::MyInt(v), end)),
        Err(k) => Err(k),
    }
}

fn var_at(input: &str, len: usize, i: usize) -> (r: Result<(Expr, usize), ParseError>)
    requires
        len == input@.len(),
        i <= len,
    ensures
        outcome(r) == var_rule(input@, i as int),
        r is Ok ==> r->Ok_0.1 <= len,
{
    let p = ws(input, len, i);
    let e = scan(input, len, p, CharClass::Alpha);
    if e == p {
        return Err(ParseError::NoMatch);
    }
    let name = String::from_str(input.substring_char(p, e));
    Ok((Expr::MyVar(name), e))
}

fn fn_at(input: &str, len: usize, i: usize) -> (r: Result<(Expr, usize), ParseError>)
    requires
        len == input@.len(),
        i <= len,
    ensures
        outcome(r) == fn_rule(input@, i as int),
        r is Ok ==> r->Ok_0.1 <= len,
    decreases len - i, 0usize,
{
    let p = ws(input, len, i);
    if !(p < len && input.get_char(p) == '\\') {
        return Err(ParseError::NoMatch);
    }
    let q = scan(input, len, p + 1, CharClass::Alpha);
    if q == p + 1 {
        return Err(ParseError::NoMatch);
    }
    let r = ws(input, len, q);
    if !(r < len && len - r >= 2 && input.get_char(r) == '-' && input.get_char(r + 1) == '>') {
        return Err(ParseError::NoMatch);
    }
    let name = String::from_str(input.substring_char(p + 1, q));
    match expr_at(input, len, r + 2) {
        Ok((body, end)) => Ok((Expr::MyFunction(name, Box::new(body)), end)),
        Err(k) => Err(k),
    }
}

fn expr_at(input: &str, len: usize, i: usize) -> (r: Result<(Expr, usize), ParseError>)
    requires
        len == input@.len(),
        i <= len,
    ensures
        outcome(r) == expr_rule(input@, i as int),
        r is Ok ==> r->Ok_0.1 <= len,
    decreases len - i, 1usize,
{
    match int_at(input, len, i) {
        Ok(x) => Ok(x),
        Err(_) => match var_at(input, len, i) {
            Ok(x) => Ok(x),
            Err(_) => fn_at(input, len, i),
        },
    }
}

/// Pairs a rule's tree with the text after its end.
fn finish<'a>(input: &'a str, len: usize, r: Result<(Expr, usize), ParseError>) -> (out: Result<(&'a str, Expr), ParseError>)
    requires
        len == input@.len(),
        r is Ok ==> r->Ok_0.1 <= len,
    ensures
        agrees(input@, out, outcome(r)),
{
    match r {
        Ok((e, end)) => Ok((input.substring_char(end, len), e)),
        Err(k) => Err(k),
    }
}

/// The digits at the very start of `input` (no whitespace is skipped), read as a `u8`.
pub fn int_primary<'a>(input: &'a str) -> (r: Result<(&'a str, u8), ParseError>)
    ensures
        match digits_rule(input@, 0) {
            Ok((v, end)) => r is Ok && r->Ok_0.1 == v && r->Ok_0.0@ == input@.subrange(end, input@.len() as int),
            Err(k) => r is Err && r->Err_0 == k,
        },
{
    let len = input.unicode_len();
    match digits_at(input, len, 0) {
        Ok((v, end)) => Ok((input.substring_char(end, len), v)),
        Err(k) => Err(k),
    }
}

/// Parses an integer literal at the start of `input`, after any whitespace.
pub fn parse_my_int<'a>(input: &'a str) -> (r: Result<(&'a str, Expr), ParseError>)
    ensures
        agrees(input@, r, int_rule(input@, 0)),
{
    let len = input.unicode_len();
    finish(input, len, int_at(input, len, 0))
}

/// Parses a variable at the start of `input`, after any whitespace.
pub fn parse_my_var<'a>(input: &'a str) -> (r: Result<(&'a str, Expr), ParseError>)
    ensures
        agrees(input@, r, var_rule(input@, 0)),
{
    let len = input.unicode_len();
    finish(input, len, var_at(input, len, 0))
}

/// Parses a function `\name -> body` at the start of `input`, after any whitespace.
pub fn parse_my_fn<'a>(input: &'a str) -> (r: Result<(&'a str, Expr), ParseError>)
    ensures
        agrees(input@, r, fn_rule(input@, 0)),
{
    let len = input.unicode_len();
    finish(input, len, fn_at(input, len, 0))
}

/// Parses an expression at the start of `input`: an integer if one is there,
/// else a variable, else a function. The text after it is handed back.
pub fn parse_my_expr<'a>(input: &'a str) -> (r: Result<(&'a str, Expr), ParseError>)
    ensures
        agrees(input@, r, expr_rule(input@, 0)),
{
    let len = input.unicode_len();
    finish(input, len, expr_at(input, len, 0))
}

} // verus!
