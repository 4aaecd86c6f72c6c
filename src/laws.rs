use vstd::prelude::*;
use crate::expr::{Expr, ParseError, Term};
use crate::grammar::{agrees, digit_count, expr_rule, fn_head, fn_rule, int_rule, var_rule};
use crate::lexer::{
    all_digits, all_in, digits_value, lemma_span_bound, lemma_span_prefix, lemma_span_shift,
    lemma_span_within, span, ws_end, CharClass,
};

verus! {

/// A rule result with its end position moved by `k`.
pub open spec fn shifted(m: Result<(Term, int), ParseError>, k: int) -> Result<(Term, int), ParseError> {
    match m {
        Ok((t, end)) => Ok((t, end + k)),
        Err(e) => Err(e),
    }
}

/// Skipping whitespace ends within the text.
proof fn lemma_ws_bound(s: Seq<char>, i: int)
    requires
        0 <= i <= s.len(),
    ensures
        i <= ws_end(s, i) <= s.len(),
{
    lemma_span_bound(s, i, CharClass::Space);
}

/// Whitespace skipping does not depend on the text before it.
proof fn lemma_ws_shift(x: Seq<char>, s: Seq<char>, i: int)
    requires
        0 <= i,
    ensures
        ws_end(x + s, x.len() + i) == x.len() + ws_end(s, i),
{
    lemma_span_shift(x, s, i, CharClass::Space);
}

/// The non-recursive rules do not depend on the text before the cursor.
proof fn lemma_leaf_rules_shift(x: Seq<char>, s: Seq<char>, i: int)
    requires
        0 <= i <= s.len(),
    ensures
        int_rule(x + s, x.len() + i) == shifted(int_rule(s, i), x.len() as int),
        var_rule(x + s, x.len() + i) == shifted(var_rule(s, i), x.len() as int),
        match fn_head(s, i) {
            Ok((name, b)) => fn_head(x + s, x.len() + i) == Ok::<(Seq<char>, int), ParseError>((name, b + x.len())),
            Err(e) => fn_head(x + s, x.len() + i) == Err::<(Seq<char>, int), ParseError>(e),
        },
{
    let t = x + s;
    let o = x.len() as int;
    lemma_ws_shift(x, s, i);
    lemma_ws_bound(s, i);
    let p = ws_end(s, i);
    // integers
    lemma_span_shift(x, s, p, CharClass::Digit);
    lemma_span_bound(s, p, CharClass::Digit);
    let d = digit_count(s, p);
    assert(t.subrange(o + p, o + p + d) =~= s.subrange(p, p + d));
    // variables
    lemma_span_shift(x, s, p, CharClass::Alpha);
    lemma_span_bound(s, p, CharClass::Alpha);
    let a = span(s, p, CharClass::Alpha);
    assert(t.subrange(o + p, o + p + a) =~= s.subrange(p, p + a));
    // function heads
    if 0 <= p < s.len() && s[p] == '\\' {
        assert(t[o + p] == s[p]);
        lemma_span_shift(x, s, p + 1, CharClass::Alpha);
        lemma_span_bound(s, p + 1, CharClass::Alpha);
        let a1 = span(s, p + 1, CharClass::Alpha);
        lemma_ws_shift(x, s, p + 1 + a1);
        lemma_ws_bound(s, p + 1 + a1);
        let r = ws_end(s, p + 1 + a1);
        assert(t.subrange(o + p + 1, o + p + 1 + a1) =~= s.subrange(p + 1, p + 1 + a1));
        if r + 1 < s.len() {
            assert(t[o + r] == s[r]);
            assert(t[o + r + 1] == s[r + 1]);
        }
    } else if 0 <= p < s.len() {
        assert(t[o + p] == s[p]);
    }
}

/// Rule ends lie between the cursor and the end of the text.
proof fn lemma_rule_bounds(s: Seq<char>, i: int)
    requires
        0 <= i <= s.len(),
    ensures
        int_rule(s, i) is Ok ==> i <= int_rule(s, i)->Ok_0.1 <= s.len(),
        var_rule(s, i) is Ok ==> i <= var_rule(s, i)->Ok_0.1 <= s.len(),
        fn_rule(s, i) is Ok ==> i <= fn_rule(s, i)->Ok_0.1 <= s.len(),
        expr_rule(s, i) is Ok ==> i <= expr_rule(s, i)->Ok_0.1 <= s.len(),
    decreases s.len() - i,
{
    lemma_ws_bound(s, i);
    let p = ws_end(s, i);
    lemma_span_bound(s, p, CharClass::Digit);
    lemma_span_bound(s, p, CharClass::Alpha);
    if let Ok((_, b)) = fn_head(s, i) {
        lemma_rule_bounds(s, b);
    }
}

/// The rules do not depend on the text before the cursor: parsing `s` at `i`
/// and parsing `x + s` at `x.len() + i` give the same tree, with ends `x.len()` apart.
proof fn lemma_rules_shift(x: Seq<char>, s: Seq<char>, i: int)
    requires
        0 <= i <= s.len(),
    ensures
        fn_rule(x + s, x.len() + i) == shifted(fn_rule(s, i), x.len() as int),
        expr_rule(x + s, x.len() + i) == shifted(expr_rule(s, i), x.len() as int),
    decreases s.len() - i,
{
    lemma_leaf_rules_shift(x, s, i);
    if let Ok((_, b)) = fn_head(s, i) {
        lemma_rules_shift(x, s, b);
    }
}

/// Whitespace at the cursor is skipped: every rule gives the same result from
/// any position before the first other character.
proof fn lemma_rules_after_ws(s: Seq<char>, i: int, j: int)
    requires
        0 <= i <= j <= ws_end(s, i),
    ensures
        ws_end(s, j) == ws_end(s, i),
        int_rule(s, j) == int_rule(s, i),
        var_rule(s, j) == var_rule(s, i),
        fn_rule(s, j) == fn_rule(s, i),
        expr_rule(s, j) == expr_rule(s, i),
{
    lemma_span_within(s, i, j, CharClass::Space);
}

/// A run of one to twelve digits whose value fits in a `u8`, followed by text
/// that does not start with a digit, is read as that integer, by the integer
/// rule and by the expression rule; the text after the run is left as it was.
pub proof fn law_integer_literal(digits: Seq<char>, rest: Seq<char>)
    requires
        1 <= digits.len() <= 12,
        all_digits(digits),
        digits_value(digits) <= 255,
        rest.len() == 0 || !CharClass::Digit.holds(rest[0]),
    ensures
        int_rule(digits + rest, 0) == Ok::<(Term, int), ParseError>(
            (Term::Int(digits_value(digits) as u8), digits.len() as int),
        ),
        expr_rule(digits + rest, 0) == int_rule(digits + rest, 0),
        (digits + rest).subrange(digits.len() as int, (digits + rest).len() as int) == rest,
{
    let s = digits + rest;
    let n = digits.len() as int;
    assert(s[0] == digits[0]);
    assert forall|m: int| 0 <= m < n implies CharClass::Digit.holds(#[trigger] s[m]) by {
        assert(s[m] == digits[m]);
    }
    lemma_span_prefix(s, 0, n, CharClass::Digit);
    if rest.len() > 0 {
        assert(s[n] == rest[0]);
    }
    assert(s.subrange(0, n) =~= digits);
    assert(s.subrange(n, s.len() as int) =~= rest);
}

/// A run of digits whose value exceeds 255, followed by text that does not
/// start with a digit, makes the integer rule fail with a range error. The
/// rule reads at most twelve digits, so a longer run fails this way when its
/// first twelve digits exceed 255.
pub proof fn law_integer_overflow(digits: Seq<char>, rest: Seq<char>)
    requires
        1 <= digits.len(),
        all_digits(digits),
        digits_value(digits) > 255,
        digits.len() <= 12 || digits_value(digits.subrange(0, 12)) > 255,
        rest.len() == 0 || !CharClass::Digit.holds(rest[0]),
    ensures
        int_rule(digits + rest, 0) == Err::<(Term, int), ParseError>(ParseError::OutOfRange),
{
    let s = digits + rest;
    let n = digits.len() as int;
    assert(s[0] == digits[0]);
    assert forall|m: int| 0 <= m < n implies CharClass::Digit.holds(#[trigger] s[m]) by {
        assert(s[m] == digits[m]);
    }
    lemma_span_prefix(s, 0, n, CharClass::Digit);
    if rest.len() > 0 {
        assert(s[n] == rest[0]);
    }
    if n <= 12 {
        assert(s.subrange(0, n) =~= digits);
    } else {
        assert(s.subrange(0, 12) =~= digits.subrange(0, 12));
    }
}

/// A non-empty run of letters, followed by text that does not start with a
/// letter, is read as a variable of that name; the text after it is left as it was.
pub proof fn law_variable(name: Seq<char>, rest: Seq<char>)
    requires
        1 <= name.len(),
        all_in(name, CharClass::Alpha),
        rest.len() == 0 || !CharClass::Alpha.holds(rest[0]),
    ensures
        var_rule(name + rest, 0) == Ok::<(Term, int), ParseError>((Term::Var(name), name.len() as int)),
        (name + rest).subrange(name.len() as int, (name + rest).len() as int) == rest,
{
    let s = name + rest;
    let n = name.len() as int;
    assert(s[0] == name[0]);
    assert forall|m: int| 0 <= m < n implies CharClass::Alpha.holds(#[trigger] s[m]) by {
        assert(s[m] == name[m]);
    }
    lemma_span_prefix(s, 0, n, CharClass::Alpha);
    if rest.len() > 0 {
        assert(s[n] == rest[0]);
    }
    assert(s.subrange(0, n) =~= name);
    assert(s.subrange(n, s.len() as int) =~= rest);
}

/// The expression rule takes an integer whenever the integer rule matches; it
/// takes a variable whenever the first character after whitespace is a letter;
/// and it gives a function only when neither an integer nor a variable matches.
pub proof fn law_alternation_priority(s: Seq<char>, i: int)
    requires
        0 <= i <= s.len(),
    ensures
        int_rule(s, i) is Ok ==> expr_rule(s, i) == int_rule(s, i),
        ws_end(s, i) < s.len() && CharClass::Alpha.holds(s[ws_end(s, i)]) ==> {
            &&& expr_rule(s, i) == var_rule(s, i)
            &&& var_rule(s, i) is Ok
            &&& var_rule(s, i)->Ok_0.0 is Var
        },
        expr_rule(s, i) is Ok && expr_rule(s, i)->Ok_0.0 is Fun ==> {
            &&& int_rule(s, i) is Err
            &&& var_rule(s, i) is Err
        },
{
}

/// Whitespace before an expression changes neither the tree nor the text left
/// over: only the end position moves, by the length of the whitespace.
pub proof fn law_leading_whitespace(w: Seq<char>, s: Seq<char>)
    requires
        all_in(w, CharClass::Space),
    ensures
        expr_rule(w + s, 0) == shifted(expr_rule(s, 0), w.len() as int),
{
    let t = w + s;
    let n = w.len() as int;
    assert forall|m: int| 0 <= m < n implies CharClass::Space.holds(#[trigger] t[m]) by {
        assert(t[m] == w[m]);
    }
    lemma_span_prefix(t, 0, n, CharClass::Space);
    lemma_rules_after_ws(t, 0, n);
    lemma_rules_shift(w, s, 0);
}

/// How the expression rule reads `\name w ->` followed by `rest`, where `w` is
/// whitespace: the body is `rest` parsed on its own, its end moved past the head.
proof fn lemma_function_text(name: Seq<char>, w: Seq<char>, rest: Seq<char>)
    requires
        1 <= name.len(),
        all_in(name, CharClass::Alpha),
        all_in(w, CharClass::Space),
    ensures
        ({
            let h = seq!['\\'] + name + w + seq!['-', '>'];
            let t = h + rest;
            expr_rule(t, 0) == match expr_rule(rest, 0) {
                Ok((body, end)) => Ok::<(Term, int), ParseError>(
                    (Term::Fun(name, Box::new(body)), end + h.len()),
                ),
                Err(k) => Err(k),
            }
        }),
{
    let h = seq!['\\'] + name + w + seq!['-', '>'];
    let t = h + rest;
    let n = name.len() as int;
    let a = n + 1;
    let r = a + w.len();
    assert(t[0] == '\\');
    assert forall|m: int| 1 <= m < a implies CharClass::Alpha.holds(#[trigger] t[m]) by {
        assert(t[m] == name[m - 1]);
    }
    lemma_span_prefix(t, 1, a, CharClass::Alpha);
    assert forall|m: int| a <= m < r implies CharClass::Space.holds(#[trigger] t[m]) by {
        assert(t[m] == w[m - a]);
    }
    lemma_span_prefix(t, a, r, CharClass::Space);
    assert(t[r] == '-');
    assert(t[r + 1] == '>');
    if w.len() > 0 {
        assert(t[a] == w[0]);
    }
    assert(t.subrange(1, a) =~= name);
    assert(fn_head(t, 0) == Ok::<(Seq<char>, int), ParseError>((name, r + 2)));
    lemma_rules_shift(h, rest, 0);
    assert(int_rule(t, 0) is Err);
    assert(var_rule(t, 0) is Err);
}

/// Whitespace before a function's backslash, before its arrow and before its
/// body changes neither the tree nor the text left over: only the end position
/// moves, by the length of the whitespace. No whitespace may stand between the
/// backslash and the parameter name.
pub proof fn law_function_whitespace(
    w1: Seq<char>,
    w2: Seq<char>,
    w3: Seq<char>,
    name: Seq<char>,
    body: Seq<char>,
)
    requires
        all_in(w1, CharClass::Space),
        all_in(w2, CharClass::Space),
        all_in(w3, CharClass::Space),
        1 <= name.len(),
        all_in(name, CharClass::Alpha),
    ensures
        expr_rule(w1 + seq!['\\'] + name + w2 + seq!['-', '>'] + w3 + body, 0) == shifted(
            expr_rule(seq!['\\'] + name + seq!['-', '>'] + body, 0),
            (w1.len() + w2.len() + w3.len()) as int,
        ),
{
    let spaced = w1 + seq!['\\'] + name + w2 + seq!['-', '>'] + w3 + body;
    let tight = seq!['\\'] + name + seq!['-', '>'] + body;
    let h2 = seq!['\\'] + name + w2 + seq!['-', '>'];
    let h0 = seq!['\\'] + name + Seq::<char>::empty() + seq!['-', '>'];
    assert(spaced =~= w1 + (h2 + (w3 + body)));
    assert(tight =~= h0 + body);
    law_leading_whitespace(w1, h2 + (w3 + body));
    lemma_function_text(name, w2, w3 + body);
    lemma_function_text(name, Seq::<char>::empty(), body);
    law_leading_whitespace(w3, body);
}

/// Parsing the text left over by a successful parse gives what continuing at
/// the end of that parse gives, with positions counted from the leftover's start.
pub proof fn law_reparse_leftover(s: Seq<char>)
    requires
        expr_rule(s, 0) is Ok,
    ensures
        expr_rule(s, expr_rule(s, 0)->Ok_0.1) == shifted(
            expr_rule(s.subrange(expr_rule(s, 0)->Ok_0.1, s.len() as int), 0),
            expr_rule(s, 0)->Ok_0.1,
        ),
{
    lemma_rule_bounds(s, 0);
    let end = expr_rule(s, 0)->Ok_0.1;
    let x = s.subrange(0, end);
    let rest = s.subrange(end, s.len() as int);
    assert(s =~= x + rest);
    lemma_rules_shift(x, rest, 0);
}

/// Parsing is a function of the text: two results that both meet the contract
/// of `parse_my_expr` on the same text hold equal trees and equal leftovers, or
/// the same error.
pub proof fn law_parse_deterministic(
    s: Seq<char>,
    r1: Result<(&str, Expr), ParseError>,
    r2: Result<(&str, Expr), ParseError>,
)
    requires
        agrees(s, r1, expr_rule(s, 0)),
        agrees(s, r2, expr_rule(s, 0)),
    ensures
        r1 is Ok <==> r2 is Ok,
        r1 is Ok ==> r1->Ok_0.1@ == r2->Ok_0.1@ && r1->Ok_0.0@ == r2->Ok_0.0@,
        r1 is Err ==> r1->Err_0 == r2->Err_0,
{
}

} // verus!
