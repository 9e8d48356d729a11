//! The line classifier: one line of log text to one typed record.
//!
//! Recognition is first-match-wins, in this order: the unspaced
//! `clockin`/`clockout` typo guards (fatal), the case-insensitive
//! `clock in`/`clock out` phrases, `# YYYY-MM-DD` day markers, the `- `
//! bullet test (anything else is junk), then — on the trimmed bullet body —
//! a 12-hour time, a prediction quadruple, an expense, and finally a free
//! action.  The spec function [`classify_spec`] states the whole decision;
//! the classifier returns exactly its value.

use vstd::prelude::*;
use crate::records::{RawEntry, RecV, LogError, ErrV, opt_view, recs_view, strs_view};
use crate::dates::date_shape;
use crate::text::{
    str_chars, chars_string, lowercase, lower_of, is_ascii_digit, digit_val, has_sub,
    chars_contain, sub_chars, trim_chars, trim_of, digit_run_end, find_digit_run_end,
    digits_val, digits_to_u8, digit_char, ascii_matches_lower, matches_lower_char,
    lemma_digit_run_bounds,
};
use std::borrow::ToOwned;

verus! {

// ---------------------------------------------------------------------------
// Patterns
// ---------------------------------------------------------------------------

pub open spec fn clockin_pat() -> Seq<char> {
    seq!['c', 'l', 'o', 'c', 'k', 'i', 'n']
}

pub open spec fn clockout_pat() -> Seq<char> {
    seq!['c', 'l', 'o', 'c', 'k', 'o', 'u', 't']
}

pub open spec fn clock_in_pat() -> Seq<char> {
    seq!['c', 'l', 'o', 'c', 'k', ' ', 'i', 'n']
}

pub open spec fn clock_out_pat() -> Seq<char> {
    seq!['c', 'l', 'o', 'c', 'k', ' ', 'o', 'u', 't']
}

fn pat_clockin() -> (r: Vec<char>)
    ensures
        r@ == clockin_pat(),
{
    let mut v: Vec<char> = Vec::new();
    v.push('c');
    v.push('l');
    v.push('o');
    v.push('c');
    v.push('k');
    v.push('i');
    v.push('n');
    assert(v@ =~= clockin_pat());
    v
}

fn pat_clockout() -> (r: Vec<char>)
    ensures
        r@ == clockout_pat(),
{
    let mut v: Vec<char> = Vec::new();
    v.push('c');
    v.push('l');
    v.push('o');
    v.push('c');
    v.push('k');
    v.push('o');
    v.push('u');
    v.push('t');
    assert(v@ =~= clockout_pat());
    v
}

fn pat_clock_in() -> (r: Vec<char>)
    ensures
        r@ == clock_in_pat(),
{
    let mut v: Vec<char> = Vec::new();
    v.push('c');
    v.push('l');
    v.push('o');
    v.push('c');
    v.push('k');
    v.push(' ');
    v.push('i');
    v.push('n');
    assert(v@ =~= clock_in_pat());
    v
}

fn pat_clock_out() -> (r: Vec<char>)
    ensures
        r@ == clock_out_pat(),
{
    let mut v: Vec<char> = Vec::new();
    v.push('c');
    v.push('l');
    v.push('o');
    v.push('c');
    v.push('k');
    v.push(' ');
    v.push('o');
    v.push('u');
    v.push('t');
    assert(v@ =~= clock_out_pat());
    v
}

// ---------------------------------------------------------------------------
// Project tags
// ---------------------------------------------------------------------------

/// Index of the last occurrence of `c` in `s`, or -1.
pub open spec fn rfind_spec(s: Seq<char>, c: char) -> int
    decreases s.len(),
{
    if s.len() == 0 {
        -1
    } else if s.last() == c {
        s.len() - 1
    } else {
        rfind_spec(s.drop_last(), c)
    }
}

/// The project tag of a clock line: the trimmed text between the last `(`
/// and the last `)`, when the `(` comes first; otherwise no tag.
pub open spec fn company_of(s: Seq<char>) -> Option<Seq<char>> {
    let o = rfind_spec(s, '(');
    let c = rfind_spec(s, ')');
    if 0 <= o && 0 <= c && o < c {
        Some(trim_of(s.subrange(o + 1, c)))
    } else {
        None
    }
}

pub(crate) fn rfind_char(v: &Vec<char>, c: char) -> (r: Option<usize>)
    ensures
        match r {
            Some(i) => rfind_spec(v@, c) == i as int && (i as int) < v@.len(),
            None => rfind_spec(v@, c) == -1,
        },
{
    proof {
        assert(v@.take(v@.len() as int) =~= v@);
    }
    let mut i: usize = v.len();
    loop
        invariant
            i <= v@.len(),
            rfind_spec(v@, c) == rfind_spec(v@.take(i as int), c),
        decreases i,
    {
        if i == 0 {
            assert(rfind_spec(v@.take(0), c) == -1);
            return None;
        }
        if v[i - 1] == c {
            proof {
                let t = v@.take(i as int);
                assert(t.last() == v@[i - 1]);
                assert(rfind_spec(t, c) == i - 1);
            }
            return Some(i - 1);
        }
        proof {
            let t = v@.take(i as int);
            assert(t.last() != c);
            assert(t.drop_last() =~= v@.take(i - 1));
        }
        i = i - 1;
    }
}

fn parse_company(v: &Vec<char>) -> (r: Option<String>)
    ensures
        opt_view(r) == company_of(v@),
{
    let o = rfind_char(v, '(');
    let c = rfind_char(v, ')');
    match (o, c) {
        (Some(oi), Some(ci)) => {
            if oi < ci {
                let region = sub_chars(v, oi + 1, ci);
                let t = trim_chars(&region);
                Some(chars_string(&t))
            } else {
                None
            }
        },
        _ => None,
    }
}

// ---------------------------------------------------------------------------
// Times
// ---------------------------------------------------------------------------

/// Minute-and-meridiem tail `MM (AM|PM)` starting at position `i`.
pub open spec fn time_tail_ok(s: Seq<char>, i: int) -> bool {
    i + 5 <= s.len() && is_ascii_digit(s[i]) && is_ascii_digit(s[i + 1]) && s[i + 2] == ' '
        && (s[i + 3] == 'A' || s[i + 3] == 'P') && s[i + 4] == 'M'
}

/// The 24-hour hour: 12 is normalized to 0 before the PM shift is added.
pub open spec fn hour24(h: int, pm: bool) -> int {
    (if h == 12 {
        0int
    } else {
        h
    }) + if pm {
        12int
    } else {
        0int
    }
}

/// Match of the time pattern `H:MM (AM|PM)` or `HH:MM (AM|PM)` at the start
/// of `s`; yields the converted hour and the minute.
pub open spec fn time_match(s: Seq<char>) -> Option<(int, int)> {
    if s.len() >= 3 && is_ascii_digit(s[0]) && is_ascii_digit(s[1]) && s[2] == ':' && time_tail_ok(
        s,
        3,
    ) {
        Some(
            (
                hour24(digit_val(s[0]) * 10 + digit_val(s[1]), s[6] == 'P'),
                digit_val(s[3]) * 10 + digit_val(s[4]),
            ),
        )
    } else if s.len() >= 2 && is_ascii_digit(s[0]) && s[1] == ':' && time_tail_ok(s, 2) {
        Some((hour24(digit_val(s[0]), s[5] == 'P'), digit_val(s[2]) * 10 + digit_val(s[3])))
    } else {
        None
    }
}

fn time_tail(b: &Vec<char>, i: usize) -> (r: bool)
    requires
        i <= b@.len(),
    ensures
        r == time_tail_ok(b@, i as int),
{
    b.len() >= 5 && i <= b.len() - 5 && digit_char(b[i]) && digit_char(b[i + 1]) && b[i + 2] == ' '
        && (b[i + 3] == 'A' || b[i + 3] == 'P') && b[i + 4] == 'M'
}

fn parse_time_chars(b: &Vec<char>) -> (r: Option<(u8, u8)>)
    ensures
        match time_match(b@) {
            Some(hm) => r == Some((hm.0 as u8, hm.1 as u8)),
            None => r is None,
        },
{
    if b.len() >= 3 && digit_char(b[0]) && digit_char(b[1]) && b[2] == ':' && time_tail(b, 3) {
        let h0: u32 = (b[0] as u32 - 0x30) * 10 + (b[1] as u32 - 0x30);
        let m: u32 = (b[3] as u32 - 0x30) * 10 + (b[4] as u32 - 0x30);
        let pm = b[6] == 'P';
        let h1: u32 = if h0 == 12 {
            0
        } else {
            h0
        };
        let h: u32 = h1 + if pm {
            12
        } else {
            0
        };
        Some((h as u8, m as u8))
    } else if b.len() >= 2 && digit_char(b[0]) && b[1] == ':' && time_tail(b, 2) {
        let h0: u32 = b[0] as u32 - 0x30;
        let m: u32 = (b[2] as u32 - 0x30) * 10 + (b[3] as u32 - 0x30);
        let pm = b[5] == 'P';
        let h1: u32 = if h0 == 12 {
            0
        } else {
            h0
        };
        let h: u32 = h1 + if pm {
            12
        } else {
            0
        };
        Some((h as u8, m as u8))
    } else {
        None
    }
}

// ---------------------------------------------------------------------------
// Predictions
// ---------------------------------------------------------------------------

pub open spec fn pred_a(s: Seq<char>) -> int {
    digit_run_end(s, 0)
}

pub open spec fn pred_b(s: Seq<char>) -> int {
    digit_run_end(s, pred_a(s) + 1)
}

pub open spec fn pred_c(s: Seq<char>) -> int {
    digit_run_end(s, pred_b(s) + 1)
}

pub open spec fn pred_d(s: Seq<char>) -> int {
    digit_run_end(s, pred_c(s) + 1)
}

/// The prediction pattern `N/N:N/N` (nonempty digit runs) at the start of
/// `s`.
pub open spec fn pred_shape(s: Seq<char>) -> bool {
    let a = pred_a(s);
    let b = pred_b(s);
    let c = pred_c(s);
    let d = pred_d(s);
    a > 0 && a < s.len() && s[a] == '/' && b > a + 1 && b < s.len() && s[b] == ':' && c > b + 1
        && c < s.len() && s[c] == '/' && d > c + 1
}

/// The four numeric components of a prediction line.
pub open spec fn pred_vals(s: Seq<char>) -> (int, int, int, int) {
    (
        digits_val(s.subrange(0, pred_a(s))),
        digits_val(s.subrange(pred_a(s) + 1, pred_b(s))),
        digits_val(s.subrange(pred_b(s) + 1, pred_c(s))),
        digits_val(s.subrange(pred_c(s) + 1, pred_d(s))),
    )
}

/// A matched prediction line: the record when every component is a byte,
/// else the fatal malformed-prediction error.
pub open spec fn pred_step(s: Seq<char>) -> Result<RecV, ErrV> {
    let v = pred_vals(s);
    if v.0 <= 255 && v.1 <= 255 && v.2 <= 255 && v.3 <= 255 {
        Ok(RecV::Prediction(v.0 as u8, v.1 as u8, v.2 as u8, v.3 as u8))
    } else {
        Err(ErrV::MalformedPrediction(s))
    }
}

// ---------------------------------------------------------------------------
// Expenses
// ---------------------------------------------------------------------------

pub open spec fn is_money_char(c: char) -> bool {
    is_ascii_digit(c) || c == '.'
}

/// Index of the first character at or after `i` that is not a space.
pub open spec fn space_run_end(s: Seq<char>, i: int) -> int
    decreases s.len() - i,
{
    if 0 <= i < s.len() && s[i] == ' ' {
        space_run_end(s, i + 1)
    } else {
        i
    }
}

/// Index of the first character at or after `i` that is neither an ASCII
/// digit nor a dot.
pub open spec fn money_run_end(s: Seq<char>, i: int) -> int
    decreases s.len() - i,
{
    if 0 <= i < s.len() && is_money_char(s[i]) {
        money_run_end(s, i + 1)
    } else {
        i
    }
}

/// The line announces an expense: it starts with `expense:` up to ASCII
/// case.
pub open spec fn expense_guard(s: Seq<char>) -> bool {
    s.len() >= 8 && ascii_matches_lower(s[0], 'e') && ascii_matches_lower(s[1], 'x')
        && ascii_matches_lower(s[2], 'p') && ascii_matches_lower(s[3], 'e') && ascii_matches_lower(
        s[4],
        'n',
    ) && ascii_matches_lower(s[5], 's') && ascii_matches_lower(s[6], 'e') && ascii_matches_lower(
        s[7],
        ':',
    )
}

/// The strict expense form starts with the exact text `Expense:`.
pub open spec fn expense_exact_prefix(s: Seq<char>) -> bool {
    s.len() >= 8 && s[0] == 'E' && s[1] == 'x' && s[2] == 'p' && s[3] == 'e' && s[4] == 'n' && s[5]
        == 's' && s[6] == 'e' && s[7] == ':'
}

pub open spec fn count_digits(s: Seq<char>) -> int
    decreases s.len(),
{
    if s.len() == 0 {
        0
    } else {
        count_digits(s.drop_last()) + if is_ascii_digit(s.last()) {
            1int
        } else {
            0int
        }
    }
}

pub open spec fn count_dots(s: Seq<char>) -> int
    decreases s.len(),
{
    if s.len() == 0 {
        0
    } else {
        count_dots(s.drop_last()) + if s.last() == '.' {
            1int
        } else {
            0int
        }
    }
}

/// The cost text parses as a decimal number: at least one digit and at most
/// one dot.
pub open spec fn money_ok(s: Seq<char>) -> bool {
    count_digits(s) >= 1 && count_dots(s) <= 1
}

/// The strict expense pattern `Expense: *$<run of digits and dots>,<rest>`:
/// the cost run and the description when it matches.
pub open spec fn expense_match(s: Seq<char>) -> Option<(Seq<char>, Seq<char>)> {
    if expense_exact_prefix(s) {
        let j = space_run_end(s, 8);
        if j < s.len() && s[j] == '$' {
            let k = money_run_end(s, j + 1);
            if k < s.len() && s[k] == ',' {
                Some((s.subrange(j + 1, k), s.subrange(k + 1, s.len() as int)))
            } else {
                None
            }
        } else {
            None
        }
    } else {
        None
    }
}

/// A line that announced an expense: the record when the strict pattern
/// matches and the cost is a decimal, else the fatal malformed-expense
/// error.
pub open spec fn expense_step(s: Seq<char>) -> Result<RecV, ErrV> {
    match expense_match(s) {
        Some(cw) => if money_ok(cw.0) {
            Ok(RecV::Expense(cw.0, cw.1))
        } else {
            Err(ErrV::MalformedExpense(s))
        },
        None => Err(ErrV::MalformedExpense(s)),
    }
}

fn scan_space_run(v: &Vec<char>, i: usize) -> (r: usize)
    requires
        i <= v@.len(),
    ensures
        r == space_run_end(v@, i as int),
        i <= r <= v@.len(),
{
    let mut j: usize = i;
    while j < v.len() && v[j] == ' '
        invariant
            i <= j <= v@.len(),
            space_run_end(v@, i as int) == space_run_end(v@, j as int),
        decreases v@.len() - j,
    {
        j = j + 1;
    }
    assert(space_run_end(v@, j as int) == j as int);
    j
}

fn money_char(c: char) -> (r: bool)
    ensures
        r == is_money_char(c),
{
    digit_char(c) || c == '.'
}

fn scan_money_run(v: &Vec<char>, i: usize) -> (r: usize)
    requires
        i <= v@.len(),
    ensures
        r == money_run_end(v@, i as int),
        i <= r <= v@.len(),
{
    let mut j: usize = i;
    while j < v.len() && money_char(v[j])
        invariant
            i <= j <= v@.len(),
            money_run_end(v@, i as int) == money_run_end(v@, j as int),
        decreases v@.len() - j,
    {
        j = j + 1;
    }
    assert(money_run_end(v@, j as int) == j as int);
    j
}

fn money_text_ok(v: &Vec<char>) -> (r: bool)
    ensures
        r == money_ok(v@),
{
    let mut digits: usize = 0;
    let mut dots: usize = 0;
    let mut i: usize = 0;
    while i < v.len()
        invariant
            i <= v@.len(),
            digits <= i,
            dots <= i,
            digits == count_digits(v@.take(i as int)),
            dots == count_dots(v@.take(i as int)),
        decreases v@.len() - i,
    {
        proof {
            let p = v@.take(i + 1);
            assert(p.drop_last() =~= v@.take(i as int));
            assert(p.last() == v@[i as int]);
        }
        if digit_char(v[i]) {
            digits = digits + 1;
        } else if v[i] == '.' {
            dots = dots + 1;
        }
        i = i + 1;
    }
    assert(v@.take(v@.len() as int) =~= v@);
    digits >= 1 && dots <= 1
}

fn expense_classify(b: &Vec<char>) -> (r: Result<RawEntry, LogError>)
    ensures
        res_view(r) == expense_step(b@),
{
    let exact = b.len() >= 8 && b[0] == 'E' && b[1] == 'x' && b[2] == 'p' && b[3] == 'e' && b[4]
        == 'n' && b[5] == 's' && b[6] == 'e' && b[7] == ':';
    if !exact {
        return Err(LogError::MalformedExpense(chars_string(b)));
    }
    let j = scan_space_run(b, 8);
    if !(j < b.len() && b[j] == '$') {
        return Err(LogError::MalformedExpense(chars_string(b)));
    }
    let k = scan_money_run(b, j + 1);
    if !(k < b.len() && b[k] == ',') {
        return Err(LogError::MalformedExpense(chars_string(b)));
    }
    let cost = sub_chars(b, j + 1, k);
    if !money_text_ok(&cost) {
        return Err(LogError::MalformedExpense(chars_string(b)));
    }
    let what = sub_chars(b, k + 1, b.len());
    Ok(RawEntry::Expense(chars_string(&cost), chars_string(&what)))
}

// ---------------------------------------------------------------------------
// The classifier
// ---------------------------------------------------------------------------

pub open spec fn res_view(r: Result<RawEntry, LogError>) -> Result<RecV, ErrV> {
    match r {
        Ok(e) => Ok(e@),
        Err(e) => Err(e@),
    }
}

/// The decision on the trimmed body of a `- ` bullet line: a time, a
/// prediction, an expense, or a free action, in that order.
pub open spec fn classify_body_spec(body: Seq<char>) -> Result<RecV, ErrV> {
    match time_match(body) {
        Some(hm) => Ok(RecV::Time(hm.0 as u8, hm.1 as u8)),
        None => if pred_shape(body) {
            pred_step(body)
        } else if expense_guard(body) {
            expense_step(body)
        } else {
            Ok(RecV::Action(body))
        },
    }
}

/// The whole classification decision for one raw line.
pub open spec fn classify_spec(s: Seq<char>) -> Result<RecV, ErrV> {
    let low = lower_of(s);
    if has_sub(low, clockin_pat()) {
        Err(ErrV::UnspacedClockIn)
    } else if has_sub(low, clockout_pat()) {
        Err(ErrV::UnspacedClockOut)
    } else if has_sub(low, clock_in_pat()) {
        Ok(RecV::ClockIn(company_of(s)))
    } else if has_sub(low, clock_out_pat()) {
        Ok(RecV::ClockOut(company_of(s)))
    } else if s.len() >= 2 && s[0] == '#' && s[1] == ' ' && date_shape(
        s.subrange(2, s.len() as int),
    ) {
        Ok(RecV::NewDay(s.subrange(2, s.len() as int)))
    } else if !(s.len() >= 2 && s[0] == '-' && s[1] == ' ') {
        Ok(RecV::Junk(s))
    } else {
        classify_body_spec(trim_of(s.subrange(2, s.len() as int)))
    }
}

/// No clock phrase, spaced or unspaced, occurs in the lowercased line.
pub open spec fn no_clock_text(s: Seq<char>) -> bool {
    let low = lower_of(s);
    !has_sub(low, clockin_pat()) && !has_sub(low, clockout_pat()) && !has_sub(low, clock_in_pat())
        && !has_sub(low, clock_out_pat())
}

/// Law: a line that carries no clock phrase, is not a day marker, and does
/// not start with `- ` classifies as junk, holding the line verbatim.  The
/// junk text is the line itself, so classifying it again yields the very
/// same junk record: classification of junk is idempotent.
pub proof fn lemma_junk_classification(s: Seq<char>)
    requires
        no_clock_text(s),
        !(s.len() >= 2 && s[0] == '#' && s[1] == ' ' && date_shape(
            s.subrange(2, s.len() as int),
        )),
        !(s.len() >= 2 && s[0] == '-' && s[1] == ' '),
    ensures
        classify_spec(s) == Ok::<RecV, ErrV>(RecV::Junk(s)),
{
}

fn classify_body(b: &Vec<char>) -> (r: Result<RawEntry, LogError>)
    ensures
        res_view(r) == classify_body_spec(b@),
{
    match parse_time_chars(b) {
        Some((h, m)) => {
            return Ok(RawEntry::Time(h, m));
        },
        None => {},
    }
    let a = find_digit_run_end(b, 0);
    if a > 0 && a < b.len() && b[a] == '/' {
        let e2 = find_digit_run_end(b, a + 1);
        if e2 > a + 1 && e2 < b.len() && b[e2] == ':' {
            let e3 = find_digit_run_end(b, e2 + 1);
            if e3 > e2 + 1 && e3 < b.len() && b[e3] == '/' {
                let e4 = find_digit_run_end(b, e3 + 1);
                if e4 > e3 + 1 {
                    assert(pred_shape(b@));
                    proof {
                        lemma_digit_run_bounds(b@, 0);
                        lemma_digit_run_bounds(b@, a + 1);
                        lemma_digit_run_bounds(b@, e2 + 1);
                        lemma_digit_run_bounds(b@, e3 + 1);
                    }
                    let v1 = digits_to_u8(b, 0, a);
                    let v2 = digits_to_u8(b, a + 1, e2);
                    let v3 = digits_to_u8(b, e2 + 1, e3);
                    let v4 = digits_to_u8(b, e3 + 1, e4);
                    match (v1, v2, v3, v4) {
                        (Some(x1), Some(x2), Some(x3), Some(x4)) => {
                            return Ok(RawEntry::Prediction(x1, x2, x3, x4));
                        },
                        _ => {
                            return Err(LogError::MalformedPrediction(chars_string(b)));
                        },
                    }
                }
            }
        }
    }
    assert(!pred_shape(b@));
    let guard = b.len() >= 8 && matches_lower_char(b[0], 'e') && matches_lower_char(b[1], 'x')
        && matches_lower_char(b[2], 'p') && matches_lower_char(b[3], 'e') && matches_lower_char(
        b[4],
        'n',
    ) && matches_lower_char(b[5], 's') && matches_lower_char(b[6], 'e') && matches_lower_char(
        b[7],
        ':',
    );
    if guard {
        return expense_classify(b);
    }
    Ok(RawEntry::Action(chars_string(b)))
}

/// Classify one raw line of the log.
///
/// Total except for the fatal guards: the unspaced `clockin`/`clockout`
/// typo, a malformed expense, and an out-of-range prediction component.
pub fn line_to_raw_entry(line: &str) -> (r: Result<RawEntry, LogError>)
    ensures
        res_view(r) == classify_spec(line@),
{
    let chars = str_chars(line);
    let lowered = lowercase(line);
    let low = str_chars(lowered.as_str());
    let p1 = pat_clockin();
    if chars_contain(&low, &p1) {
        return Err(LogError::UnspacedClockIn);
    }
    let p2 = pat_clockout();
    if chars_contain(&low, &p2) {
        return Err(LogError::UnspacedClockOut);
    }
    let p3 = pat_clock_in();
    if chars_contain(&low, &p3) {
        return Ok(RawEntry::ClockIn(parse_company(&chars)));
    }
    let p4 = pat_clock_out();
    if chars_contain(&low, &p4) {
        return Ok(RawEntry::ClockOut(parse_company(&chars)));
    }
    if chars.len() >= 2 && chars[0] == '#' && chars[1] == ' ' {
        let rest = sub_chars(&chars, 2, chars.len());
        if crate::dates::date_shape_at_start(&rest) {
            return Ok(RawEntry::NewDay(chars_string(&rest)));
        }
    }
    if !(chars.len() >= 2 && chars[0] == '-' && chars[1] == ' ') {
        return Ok(RawEntry::Junk(line.to_owned()));
    }
    let tail = sub_chars(&chars, 2, chars.len());
    let body = trim_chars(&tail);
    classify_body(&body)
}

// ---------------------------------------------------------------------------
// Classifying a whole file
// ---------------------------------------------------------------------------

/// Classification of the lines from index `i` on: the records in order, or
/// the first fatal error.
pub open spec fn classify_from(ls: Seq<Seq<char>>, i: int) -> Result<Seq<RecV>, ErrV>
    decreases ls.len() - i,
{
    if i < 0 || i >= ls.len() {
        Ok(Seq::empty())
    } else {
        match classify_spec(ls[i]) {
            Err(e) => Err(e),
            Ok(r) => match classify_from(ls, i + 1) {
                Err(e) => Err(e),
                Ok(rest) => Ok(seq![r] + rest),
            },
        }
    }
}

/// Classification of a whole sequence of lines, first error wins.
pub open spec fn classify_all_spec(ls: Seq<Seq<char>>) -> Result<Seq<RecV>, ErrV> {
    classify_from(ls, 0)
}

/// Classify every line of the log, in order; the first fatal guard aborts.
pub fn lines_to_raw_entries(lines: &Vec<String>) -> (r: Result<Vec<RawEntry>, LogError>)
    ensures
        match r {
            Ok(v) => classify_all_spec(strs_view(lines@)) == Ok::<Seq<RecV>, ErrV>(recs_view(v@)),
            Err(e) => classify_all_spec(strs_view(lines@)) == Err::<Seq<RecV>, ErrV>(e@),
        },
{
    let ghost ls = strs_view(lines@);
    let mut acc: Vec<RawEntry> = Vec::new();
    let mut i: usize = 0;
    while i < lines.len()
        invariant
            i <= lines@.len(),
            ls == strs_view(lines@),
            match classify_from(ls, i as int) {
                Ok(rest) => classify_from(ls, 0) == Ok::<Seq<RecV>, ErrV>(recs_view(acc@) + rest),
                Err(e) => classify_from(ls, 0) == Err::<Seq<RecV>, ErrV>(e),
            },
        decreases lines@.len() - i,
    {
        assert(ls[i as int] == lines@[i as int]@);
        match line_to_raw_entry(lines[i].as_str()) {
            Ok(entry) => {
                let ghost prev = recs_view(acc@);
                let ghost rv = entry@;
                acc.push(entry);
                proof {
                    assert(recs_view(acc@) =~= prev.push(rv));
                    match classify_from(ls, i + 1) {
                        Ok(rest) => {
                            assert(prev + (seq![rv] + rest) =~= (prev.push(rv)) + rest);
                        },
                        Err(_) => {},
                    }
                }
            },
            Err(e) => {
                return Err(e);
            },
        }
        i = i + 1;
    }
    assert(classify_from(ls, i as int) == Ok::<Seq<RecV>, ErrV>(Seq::<RecV>::empty()));
    assert(recs_view(acc@) + Seq::<RecV>::empty() =~= recs_view(acc@));
    Ok(acc)
}

} // verus!
