//! Character-level text utilities: conversions between strings and character
//! vectors, character classes, substring search, trimming, and digit runs.
//!
//! All classification logic in this crate works on `Vec<char>` so that it can
//! be verified character by character; the only trusted pieces here are the
//! conversions to and from `String` and Unicode lowercasing.

use vstd::prelude::*;

verus! {

// ---------------------------------------------------------------------------
// Trusted conversions
// ---------------------------------------------------------------------------

/// Relies on `str::chars`: yields exactly the characters of the string, in
/// order, which is also the string's view in vstd.
#[verifier::external_body]
pub fn str_chars(s: &str) -> (r: Vec<char>)
    ensures
        r@ == s@,
{
    s.chars().collect()
}

/// Relies on `String::from_iter` over `char`: builds the string consisting of
/// exactly the given characters, in order.
#[verifier::external_body]
pub fn chars_string(v: &Vec<char>) -> (r: String)
    ensures
        r@ == v@,
{
    v.iter().collect()
}

/// The Unicode lowercasing of a character sequence, as `str::to_lowercase`
/// computes it.  Its value is a function of the characters alone; nothing
/// more is assumed about it.
pub uninterp spec fn lower_of(s: Seq<char>) -> Seq<char>;

/// Relies on `str::to_lowercase`: the Unicode-lowercased text, a function of
/// the characters of `s` alone.
#[verifier::external_body]
pub fn lowercase(s: &str) -> (r: String)
    ensures
        r@ == lower_of(s@),
{
    s.to_lowercase()
}

// ---------------------------------------------------------------------------
// Character classes
// ---------------------------------------------------------------------------

pub open spec fn is_ascii_digit(c: char) -> bool {
    '0' as int <= c as int && c as int <= '9' as int
}

pub open spec fn digit_val(c: char) -> int {
    c as int - '0' as int
}

/// The Unicode `White_Space` code points, the set `char::is_whitespace`
/// recognizes and `str::trim` strips.
pub open spec fn is_white_space(c: char) -> bool {
    let n = c as int;
    n == 0x20 || (0x09 <= n && n <= 0x0D) || n == 0x85 || n == 0xA0 || n == 0x1680 || (0x2000
        <= n && n <= 0x200A) || n == 0x2028 || n == 0x2029 || n == 0x202F || n == 0x205F || n
        == 0x3000
}

/// `a` matches the lowercase reference character `b` up to ASCII case.
pub open spec fn ascii_matches_lower(a: char, b: char) -> bool {
    a == b || ('A' as int <= a as int && a as int <= 'Z' as int && a as int + 32 == b as int)
}

pub fn digit_char(c: char) -> (r: bool)
    ensures
        r == is_ascii_digit(c),
{
    let n = c as u32;
    0x30 <= n && n <= 0x39
}

pub fn white_space_char(c: char) -> (r: bool)
    ensures
        r == is_white_space(c),
{
    let n = c as u32;
    n == 0x20 || (0x09 <= n && n <= 0x0D) || n == 0x85 || n == 0xA0 || n == 0x1680 || (0x2000
        <= n && n <= 0x200A) || n == 0x2028 || n == 0x2029 || n == 0x202F || n == 0x205F || n
        == 0x3000
}

pub fn matches_lower_char(a: char, b: char) -> (r: bool)
    ensures
        r == ascii_matches_lower(a, b),
{
    let na = a as u32;
    let nb = b as u32;
    na == nb || (0x41 <= na && na <= 0x5A && na + 32 == nb)
}

// ---------------------------------------------------------------------------
// Substring search
// ---------------------------------------------------------------------------

/// `pat` occurs in `hay` starting at position `i`.
pub open spec fn match_at(hay: Seq<char>, pat: Seq<char>, i: int) -> bool {
    0 <= i && i + pat.len() <= hay.len() && (forall|j: int|
        0 <= j < pat.len() ==> hay[i + j] == #[trigger] pat[j])
}

/// `pat` occurs somewhere in `hay` as a contiguous run.
pub open spec fn has_sub(hay: Seq<char>, pat: Seq<char>) -> bool {
    exists|i: int| #[trigger] match_at(hay, pat, i)
}

pub fn chars_contain(hay: &Vec<char>, pat: &Vec<char>) -> (r: bool)
    ensures
        r == has_sub(hay@, pat@),
{
    let n: usize = hay.len();
    let m: usize = pat.len();
    if m > n {
        assert(forall|i: int| !match_at(hay@, pat@, i));
        return false;
    }
    let bound: usize = n - m;
    let mut i: usize = 0;
    loop
        invariant
            n == hay@.len(),
            m == pat@.len(),
            m <= n,
            bound == n - m,
            i <= bound,
            forall|k: int| 0 <= k < i ==> !#[trigger] match_at(hay@, pat@, k),
        decreases bound - i,
    {
        let mut j: usize = 0;
        let mut ok: bool = true;
        while j < m
            invariant
                n == hay@.len(),
                m == pat@.len(),
                i + m <= n,
                j <= m,
                ok ==> forall|t: int| 0 <= t < j ==> hay@[i + t] == #[trigger] pat@[t],
                !ok ==> !match_at(hay@, pat@, i as int),
            decreases m - j,
        {
            if hay[i + j] != pat[j] {
                assert(!match_at(hay@, pat@, i as int));
                ok = false;
                j = m;
            } else {
                j = j + 1;
            }
        }
        if ok {
            assert(match_at(hay@, pat@, i as int));
            return true;
        }
        if i == bound {
            assert(forall|k: int| match_at(hay@, pat@, k) ==> 0 <= k <= bound);
            return false;
        }
        i = i + 1;
    }
}

// ---------------------------------------------------------------------------
// Sub-vector extraction
// ---------------------------------------------------------------------------

pub fn sub_chars(v: &Vec<char>, lo: usize, hi: usize) -> (r: Vec<char>)
    requires
        lo <= hi <= v@.len(),
    ensures
        r@ == v@.subrange(lo as int, hi as int),
{
    let mut r: Vec<char> = Vec::new();
    let mut i: usize = lo;
    while i < hi
        invariant
            lo <= i <= hi <= v@.len(),
            r@ == v@.subrange(lo as int, i as int),
        decreases hi - i,
    {
        r.push(v[i]);
        assert(r@ =~= v@.subrange(lo as int, i + 1));
        i = i + 1;
    }
    r
}

// ---------------------------------------------------------------------------
// Trimming
// ---------------------------------------------------------------------------

/// Index of the first non-whitespace character at or after `i`.
pub open spec fn ws_start(s: Seq<char>, i: int) -> int
    decreases s.len() - i,
{
    if 0 <= i < s.len() && is_white_space(s[i]) {
        ws_start(s, i + 1)
    } else {
        i
    }
}

/// One past the last non-whitespace character strictly before `i`.
pub open spec fn ws_end(s: Seq<char>, i: int) -> int
    decreases i,
{
    if 0 < i <= s.len() && is_white_space(s[i - 1]) {
        ws_end(s, i - 1)
    } else {
        i
    }
}

/// What `str::trim` leaves: the text with leading and trailing whitespace
/// removed.
pub open spec fn trim_of(s: Seq<char>) -> Seq<char> {
    let a = ws_start(s, 0);
    if a == s.len() {
        Seq::empty()
    } else {
        s.subrange(a, ws_end(s, s.len() as int))
    }
}

proof fn lemma_ws_start_bounds(s: Seq<char>, i: int)
    requires
        0 <= i <= s.len(),
    ensures
        i <= ws_start(s, i) <= s.len(),
        forall|k: int| i <= k < ws_start(s, i) ==> is_white_space(#[trigger] s[k]),
        ws_start(s, i) < s.len() ==> !is_white_space(s[ws_start(s, i)]),
    decreases s.len() - i,
{
    if i < s.len() && is_white_space(s[i]) {
        lemma_ws_start_bounds(s, i + 1);
    }
}

/// When some character at or after `a` is not whitespace, the right trim
/// stops strictly after `a`.
proof fn lemma_ws_end_above(s: Seq<char>, a: int, i: int)
    requires
        0 <= a < i <= s.len(),
        !is_white_space(s[a]),
    ensures
        ws_end(s, i) > a,
    decreases i,
{
    if is_white_space(s[i - 1]) {
        lemma_ws_end_above(s, a, i - 1);
    }
}

pub fn trim_chars(v: &Vec<char>) -> (r: Vec<char>)
    ensures
        r@ == trim_of(v@),
{
    proof {
        lemma_ws_start_bounds(v@, 0);
    }
    let mut a: usize = 0;
    while a < v.len() && white_space_char(v[a])
        invariant
            a <= v@.len(),
            ws_start(v@, 0) == ws_start(v@, a as int),
        decreases v@.len() - a,
    {
        a = a + 1;
    }
    assert(ws_start(v@, a as int) == a as int);
    if a == v.len() {
        let r: Vec<char> = Vec::new();
        assert(r@ =~= trim_of(v@));
        return r;
    }
    proof {
        lemma_ws_end_above(v@, a as int, v@.len() as int);
    }
    let mut b: usize = v.len();
    while white_space_char(v[b - 1])
        invariant
            a < b <= v@.len(),
            !is_white_space(v@[a as int]),
            ws_end(v@, v@.len() as int) == ws_end(v@, b as int),
            ws_end(v@, b as int) > a,
        decreases b,
    {
        proof {
            lemma_ws_end_above(v@, a as int, b - 1);
        }
        b = b - 1;
    }
    assert(ws_end(v@, b as int) == b as int);
    sub_chars(v, a, b)
}

// ---------------------------------------------------------------------------
// Digit runs and their numeric value
// ---------------------------------------------------------------------------

/// Index of the first character at or after `i` that is not an ASCII digit.
pub open spec fn digit_run_end(s: Seq<char>, i: int) -> int
    decreases s.len() - i,
{
    if 0 <= i < s.len() && is_ascii_digit(s[i]) {
        digit_run_end(s, i + 1)
    } else {
        i
    }
}

pub proof fn lemma_digit_run_bounds(s: Seq<char>, i: int)
    requires
        0 <= i <= s.len(),
    ensures
        i <= digit_run_end(s, i) <= s.len(),
        forall|k: int| i <= k < digit_run_end(s, i) ==> is_ascii_digit(#[trigger] s[k]),
        digit_run_end(s, i) < s.len() ==> !is_ascii_digit(s[digit_run_end(s, i)]),
    decreases s.len() - i,
{
    if i < s.len() && is_ascii_digit(s[i]) {
        lemma_digit_run_bounds(s, i + 1);
    }
}

/// Scan forward from `i` to the end of the run of ASCII digits.
pub fn find_digit_run_end(v: &Vec<char>, i: usize) -> (r: usize)
    requires
        i <= v@.len(),
    ensures
        r == digit_run_end(v@, i as int),
        i <= r <= v@.len(),
{
    proof {
        lemma_digit_run_bounds(v@, i as int);
    }
    let mut j: usize = i;
    while j < v.len() && digit_char(v[j])
        invariant
            i <= j <= v@.len(),
            digit_run_end(v@, i as int) == digit_run_end(v@, j as int),
        decreases v@.len() - j,
    {
        j = j + 1;
    }
    assert(digit_run_end(v@, j as int) == j as int);
    j
}

/// The numeric value of a sequence of ASCII digits, most significant first.
pub open spec fn digits_val(s: Seq<char>) -> int
    decreases s.len(),
{
    if s.len() == 0 {
        0
    } else {
        digits_val(s.drop_last()) * 10 + digit_val(s.last())
    }
}

pub proof fn lemma_digits_val_nonneg(s: Seq<char>)
    requires
        forall|k: int| 0 <= k < s.len() ==> is_ascii_digit(#[trigger] s[k]),
    ensures
        digits_val(s) >= 0,
    decreases s.len(),
{
    if s.len() > 0 {
        lemma_digits_val_nonneg(s.drop_last());
    }
}

/// The value of the digit run `v[lo..hi]`, capped: `Some` of the value when
/// it is at most 255, `None` otherwise.
pub fn digits_to_u8(v: &Vec<char>, lo: usize, hi: usize) -> (r: Option<u8>)
    requires
        lo <= hi <= v@.len(),
        forall|k: int| lo <= k < hi ==> is_ascii_digit(#[trigger] v@[k]),
    ensures
        digits_val(v@.subrange(lo as int, hi as int)) <= 255 ==> r == Some(
            digits_val(v@.subrange(lo as int, hi as int)) as u8,
        ),
        digits_val(v@.subrange(lo as int, hi as int)) > 255 ==> r is None,
{
    let ghost s = v@.subrange(lo as int, hi as int);
    proof {
        lemma_digits_val_nonneg(s);
    }
    let mut acc: u32 = 0;
    let mut i: usize = lo;
    while i < hi
        invariant
            lo <= i <= hi <= v@.len(),
            s == v@.subrange(lo as int, hi as int),
            forall|k: int| lo <= k < hi ==> is_ascii_digit(#[trigger] v@[k]),
            digits_val(s.subrange(0, i - lo)) <= 255 ==> acc == digits_val(
                s.subrange(0, i - lo),
            ),
            digits_val(s.subrange(0, i - lo)) > 255 ==> acc == 300,
            acc <= 300,
        decreases hi - i,
    {
        let ghost pre = s.subrange(0, i - lo);
        let ghost pre1 = s.subrange(0, i + 1 - lo);
        proof {
            assert(pre1.drop_last() =~= pre);
            assert(pre1.last() == v@[i as int]);
            lemma_digits_val_nonneg(pre);
        }
        let d: u32 = (v[i] as u32) - 0x30;
        let next: u32 = acc * 10 + d;
        if next > 255 {
            acc = 300;
        } else {
            acc = next;
        }
        i = i + 1;
    }
    assert(s.subrange(0, hi - lo) =~= s);
    if acc > 255 {
        None
    } else {
        Some(acc as u8)
    }
}

} // verus!
