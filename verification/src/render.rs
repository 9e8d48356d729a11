//! Rendering helper: turning a Markdown-style link inside an action's text
//! into an HTML anchor.
//!
//! The pattern is the greedy match of `(.*)\[(.*)\]\((.*)\)(.*)` over the
//! whole text: the `](` chosen is the last position that still leaves a
//! closing parenthesis behind it, the `[` is the last one before it, and
//! the `)` is the last one in the text.  A text without the pattern is
//! returned unchanged.

use vstd::prelude::*;
use crate::classify::{rfind_spec, rfind_char};
use crate::text::{str_chars, chars_string};

verus! {

/// Position `j` can serve as the `](` of a link: a `]` directly followed by
/// `(`, with some `)` at least two places further right.
pub open spec fn is_link_mid(s: Seq<char>, j: int) -> bool {
    0 <= j && j + 1 < s.len() && s[j] == ']' && s[j + 1] == '(' && rfind_spec(s, ')') >= j + 2
}

/// The largest `j < i` with `is_link_mid`, or -1.
pub open spec fn last_mid_before(s: Seq<char>, i: int) -> int
    decreases i,
{
    if i <= 0 {
        -1
    } else if is_link_mid(s, i - 1) {
        i - 1
    } else {
        last_mid_before(s, i - 1)
    }
}

/// The largest position of `[` strictly before `i`, or -1.
pub open spec fn last_bracket_before(s: Seq<char>, i: int) -> int
    decreases i,
{
    if i <= 0 {
        -1
    } else if s[i - 1] == '[' {
        i - 1
    } else {
        last_bracket_before(s, i - 1)
    }
}

/// The split positions of the greedy link match: the `[`, the `]` of `](`,
/// and the final `)`.
pub open spec fn md_link_parts(s: Seq<char>) -> Option<(int, int, int)> {
    let j = last_mid_before(s, s.len() as int);
    if j < 0 {
        None
    } else {
        let i = last_bracket_before(s, j);
        if i < 0 {
            None
        } else {
            Some((i, j, rfind_spec(s, ')')))
        }
    }
}

/// The rendered text: the link label wrapped in an HTML anchor when the
/// pattern matches, the text unchanged otherwise.
pub open spec fn md_link_of(s: Seq<char>) -> Seq<char> {
    match md_link_parts(s) {
        None => s,
        Some((i, j, k)) => s.subrange(0, i) + "<a href='"@ + s.subrange(j + 2, k) + "'>"@
            + s.subrange(i + 1, j) + "</a>"@ + s.subrange(k + 1, s.len() as int),
    }
}

fn append_chars(dst: &mut Vec<char>, src: &Vec<char>)
    ensures
        final(dst)@ == old(dst)@ + src@,
{
    let mut i: usize = 0;
    while i < src.len()
        invariant
            i <= src@.len(),
            dst@ == old(dst)@ + src@.take(i as int),
        decreases src@.len() - i,
    {
        dst.push(src[i]);
        assert(old(dst)@ + src@.take(i + 1) =~= (old(dst)@ + src@.take(i as int)).push(
            src@[i as int],
        ));
        i = i + 1;
    }
    assert(src@.take(src@.len() as int) =~= src@);
}

proof fn lemma_last_mid_is_mid(s: Seq<char>, i: int)
    requires
        last_mid_before(s, i) >= 0,
    ensures
        is_link_mid(s, last_mid_before(s, i)),
        last_mid_before(s, i) < i,
    decreases i,
{
    if i > 0 && !is_link_mid(s, i - 1) {
        lemma_last_mid_is_mid(s, i - 1);
    }
}

proof fn lemma_last_bracket_is_bracket(s: Seq<char>, i: int)
    requires
        last_bracket_before(s, i) >= 0,
    ensures
        s[last_bracket_before(s, i)] == '[',
        last_bracket_before(s, i) < i,
    decreases i,
{
    if i > 0 && s[i - 1] != '[' {
        lemma_last_bracket_is_bracket(s, i - 1);
    }
}

fn is_link_mid_at(v: &Vec<char>, j: usize, rparen: &Option<usize>) -> (r: bool)
    requires
        j < v@.len(),
        match rparen {
            Some(p) => rfind_spec(v@, ')') == *p as int && (*p as int) < v@.len(),
            None => rfind_spec(v@, ')') == -1,
        },
    ensures
        r == is_link_mid(v@, j as int),
{
    let n = v.len();
    if j + 1 >= n {
        return false;
    }
    if v[j] != ']' || v[j + 1] != '(' {
        return false;
    }
    match rparen {
        Some(p) => *p >= j + 2,
        None => false,
    }
}

fn find_last_mid(v: &Vec<char>, rparen: &Option<usize>) -> (r: Option<usize>)
    requires
        match rparen {
            Some(p) => rfind_spec(v@, ')') == *p as int && (*p as int) < v@.len(),
            None => rfind_spec(v@, ')') == -1,
        },
    ensures
        match r {
            Some(j) => last_mid_before(v@, v@.len() as int) == j as int && (j as int) < v@.len(),
            None => last_mid_before(v@, v@.len() as int) == -1,
        },
{
    let mut i: usize = v.len();
    loop
        invariant
            i <= v@.len(),
            match rparen {
                Some(p) => rfind_spec(v@, ')') == *p as int && (*p as int) < v@.len(),
                None => rfind_spec(v@, ')') == -1,
            },
            last_mid_before(v@, v@.len() as int) == last_mid_before(v@, i as int),
        decreases i,
    {
        if i == 0 {
            return None;
        }
        if is_link_mid_at(v, i - 1, rparen) {
            return Some(i - 1);
        }
        i = i - 1;
    }
}

fn find_last_bracket_before(v: &Vec<char>, j: usize) -> (r: Option<usize>)
    requires
        j <= v@.len(),
    ensures
        match r {
            Some(i) => last_bracket_before(v@, j as int) == i as int && (i as int) < j as int,
            None => last_bracket_before(v@, j as int) == -1,
        },
{
    let mut i: usize = j;
    loop
        invariant
            i <= j <= v@.len(),
            last_bracket_before(v@, j as int) == last_bracket_before(v@, i as int),
        decreases i,
    {
        if i == 0 {
            return None;
        }
        if v[i - 1] == '[' {
            return Some(i - 1);
        }
        i = i - 1;
    }
}

/// Render one action text for HTML output, turning a Markdown link
/// `[label](url)` into an anchor.
pub fn parse_md_link(text: &str) -> (r: String)
    ensures
        r@ == md_link_of(text@),
{
    let v = str_chars(text);
    let rparen = rfind_char(&v, ')');
    let mid = find_last_mid(&v, &rparen);
    let j = match mid {
        Some(j) => j,
        None => {
            return text.to_owned();
        },
    };
    let i = match find_last_bracket_before(&v, j) {
        Some(i) => i,
        None => {
            return text.to_owned();
        },
    };
    proof {
        lemma_last_mid_is_mid(v@, v@.len() as int);
        lemma_last_bracket_is_bracket(v@, j as int);
        assert(is_link_mid(v@, j as int));
    }
    let k = match rparen {
        Some(k) => k,
        None => {
            proof {
                assert(false);
            }
            0
        },
    };
    proof {
        assert(k as int >= j + 2);
    }
    let mut out: Vec<char> = Vec::new();
    let pre = crate::text::sub_chars(&v, 0, i);
    append_chars(&mut out, &pre);
    let open_tag = str_chars("<a href='");
    append_chars(&mut out, &open_tag);
    let url = crate::text::sub_chars(&v, j + 2, k);
    append_chars(&mut out, &url);
    let close_quote = str_chars("'>");
    append_chars(&mut out, &close_quote);
    let label = crate::text::sub_chars(&v, i + 1, j);
    append_chars(&mut out, &label);
    let end_tag = str_chars("</a>");
    append_chars(&mut out, &end_tag);
    let post = crate::text::sub_chars(&v, k + 1, v.len());
    append_chars(&mut out, &post);
    chars_string(&out)
}

} // verus!
