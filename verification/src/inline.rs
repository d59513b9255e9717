//! The inline transformer: a pure function on line content that applies, in a
//! fixed order, bold, italic, inline-code, image and link substitutions.
//!
//! Each substitution replaces leftmost, non-overlapping, shortest-content
//! matches. The image substitution runs before the link substitution because
//! link syntax is a textual substring of image syntax.

use vstd::prelude::*;

use crate::text::find_from;
use crate::text::find_sub;
use crate::text::lemma_find_from;

verus! {

/// Replace every `d`...`d` pair (shortest content, leftmost first,
/// non-overlapping) in `s` at or after `pos` by `open` content `close`.
///
/// A match needs a delimiter occurrence `i` and a second occurrence `j` at or
/// after `i + d.len()`; with no second occurrence the rest of the text is
/// kept unchanged, since no later start can complete a match either.
pub open spec fn sub_pair_from(
    s: Seq<char>,
    d: Seq<char>,
    open: Seq<char>,
    close: Seq<char>,
    pos: int,
) -> Seq<char>
    decreases s.len() - pos,
    when 0 <= pos && d.len() >= 1
    via sub_pair_from_decreases
{
    match find_from(s, d, pos) {
        None => s.subrange(pos, s.len() as int),
        Some(i) => match find_from(s, d, i + d.len() as int) {
            None => s.subrange(pos, s.len() as int),
            Some(j) => s.subrange(pos, i) + open + s.subrange(i + d.len() as int, j) + close
                + sub_pair_from(s, d, open, close, j + d.len() as int),
        },
    }
}

#[via_fn]
proof fn sub_pair_from_decreases(
    s: Seq<char>,
    d: Seq<char>,
    open: Seq<char>,
    close: Seq<char>,
    pos: int,
) {
    lemma_find_from(s, d, pos);
    match find_from(s, d, pos) {
        Some(i) => {
            lemma_find_from(s, d, i + d.len() as int);
        },
        None => {},
    }
}

/// Replace every `opener`text`](`text`)` match in `s` at or after `pos` by
/// `p1` second-group `p2` first-group `p3`.
///
/// A match at opener occurrence `i` takes the first `](` at or after the
/// opener's end and the first `)` after that; if either is missing, no later
/// opener can complete a match either, and the rest is kept unchanged.
pub open spec fn sub_bracket_from(
    s: Seq<char>,
    opener: Seq<char>,
    p1: Seq<char>,
    p2: Seq<char>,
    p3: Seq<char>,
    pos: int,
) -> Seq<char>
    decreases s.len() - pos,
    when 0 <= pos && opener.len() >= 1
    via sub_bracket_from_decreases
{
    match find_from(s, opener, pos) {
        None => s.subrange(pos, s.len() as int),
        Some(i) => match find_from(s, seq![']', '('], i + opener.len() as int) {
            None => s.subrange(pos, s.len() as int),
            Some(a) => match find_from(s, seq![')'], a + 2) {
                None => s.subrange(pos, s.len() as int),
                Some(b) => s.subrange(pos, i) + p1 + s.subrange(a + 2, b) + p2 + s.subrange(
                    i + opener.len() as int,
                    a,
                ) + p3 + sub_bracket_from(s, opener, p1, p2, p3, b + 1),
            },
        },
    }
}

#[via_fn]
proof fn sub_bracket_from_decreases(
    s: Seq<char>,
    opener: Seq<char>,
    p1: Seq<char>,
    p2: Seq<char>,
    p3: Seq<char>,
    pos: int,
) {
    lemma_find_from(s, opener, pos);
    match find_from(s, opener, pos) {
        Some(i) => {
            lemma_find_from(s, seq![']', '('], i + opener.len() as int);
            match find_from(s, seq![']', '('], i + opener.len() as int) {
                Some(a) => {
                    lemma_find_from(s, seq![')'], a + 2);
                },
                None => {},
            }
        },
        None => {},
    }
}

/// Bold: `**content**` becomes `<strong>content</strong>`.
pub open spec fn sub_bold(s: Seq<char>) -> Seq<char> {
    sub_pair_from(s, seq!['*', '*'], "<strong>"@, "</strong>"@, 0)
}

/// Italic: `*content*` becomes `<em>content</em>`.
pub open spec fn sub_italic(s: Seq<char>) -> Seq<char> {
    sub_pair_from(s, seq!['*'], "<em>"@, "</em>"@, 0)
}

/// Inline code: `` `content` `` becomes `<code>content</code>`.
pub open spec fn sub_code(s: Seq<char>) -> Seq<char> {
    sub_pair_from(s, seq!['`'], "<code>"@, "</code>"@, 0)
}

/// Image: `![alt](src)` becomes `<img src="src" alt="alt">`.
pub open spec fn sub_image(s: Seq<char>) -> Seq<char> {
    sub_bracket_from(s, seq!['!', '['], "<img src=\""@, "\" alt=\""@, "\">"@, 0)
}

/// Link: `[text](href)` becomes `<a href="href">text</a>`.
pub open spec fn sub_link(s: Seq<char>) -> Seq<char> {
    sub_bracket_from(s, seq!['['], "<a href=\""@, "\">"@, "</a>"@, 0)
}

/// The whole inline pipeline, in its fixed order: bold, then italic, then
/// inline code, then image, then link.
pub open spec fn spec_inline(s: Seq<char>) -> Seq<char> {
    sub_link(sub_image(sub_code(sub_italic(sub_bold(s)))))
}

/// One paired-delimiter substitution pass over `s`.
fn apply_pair(s: &str, d: &str, open: &str, close: &str) -> (r: String)
    requires
        d@.len() >= 1,
    ensures
        r@ == sub_pair_from(s@, d@, open@, close@, 0),
{
    let slen: usize = s.unicode_len();
    let dlen: usize = d.unicode_len();
    let mut out = String::new();
    let mut pos: usize = 0;
    while pos < slen
        invariant
            0 <= pos <= slen,
            slen == s@.len(),
            dlen == d@.len(),
            dlen >= 1,
            sub_pair_from(s@, d@, open@, close@, 0) == out@ + sub_pair_from(
                s@,
                d@,
                open@,
                close@,
                pos as int,
            ),
        decreases slen - pos,
    {
        let ghost prev = out@;
        let mut done = false;
        match find_sub(s, d, pos) {
            Some(i) => {
                proof {
                    lemma_find_from(s@, d@, pos as int);
                }
                match find_sub(s, d, i + dlen) {
                    Some(j) => {
                        proof {
                            lemma_find_from(s@, d@, i + dlen);
                        }
                        out.append(s.substring_char(pos, i));
                        out.append(open);
                        out.append(s.substring_char(i + dlen, j));
                        out.append(close);
                        proof {
                            assert(out@ =~= prev + (s@.subrange(pos as int, i as int) + open@
                                + s@.subrange(i + dlen, j as int) + close@));
                            assert(prev + sub_pair_from(s@, d@, open@, close@, pos as int) =~= out@
                                + sub_pair_from(s@, d@, open@, close@, j + dlen));
                        }
                        pos = j + dlen;
                    },
                    None => {
                        out.append(s.substring_char(pos, slen));
                        done = true;
                    },
                }
            },
            None => {
                out.append(s.substring_char(pos, slen));
                done = true;
            },
        }
        if done {
            proof {
                assert(sub_pair_from(s@, d@, open@, close@, slen as int) =~= Seq::<char>::empty());
                assert(out@ =~= prev + sub_pair_from(s@, d@, open@, close@, pos as int));
                assert(prev + sub_pair_from(s@, d@, open@, close@, pos as int) =~= out@
                    + sub_pair_from(s@, d@, open@, close@, slen as int));
            }
            pos = slen;
        }
    }
    proof {
        assert(sub_pair_from(s@, d@, open@, close@, slen as int) =~= Seq::<char>::empty());
        assert(out@ =~= out@ + sub_pair_from(s@, d@, open@, close@, slen as int));
    }
    out
}

/// One bracket-pattern substitution pass over `s` (images and links).
fn apply_bracket(s: &str, opener: &str, p1: &str, p2: &str, p3: &str) -> (r: String)
    requires
        opener@.len() >= 1,
    ensures
        r@ == sub_bracket_from(s@, opener@, p1@, p2@, p3@, 0),
{
    proof {
        reveal_strlit("](");
        reveal_strlit(")");
        assert("]("@ =~= seq![']', '(']);
        assert(")"@ =~= seq![')']);
    }
    let slen: usize = s.unicode_len();
    let olen: usize = opener.unicode_len();
    let mut out = String::new();
    let mut pos: usize = 0;
    while pos < slen
        invariant
            0 <= pos <= slen,
            slen == s@.len(),
            olen == opener@.len(),
            olen >= 1,
            sub_bracket_from(s@, opener@, p1@, p2@, p3@, 0) == out@ + sub_bracket_from(
                s@,
                opener@,
                p1@,
                p2@,
                p3@,
                pos as int,
            ),
        decreases slen - pos,
    {
        let ghost prev = out@;
        proof {
            reveal_strlit("](");
            reveal_strlit(")");
            assert("]("@ =~= seq![']', '(']);
            assert(")"@ =~= seq![')']);
        }
        let mut done = false;
        let mut parts: Option<(usize, usize, usize)> = None;
        match find_sub(s, opener, pos) {
            Some(i) => {
                proof {
                    lemma_find_from(s@, opener@, pos as int);
                }
                match find_sub(s, "](", i + olen) {
                    Some(a) => {
                        proof {
                            lemma_find_from(s@, seq![']', '('], i + olen);
                        }
                        match find_sub(s, ")", a + 2) {
                            Some(b) => {
                                proof {
                                    lemma_find_from(s@, seq![')'], a + 2);
                                }
                                parts = Some((i, a, b));
                            },
                            None => {
                                done = true;
                            },
                        }
                    },
                    None => {
                        done = true;
                    },
                }
            },
            None => {
                done = true;
            },
        }
        match parts {
            Some((i, a, b)) => {
                out.append(s.substring_char(pos, i));
                out.append(p1);
                out.append(s.substring_char(a + 2, b));
                out.append(p2);
                out.append(s.substring_char(i + olen, a));
                out.append(p3);
                proof {
                    assert(out@ =~= prev + (s@.subrange(pos as int, i as int) + p1@ + s@.subrange(
                        a + 2,
                        b as int,
                    ) + p2@ + s@.subrange(i + olen, a as int) + p3@));
                    assert(prev + sub_bracket_from(s@, opener@, p1@, p2@, p3@, pos as int) =~= out@
                        + sub_bracket_from(s@, opener@, p1@, p2@, p3@, b + 1));
                }
                pos = b + 1;
            },
            None => {
                out.append(s.substring_char(pos, slen));
                proof {
                    assert(sub_bracket_from(s@, opener@, p1@, p2@, p3@, slen as int)
                        =~= Seq::<char>::empty());
                    assert(out@ =~= prev + sub_bracket_from(s@, opener@, p1@, p2@, p3@, pos as int));
                    assert(prev + sub_bracket_from(s@, opener@, p1@, p2@, p3@, pos as int) =~= out@
                        + sub_bracket_from(s@, opener@, p1@, p2@, p3@, slen as int));
                }
                pos = slen;
            },
        }
    }
    proof {
        assert(sub_bracket_from(s@, opener@, p1@, p2@, p3@, slen as int) =~= Seq::<char>::empty());
        assert(out@ =~= out@ + sub_bracket_from(s@, opener@, p1@, p2@, p3@, slen as int));
    }
    out
}

/// The inline transformer: applies the five substitutions in their fixed
/// order to one line of block content.
pub fn transform_inline(s: &str) -> (r: String)
    ensures
        r@ == spec_inline(s@),
{
    proof {
        reveal_strlit("**");
        reveal_strlit("*");
        reveal_strlit("`");
        reveal_strlit("![");
        reveal_strlit("[");
        assert("**"@ =~= seq!['*', '*']);
        assert("*"@ =~= seq!['*']);
        assert("`"@ =~= seq!['`']);
        assert("!["@ =~= seq!['!', '[']);
        assert("["@ =~= seq!['[']);
    }
    let bolded = apply_pair(s, "**", "<strong>", "</strong>");
    let emphasized = apply_pair(bolded.as_str(), "*", "<em>", "</em>");
    let coded = apply_pair(emphasized.as_str(), "`", "<code>", "</code>");
    let imaged = apply_bracket(coded.as_str(), "![", "<img src=\"", "\" alt=\"", "\">");
    let linked = apply_bracket(imaged.as_str(), "[", "<a href=\"", "\">", "</a>");
    linked
}

} // verus!
