//! Laws of the converter, stated and proved over the specification
//! functions: per-line heading output, inline-transformation identity on
//! plain text, list grouping and kind switching, code-fence passthrough,
//! image-before-link precedence, and end-of-document cleanup.

use vstd::prelude::*;

use crate::blocks::ConvState;
use crate::blocks::ListKind;
use crate::blocks::conv_lines_from;
use crate::blocks::fence_lang;
use crate::blocks::hash_count;
use crate::blocks::heading_content;
use crate::blocks::heading_frag;
use crate::blocks::h_close;
use crate::blocks::h_open;
use crate::blocks::html_of;
use crate::blocks::html_of_lines;
use crate::blocks::init_state;
use crate::blocks::is_fence;
use crate::blocks::is_heading;
use crate::blocks::is_noise_line;
use crate::blocks::is_ordered_item;
use crate::blocks::is_paragraph_line;
use crate::blocks::is_table_row;
use crate::blocks::is_unordered_item;
use crate::blocks::line_step;
use crate::blocks::list_close_frag;
use crate::blocks::nl;
use crate::blocks::ordered_content;
use crate::blocks::table_close_frag;
use crate::blocks::unordered_content;
use crate::blocks::ws_count;
use crate::inline::spec_inline;
use crate::inline::sub_image;
use crate::inline::sub_bracket_from;
use crate::inline::sub_pair_from;
use crate::text::find_from;
use crate::text::is_space_char;
use crate::text::is_digit_char;
use crate::text::lemma_digit_end;
use crate::text::lemma_find_from;
use crate::text::lemma_find_from_is;
use crate::text::lemma_hash_end;
use crate::text::lemma_space_end;
use crate::text::occurs_at;
use crate::text::spec_lines;

verus! {

/// A pattern whose first character never occurs in `s` is not found in `s`.
pub proof fn lemma_find_absent(s: Seq<char>, p: Seq<char>, from: int)
    requires
        0 <= from,
        p.len() >= 1,
        forall|i: int| 0 <= i < s.len() ==> s[i] != p[0],
    ensures
        find_from(s, p, from) is None,
{
    lemma_find_from(s, p, from);
    match find_from(s, p, from) {
        Some(i) => {
            assert(s.subrange(i, i + p.len() as int)[0] == s[i]);
        },
        None => {},
    }
}

/// Text with no Markdown inline syntax: none of the characters that begin a
/// bold, italic, inline-code, image or link pattern.
pub open spec fn no_inline_syntax(s: Seq<char>) -> bool {
    forall|i: int|
        0 <= i < s.len() ==> s[i] != '*' && s[i] != '`' && s[i] != '[' && s[i] != '!'
}

/// A paired-delimiter substitution whose delimiter's first character does
/// not occur in `s` leaves `s` unchanged.
proof fn lemma_sub_pair_identity(s: Seq<char>, d: Seq<char>, open: Seq<char>, close: Seq<char>)
    requires
        d.len() >= 1,
        forall|i: int| 0 <= i < s.len() ==> s[i] != d[0],
    ensures
        sub_pair_from(s, d, open, close, 0) == s,
{
    lemma_find_absent(s, d, 0);
    assert(s.subrange(0, s.len() as int) =~= s);
}

/// A bracket substitution whose opener's first character does not occur in
/// `s` leaves `s` unchanged.
proof fn lemma_sub_bracket_identity(
    s: Seq<char>,
    opener: Seq<char>,
    p1: Seq<char>,
    p2: Seq<char>,
    p3: Seq<char>,
)
    requires
        opener.len() >= 1,
        forall|i: int| 0 <= i < s.len() ==> s[i] != opener[0],
    ensures
        sub_bracket_from(s, opener, p1, p2, p3, 0) == s,
{
    lemma_find_absent(s, opener, 0);
    assert(s.subrange(0, s.len() as int) =~= s);
}

/// Inline transformation is the identity on text with no Markdown inline
/// syntax: such text is only wrapped in its block tag, never rewritten.
pub proof fn lemma_inline_identity(s: Seq<char>)
    requires
        no_inline_syntax(s),
    ensures
        spec_inline(s) == s,
{
    lemma_sub_pair_identity(s, seq!['*', '*'], "<strong>"@, "</strong>"@);
    lemma_sub_pair_identity(s, seq!['*'], "<em>"@, "</em>"@);
    lemma_sub_pair_identity(s, seq!['`'], "<code>"@, "</code>"@);
    lemma_sub_bracket_identity(s, seq!['!', '['], "<img src=\""@, "\" alt=\""@, "\">"@);
    lemma_sub_bracket_identity(s, seq!['['], "<a href=\""@, "\">"@, "</a>"@);
}

/// Each heading line emits exactly one heading element — its level's opening
/// tag, the inline-transformed content, the matching closing tag — and
/// leaves the block state untouched; the level is the number of leading `#`
/// characters, between one and six.
pub proof fn lemma_heading_line(st: ConvState, l: Seq<char>)
    requires
        !is_noise_line(l),
        is_heading(l),
    ensures
        1 <= hash_count(l) <= 6,
        line_step(st, l).0 == h_open(hash_count(l)) + spec_inline(heading_content(l)) + h_close(
            hash_count(l),
        ) + nl(),
        line_step(st, l).1 == st,
{
    assert(line_step(st, l).0 == heading_frag(l));
}

/// An ordered-list line arriving while an unordered list is open closes the
/// `<ul>` before opening the `<ol>`.
pub proof fn lemma_list_kind_switch(st: ConvState, l: Seq<char>)
    requires
        !is_noise_line(l),
        is_ordered_item(l),
        !st.in_code_fence,
        st.open_list == Some(ListKind::Unordered),
    ensures
        line_step(st, l).0 == "</ul>"@ + nl() + "<ol>"@ + nl() + "<li>"@ + spec_inline(
            ordered_content(l),
        ) + "</li>"@ + nl(),
        line_step(st, l).1.open_list == Some(ListKind::Ordered),
{
    lemma_ordered_item_priority(l);
    assert(line_step(st, l).0 =~= "</ul>"@ + nl() + "<ol>"@ + nl() + "<li>"@ + spec_inline(
        ordered_content(l),
    ) + "</li>"@ + nl());
}

/// An ordered list item line is classified as nothing that outranks it: it
/// is no heading, no fence delimiter, and no table row.
proof fn lemma_ordered_item_priority(l: Seq<char>)
    requires
        is_ordered_item(l),
    ensures
        !is_heading(l),
        !is_fence(l),
        !is_table_row(l),
{
    lemma_space_end(l, 0);
    lemma_digit_end(l, ws_count(l));
    let w = ws_count(l);
    assert(is_digit_char(l[w]));
    assert(l[0] != '#' && l[0] != '`') by {
        if w == 0 {
        } else {
            assert(is_space_char(l[0]));
        }
    }
    assert(!is_heading(l)) by {
        lemma_hash_end(l, 0);
        if hash_count(l) >= 1 {
            assert(l[0] == '#');
        }
    }
    assert(!is_fence(l)) by {
        if is_fence(l) {
            assert(l.subrange(0, 3)[0] == l[0]);
        }
    }
}

/// An unordered list item line is classified as nothing that outranks it:
/// no heading, no fence delimiter, no table row, no ordered item.
proof fn lemma_unordered_item_priority(l: Seq<char>)
    requires
        is_unordered_item(l),
    ensures
        !is_heading(l),
        !is_fence(l),
        !is_table_row(l),
        !is_ordered_item(l),
{
    lemma_space_end(l, 0);
    let w = ws_count(l);
    assert(l[w] == '-' || l[w] == '*');
    assert(l[0] != '#' && l[0] != '`') by {
        if w == 0 {
        } else {
            assert(is_space_char(l[0]));
        }
    }
    assert(!is_heading(l)) by {
        lemma_hash_end(l, 0);
        if hash_count(l) >= 1 {
            assert(l[0] == '#');
        }
    }
    assert(!is_fence(l)) by {
        if is_fence(l) {
            assert(l.subrange(0, 3)[0] == l[0]);
        }
    }
    assert(!is_ordered_item(l)) by {
        lemma_digit_end(l, w);
        if is_ordered_item(l) {
            assert(is_digit_char(l[w]));
        }
    }
}

/// The `<li>` fragments of the unordered-item lines in `[k, end)`.
pub open spec fn li_items(lines: Seq<Seq<char>>, k: int, end: int) -> Seq<char>
    decreases end - k,
    when 0 <= k
{
    if k >= end {
        Seq::empty()
    } else {
        "<li>"@ + spec_inline(unordered_content(lines[k])) + "</li>"@ + nl() + li_items(
            lines,
            k + 1,
            end,
        )
    }
}

/// While an unordered list is open, a run of unordered item lines emits
/// exactly one `<li>` per line and leaves the state untouched.
proof fn lemma_ul_run(lines: Seq<Seq<char>>, st: ConvState, k: int, end: int)
    requires
        0 <= k <= end <= lines.len(),
        !st.in_code_fence,
        st.open_list == Some(ListKind::Unordered),
        forall|j: int|
            k <= j < end ==> is_unordered_item(#[trigger] lines[j]) && !is_noise_line(lines[j]),
    ensures
        conv_lines_from(lines, st, k).0 == li_items(lines, k, end) + conv_lines_from(
            lines,
            st,
            end,
        ).0,
        conv_lines_from(lines, st, k).1 == conv_lines_from(lines, st, end).1,
    decreases end - k,
{
    if k >= end {
        assert(conv_lines_from(lines, st, k).0 =~= li_items(lines, k, end) + conv_lines_from(
            lines,
            st,
            end,
        ).0);
    } else {
        lemma_unordered_item_priority(lines[k]);
        let step = line_step(st, lines[k]);
        assert(step.1 == st);
        assert(step.0 =~= "<li>"@ + spec_inline(unordered_content(lines[k])) + "</li>"@ + nl());
        lemma_ul_run(lines, st, k + 1, end);
        assert(conv_lines_from(lines, st, k).0 =~= li_items(lines, k, end) + conv_lines_from(
            lines,
            st,
            end,
        ).0);
    }
}

/// List grouping at document end: two or more consecutive unordered-list
/// lines produce exactly one opening `<ul>`, one `<li>` per line, and one
/// closing `</ul>` as the final output.
pub proof fn lemma_list_grouping_at_end(lines: Seq<Seq<char>>)
    requires
        lines.len() >= 2,
        forall|j: int|
            0 <= j < lines.len() ==> is_unordered_item(#[trigger] lines[j]) && !is_noise_line(
                lines[j],
            ),
    ensures
        html_of_lines(lines) == "<ul>"@ + nl() + li_items(lines, 0, lines.len() as int) + "</ul>"@
            + nl(),
{
    lemma_unordered_item_priority(lines[0]);
    let st0 = init_state();
    let step = line_step(st0, lines[0]);
    let st1 = step.1;
    assert(step.0 =~= "<ul>"@ + nl() + ("<li>"@ + spec_inline(unordered_content(lines[0]))
        + "</li>"@ + nl()));
    lemma_ul_run(lines, st1, 1, lines.len() as int);
    assert(html_of_lines(lines) =~= "<ul>"@ + nl() + li_items(lines, 0, lines.len() as int)
        + "</ul>"@ + nl());
}

/// List grouping before a paragraph: the closing `</ul>` appears immediately
/// after the last consecutive list item, before the next non-list line's
/// output.
#[verifier::rlimit(60)]
pub proof fn lemma_list_grouping_before_paragraph(lines: Seq<Seq<char>>)
    requires
        lines.len() >= 3,
        forall|j: int|
            0 <= j < lines.len() - 1 ==> is_unordered_item(#[trigger] lines[j]) && !is_noise_line(
                lines[j],
            ),
        is_paragraph_line(lines[lines.len() - 1]),
    ensures
        html_of_lines(lines) == "<ul>"@ + nl() + li_items(lines, 0, lines.len() - 1) + "</ul>"@
            + nl() + "<p>"@ + spec_inline(lines[lines.len() - 1]) + "</p>"@ + nl(),
{
    lemma_unordered_item_priority(lines[0]);
    let st0 = init_state();
    let step = line_step(st0, lines[0]);
    let st1 = step.1;
    assert(step.0 =~= "<ul>"@ + nl() + ("<li>"@ + spec_inline(unordered_content(lines[0]))
        + "</li>"@ + nl()));
    lemma_ul_run(lines, st1, 1, lines.len() - 1);
    let last = lines[lines.len() - 1];
    let pstep = line_step(st1, last);
    assert(pstep.0 =~= "</ul>"@ + nl() + "<p>"@ + spec_inline(last) + "</p>"@ + nl());
    assert(conv_lines_from(lines, pstep.1, lines.len() as int) == (Seq::<char>::empty(), pstep.1));
    assert(conv_lines_from(lines, st1, lines.len() - 1).0 =~= pstep.0);
    assert(html_of_lines(lines) =~= "<ul>"@ + nl() + li_items(lines, 0, lines.len() - 1) + "</ul>"@
        + nl() + "<p>"@ + spec_inline(last) + "</p>"@ + nl());
}

/// The body lines of a fenced code block, each followed by a newline.
pub open spec fn raw_lines(lines: Seq<Seq<char>>, k: int, end: int) -> Seq<char>
    decreases end - k,
    when 0 <= k
{
    if k >= end {
        Seq::empty()
    } else {
        lines[k] + nl() + raw_lines(lines, k + 1, end)
    }
}

/// A fence delimiter line is no heading.
proof fn lemma_fence_priority(l: Seq<char>)
    requires
        is_fence(l),
    ensures
        !is_heading(l),
{
    assert(l.subrange(0, 3)[0] == l[0]);
    lemma_hash_end(l, 0);
    if hash_count(l) >= 1 {
        assert(l[0] == '#');
    }
}

/// While a code fence is open, every line that is no fence delimiter (and no
/// heading, which outranks the fence check, and no noise) passes through
/// verbatim, and the state does not change.
proof fn lemma_code_run(lines: Seq<Seq<char>>, st: ConvState, k: int, end: int)
    requires
        0 <= k <= end <= lines.len(),
        st.in_code_fence,
        forall|j: int|
            k <= j < end ==> !is_noise_line(#[trigger] lines[j]) && !is_heading(lines[j])
                && !is_fence(lines[j]),
    ensures
        conv_lines_from(lines, st, k).0 == raw_lines(lines, k, end) + conv_lines_from(
            lines,
            st,
            end,
        ).0,
        conv_lines_from(lines, st, k).1 == conv_lines_from(lines, st, end).1,
    decreases end - k,
{
    if k >= end {
        assert(conv_lines_from(lines, st, k).0 =~= raw_lines(lines, k, end) + conv_lines_from(
            lines,
            st,
            end,
        ).0);
    } else {
        lemma_code_run(lines, st, k + 1, end);
        assert(conv_lines_from(lines, st, k).0 =~= raw_lines(lines, k, end) + conv_lines_from(
            lines,
            st,
            end,
        ).0);
    }
}

/// Code fence passthrough: the text between a fence-opening line and the
/// matching closing line is emitted verbatim, with no inline substitution,
/// wrapped in the fence's `<pre><code>` element.
pub proof fn lemma_code_fence_passthrough(lines: Seq<Seq<char>>)
    requires
        lines.len() >= 2,
        !is_noise_line(lines[0]),
        is_fence(lines[0]),
        !is_noise_line(lines[lines.len() - 1]),
        is_fence(lines[lines.len() - 1]),
        forall|j: int|
            1 <= j < lines.len() - 1 ==> !is_noise_line(#[trigger] lines[j]) && !is_heading(
                lines[j],
            ) && !is_fence(lines[j]),
    ensures
        html_of_lines(lines) == "<pre><code class=\"language-"@ + fence_lang(lines[0]) + "\">"@
            + nl() + raw_lines(lines, 1, lines.len() - 1) + "</code></pre>"@ + nl(),
{
    lemma_fence_priority(lines[0]);
    lemma_fence_priority(lines[lines.len() - 1]);
    let st0 = init_state();
    let step = line_step(st0, lines[0]);
    let st1 = step.1;
    lemma_code_run(lines, st1, 1, lines.len() - 1);
    let cstep = line_step(st1, lines[lines.len() - 1]);
    assert(conv_lines_from(lines, cstep.1, lines.len() as int) == (Seq::<char>::empty(), cstep.1));
    assert(conv_lines_from(lines, st1, lines.len() - 1).0 =~= cstep.0);
    assert(html_of_lines(lines) =~= "<pre><code class=\"language-"@ + fence_lang(lines[0]) + "\">"@
        + nl() + raw_lines(lines, 1, lines.len() - 1) + "</code></pre>"@ + nl());
}

/// Text that contains none of the characters taking part in any inline
/// pattern.
pub open spec fn no_inline_chars(s: Seq<char>) -> bool {
    forall|i: int|
        0 <= i < s.len() ==> s[i] != '*' && s[i] != '`' && s[i] != '[' && s[i] != ']' && s[i]
            != '(' && s[i] != ')' && s[i] != '!'
}

/// Image-before-link precedence: image syntax becomes an `<img>` element and
/// never an `<a>` element, because the image substitution runs before the
/// link substitution and its output holds no link syntax.
#[verifier::rlimit(60)]
pub proof fn lemma_image_before_link(alt: Seq<char>, src: Seq<char>)
    requires
        no_inline_chars(alt),
        no_inline_chars(src),
    ensures
        spec_inline(seq!['!', '['] + alt + seq![']', '('] + src + seq![')']) == "<img src=\""@
            + src + "\" alt=\""@ + alt + "\">"@,
{
    let s = seq!['!', '['] + alt + seq![']', '('] + src + seq![')'];
    let al = alt.len() as int;
    let sl = src.len() as int;
    assert(s.len() == al + sl + 5);
    assert(s[0] == '!');
    assert(s[1] == '[');
    assert forall|i: int| 2 <= i < 2 + al implies s[i] == alt[i - 2] by {}
    assert(s[2 + al] == ']');
    assert(s[3 + al] == '(');
    assert forall|i: int| 4 + al <= i < 4 + al + sl implies s[i] == src[i - 4 - al] by {}
    assert(s[4 + al + sl] == ')');
    assert forall|i: int| 0 <= i < s.len() implies s[i] != '*' && s[i] != '`' by {}
    lemma_sub_pair_identity(s, seq!['*', '*'], "<strong>"@, "</strong>"@);
    lemma_sub_pair_identity(s, seq!['*'], "<em>"@, "</em>"@);
    lemma_sub_pair_identity(s, seq!['`'], "<code>"@, "</code>"@);
    let opener = seq!['!', '['];
    let mid = seq![']', '('];
    let closer = seq![')'];
    assert(occurs_at(s, opener, 0)) by {
        assert(s.subrange(0, 2) =~= opener);
    }
    lemma_find_from_is(s, opener, 0, 0);
    assert(occurs_at(s, mid, 2 + al)) by {
        assert(s.subrange(2 + al, 4 + al) =~= mid);
    }
    assert forall|k: int| 2 <= k < 2 + al implies !occurs_at(s, mid, k) by {
        if occurs_at(s, mid, k) {
            assert(s.subrange(k, k + 2)[0] == s[k]);
        }
    }
    lemma_find_from_is(s, mid, 2, 2 + al);
    assert(occurs_at(s, closer, 4 + al + sl)) by {
        assert(s.subrange(4 + al + sl, 5 + al + sl) =~= closer);
    }
    assert forall|k: int| 4 + al <= k < 4 + al + sl implies !occurs_at(s, closer, k) by {
        if occurs_at(s, closer, k) {
            assert(s.subrange(k, k + 1)[0] == s[k]);
        }
    }
    lemma_find_from_is(s, closer, 4 + al, 4 + al + sl);
    let p1 = "<img src=\""@;
    let p2 = "\" alt=\""@;
    let p3 = "\">"@;
    let r = sub_image(s);
    assert(s.subrange(4 + al, 4 + al + sl) =~= src);
    assert(s.subrange(2, 2 + al) =~= alt);
    assert(s.subrange(0, 0) =~= Seq::<char>::empty());
    assert(sub_bracket_from(s, opener, p1, p2, p3, 4 + al + sl + 1) =~= Seq::<char>::empty());
    assert(r =~= p1 + src + p2 + alt + p3);
    reveal_strlit("<img src=\"");
    reveal_strlit("\" alt=\"");
    reveal_strlit("\">");
    assert(p1 =~= seq!['<', 'i', 'm', 'g', ' ', 's', 'r', 'c', '=', '"']);
    assert(p2 =~= seq!['"', ' ', 'a', 'l', 't', '=', '"']);
    assert(p3 =~= seq!['"', '>']);
    assert forall|i: int| 0 <= i < r.len() implies r[i] != '[' by {
        if i < 10 {
            assert(r[i] == p1[i]);
        } else if i < 10 + sl {
            assert(r[i] == src[i - 10]);
        } else if i < 17 + sl {
            assert(r[i] == p2[i - 10 - sl]);
        } else if i < 17 + sl + al {
            assert(r[i] == alt[i - 17 - sl]);
        } else {
            assert(r[i] == p3[i - 17 - sl - al]);
        }
    }
    lemma_sub_bracket_identity(r, seq!['['], "<a href=\""@, "\">"@, "</a>"@);
}

/// End-of-document cleanup: the converted document is exactly the per-line
/// output followed by the closing tags owed to the final state — the closing
/// tag of an open list, then that of an open table — and nothing after them;
/// a state with nothing open owes nothing.
pub proof fn lemma_end_of_document_cleanup(doc: Seq<char>)
    ensures
        ({
            let r = conv_lines_from(spec_lines(doc), init_state(), 0);
            html_of(doc) == r.0 + list_close_frag(r.1) + table_close_frag(r.1)
        }),
        ({
            let r = conv_lines_from(spec_lines(doc), init_state(), 0);
            r.1.open_list is None && !r.1.open_table ==> html_of(doc) == r.0
        }),
{
    let r = conv_lines_from(spec_lines(doc), init_state(), 0);
    if r.1.open_list is None && !r.1.open_table {
        assert(r.0 + list_close_frag(r.1) + table_close_frag(r.1) =~= r.0);
    }
}

} // verus!
