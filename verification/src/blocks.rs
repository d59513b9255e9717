//! The block classifier and state machine: consumes the document one line at
//! a time, decides which block type each line belongs to (in a fixed priority
//! order), manages the open/close transitions of lists, tables and code
//! fences, and emits HTML fragments in strict input-line order.

use vstd::prelude::*;

use crate::inline::spec_inline;
use crate::inline::transform_inline;
use crate::text::contains_sub;
use crate::text::digit_end;
use crate::text::find_from;
use crate::text::find_sub;
use crate::text::hash_end;
use crate::text::is_space_char;
use crate::text::lemma_find_from;
use crate::text::lemma_space_end;
use crate::text::scan_digits;
use crate::text::scan_hashes;
use crate::text::scan_spaces;
use crate::text::space_char;
use crate::text::space_end;
use crate::text::space_start_back;
use crate::text::spec_contains;
use crate::text::spec_lines;
use crate::text::spec_trim;
use crate::text::split_lines;
use crate::text::trim_chars;

verus! {

/// The kind of an open list block.
#[derive(Clone, Copy, PartialEq, Eq, Structural)]
pub enum ListKind {
    Unordered,
    Ordered,
}

/// Cross-line state threaded through the line-by-line pass: the open list
/// kind if any (at most one list is open at a time), whether a table is open,
/// whether the next table row is still the header row, and whether a code
/// fence is open.
#[derive(Clone, Copy)]
pub struct ConvState {
    pub open_list: Option<ListKind>,
    pub open_table: bool,
    pub table_row_is_header: bool,
    pub in_code_fence: bool,
}

/// The state a conversion starts from: everything closed.
pub open spec fn init_state() -> ConvState {
    ConvState {
        open_list: None,
        open_table: false,
        table_row_is_header: false,
        in_code_fence: false,
    }
}

/// A line of known non-Markdown noise (editor/live-reload injected script
/// fragments), recognized by substring and skipped entirely.
pub open spec fn is_noise_line(l: Seq<char>) -> bool {
    spec_contains(l, "<![CDATA["@) || spec_contains(l, "WebSocket"@)
}

/// The number of leading `#` characters.
pub open spec fn hash_count(l: Seq<char>) -> int {
    hash_end(l, 0)
}

/// A heading line: one to six leading `#` characters followed by at least one
/// whitespace character.
pub open spec fn is_heading(l: Seq<char>) -> bool {
    let c = hash_count(l);
    1 <= c <= 6 && c < l.len() && is_space_char(l[c])
}

/// Heading content: the remainder after the `#` run and the whitespace run.
pub open spec fn heading_content(l: Seq<char>) -> Seq<char> {
    l.subrange(space_end(l, hash_count(l)), l.len() as int)
}

/// The opening tag for a heading of the given level.
pub open spec fn h_open(level: int) -> Seq<char> {
    if level == 1 {
        "<h1>"@
    } else if level == 2 {
        "<h2>"@
    } else if level == 3 {
        "<h3>"@
    } else if level == 4 {
        "<h4>"@
    } else if level == 5 {
        "<h5>"@
    } else {
        "<h6>"@
    }
}

/// The closing tag for a heading of the given level.
pub open spec fn h_close(level: int) -> Seq<char> {
    if level == 1 {
        "</h1>"@
    } else if level == 2 {
        "</h2>"@
    } else if level == 3 {
        "</h3>"@
    } else if level == 4 {
        "</h4>"@
    } else if level == 5 {
        "</h5>"@
    } else {
        "</h6>"@
    }
}

/// The newline that joins emitted fragments.
pub open spec fn nl() -> Seq<char> {
    "\n"@
}

/// The fragment a heading line emits.
pub open spec fn heading_frag(l: Seq<char>) -> Seq<char> {
    h_open(hash_count(l)) + spec_inline(heading_content(l)) + h_close(hash_count(l)) + nl()
}

/// A code fence delimiter line: starts with three backticks.
pub open spec fn is_fence(l: Seq<char>) -> bool {
    l.len() >= 3 && l.subrange(0, 3) == seq!['`', '`', '`']
}

/// The fence language: the text after the leading backtick groups.
pub open spec fn fence_lang_from(l: Seq<char>, pos: int) -> Seq<char>
    decreases l.len() - pos,
    when 0 <= pos <= l.len()
{
    if pos + 3 <= l.len() && l.subrange(pos, pos + 3) == seq!['`', '`', '`'] {
        fence_lang_from(l, pos + 3)
    } else {
        l.subrange(pos, l.len() as int)
    }
}

/// The fence language of a whole delimiter line.
pub open spec fn fence_lang(l: Seq<char>) -> Seq<char> {
    fence_lang_from(l, 0)
}

/// The number of leading whitespace characters.
pub open spec fn ws_count(l: Seq<char>) -> int {
    space_end(l, 0)
}

/// A table row line: after optional leading whitespace a `|`, and a final `|`.
pub open spec fn is_table_row(l: Seq<char>) -> bool {
    let w = ws_count(l);
    w < l.len() && l[w] == '|' && l[l.len() - 1] == '|' && l.len() >= w + 2
}

/// A table separator row such as `|---|---|`: between the outer pipes only
/// dashes, whitespace and inner pipes, and at least one such character.
pub open spec fn is_table_sep(l: Seq<char>) -> bool {
    let w = ws_count(l);
    is_table_row(l) && l.len() >= w + 3 && (forall|k: int|
        w + 1 <= k < l.len() - 1 ==> (#[trigger] l[k]) == '-' || l[k] == '|' || is_space_char(
            l[k],
        ))
}

/// One table cell: trimmed, inline-transformed, wrapped in `<th>` or `<td>`.
pub open spec fn cell_html(c: Seq<char>, th: bool) -> Seq<char> {
    if th {
        "<th>"@ + spec_inline(spec_trim(c)) + "</th>"@
    } else {
        "<td>"@ + spec_inline(spec_trim(c)) + "</td>"@
    }
}

/// The cells of the row interior from `pos` on, split on `|`, each wrapped.
pub open spec fn cells_html_from(inner: Seq<char>, th: bool, pos: int) -> Seq<char>
    decreases inner.len() - pos,
    when 0 <= pos
    via cells_html_from_decreases
{
    match find_from(inner, seq!['|'], pos) {
        Some(i) => cell_html(inner.subrange(pos, i), th) + cells_html_from(inner, th, i + 1),
        None => cell_html(inner.subrange(pos, inner.len() as int), th),
    }
}

#[via_fn]
proof fn cells_html_from_decreases(inner: Seq<char>, th: bool, pos: int) {
    lemma_find_from(inner, seq!['|'], pos);
}

/// The fragment a non-separator table row emits: the trimmed line with one
/// leading and one trailing pipe removed, split into wrapped cells.
pub open spec fn table_row_frag(l: Seq<char>, th: bool) -> Seq<char> {
    let t = spec_trim(l);
    "<tr>"@ + cells_html_from(t.subrange(1, t.len() - 1), th, 0) + "</tr>"@ + nl()
}

/// A table row line's output and state transition: opens the table when none
/// is open; a separator row is consumed silently and ends the header; any
/// emitted row ends the header.
pub open spec fn table_step(st: ConvState, l: Seq<char>) -> (Seq<char>, ConvState) {
    let opening: Seq<char> = if !st.open_table {
        "<table>"@ + nl()
    } else {
        Seq::empty()
    };
    let th = !st.open_table || st.table_row_is_header;
    let st2 = ConvState { open_table: true, table_row_is_header: false, ..st };
    if is_table_sep(l) {
        (opening, st2)
    } else {
        (opening + table_row_frag(l, th), st2)
    }
}

/// An ordered list item line: optional whitespace, digits, a dot, one
/// whitespace character.
pub open spec fn is_ordered_item(l: Seq<char>) -> bool {
    let w = ws_count(l);
    let d = digit_end(l, w);
    d > w && d + 1 < l.len() && l[d] == '.' && is_space_char(l[d + 1])
}

/// Ordered item content: the remainder after the dot and one whitespace.
pub open spec fn ordered_content(l: Seq<char>) -> Seq<char> {
    l.subrange(digit_end(l, ws_count(l)) + 2, l.len() as int)
}

/// An unordered list item line: optional whitespace, `-` or `*`, one
/// whitespace character.
pub open spec fn is_unordered_item(l: Seq<char>) -> bool {
    let w = ws_count(l);
    w + 1 < l.len() && (l[w] == '-' || l[w] == '*') && is_space_char(l[w + 1])
}

/// Unordered item content: the remainder after the marker and one whitespace.
pub open spec fn unordered_content(l: Seq<char>) -> Seq<char> {
    l.subrange(ws_count(l) + 2, l.len() as int)
}

/// The opening tag of a list of the given kind.
pub open spec fn list_open_tag(kind: ListKind) -> Seq<char> {
    match kind {
        ListKind::Unordered => "<ul>"@,
        ListKind::Ordered => "<ol>"@,
    }
}

/// The closing tag of a list of the given kind.
pub open spec fn list_close_tag(kind: ListKind) -> Seq<char> {
    match kind {
        ListKind::Unordered => "</ul>"@,
        ListKind::Ordered => "</ol>"@,
    }
}

/// A list item line's output and state transition: a list of a different
/// kind is closed first; a list of the item's kind is opened if none is open;
/// then one `<li>` with inline-transformed content.
pub open spec fn list_step(st: ConvState, kind: ListKind, content: Seq<char>) -> (
    Seq<char>,
    ConvState,
) {
    let closing: Seq<char> = match st.open_list {
        Some(k) => if k != kind {
            list_close_tag(k) + nl()
        } else {
            Seq::empty()
        },
        None => Seq::empty(),
    };
    let opening: Seq<char> = if st.open_list != Some(kind) {
        list_open_tag(kind) + nl()
    } else {
        Seq::empty()
    };
    (
        closing + opening + "<li>"@ + spec_inline(content) + "</li>"@ + nl(),
        ConvState { open_list: Some(kind), ..st },
    )
}

/// A horizontal rule line: the trimmed line is `---` or `***`.
pub open spec fn is_horizontal_rule(l: Seq<char>) -> bool {
    spec_trim(l) == seq!['-', '-', '-'] || spec_trim(l) == seq!['*', '*', '*']
}

/// A blockquote line: starts with `> `.
pub open spec fn is_blockquote(l: Seq<char>) -> bool {
    l.len() >= 2 && l[0] == '>' && l[1] == ' '
}

/// Blockquote content: the remainder after the marker.
pub open spec fn blockquote_content(l: Seq<char>) -> Seq<char> {
    l.subrange(2, l.len() as int)
}

/// A line that falls through every higher-priority classification and is
/// emitted as a paragraph (when no code fence is open).
pub open spec fn is_paragraph_line(l: Seq<char>) -> bool {
    !is_noise_line(l) && !is_heading(l) && !is_fence(l) && !is_table_row(l) && !is_ordered_item(l)
        && !is_unordered_item(l) && !is_horizontal_rule(l) && !is_blockquote(l)
}

/// The closing tag owed to an open list, if any.
pub open spec fn list_close_frag(st: ConvState) -> Seq<char> {
    match st.open_list {
        Some(k) => list_close_tag(k) + nl(),
        None => Seq::empty(),
    }
}

/// The closing tag owed to an open table, if any.
pub open spec fn table_close_frag(st: ConvState) -> Seq<char> {
    if st.open_table {
        "</table>"@ + nl()
    } else {
        Seq::empty()
    }
}

/// A paragraph line's output and state transition: closes any open list and
/// any open table, then wraps the inline-transformed line in `<p>`.
pub open spec fn paragraph_step(st: ConvState, l: Seq<char>) -> (Seq<char>, ConvState) {
    (
        list_close_frag(st) + table_close_frag(st) + "<p>"@ + spec_inline(l) + "</p>"@ + nl(),
        ConvState { open_list: None, open_table: false, ..st },
    )
}

/// One line's output and state transition, by classification priority:
/// noise, heading, fence delimiter, code-fence body, table row, ordered list
/// item, unordered list item, horizontal rule, blockquote, paragraph.
pub open spec fn line_step(st: ConvState, l: Seq<char>) -> (Seq<char>, ConvState) {
    if is_noise_line(l) {
        (Seq::empty(), st)
    } else if is_heading(l) {
        (heading_frag(l), st)
    } else if is_fence(l) {
        if st.in_code_fence {
            ("</code></pre>"@ + nl(), ConvState { in_code_fence: false, ..st })
        } else {
            (
                "<pre><code class=\"language-"@ + fence_lang(l) + "\">"@ + nl(),
                ConvState { in_code_fence: true, ..st },
            )
        }
    } else if st.in_code_fence {
        (l + nl(), st)
    } else if is_table_row(l) {
        table_step(st, l)
    } else if is_ordered_item(l) {
        list_step(st, ListKind::Ordered, ordered_content(l))
    } else if is_unordered_item(l) {
        list_step(st, ListKind::Unordered, unordered_content(l))
    } else if is_horizontal_rule(l) {
        ("<hr>"@ + nl(), st)
    } else if is_blockquote(l) {
        ("<blockquote>"@ + spec_inline(blockquote_content(l)) + "</blockquote>"@ + nl(), st)
    } else {
        paragraph_step(st, l)
    }
}

/// The output and final state of processing the lines from index `k` on,
/// starting in state `st`.
pub open spec fn conv_lines_from(lines: Seq<Seq<char>>, st: ConvState, k: int) -> (
    Seq<char>,
    ConvState,
)
    decreases lines.len() - k,
    when 0 <= k
{
    if k >= lines.len() {
        (Seq::empty(), st)
    } else {
        let step = line_step(st, lines[k]);
        let rest = conv_lines_from(lines, step.1, k + 1);
        (step.0 + rest.0, rest.1)
    }
}

/// The HTML for a sequence of lines: every line processed in order from the
/// fresh state, then end-of-document cleanup closing any open list and table
/// (an unterminated code fence is left open).
pub open spec fn html_of_lines(lines: Seq<Seq<char>>) -> Seq<char> {
    let r = conv_lines_from(lines, init_state(), 0);
    r.0 + list_close_frag(r.1) + table_close_frag(r.1)
}

/// The HTML fragment for a whole document.
pub open spec fn html_of(doc: Seq<char>) -> Seq<char> {
    html_of_lines(spec_lines(doc))
}

/// The opening tag for a heading of the given level.
fn h_open_str(level: usize) -> (r: &'static str)
    requires
        1 <= level <= 6,
    ensures
        r@ == h_open(level as int),
{
    if level == 1 {
        "<h1>"
    } else if level == 2 {
        "<h2>"
    } else if level == 3 {
        "<h3>"
    } else if level == 4 {
        "<h4>"
    } else if level == 5 {
        "<h5>"
    } else {
        "<h6>"
    }
}

/// The closing tag for a heading of the given level.
fn h_close_str(level: usize) -> (r: &'static str)
    requires
        1 <= level <= 6,
    ensures
        r@ == h_close(level as int),
{
    if level == 1 {
        "</h1>"
    } else if level == 2 {
        "</h2>"
    } else if level == 3 {
        "</h3>"
    } else if level == 4 {
        "</h4>"
    } else if level == 5 {
        "</h5>"
    } else {
        "</h6>"
    }
}

/// The opening tag of a list of the given kind.
fn list_open_str(kind: ListKind) -> (r: &'static str)
    ensures
        r@ == list_open_tag(kind),
{
    match kind {
        ListKind::Unordered => "<ul>",
        ListKind::Ordered => "<ol>",
    }
}

/// The closing tag of a list of the given kind.
fn list_close_str(kind: ListKind) -> (r: &'static str)
    ensures
        r@ == list_close_tag(kind),
{
    match kind {
        ListKind::Unordered => "</ul>",
        ListKind::Ordered => "</ol>",
    }
}

/// Emits one list item, closing a list of the other kind and opening one of
/// this kind as needed.
fn emit_list_item(st: ConvState, kind: ListKind, content: &str, out: &mut String) -> (st2:
    ConvState)
    ensures
        final(out)@ == old(out)@ + list_step(st, kind, content@).0,
        st2 == list_step(st, kind, content@).1,
{
    let ghost prev = out@;
    match st.open_list {
        Some(k) => {
            if k != kind {
                out.append(list_close_str(k));
                out.append("\n");
                out.append(list_open_str(kind));
                out.append("\n");
            }
        },
        None => {
            out.append(list_open_str(kind));
            out.append("\n");
        },
    }
    out.append("<li>");
    let inner = transform_inline(content);
    out.append(inner.as_str());
    out.append("</li>");
    out.append("\n");
    proof {
        assert(out@ =~= prev + list_step(st, kind, content@).0);
    }
    ConvState { open_list: Some(kind), ..st }
}

/// Whether the table row is a separator row.
fn check_table_sep(line: &str, w: usize) -> (b: bool)
    requires
        w as int == ws_count(line@),
        is_table_row(line@),
    ensures
        b == is_table_sep(line@),
{
    let llen: usize = line.unicode_len();
    if llen - w < 3 {
        return false;
    }
    let mut k: usize = w + 1;
    while k < llen - 1
        invariant
            w + 1 <= k <= llen - 1,
            llen == line@.len(),
            llen >= w + 3,
            w as int == ws_count(line@),
            is_table_row(line@),
            forall|j: int| w + 1 <= j < k ==> (#[trigger] line@[j]) == '-' || line@[j] == '|'
                || is_space_char(line@[j]),
        decreases llen - k,
    {
        let c = line.get_char(k);
        if c != '-' && c != '|' && !space_char(c) {
            proof {
                assert(!((line@[k as int]) == '-' || line@[k as int] == '|' || is_space_char(
                    line@[k as int],
                )));
            }
            return false;
        }
        k += 1;
    }
    true
}

/// Emits one table cell: trimmed, inline-transformed, wrapped.
fn emit_cell(out: &mut String, cell: &str, th: bool)
    ensures
        final(out)@ == old(out)@ + cell_html(cell@, th),
{
    let ghost prev = out@;
    let trimmed = trim_chars(cell);
    let inner = transform_inline(trimmed);
    if th {
        out.append("<th>");
        out.append(inner.as_str());
        out.append("</th>");
    } else {
        out.append("<td>");
        out.append(inner.as_str());
        out.append("</td>");
    }
    proof {
        assert(out@ =~= prev + cell_html(cell@, th));
    }
}

/// Processes one table row line: opens the table as needed, consumes a
/// separator row silently, and emits any other row's cells.
fn process_table_row(st: ConvState, line: &str, w: usize, out: &mut String) -> (st2: ConvState)
    requires
        w as int == ws_count(line@),
        is_table_row(line@),
    ensures
        final(out)@ == old(out)@ + table_step(st, line@).0,
        st2 == table_step(st, line@).1,
{
    let ghost prev = out@;
    let llen: usize = line.unicode_len();
    let st2 = ConvState { open_table: true, table_row_is_header: false, ..st };
    let th = !st.open_table || st.table_row_is_header;
    if !st.open_table {
        out.append("<table>");
        out.append("\n");
    }
    if check_table_sep(line, w) {
        proof {
            assert(out@ =~= prev + table_step(st, line@).0);
        }
        return st2;
    }
    let t = trim_chars(line);
    let tlen: usize = t.unicode_len();
    proof {
        lemma_space_end(line@, 0);
        assert(!is_space_char(line@[llen - 1]));
        assert(space_start_back(line@, llen as int) == llen);
        assert(t@ =~= line@.subrange(w as int, llen as int));
        assert(t@.len() == llen - w);
        assert(t@[0] == line@[w as int]);
    }
    let inner = t.substring_char(1, tlen - 1);
    let ilen: usize = inner.unicode_len();
    out.append("<tr>");
    let ghost pre_cells = out@;
    proof {
        reveal_strlit("|");
        assert("|"@ =~= seq!['|']);
    }
    let mut cpos: usize = 0;
    let mut done = false;
    while !done
        invariant
            0 <= cpos <= ilen,
            ilen == inner@.len(),
            done ==> out@ == pre_cells + cells_html_from(inner@, th, 0),
            !done ==> pre_cells + cells_html_from(inner@, th, 0) == out@ + cells_html_from(
                inner@,
                th,
                cpos as int,
            ),
        decreases ilen - cpos + (if done { 0int } else { 1int }),
    {
        let ghost before = out@;
        proof {
            reveal_strlit("|");
            assert("|"@ =~= seq!['|']);
        }
        match find_sub(inner, "|", cpos) {
            Some(ci) => {
                proof {
                    lemma_find_from(inner@, seq!['|'], cpos as int);
                }
                let cell = inner.substring_char(cpos, ci);
                emit_cell(out, cell, th);
                proof {
                    assert(before + cells_html_from(inner@, th, cpos as int) =~= out@
                        + cells_html_from(inner@, th, ci + 1));
                }
                cpos = ci + 1;
            },
            None => {
                let cell = inner.substring_char(cpos, ilen);
                emit_cell(out, cell, th);
                proof {
                    assert(before + cells_html_from(inner@, th, cpos as int) =~= out@);
                }
                done = true;
            },
        }
    }
    out.append("</tr>");
    out.append("\n");
    proof {
        assert(out@ =~= prev + table_step(st, line@).0);
    }
    st2
}

/// Processes one line: appends its output fragment and returns the new state.
#[verifier::rlimit(60)]
pub fn process_line(st: ConvState, line: &str, out: &mut String) -> (st2: ConvState)
    ensures
        final(out)@ == old(out)@ + line_step(st, line@).0,
        st2 == line_step(st, line@).1,
{
    proof {
        reveal_strlit("<![CDATA[");
        reveal_strlit("WebSocket");
    }
    let ghost prev = out@;
    if contains_sub(line, "<![CDATA[") || contains_sub(line, "WebSocket") {
        proof {
            assert(out@ =~= prev + line_step(st, line@).0);
        }
        return st;
    }
    let llen: usize = line.unicode_len();
    let hc = scan_hashes(line, 0);
    if 1 <= hc && hc <= 6 && hc < llen && space_char(line.get_char(hc)) {
        let cstart = scan_spaces(line, hc);
        let content = line.substring_char(cstart, llen);
        let inner = transform_inline(content);
        out.append(h_open_str(hc));
        out.append(inner.as_str());
        out.append(h_close_str(hc));
        out.append("\n");
        proof {
            assert(out@ =~= prev + heading_frag(line@));
        }
        return st;
    }
    if llen >= 3 && line.get_char(0) == '`' && line.get_char(1) == '`' && line.get_char(2) == '`' {
        proof {
            assert(line@.subrange(0, 3) =~= seq!['`', '`', '`']);
        }
        if st.in_code_fence {
            out.append("</code></pre>");
            out.append("\n");
            proof {
                assert(out@ =~= prev + line_step(st, line@).0);
            }
            return ConvState { in_code_fence: false, ..st };
        } else {
            let mut k: usize = 0;
            while k <= llen - 3 && line.get_char(k) == '`' && line.get_char(k + 1) == '`'
                && line.get_char(k + 2) == '`'
                invariant
                    0 <= k <= llen,
                    3 <= llen,
                    llen == line@.len(),
                    fence_lang(line@) == fence_lang_from(line@, k as int),
                decreases llen - k,
            {
                proof {
                    assert(line@.subrange(k as int, k as int + 3) =~= seq!['`', '`', '`']);
                }
                k += 3;
            }
            proof {
                if k + 3 <= llen {
                    assert(line@.subrange(k as int, k as int + 3)[0] == line@[k as int]);
                    assert(line@.subrange(k as int, k as int + 3)[1] == line@[k as int + 1]);
                    assert(line@.subrange(k as int, k as int + 3)[2] == line@[k as int + 2]);
                }
                assert(fence_lang(line@) == line@.subrange(k as int, llen as int));
            }
            let lang = line.substring_char(k, llen);
            out.append("<pre><code class=\"language-");
            out.append(lang);
            out.append("\">");
            out.append("\n");
            proof {
                assert(out@ =~= prev + line_step(st, line@).0);
            }
            return ConvState { in_code_fence: true, ..st };
        }
    }
    if st.in_code_fence {
        out.append(line);
        out.append("\n");
        proof {
            assert(out@ =~= prev + line_step(st, line@).0);
        }
        return st;
    }
    let w = scan_spaces(line, 0);
    if w < llen && line.get_char(w) == '|' && line.get_char(llen - 1) == '|' && llen - w >= 2 {
        return process_table_row(st, line, w, out);
    }
    let d = scan_digits(line, w);
    if d > w && llen - d >= 2 && line.get_char(d) == '.' && space_char(line.get_char(d + 1)) {
        let content = line.substring_char(d + 2, llen);
        return emit_list_item(st, ListKind::Ordered, content, out);
    }
    if llen - w >= 2 && (line.get_char(w) == '-' || line.get_char(w) == '*') && space_char(
        line.get_char(w + 1),
    ) {
        let content = line.substring_char(w + 2, llen);
        return emit_list_item(st, ListKind::Unordered, content, out);
    }
    process_text_line(st, line, out)
}

/// Processes a line that reaches the lowest-priority classifications:
/// horizontal rule, blockquote, or paragraph.
#[verifier::rlimit(60)]
fn process_text_line(st: ConvState, line: &str, out: &mut String) -> (st2: ConvState)
    requires
        !is_noise_line(line@),
        !is_heading(line@),
        !is_fence(line@),
        !st.in_code_fence,
        !is_table_row(line@),
        !is_ordered_item(line@),
        !is_unordered_item(line@),
    ensures
        final(out)@ == old(out)@ + line_step(st, line@).0,
        st2 == line_step(st, line@).1,
{
    let ghost prev = out@;
    let llen: usize = line.unicode_len();
    let t = trim_chars(line);
    let tlen: usize = t.unicode_len();
    if tlen == 3 {
        let dash = t.get_char(0) == '-' && t.get_char(1) == '-' && t.get_char(2) == '-';
        let star = t.get_char(0) == '*' && t.get_char(1) == '*' && t.get_char(2) == '*';
        if dash || star {
            proof {
                if dash {
                    assert(spec_trim(line@) =~= seq!['-', '-', '-']);
                } else {
                    assert(spec_trim(line@) =~= seq!['*', '*', '*']);
                }
            }
            out.append("<hr>");
            out.append("\n");
            proof {
                assert(out@ =~= prev + line_step(st, line@).0);
            }
            return st;
        }
    }
    proof {
        if spec_trim(line@) == seq!['-', '-', '-'] {
            assert(t@.len() == 3);
            assert(t@[0] == '-' && t@[1] == '-' && t@[2] == '-');
        }
        if spec_trim(line@) == seq!['*', '*', '*'] {
            assert(t@.len() == 3);
            assert(t@[0] == '*' && t@[1] == '*' && t@[2] == '*');
        }
        assert(!is_horizontal_rule(line@));
    }
    if llen >= 2 && line.get_char(0) == '>' && line.get_char(1) == ' ' {
        let content = line.substring_char(2, llen);
        let inner = transform_inline(content);
        out.append("<blockquote>");
        out.append(inner.as_str());
        out.append("</blockquote>");
        out.append("\n");
        proof {
            assert(out@ =~= prev + line_step(st, line@).0);
        }
        return st;
    }
    match st.open_list {
        Some(kind) => {
            out.append(list_close_str(kind));
            out.append("\n");
        },
        None => {},
    }
    if st.open_table {
        out.append("</table>");
        out.append("\n");
    }
    out.append("<p>");
    let inner = transform_inline(line);
    out.append(inner.as_str());
    out.append("</p>");
    out.append("\n");
    proof {
        assert(out@ =~= prev + paragraph_step(st, line@).0);
    }
    ConvState { open_list: None, open_table: false, ..st }
}

/// Converts a whole Markdown document to an HTML fragment: every line
/// processed once, in order, then end-of-document cleanup closing any open
/// list and any open table.
pub fn markdown_to_html(markdown: &str) -> (r: String)
    ensures
        r@ == html_of(markdown@),
{
    let lines = split_lines(markdown);
    let ghost lseq = spec_lines(markdown@);
    let mut out = String::new();
    let mut st = ConvState {
        open_list: None,
        open_table: false,
        table_row_is_header: false,
        in_code_fence: false,
    };
    let mut k: usize = 0;
    while k < lines.len()
        invariant
            0 <= k <= lines.len(),
            lines.deep_view() == lseq,
            lseq == spec_lines(markdown@),
            conv_lines_from(lseq, init_state(), 0).0 == out@ + conv_lines_from(
                lseq,
                st,
                k as int,
            ).0,
            conv_lines_from(lseq, init_state(), 0).1 == conv_lines_from(lseq, st, k as int).1,
        decreases lines.len() - k,
    {
        let ghost old_st = st;
        let ghost before = out@;
        proof {
            assert(lines.deep_view()[k as int] == lines@[k as int]@);
        }
        st = process_line(st, lines[k].as_str(), &mut out);
        proof {
            assert(before + conv_lines_from(lseq, old_st, k as int).0 =~= out@ + conv_lines_from(
                lseq,
                st,
                k as int + 1,
            ).0);
        }
        k += 1;
    }
    proof {
        assert(conv_lines_from(lseq, st, k as int).0 =~= Seq::<char>::empty());
        assert(conv_lines_from(lseq, init_state(), 0).0 =~= out@);
        assert(conv_lines_from(lseq, init_state(), 0).1 == st);
    }
    match st.open_list {
        Some(kind) => {
            out.append(list_close_str(kind));
            out.append("\n");
        },
        None => {},
    }
    if st.open_table {
        out.append("</table>");
        out.append("\n");
    }
    proof {
        assert(out@ =~= html_of(markdown@));
    }
    out
}

} // verus!
