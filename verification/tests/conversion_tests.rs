use markdown_html::blocks::markdown_to_html;

#[test]
fn empty_document_gives_empty_fragment() {
    assert_eq!(markdown_to_html(""), "");
}

#[test]
fn heading_levels() {
    assert_eq!(markdown_to_html("# Hello"), "<h1>Hello</h1>\n");
    assert_eq!(markdown_to_html("## Hello"), "<h2>Hello</h2>\n");
    assert_eq!(markdown_to_html("### Hello"), "<h3>Hello</h3>\n");
    assert_eq!(markdown_to_html("#### Hello"), "<h4>Hello</h4>\n");
    assert_eq!(markdown_to_html("##### Hello"), "<h5>Hello</h5>\n");
    assert_eq!(markdown_to_html("###### Hello"), "<h6>Hello</h6>\n");
}

#[test]
fn heading_line_emits_exactly_one_heading_element() {
    let out = markdown_to_html("## A **b**");
    assert_eq!(out, "<h2>A <strong>b</strong></h2>\n");
    assert_eq!(out.matches("<h2>").count(), 1);
    assert_eq!(out.matches("</h2>").count(), 1);
}

#[test]
fn seven_hashes_is_no_heading() {
    assert_eq!(markdown_to_html("####### seven"), "<p>####### seven</p>\n");
}

#[test]
fn hash_without_space_is_no_heading() {
    assert_eq!(markdown_to_html("#nospace"), "<p>#nospace</p>\n");
}

#[test]
fn heading_consumes_the_whole_whitespace_run() {
    assert_eq!(markdown_to_html("#   spaced"), "<h1>spaced</h1>\n");
}

#[test]
fn paragraph_wraps_inline_content() {
    assert_eq!(
        markdown_to_html("plain *i* text"),
        "<p>plain <em>i</em> text</p>\n"
    );
}

#[test]
fn plain_text_passes_through_unchanged_inside_paragraph() {
    assert_eq!(markdown_to_html("no inline syntax"), "<p>no inline syntax</p>\n");
}

#[test]
fn empty_line_becomes_empty_paragraph() {
    assert_eq!(markdown_to_html("a\n\nb"), "<p>a</p>\n<p></p>\n<p>b</p>\n");
}

#[test]
fn unordered_list_grouping() {
    assert_eq!(
        markdown_to_html("- a\n- b"),
        "<ul>\n<li>a</li>\n<li>b</li>\n</ul>\n"
    );
}

#[test]
fn unordered_list_closes_before_paragraph() {
    assert_eq!(
        markdown_to_html("- a\n- b\nend"),
        "<ul>\n<li>a</li>\n<li>b</li>\n</ul>\n<p>end</p>\n"
    );
}

#[test]
fn star_marker_and_indent_make_list_items() {
    assert_eq!(
        markdown_to_html("* a\n  - b"),
        "<ul>\n<li>a</li>\n<li>b</li>\n</ul>\n"
    );
}

#[test]
fn ordered_list_grouping() {
    assert_eq!(
        markdown_to_html("1. a\n2. b"),
        "<ol>\n<li>a</li>\n<li>b</li>\n</ol>\n"
    );
}

#[test]
fn list_kind_switch_closes_the_open_list() {
    assert_eq!(
        markdown_to_html("- a\n1. b"),
        "<ul>\n<li>a</li>\n</ul>\n<ol>\n<li>b</li>\n</ol>\n"
    );
}

#[test]
fn multi_digit_ordered_item() {
    assert_eq!(markdown_to_html("12. x"), "<ol>\n<li>x</li>\n</ol>\n");
}

#[test]
fn broken_ordered_marker_is_a_paragraph() {
    assert_eq!(markdown_to_html("12.3. x"), "<p>12.3. x</p>\n");
}

#[test]
fn table_round_trip() {
    assert_eq!(
        markdown_to_html("| a | b |\n|---|---|\n| c | d |"),
        "<table>\n<tr><th>a</th><th>b</th></tr>\n<tr><td>c</td><td>d</td></tr>\n</table>\n"
    );
}

#[test]
fn table_separator_emits_no_row() {
    let out = markdown_to_html("| a | b |\n|---|---|\n| c | d |");
    assert_eq!(out.matches("<tr>").count(), 2);
}

#[test]
fn table_separator_with_spaces() {
    assert_eq!(
        markdown_to_html("| a |\n| - |\n| b |"),
        "<table>\n<tr><th>a</th></tr>\n<tr><td>b</td></tr>\n</table>\n"
    );
}

#[test]
fn table_cells_receive_inline_transformation() {
    assert_eq!(
        markdown_to_html("| **h** |"),
        "<table>\n<tr><th><strong>h</strong></th></tr>\n</table>\n"
    );
}

#[test]
fn table_left_open_is_closed_at_document_end() {
    assert_eq!(
        markdown_to_html("| x |"),
        "<table>\n<tr><th>x</th></tr>\n</table>\n"
    );
}

#[test]
fn list_left_open_is_closed_at_document_end() {
    let out = markdown_to_html("- a");
    assert_eq!(out, "<ul>\n<li>a</li>\n</ul>\n");
    assert!(out.ends_with("</ul>\n"));
}

#[test]
fn table_closes_before_paragraph() {
    assert_eq!(
        markdown_to_html("| x |\nafter"),
        "<table>\n<tr><th>x</th></tr>\n</table>\n<p>after</p>\n"
    );
}

#[test]
fn code_fence_passthrough() {
    assert_eq!(
        markdown_to_html("```rust\nlet x = 1;\n```"),
        "<pre><code class=\"language-rust\">\nlet x = 1;\n</code></pre>\n"
    );
}

#[test]
fn code_fence_body_gets_no_inline_transformation() {
    assert_eq!(
        markdown_to_html("```\n**not bold**\n```"),
        "<pre><code class=\"language-\">\n**not bold**\n</code></pre>\n"
    );
}

#[test]
fn heading_outranks_code_fence_body() {
    assert_eq!(
        markdown_to_html("```\n# hi\n```"),
        "<pre><code class=\"language-\">\n<h1>hi</h1>\n</code></pre>\n"
    );
}

#[test]
fn unterminated_code_fence_is_left_open() {
    assert_eq!(
        markdown_to_html("```c\nint x;"),
        "<pre><code class=\"language-c\">\nint x;\n"
    );
}

#[test]
fn repeated_backtick_groups_fold_into_the_language() {
    assert_eq!(
        markdown_to_html("``````rust\nx\n```"),
        "<pre><code class=\"language-rust\">\nx\n</code></pre>\n"
    );
}

#[test]
fn horizontal_rules() {
    assert_eq!(markdown_to_html("---"), "<hr>\n");
    assert_eq!(markdown_to_html("***"), "<hr>\n");
    assert_eq!(markdown_to_html("  ---  "), "<hr>\n");
}

#[test]
fn blockquote_with_inline_content() {
    assert_eq!(
        markdown_to_html("> quoted **x**"),
        "<blockquote>quoted <strong>x</strong></blockquote>\n"
    );
}

#[test]
fn noise_lines_are_skipped() {
    assert_eq!(markdown_to_html("foo <![CDATA[ bar\nok"), "<p>ok</p>\n");
    assert_eq!(markdown_to_html("uses WebSocket here\nok"), "<p>ok</p>\n");
}

#[test]
fn noise_lines_are_skipped_even_inside_a_code_fence() {
    assert_eq!(
        markdown_to_html("```\nWebSocket x\n```"),
        "<pre><code class=\"language-\">\n</code></pre>\n"
    );
}

#[test]
fn lone_separator_row_opens_an_empty_table() {
    assert_eq!(markdown_to_html("|---|---|"), "<table>\n</table>\n");
}

#[test]
fn carriage_returns_are_stripped() {
    assert_eq!(markdown_to_html("# x\r\ny"), "<h1>x</h1>\n<p>y</p>\n");
}

#[test]
fn final_carriage_return_without_newline_stays() {
    assert_eq!(markdown_to_html("a\r"), "<p>a\r</p>\n");
}

#[test]
fn trailing_newline_adds_no_line() {
    assert_eq!(markdown_to_html("a\n"), "<p>a</p>\n");
}

#[test]
fn image_inside_paragraph() {
    assert_eq!(
        markdown_to_html("see ![alt](img.png)"),
        "<p>see <img src=\"img.png\" alt=\"alt\"></p>\n"
    );
}

#[test]
fn link_inside_list_item() {
    assert_eq!(
        markdown_to_html("- [text](url)"),
        "<ul>\n<li><a href=\"url\">text</a></li>\n</ul>\n"
    );
}

#[test]
fn whole_document_in_order() {
    let md = "# Title\nintro\n- one\n- two\nclose\n```sh\nls\n```";
    let expected = "<h1>Title</h1>\n<p>intro</p>\n<ul>\n<li>one</li>\n<li>two</li>\n</ul>\n<p>close</p>\n<pre><code class=\"language-sh\">\nls\n</code></pre>\n";
    assert_eq!(markdown_to_html(md), expected);
}
