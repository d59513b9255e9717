use markdown_html::inline::transform_inline;

#[test]
fn plain_text_is_unchanged() {
    assert_eq!(transform_inline("hello world"), "hello world");
    assert_eq!(transform_inline(""), "");
    assert_eq!(transform_inline("no markdown here, 1 + 2 = 3"), "no markdown here, 1 + 2 = 3");
}

#[test]
fn bold_is_wrapped_in_strong() {
    assert_eq!(transform_inline("**bold**"), "<strong>bold</strong>");
    assert_eq!(transform_inline("a **b** c"), "a <strong>b</strong> c");
    assert_eq!(
        transform_inline("**one** and **two**"),
        "<strong>one</strong> and <strong>two</strong>"
    );
}

#[test]
fn italic_is_wrapped_in_em() {
    assert_eq!(transform_inline("*it*"), "<em>it</em>");
    assert_eq!(transform_inline("a *b* c"), "a <em>b</em> c");
}

#[test]
fn inline_code_is_wrapped_in_code() {
    assert_eq!(transform_inline("`x + y`"), "<code>x + y</code>");
}

#[test]
fn mixed_inline_syntax() {
    assert_eq!(
        transform_inline("**b** and *i* and `c`"),
        "<strong>b</strong> and <em>i</em> and <code>c</code>"
    );
}

#[test]
fn unclosed_delimiters_are_left_alone() {
    assert_eq!(transform_inline("a * b"), "a * b");
    assert_eq!(transform_inline("`tick"), "`tick");
    assert_eq!(transform_inline("[no](closer"), "[no](closer");
}

#[test]
fn lone_star_pair_is_an_empty_emphasis() {
    // two adjacent stars with no closing pair: bold finds no second `**`,
    // and italic then claims the pair with empty content
    assert_eq!(transform_inline("**open"), "<em></em>open");
}

#[test]
fn image_precedes_link() {
    assert_eq!(
        transform_inline("![alt](img.png)"),
        "<img src=\"img.png\" alt=\"alt\">"
    );
    let out = transform_inline("![alt](img.png)");
    assert!(!out.contains("<a href"));
}

#[test]
fn link_becomes_anchor() {
    assert_eq!(transform_inline("[text](url)"), "<a href=\"url\">text</a>");
}

#[test]
fn link_and_image_together() {
    assert_eq!(
        transform_inline("[a](b) and ![c](d)"),
        "<a href=\"b\">a</a> and <img src=\"d\" alt=\"c\">"
    );
}
