use markdown_html::shell::add_css_and_js;

#[test]
fn page_shell_wraps_the_fragment() {
    let page = add_css_and_js("<p>hi</p>");
    assert!(page.starts_with("<!DOCTYPE html>"));
    assert!(page.ends_with("</html>"));
    assert!(page.contains("<body><p>hi</p></body>"));
    assert!(page.contains("<style>"));
    assert!(page.contains("highlight.min.js"));
}

#[test]
fn page_shell_keeps_the_fragment_untouched() {
    let fragment = "<h1>T</h1>\n<ul>\n<li>x</li>\n</ul>\n";
    let page = add_css_and_js(fragment);
    assert!(page.contains(fragment));
}
