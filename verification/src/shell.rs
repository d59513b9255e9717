//! The page shell: wraps a converted HTML fragment in a complete, styled
//! HTML document with a fixed stylesheet and syntax-highlighting references.

use vstd::prelude::*;

verus! {

/// Everything of the page that stands before the converted fragment.
pub open spec fn page_prefix() -> Seq<char> {
    "<!DOCTYPE html>
        <html>
        <head>
        <link rel=\"stylesheet\" href=\"https://cdnjs.cloudflare.com/ajax/libs/highlight.js/11.5.1/styles/default.min.css\">
        <script src=\"https://cdnjs.cloudflare.com/ajax/libs/highlight.js/11.5.1/highlight.min.js\"></script>
        <script>hljs.highlightAll();</script>
        <style>
            body {
                font-family: Arial, sans-serif;
                line-height: 1.6;
                max-width: 800px;
                margin: 20px auto;
                padding: 20px;
            }
            h1, h2, h3 {
                margin-top: 20px;
                border-bottom: 2px solid #ddd;
                padding-bottom: 5px;
            }
            pre {
                background: #f4f4f4;
                padding: 10px;
                border-radius: 5px;
                overflow-x: auto;
            }
            code {
                font-family: monospace;
                background: #eee;
                padding: 2px 5px;
                border-radius: 3px;
            }
            table {
                width: 100%;
                border-collapse: collapse;
                margin-top: 10px;
            }
            th, td {
                border: 1px solid #ddd;
                padding: 8px;
                text-align: left;
            }
            th {
                background: #f8f8f8;
            }
            tr:nth-child(even) {
                background-color: #f2f2f2;
            }
            ul, ol {
                padding-left: 20px;
            }
            li {
                margin: 5px 0;
            }
        </style>
        </head>
        <body>"@
}

/// Everything of the page that stands after the converted fragment.
pub open spec fn page_suffix() -> Seq<char> {
    "</body>
        </html>"@
}

/// Wraps an HTML fragment in the fixed page shell.
pub fn add_css_and_js(html: &str) -> (r: String)
    ensures
        r@ == page_prefix() + html@ + page_suffix(),
{
    let mut out = String::from_str(
        "<!DOCTYPE html>
        <html>
        <head>
        <link rel=\"stylesheet\" href=\"https://cdnjs.cloudflare.com/ajax/libs/highlight.js/11.5.1/styles/default.min.css\">
        <script src=\"https://cdnjs.cloudflare.com/ajax/libs/highlight.js/11.5.1/highlight.min.js\"></script>
        <script>hljs.highlightAll();</script>
        <style>
            body {
                font-family: Arial, sans-serif;
                line-height: 1.6;
                max-width: 800px;
                margin: 20px auto;
                padding: 20px;
            }
            h1, h2, h3 {
                margin-top: 20px;
                border-bottom: 2px solid #ddd;
                padding-bottom: 5px;
            }
            pre {
                background: #f4f4f4;
                padding: 10px;
                border-radius: 5px;
                overflow-x: auto;
            }
            code {
                font-family: monospace;
                background: #eee;
                padding: 2px 5px;
                border-radius: 3px;
            }
            table {
                width: 100%;
                border-collapse: collapse;
                margin-top: 10px;
            }
            th, td {
                border: 1px solid #ddd;
                padding: 8px;
                text-align: left;
            }
            th {
                background: #f8f8f8;
            }
            tr:nth-child(even) {
                background-color: #f2f2f2;
            }
            ul, ol {
                padding-left: 20px;
            }
            li {
                margin: 5px 0;
            }
        </style>
        </head>
        <body>",
    );
    out.append(html);
    out.append("</body>
        </html>");
    out
}

} // verus!
