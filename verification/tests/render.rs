use html_render::attrs;
use html_render::render;
use html_render::render_document;
use html_render::Node;

#[test]
fn text_renders_verbatim() {
    let n = Node::text("hello & <b>world</b>");
    assert_eq!(render(&n), "hello & <b>world</b>");
}

#[test]
fn empty_mapping_no_space_before_gt() {
    let n = Node::element("p");
    assert_eq!(render(&n), "<p>");
}

#[test]
fn nonempty_mapping_one_space_per_pair() {
    let n = Node::element_with_attrs("div", attrs(vec![("id", "x"), ("data-foo", "y")]));
    assert_eq!(render(&n), "<div id=\"x\" data-foo=\"y\">");
}

#[test]
fn no_content_emits_no_closing_tag() {
    let n = Node::element_with_attrs("meta", attrs(vec![("charset", "utf-8")]));
    let out = render(&n);
    assert_eq!(out, "<meta charset=\"utf-8\">");
    assert!(!out.contains("</meta>"));
}

#[test]
fn single_line_content_stays_inline() {
    let n = Node::element_with_text("p", attrs(vec![("class", "x")]), "Hello");
    assert_eq!(render(&n), "<p class=\"x\">Hello</p>");
}

#[test]
fn multi_line_content_is_indented_block() {
    let items = vec![Node::text("a"), Node::text("b")];
    let n = Node::element_with_content("div", attrs(vec![]), Node::list(items));
    assert_eq!(render(&n), "<div>\n\ta\n\tb\n</div>");
}

#[test]
fn every_newline_in_block_is_followed_by_tab() {
    let items = vec![Node::text("a"), Node::text("b"), Node::text("c")];
    let n = Node::element_with_content("ul", attrs(vec![]), Node::list(items));
    let out = render(&n);
    let chars: Vec<char> = out.chars().collect();
    for i in 0..chars.len() {
        if chars[i] == '\n' && i + 1 < chars.len() && chars[i + 1] != '/' {
            // inside the block every newline is followed by a tab; the very
            // last newline is followed by the closing tag
            assert!(chars[i + 1] == '\t' || chars[i + 1] == '<');
        }
    }
    assert_eq!(out, "<ul>\n\ta\n\tb\n\tc\n</ul>");
}

#[test]
fn list_joins_with_single_newlines() {
    let n = Node::list(vec![Node::text("a"), Node::text("b"), Node::text("c")]);
    let out = render(&n);
    assert_eq!(out, "a\nb\nc");
    assert_eq!(out.matches('\n').count(), 2);
    assert!(!out.ends_with('\n'));
}

#[test]
fn empty_list_renders_empty() {
    let n = Node::list(vec![]);
    assert_eq!(render(&n), "");
}

#[test]
fn element_with_empty_list_content_stays_inline() {
    let n = Node::element_with_content("div", attrs(vec![]), Node::list(vec![]));
    assert_eq!(render(&n), "<div></div>");
}

#[test]
fn end_to_end_inline_paragraph() {
    let n = Node::element_with_content("p", attrs(vec![]), Node::text("Hi"));
    assert_eq!(render(&n), "<p>Hi</p>");
}

#[test]
fn end_to_end_row_of_two_texts() {
    let items = vec![Node::text("a"), Node::text("b")];
    let n = Node::element_with_content("div", attrs(vec![("class", "row")]), Node::list(items));
    assert_eq!(render(&n), "<div class=\"row\">\n\ta\n\tb\n</div>");
}

#[test]
fn nested_blocks_indent_one_level_per_depth() {
    let cols = Node::list(vec![
        Node::element_with_text("div", attrs(vec![("class", "col")]), "c1"),
        Node::element_with_text("div", attrs(vec![("class", "col")]), "c2"),
    ]);
    let rows = Node::list(vec![
        Node::element_with_text("div", attrs(vec![("class", "row")]), "top"),
        Node::element_with_content("div", attrs(vec![("class", "row")]), cols),
    ]);
    let body = Node::element_with_content("body", attrs(vec![("class", "container")]), rows);
    let expected = "<body class=\"container\">\n\t<div class=\"row\">top</div>\n\t<div class=\"row\">\n\t\t<div class=\"col\">c1</div>\n\t\t<div class=\"col\">c2</div>\n\t</div>\n</body>";
    assert_eq!(render(&body), expected);
}

#[test]
fn document_starts_with_doctype_line() {
    let n = Node::element_with_content("p", attrs(vec![]), Node::text("Hi"));
    assert_eq!(render_document(&n), "<!DOCTYPE html>\n<p>Hi</p>");
}

#[test]
fn head_like_subtree_renders_as_block() {
    let head = Node::element_with_content(
        "head",
        attrs(vec![]),
        Node::list(vec![
            Node::element_with_attrs("meta", attrs(vec![("charset", "utf-8")])),
            Node::element_with_text("title", attrs(vec![]), "Untitled"),
        ]),
    );
    let expected = "<head>\n\t<meta charset=\"utf-8\">\n\t<title>Untitled</title>\n</head>";
    assert_eq!(render(&head), expected);
}

#[test]
fn script_with_empty_text_closes_inline() {
    let n = Node::element_with_text("script", attrs(vec![("src", "app.js")]), "");
    assert_eq!(render(&n), "<script src=\"app.js\"></script>");
}
