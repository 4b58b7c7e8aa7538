//! Rendering: the pure function from a document tree to its textual markup.
//!
//! An element opens as `<tag>` or `<tag key="value" ...>`. Content that
//! renders to a single line is kept inline, `<tag ...>content</tag>`; content
//! with a newline becomes an indented block, where a tab is inserted after
//! every newline of the content and the block is wrapped between `>\n\t` and
//! `\n</tag>`. A list renders its items joined by single newlines, and a text
//! leaf renders verbatim.

use vstd::prelude::*;

use crate::attrs::attr_str;
use crate::attrs::attrs_str;
use crate::attrs::html_attrs_tostr;
use crate::attrs::pairs_view;
use crate::node::Node;

verus! {

/// Whether `s` holds at least one newline character.
pub open spec fn contains_newline(s: Seq<char>) -> bool {
    exists|i: int| 0 <= i < s.len() && s[i] == '\n'
}

/// One level of indentation: a tab is inserted after every newline of `s`.
pub open spec fn indented(s: Seq<char>) -> Seq<char>
    decreases s.len(),
{
    if s.len() == 0 {
        Seq::empty()
    } else if s.last() == '\n' {
        indented(s.drop_last()) + seq!['\n', '\t']
    } else {
        indented(s.drop_last()) + seq![s.last()]
    }
}

/// The open tag of an element: `<tag` alone for an empty mapping, else
/// `<tag ` followed by the space-joined attribute pairs, in both cases
/// without the closing `>`.
pub open spec fn open_tag(tag: Seq<char>, m: Seq<(Seq<char>, Seq<char>)>) -> Seq<char> {
    if m.len() > 0 {
        seq!['<'] + tag + seq![' '] + attrs_str(m)
    } else {
        seq!['<'] + tag
    }
}

/// The rendering of one node.
///
/// - `Text(s)` renders as `s`, verbatim.
/// - `List(items)` renders as the items joined by single newlines.
/// - An element with no content renders as its open tag closed by `>`, with
///   no closing-tag text. With content, the content is rendered first: a
///   single-line rendering stays inline between `>` and `</tag>`; one with a
///   newline is indented by a tab after every newline and wrapped between
///   `>\n\t` and `\n</tag>`.
pub open spec fn render_node(n: Node) -> Seq<char>
    decreases n,
{
    match n {
        Node::Text(s) => s@,
        Node::List(items) => render_items(items@),
        Node::Element { tag, attrs, content } => match content {
            None => open_tag(tag@, pairs_view(attrs@)) + seq!['>'],
            Some(c) => {
                let cs = render_node(*c);
                if contains_newline(cs) {
                    open_tag(tag@, pairs_view(attrs@)) + seq!['>', '\n', '\t'] + indented(cs)
                        + seq!['\n', '<', '/'] + tag@ + seq!['>']
                } else {
                    open_tag(tag@, pairs_view(attrs@)) + seq!['>'] + cs + seq!['<', '/'] + tag@
                        + seq!['>']
                }
            },
        },
    }
}

/// The rendering of a list's items: joined by one newline between successive
/// items, with no leading or trailing newline. An empty list renders empty.
pub open spec fn render_items(items: Seq<Node>) -> Seq<char>
    decreases items,
{
    if items.len() == 0 {
        Seq::empty()
    } else if items.len() == 1 {
        render_node(items[0])
    } else {
        render_items(items.drop_last()) + seq!['\n'] + render_node(items.last())
    }
}

/// Whether the already-rendered text `s` holds a newline, deciding inline
/// versus block layout for the element around it.
pub fn has_newline(s: &str) -> (r: bool)
    ensures
        r == contains_newline(s@),
{
    let n = s.unicode_len();
    let mut i: usize = 0;
    while i < n
        invariant
            i <= n,
            n == s@.len(),
            forall|j: int| 0 <= j < i ==> s@[j] != '\n',
        decreases n - i,
    {
        if s.get_char(i) == '\n' {
            return true;
        }
        i += 1;
    }
    false
}

/// Indents `s` by one level: every newline gets a tab inserted after it.
pub fn indent_text(s: &str) -> (r: String)
    ensures
        r@ == indented(s@),
{
    let n = s.unicode_len();
    let mut out = String::new();
    proof {
        assert(out@ =~= indented(s@.take(0)));
    }
    let mut i: usize = 0;
    while i < n
        invariant
            i <= n,
            n == s@.len(),
            out@ == indented(s@.take(i as int)),
        decreases n - i,
    {
        if s.get_char(i) == '\n' {
            out.append("\n\t");
            proof {
                reveal_strlit("\n\t");
                assert("\n\t"@ =~= seq!['\n', '\t']);
            }
        } else {
            let piece = s.substring_char(i, i + 1);
            out.append(piece);
            proof {
                assert(piece@ =~= seq![s@[i as int]]);
            }
        }
        proof {
            assert(s@.take(i + 1).drop_last() =~= s@.take(i as int));
            assert(out@ =~= indented(s@.take(i + 1)));
        }
        i += 1;
    }
    proof {
        assert(s@.take(s@.len() as int) =~= s@);
    }
    out
}

/// Renders one node to its markup text, exactly as `render_node` states.
#[verifier::loop_isolation(false)]
pub fn render(n: &Node) -> (r: String)
    ensures
        r@ == render_node(*n),
    decreases *n,
{
    match n {
        Node::Text(s) => s.clone(),
        Node::List(items) => {
            let mut out = String::new();
            proof {
                assert(out@ =~= render_items(items@.take(0)));
            }
            let mut i: usize = 0;
            while i < items.len()
                invariant
                    i <= items.len(),
                    out@ == render_items(items@.take(i as int)),
                decreases items.len() - i,
            {
                if i > 0 {
                    out.append("\n");
                }
                let piece = render(&items[i]);
                out.append(piece.as_str());
                proof {
                    reveal_strlit("\n");
                    assert("\n"@ =~= seq!['\n']);
                    assert(items@.take(i + 1).drop_last() =~= items@.take(i as int));
                    assert(items@.take(i + 1)[0] == items@[0]);
                    assert(out@ =~= render_items(items@.take(i + 1)));
                }
                i += 1;
            }
            proof {
                assert(items@.take(items@.len() as int) =~= items@);
            }
            out
        },
        Node::Element { tag, attrs, content } => {
            let mut out = String::new();
            out.append("<");
            out.append(tag.as_str());
            if attrs.len() > 0 {
                out.append(" ");
                let formatted = html_attrs_tostr(attrs);
                out.append(formatted.as_str());
            }
            proof {
                reveal_strlit("<");
                reveal_strlit(" ");
                assert("<"@ =~= seq!['<']);
                assert(" "@ =~= seq![' ']);
                assert(out@ =~= open_tag(tag@, pairs_view(attrs@)));
            }
            match content {
                None => {
                    out.append(">");
                    proof {
                        reveal_strlit(">");
                        assert(">"@ =~= seq!['>']);
                        assert(out@ =~= render_node(*n));
                    }
                },
                Some(c) => {
                    let cs = render(&**c);
                    if has_newline(cs.as_str()) {
                        out.append(">\n\t");
                        let ind = indent_text(cs.as_str());
                        out.append(ind.as_str());
                        out.append("\n</");
                        out.append(tag.as_str());
                        out.append(">");
                        proof {
                            reveal_strlit(">\n\t");
                            reveal_strlit("\n</");
                            reveal_strlit(">");
                            assert(">\n\t"@ =~= seq!['>', '\n', '\t']);
                            assert("\n</"@ =~= seq!['\n', '<', '/']);
                            assert(">"@ =~= seq!['>']);
                            assert(out@ =~= render_node(*n));
                        }
                    } else {
                        out.append(">");
                        out.append(cs.as_str());
                        out.append("</");
                        out.append(tag.as_str());
                        out.append(">");
                        proof {
                            reveal_strlit(">");
                            reveal_strlit("</");
                            assert(">"@ =~= seq!['>']);
                            assert("</"@ =~= seq!['<', '/']);
                            assert(out@ =~= render_node(*n));
                        }
                    }
                },
            }
            out
        },
    }
}

/// How many newline characters `s` holds.
pub open spec fn newline_count(s: Seq<char>) -> int
    decreases s.len(),
{
    if s.len() == 0 {
        0
    } else {
        newline_count(s.drop_last()) + if s.last() == '\n' {
            1int
        } else {
            0int
        }
    }
}

proof fn lemma_newline_count_concat(a: Seq<char>, b: Seq<char>)
    ensures
        newline_count(a + b) == newline_count(a) + newline_count(b),
    decreases b.len(),
{
    if b.len() == 0 {
        assert(a + b =~= a);
    } else {
        lemma_newline_count_concat(a, b.drop_last());
        assert((a + b).drop_last() =~= a + b.drop_last());
        assert((a + b).last() == b.last());
    }
}

proof fn lemma_no_newline_count_zero(s: Seq<char>)
    requires
        !contains_newline(s),
    ensures
        newline_count(s) == 0,
    decreases s.len(),
{
    if s.len() > 0 {
        assert(!contains_newline(s.drop_last())) by {
            assert forall|i: int| 0 <= i < s.drop_last().len() implies s.drop_last()[i]
                != '\n' by {
                assert(s.drop_last()[i] == s[i]);
            }
        }
        lemma_no_newline_count_zero(s.drop_last());
        assert(s.last() != '\n');
    }
}

/// The summed length of the bare `key="value"` texts of a mapping: each entry
/// contributes its key, its value, and the three characters `=`, `"`, `"`.
pub open spec fn pairs_len(m: Seq<(Seq<char>, Seq<char>)>) -> int
    decreases m.len(),
{
    if m.len() == 0 {
        0
    } else {
        pairs_len(m.drop_last()) + m.last().0.len() + m.last().1.len() + 3
    }
}

proof fn lemma_attrs_str_len(m: Seq<(Seq<char>, Seq<char>)>)
    requires
        m.len() > 0,
    ensures
        attrs_str(m).len() == pairs_len(m) + m.len() - 1,
    decreases m.len(),
{
    assert(attr_str(m.last()).len() == m.last().0.len() + m.last().1.len() + 3);
    if m.len() == 1 {
        assert(m.drop_last().len() == 0);
        assert(pairs_len(m.drop_last()) == 0);
        assert(m[0] == m.last());
    } else {
        lemma_attrs_str_len(m.drop_last());
    }
}

/// Law: an element with an empty attribute mapping opens with `>` directly
/// after the tag name — no space stands before it; a non-empty mapping inserts
/// exactly one space after the tag name, then the space-joined pairs, whose
/// text ends with `"` — never with a space — directly before `>`.
pub proof fn lemma_attribute_spacing(tag: String, m: Vec<(String, String)>)
    ensures
        m@.len() == 0 ==> render_node(Node::Element { tag, attrs: m, content: None }) == seq!['<']
            + tag@ + seq!['>'],
        m@.len() > 0 ==> render_node(Node::Element { tag, attrs: m, content: None }) == seq!['<']
            + tag@ + seq![' '] + attrs_str(pairs_view(m@)) + seq!['>'],
        m@.len() > 0 ==> attrs_str(pairs_view(m@)).len() > 0 && attrs_str(pairs_view(m@)).last()
            == '"',
        m@.len() > 0 ==> attrs_str(pairs_view(m@)).len() == pairs_len(pairs_view(m@)) + m@.len()
            - 1,
{
    let pv = pairs_view(m@);
    let n = Node::Element { tag, attrs: m, content: None };
    if m@.len() > 0 {
        lemma_attrs_str_len(pv);
    }
    if m@.len() == 0 {
        assert(render_node(n) =~= seq!['<'] + tag@ + seq!['>']);
    } else {
        assert(render_node(n) =~= seq!['<'] + tag@ + seq![' '] + attrs_str(pv) + seq!['>']);
        if pv.len() == 1 {
            assert(attrs_str(pv) == attr_str(pv[0]));
            assert(attr_str(pv[0]).last() == '"');
        } else {
            let last = attr_str(pv.last());
            assert(last.last() == '"');
            assert(attrs_str(pv).last() == last.last());
        }
    }
}

/// Law: an element without content renders as its open tag closed by `>` and
/// nothing more; in particular no `</tag>` text follows.
pub proof fn lemma_no_content_no_closing_tag(tag: String, m: Vec<(String, String)>)
    ensures
        render_node(Node::Element { tag, attrs: m, content: None }) == open_tag(
            tag@,
            pairs_view(m@),
        ) + seq!['>'],
        render_node(Node::Element { tag, attrs: m, content: None }).last() == '>',
{
    let n = Node::Element { tag, attrs: m, content: None };
    assert(render_node(n).last() == '>');
}

/// Law: content that renders to a single line stays inline; the element is
/// exactly its open tag, `>`, the content text unchanged, and `</tag>`, with
/// no newline inserted by the element itself.
pub proof fn lemma_single_line_content_inline(tag: String, m: Vec<(String, String)>, c: Box<Node>)
    requires
        !contains_newline(render_node(*c)),
    ensures
        render_node(Node::Element { tag, attrs: m, content: Some(c) }) == open_tag(
            tag@,
            pairs_view(m@),
        ) + seq!['>'] + render_node(*c) + seq!['<', '/'] + tag@ + seq!['>'],
{
}

/// Law: content that renders with a newline becomes an indented block: the
/// element is its open tag, `>`, a newline and a tab, the content with a tab
/// inserted after every newline, a newline, and `</tag>`.
pub proof fn lemma_multi_line_content_block(tag: String, m: Vec<(String, String)>, c: Box<Node>)
    requires
        contains_newline(render_node(*c)),
    ensures
        render_node(Node::Element { tag, attrs: m, content: Some(c) }) == open_tag(
            tag@,
            pairs_view(m@),
        ) + seq!['>', '\n', '\t'] + indented(render_node(*c)) + seq!['\n', '<', '/'] + tag@
            + seq!['>'],
{
}

/// Law: in indented text, every newline is directly followed by a tab; in
/// particular indented text never ends with a newline.
pub proof fn lemma_indented_newline_followed_by_tab(s: Seq<char>, i: int)
    requires
        0 <= i < indented(s).len(),
        indented(s)[i] == '\n',
    ensures
        i + 1 < indented(s).len(),
        indented(s)[i + 1] == '\t',
    decreases s.len(),
{
    if s.len() > 0 {
        let p = indented(s.drop_last());
        if i < p.len() {
            lemma_indented_newline_followed_by_tab(s.drop_last(), i);
        }
    }
}

/// Law: a list of n items renders with exactly n - 1 newlines — one separator
/// between each pair of successive items — when no item's own rendering holds
/// a newline; when the last item renders non-empty, the list text does not end
/// with a newline; and an empty list renders as the empty string.
pub proof fn lemma_list_separators(items: Seq<Node>)
    requires
        forall|i: int| 0 <= i < items.len() ==> !contains_newline(#[trigger] render_node(items[i])),
    ensures
        items.len() == 0 ==> render_items(items) == Seq::<char>::empty(),
        items.len() > 0 ==> newline_count(render_items(items)) == items.len() - 1,
        items.len() > 0 && render_node(items.last()).len() > 0 ==> render_items(items).last()
            != '\n',
    decreases items.len(),
{
    if items.len() == 1 {
        lemma_no_newline_count_zero(render_node(items[0]));
    } else if items.len() > 1 {
        let front = items.drop_last();
        assert forall|i: int| 0 <= i < front.len() implies !contains_newline(
            #[trigger] render_node(front[i]),
        ) by {
            assert(front[i] == items[i]);
        }
        lemma_list_separators(front);
        let tail = render_node(items.last());
        lemma_no_newline_count_zero(tail);
        lemma_newline_count_concat(render_items(front), seq!['\n'] + tail);
        lemma_newline_count_concat(seq!['\n'], tail);
        let sep = seq!['\n'];
        assert(render_items(front) + sep + tail =~= render_items(front) + (sep + tail));
        assert(sep.drop_last() =~= Seq::<char>::empty());
        assert(newline_count(sep.drop_last()) == 0);
        assert(sep.last() == '\n');
        assert(newline_count(sep) == 1);
        if tail.len() > 0 {
            assert(render_items(items).last() == tail.last());
        }
    }
}

/// The full page text: the HTML5 document type line, then the rendered root.
pub open spec fn document_str(root: Node) -> Seq<char> {
    "<!DOCTYPE html>\n"@ + render_node(root)
}

/// Renders a whole document: `<!DOCTYPE html>`, a newline, and the root node.
pub fn render_document(root: &Node) -> (r: String)
    ensures
        r@ == document_str(*root),
{
    let mut out = String::from_str("<!DOCTYPE html>\n");
    let body = render(root);
    out.append(body.as_str());
    out
}

} // verus!
