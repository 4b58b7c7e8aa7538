use html_render::attrs;
use html_render::html_attrs_tostr;

#[test]
fn empty_mapping_formats_empty() {
    let m = attrs(vec![]);
    assert_eq!(m.len(), 0);
    assert_eq!(html_attrs_tostr(&m), "");
}

#[test]
fn single_pair_formats_exactly() {
    let m = attrs(vec![("class", "row")]);
    assert_eq!(html_attrs_tostr(&m), "class=\"row\"");
}

#[test]
fn pairs_keep_insertion_order() {
    let m = attrs(vec![("id", "x"), ("data-foo", "y")]);
    assert_eq!(html_attrs_tostr(&m), "id=\"x\" data-foo=\"y\"");
}

#[test]
fn duplicate_key_last_write_wins() {
    let m = attrs(vec![("a", "1"), ("b", "2"), ("a", "3")]);
    assert_eq!(m.len(), 2);
    assert_eq!(html_attrs_tostr(&m), "a=\"3\" b=\"2\"");
}

#[test]
fn no_trailing_space_in_formatted_pairs() {
    let m = attrs(vec![("rel", "stylesheet"), ("href", "style.css")]);
    let s = html_attrs_tostr(&m);
    assert!(!s.ends_with(' '));
    assert_eq!(s, "rel=\"stylesheet\" href=\"style.css\"");
}

#[test]
fn values_are_not_escaped() {
    let m = attrs(vec![("title", "a \"quoted\" value")]);
    assert_eq!(html_attrs_tostr(&m), "title=\"a \"quoted\" value\"");
}
