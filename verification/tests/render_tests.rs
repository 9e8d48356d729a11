use worklog::render::parse_md_link;

#[test]
fn plain_text_passes_through() {
    assert_eq!(parse_md_link("no link here"), "no link here");
    assert_eq!(parse_md_link(""), "");
}

#[test]
fn a_link_becomes_an_anchor() {
    assert_eq!(
        parse_md_link("Did work [x](http://y)"),
        "Did work <a href='http://y'>x</a>"
    );
}

#[test]
fn text_around_the_link_is_kept() {
    assert_eq!(
        parse_md_link("pre [label](url) post"),
        "pre <a href='url'>label</a> post"
    );
}

#[test]
fn the_match_is_greedy() {
    // The `](` chosen is the last one with a `)` behind it, the `[` the
    // last one before it, and the `)` the last one in the text.
    assert_eq!(
        parse_md_link("[a](b) and [c](d)"),
        "[a](b) and <a href='d'>c</a>"
    );
}

#[test]
fn brackets_without_parens_pass_through() {
    assert_eq!(parse_md_link("just [brackets]"), "just [brackets]");
    assert_eq!(parse_md_link("](no bracket)"), "](no bracket)");
}
