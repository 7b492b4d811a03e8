use marq::links::resolve_link;

#[test]
fn test_absolute_link_simple() {
    assert_eq!(resolve_link("@/docs/intro.md", None), "/docs/intro/");
}

#[test]
fn test_absolute_link_with_fragment() {
    assert_eq!(
        resolve_link("@/docs/intro.md#section", None),
        "/docs/intro/#section"
    );
}

#[test]
fn test_absolute_link_index() {
    assert_eq!(resolve_link("@/_index.md", None), "/");
    assert_eq!(resolve_link("@/docs/_index.md", None), "/docs/");
}

#[test]
fn test_absolute_link_no_extension() {
    assert_eq!(resolve_link("@/docs/intro", None), "/docs/intro/");
}

#[test]
fn test_relative_link() {
    assert_eq!(
        resolve_link("sibling.md", Some("docs/page.md")),
        "/docs/sibling/"
    );
}

#[test]
fn test_relative_link_with_fragment() {
    assert_eq!(
        resolve_link("sibling.md#section", Some("docs/page.md")),
        "/docs/sibling/#section"
    );
}

#[test]
fn test_relative_link_parent_dir() {
    assert_eq!(
        resolve_link("../other.md", Some("docs/sub/page.md")),
        "/docs/other/"
    );
}

#[test]
fn test_external_link_passthrough() {
    assert_eq!(
        resolve_link("https://example.com", None),
        "https://example.com"
    );
    assert_eq!(
        resolve_link("http://example.com/page.md", None),
        "http://example.com/page.md"
    );
}

#[test]
fn test_fragment_only_passthrough() {
    assert_eq!(resolve_link("#section", None), "#section");
}

#[test]
fn test_non_md_link_passthrough() {
    assert_eq!(resolve_link("image.png", Some("docs/page.md")), "image.png");
}
