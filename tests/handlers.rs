use marq::handlers::CompareSection;

#[test]
fn test_parse_sections_basic() {
    let code = r#"/// json
{"key": "value"}
/// yaml
key: value"#;

    let sections = CompareSection::parse_sections(code);
    assert_eq!(sections.len(), 2);

    assert_eq!(sections[0].language, "json");
    assert_eq!(sections[0].code, r#"{"key": "value"}"#);

    assert_eq!(sections[1].language, "yaml");
    assert_eq!(sections[1].code, "key: value");
}

#[test]
fn test_parse_sections_multiline_code() {
    let code = r#"/// rust
fn main() {
    println!("Hello");
}
/// python
def main():
    print("Hello")"#;

    let sections = CompareSection::parse_sections(code);
    assert_eq!(sections.len(), 2);

    assert_eq!(sections[0].language, "rust");
    assert!(sections[0].code.contains("fn main()"));
    assert!(sections[0].code.contains("println!"));

    assert_eq!(sections[1].language, "python");
    assert!(sections[1].code.contains("def main():"));
}

#[test]
fn test_parse_sections_ignores_leading_content() {
    let code = r#"This is ignored
Also ignored
/// json
{"valid": true}"#;

    let sections = CompareSection::parse_sections(code);
    assert_eq!(sections.len(), 1);
    assert_eq!(sections[0].language, "json");
    assert_eq!(sections[0].code, r#"{"valid": true}"#);
}

#[test]
fn test_parse_sections_empty() {
    let code = "no sections here";
    let sections = CompareSection::parse_sections(code);
    assert!(sections.is_empty());
}

#[test]
fn test_parse_sections_three_way() {
    let code = r#"/// json
{"format": "json"}
/// yaml
format: yaml
/// toml
format = "toml""#;

    let sections = CompareSection::parse_sections(code);
    assert_eq!(sections.len(), 3);
    assert_eq!(sections[0].language, "json");
    assert_eq!(sections[1].language, "yaml");
    assert_eq!(sections[2].language, "toml");
}

#[test]
fn compare_sections_line_endings() {
    let sections = CompareSection::parse_sections("/// a\r\nx  \r\ny\n\n///   b  \n");
    assert_eq!(sections.len(), 2);
    assert_eq!(sections[0].language, "a");
    assert_eq!(sections[0].code, "x  \ny");
    assert_eq!(sections[1].language, "b");
    assert_eq!(sections[1].code, "");
    assert!(CompareSection::parse_sections("").is_empty());
}
