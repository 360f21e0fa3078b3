use presemd::frontmatter::{extract, meta_from_fields};

#[test]
fn test_extract_frontmatter() {
    let content = "---\ntitle: \"Hello\"\nauthor: \"Test\"\n@theme: dark\n---\n\n# Slide";
    let (meta, body) = extract(content);
    assert_eq!(meta.title.as_deref(), Some("Hello"));
    assert_eq!(meta.author.as_deref(), Some("Test"));
    assert_eq!(meta.theme.as_deref(), Some("dark"));
    assert!(body.contains("# Slide"));
}

#[test]
fn test_no_frontmatter() {
    let content = "# Just a slide\n\nSome content";
    let (meta, body) = extract(content);
    assert!(meta.title.is_none());
    assert_eq!(body, content);
}

#[test]
fn test_frontmatter_with_all_fields() {
    let content = "---\ntitle: \"Test\"\nauthor: \"Author\"\ndate: 2026-02-28\n@theme: light\n@transition: fade\n@aspect: 16:9\n@footer: \"footer text\"\n---\nBody";
    let (meta, body) = extract(content);
    assert_eq!(meta.title.as_deref(), Some("Test"));
    assert_eq!(meta.theme.as_deref(), Some("light"));
    assert_eq!(meta.transition.as_deref(), Some("fade"));
    assert_eq!(meta.aspect.as_deref(), Some("16:9"));
    assert_eq!(meta.footer.as_deref(), Some("footer text"));
    assert_eq!(body.trim(), "Body");
}

#[test]
fn test_frontmatter_date_not_string() {
    let content = "---\ntitle: \"Test\"\ndate: 2026-02-28\n---\nBody";
    let (meta, _body) = extract(content);
    assert!(meta.date.is_some());
}

#[test]
fn bom_is_stripped_and_unclosed_header_is_body() {
    let (meta, body) = extract("\u{feff}---\ntitle: x\nno close");
    assert!(meta.title.is_none());
    assert_eq!(body, "---\ntitle: x\nno close");
}

#[test]
fn header_body_split_exactly() {
    let (meta, body) = extract("---\r\n@code-theme: base16\r\n---\r\nfirst\nsecond");
    assert_eq!(meta.code_theme.as_deref(), Some("base16"));
    assert_eq!(body, "first\nsecond");
}

#[test]
fn yaml_non_string_values() {
    let (meta, _) = extract("---\ntitle: 42\ndate: 7\n---\n");
    assert!(meta.title.is_none());
    assert_eq!(meta.date.as_deref(), Some("Number(7)"));
}

#[test]
fn malformed_yaml_falls_back_to_lines() {
    let (meta, body) = extract("---\ntitle: \"a: b\" extra: [\n@footer: \"x\"\n---\nB");
    assert_eq!(meta.footer.as_deref(), Some("x"));
    assert_eq!(meta.title.as_deref(), Some("a: b\" extra: ["));
    assert_eq!(body, "B");
}

#[test]
fn fields_pick_strings_and_any_date() {
    let fields = vec![
        ("date".to_string(), false, "Number(5)".to_string()),
        ("title".to_string(), true, "T".to_string()),
        ("author".to_string(), false, "Null".to_string()),
        ("other".to_string(), true, "ignored".to_string()),
    ];
    let meta = meta_from_fields(Some(fields), "");
    assert_eq!(meta.title.as_deref(), Some("T"));
    assert_eq!(meta.date.as_deref(), Some("Number(5)"));
    assert!(meta.author.is_none());
    assert!(meta.footer.is_none());
}

#[test]
fn no_fields_reads_lines() {
    let meta = meta_from_fields(None, "title: \"Q\"\nunknown: 1\n@aspect: 4:3\ntitle: R");
    assert_eq!(meta.title.as_deref(), Some("R"));
    assert_eq!(meta.aspect.as_deref(), Some("4:3"));
    assert!(meta.author.is_none());
}
