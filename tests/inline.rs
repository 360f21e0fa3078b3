use presemd::inline::parse;
use presemd::model::Inline;

#[test]
fn test_plain_text() {
    let result = parse("Hello world");
    assert_eq!(result.len(), 1);
    assert!(matches!(&result[0], Inline::Text(s) if s == "Hello world"));
}

#[test]
fn test_bold() {
    let result = parse("Hello **world**");
    assert_eq!(result.len(), 2);
    assert!(matches!(&result[0], Inline::Text(s) if s == "Hello "));
    assert!(matches!(&result[1], Inline::Bold(_)));
}

#[test]
fn test_italic() {
    let result = parse("Hello *world*");
    assert_eq!(result.len(), 2);
    assert!(matches!(&result[0], Inline::Text(s) if s == "Hello "));
    assert!(matches!(&result[1], Inline::Italic(_)));
}

#[test]
fn test_inline_code() {
    let result = parse("Use `println!` here");
    assert_eq!(result.len(), 3);
    assert!(matches!(&result[1], Inline::Code(s) if s == "println!"));
}

#[test]
fn test_link() {
    let result = parse("Click [here](https://example.com)");
    assert_eq!(result.len(), 2);
    assert!(matches!(&result[1], Inline::Link { url, .. } if url == "https://example.com"));
}

#[test]
fn test_strikethrough() {
    let result = parse("This is ~~deleted~~ text");
    assert_eq!(result.len(), 3);
    assert!(matches!(&result[1], Inline::Strikethrough(_)));
}

#[test]
fn test_mixed_formatting() {
    let result = parse("**bold** and *italic*");
    assert!(result.len() >= 3);
    assert!(matches!(&result[0], Inline::Bold(_)));
    assert!(matches!(&result[2], Inline::Italic(_)));
}

#[test]
fn bold_holds_text() {
    let result = parse("Hello **world**");
    if let Inline::Bold(inner) = &result[1] {
        assert_eq!(inner.len(), 1);
        assert!(matches!(&inner[0], Inline::Text(s) if s == "world"));
    } else {
        panic!("Expected Bold");
    }
}

#[test]
fn unclosed_bold_is_literal_text() {
    let result = parse("**bold");
    assert!(!result.is_empty());
    let mut all = String::new();
    for x in &result {
        if let Inline::Text(s) = x {
            all.push_str(s);
        } else {
            panic!("Expected Text only");
        }
    }
    assert_eq!(all, "**bold");
}

#[test]
fn code_content_is_verbatim() {
    let result = parse("`**not bold**`");
    assert_eq!(result.len(), 1);
    assert!(matches!(&result[0], Inline::Code(s) if s == "**not bold**"));
}

#[test]
fn delimiter_inside_code_run_does_not_close() {
    let result = parse("**a `**` b**");
    assert_eq!(result.len(), 1);
    if let Inline::Bold(inner) = &result[0] {
        assert!(matches!(&inner[1], Inline::Code(s) if s == "**"));
    } else {
        panic!("Expected Bold");
    }
}

#[test]
fn nested_brackets_in_link() {
    let result = parse("[a [b] c](http://x.org/(y))");
    assert_eq!(result.len(), 1);
    if let Inline::Link { text, url } = &result[0] {
        assert_eq!(url, "http://x.org/(y)");
        assert!(matches!(&text[0], Inline::Text(s) if s == "a "));
    } else {
        panic!("Expected Link");
    }
}

#[test]
fn empty_span_is_not_a_span() {
    let result = parse("****");
    assert!(result.iter().all(|x| matches!(x, Inline::Text(_))));
    assert!(parse("").is_empty());
}

#[test]
fn unclosed_bold_spans_exactly() {
    let result = parse("**bold");
    assert_eq!(result.len(), 2);
    assert!(matches!(&result[0], Inline::Text(s) if s == "*"));
    assert!(matches!(&result[1], Inline::Text(s) if s == "*bold"));
}
