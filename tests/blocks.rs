use presemd::blocks::{extract_directives, parse, parse_highlight_spec};
use presemd::model::{Block, Inline, ListMarker};

#[test]
fn test_extract_directives() {
    let raw = "@layout: two-column\n@theme: dark\n\n# Title\n\nContent";
    let (dirs, content) = extract_directives(raw);
    assert_eq!(dirs.len(), 2);
    assert_eq!(dirs[0].name, "layout");
    assert_eq!(dirs[0].value, "two-column");
    assert_eq!(dirs[1].name, "theme");
    assert_eq!(dirs[1].value, "dark");
    assert!(content.contains("# Title"));
}

#[test]
fn test_parse_heading() {
    let blocks = parse("# Title");
    assert_eq!(blocks.len(), 1);
    assert!(matches!(&blocks[0], Block::Heading { level: 1, .. }));
}

#[test]
fn test_parse_code_block() {
    let blocks = parse("```rust\nfn main() {}\n```");
    assert_eq!(blocks.len(), 1);
    if let Block::CodeBlock { language, code, .. } = &blocks[0] {
        assert_eq!(language.as_deref(), Some("rust"));
        assert_eq!(code, "fn main() {}");
    } else {
        panic!("Expected CodeBlock");
    }
}

#[test]
fn test_parse_diagram_block() {
    let blocks = parse("```@diagram\n- A -> B: hello\n```");
    assert_eq!(blocks.len(), 1);
    assert!(matches!(&blocks[0], Block::Diagram { .. }));
}

#[test]
fn test_parse_image() {
    let blocks = parse("![Photo @fill](photo.jpg)");
    assert_eq!(blocks.len(), 1);
    if let Block::Image {
        alt,
        path,
        directives,
    } = &blocks[0]
    {
        assert_eq!(alt, "Photo");
        assert_eq!(path, "photo.jpg");
        assert!(directives.fill);
    } else {
        panic!("Expected Image");
    }
}

#[test]
fn test_parse_image_width() {
    let blocks = parse("![Diagram @width:80%](diagram.png)");
    assert_eq!(blocks.len(), 1);
    if let Block::Image { directives, .. } = &blocks[0] {
        assert_eq!(directives.width.as_deref(), Some("80%"));
    } else {
        panic!("Expected Image");
    }
}

#[test]
fn test_parse_blockquote() {
    let blocks = parse("> This is a quote\n> with multiple lines");
    assert_eq!(blocks.len(), 1);
    assert!(matches!(&blocks[0], Block::BlockQuote { .. }));
}

#[test]
fn test_parse_table() {
    let input = "| A | B |\n|---|---|\n| 1 | 2 |";
    let blocks = parse(input);
    assert_eq!(blocks.len(), 1);
    if let Block::Table { headers, rows } = &blocks[0] {
        assert_eq!(headers.len(), 2);
        assert_eq!(rows.len(), 1);
    } else {
        panic!("Expected Table");
    }
}

#[test]
fn test_parse_unordered_list() {
    let blocks = parse("- First\n- Second\n- Third");
    assert_eq!(blocks.len(), 1);
    if let Block::List { ordered, items } = &blocks[0] {
        assert!(!ordered);
        assert_eq!(items.len(), 3);
    } else {
        panic!("Expected List");
    }
}

#[test]
fn test_parse_list_markers() {
    let blocks = parse("- Static\n+ Next\n* WithPrev");
    assert_eq!(blocks.len(), 1);
    if let Block::List { items, .. } = &blocks[0] {
        assert_eq!(items[0].marker, ListMarker::Static);
        assert_eq!(items[1].marker, ListMarker::NextStep);
        assert_eq!(items[2].marker, ListMarker::WithPrev);
    } else {
        panic!("Expected List");
    }
}

#[test]
fn test_parse_horizontal_rule() {
    let blocks = parse("Some text\n\n***\n\nMore text");
    assert!(blocks.iter().any(|b| matches!(b, Block::HorizontalRule)));
}

#[test]
fn test_parse_column_separator() {
    let blocks = parse("Left content\n\n+++\n\nRight content");
    assert!(blocks.iter().any(|b| matches!(b, Block::ColumnSeparator)));
}

#[test]
fn test_highlight_spec() {
    let result = parse_highlight_spec("3,5-7");
    assert_eq!(result, vec![3, 5, 6, 7]);
}

#[test]
fn test_nested_list() {
    let blocks = parse("- Parent\n  - Child\n    - Grandchild");
    assert_eq!(blocks.len(), 1);
    if let Block::List { items, .. } = &blocks[0] {
        assert_eq!(items.len(), 1);
        assert_eq!(items[0].children.len(), 1);
        assert_eq!(items[0].children[0].children.len(), 1);
    } else {
        panic!("Expected List");
    }
}

#[test]
fn highlight_spec_skips_malformed_parts() {
    assert_eq!(parse_highlight_spec("x,2, 4 - 5 ,7-6,+3"), vec![2, 4, 5, 3]);
    assert_eq!(parse_highlight_spec(""), Vec::<usize>::new());
}

#[test]
fn code_fence_with_language_and_highlights() {
    let blocks = parse("~~~~python {2,4-5}\na\n~~~\nb\n~~~~\nafter");
    assert_eq!(blocks.len(), 2);
    if let Block::CodeBlock { language, code, highlight_lines } = &blocks[0] {
        assert_eq!(language.as_deref(), Some("python"));
        assert_eq!(code, "a\n~~~\nb");
        assert_eq!(highlight_lines, &vec![2, 4, 5]);
    } else {
        panic!("Expected CodeBlock");
    }
    assert!(matches!(&blocks[1], Block::Paragraph { .. }));
}

#[test]
fn unclosed_fence_takes_rest() {
    let blocks = parse("```\nline one\nline two");
    assert_eq!(blocks.len(), 1);
    if let Block::CodeBlock { language, code, .. } = &blocks[0] {
        assert!(language.is_none());
        assert_eq!(code, "line one\nline two");
    } else {
        panic!("Expected CodeBlock");
    }
}

#[test]
fn heading_levels_and_fallthrough() {
    let blocks = parse("### Three\n####### Seven\n#tag");
    assert!(matches!(&blocks[0], Block::Heading { level: 3, .. }));
    assert_eq!(blocks.len(), 3);
    assert!(matches!(&blocks[1], Block::Paragraph { .. }));
    assert!(matches!(&blocks[2], Block::Paragraph { .. }));
}

#[test]
fn malformed_image_is_a_paragraph() {
    let blocks = parse("![broken](no close");
    assert_eq!(blocks.len(), 1);
    if let Block::Paragraph { inlines } = &blocks[0] {
        assert!(!inlines.is_empty());
    } else {
        panic!("Expected Paragraph");
    }
}

#[test]
fn image_alt_directives() {
    let blocks = parse("![A @left @fit big @height:10px @unknown cat](a.png)");
    if let Block::Image { alt, path, directives } = &blocks[0] {
        assert_eq!(alt, "A big cat");
        assert_eq!(path, "a.png");
        assert!(directives.fit);
        assert!(!directives.fill);
        assert_eq!(directives.align.as_deref(), Some("left"));
        assert_eq!(directives.height.as_deref(), Some("10px"));
        assert!(directives.width.is_none());
    } else {
        panic!("Expected Image");
    }
}

#[test]
fn single_table_line_is_a_paragraph() {
    let blocks = parse("| only |\n\ntext");
    assert_eq!(blocks.len(), 2);
    assert!(matches!(&blocks[0], Block::Paragraph { .. }));
}

#[test]
fn table_cells_are_parsed() {
    let blocks = parse("| **A** | B |\n|---|---|\n| 1 | 2 |\n| 3 | 4 |");
    if let Block::Table { headers, rows } = &blocks[0] {
        assert!(matches!(&headers[0][0], Inline::Bold(_)));
        assert_eq!(rows.len(), 2);
        assert!(matches!(&rows[1][1][0], Inline::Text(s) if s == "4"));
    } else {
        panic!("Expected Table");
    }
}

#[test]
fn blockquote_joins_lines() {
    let blocks = parse("> one\n>\n> two\nafter");
    assert_eq!(blocks.len(), 2);
    if let Block::BlockQuote { inlines } = &blocks[0] {
        assert!(matches!(&inlines[0], Inline::Text(s) if s == "one  two"));
    } else {
        panic!("Expected BlockQuote");
    }
}

#[test]
fn paragraph_joins_lines_until_blank() {
    let blocks = parse("first line\nsecond line\n\nthird");
    assert_eq!(blocks.len(), 2);
    if let Block::Paragraph { inlines } = &blocks[0] {
        assert!(matches!(&inlines[0], Inline::Text(s) if s == "first line second line"));
    } else {
        panic!("Expected Paragraph");
    }
}

#[test]
fn ordered_list_and_blank_separated_items() {
    let blocks = parse("1. one\n\n2. two\n10. ten");
    assert_eq!(blocks.len(), 1);
    if let Block::List { ordered, items } = &blocks[0] {
        assert!(ordered);
        assert_eq!(items.len(), 3);
        assert_eq!(items[2].marker, ListMarker::Ordered);
    } else {
        panic!("Expected List");
    }
}

#[test]
fn directive_region_ends_at_malformed_line() {
    let (dirs, content) = extract_directives("@ok: 1\n@bad name: 2\n@x: 3");
    assert_eq!(dirs.len(), 1);
    assert_eq!(dirs[0].name, "ok");
    assert_eq!(dirs[0].value, "1");
    assert_eq!(content, "@bad name: 2\n@x: 3");
}

#[test]
fn directive_without_colon_is_content() {
    let (dirs, content) = extract_directives("\n\n@nocolon\nbody");
    assert!(dirs.is_empty());
    assert_eq!(content, "@nocolon\nbody");
}

#[test]
fn empty_content_has_no_blocks() {
    assert!(parse("").is_empty());
    assert!(parse("\n  \n").is_empty());
    let (dirs, content) = extract_directives("");
    assert!(dirs.is_empty());
    assert_eq!(content, "");
}
