use presemd::frontmatter::extract;
use presemd::splitter::split;

#[test]
fn test_blank_line_split() {
    let body = "Slide one\n\n\n\nSlide two";
    let slides = split(body);
    assert_eq!(slides.len(), 2);
    assert_eq!(slides[0], "Slide one");
    assert_eq!(slides[1], "Slide two");
}

#[test]
fn test_dash_separator() {
    let body = "Slide one\n\n---\n\nSlide two";
    let slides = split(body);
    assert_eq!(slides.len(), 2);
    assert_eq!(slides[0], "Slide one");
    assert_eq!(slides[1], "Slide two");
}

#[test]
fn test_heading_inference() {
    let body = "# First\n\nContent\n\n# Second\n\nMore content";
    let slides = split(body);
    assert_eq!(slides.len(), 2);
    assert!(slides[0].starts_with("# First"));
    assert!(slides[1].starts_with("# Second"));
}

#[test]
fn test_h2_no_split() {
    let body = "# Title\n\n## Subtitle\n\nContent";
    let slides = split(body);
    assert_eq!(slides.len(), 1);
}

#[test]
fn test_heading_inference_first_heading() {
    let body = "# Only Heading\n\nContent here";
    let slides = split(body);
    assert_eq!(slides.len(), 1);
}

#[test]
fn test_combined_separators() {
    let body = "Slide one\n\n\n\n---\n\n\n\nSlide two";
    let slides = split(body);
    assert_eq!(slides.len(), 2);
}

#[test]
fn test_heading_in_code_block_no_split() {
    let body = "# Title\n\n```python\n# this is a comment\nprint('hi')\n```";
    let slides = split(body);
    assert_eq!(
        slides.len(),
        1,
        "Hash comment in code block should not split"
    );
}

#[test]
fn code_fence_comment_scenario() {
    let slides = split("# Title\n\n```python\n# comment\n```");
    assert_eq!(slides.len(), 1);
}

#[test]
fn two_blank_lines_do_not_split() {
    let slides = split("one\n\n\ntwo");
    assert_eq!(slides, vec!["one\n\n\ntwo".to_string()]);
}

#[test]
fn dash_line_without_blank_neighbours_stays() {
    let slides = split("one\n---\ntwo");
    assert_eq!(slides, vec!["one\n---\ntwo".to_string()]);
}

#[test]
fn directives_do_not_count_as_content() {
    let slides = split("@layout: title\n# Heading\n\nBody\n# Next");
    assert_eq!(slides.len(), 2);
    assert_eq!(slides[0], "@layout: title\n# Heading\n\nBody");
    assert_eq!(slides[1], "# Next");
}

#[test]
fn crlf_and_whitespace_only_input() {
    let slides = split("A\r\n\r\n---\r\n\r\nB");
    assert_eq!(slides, vec!["A".to_string(), "B".to_string()]);
    assert!(split("").is_empty());
    assert!(split("\n\n \n\n\n---\n").is_empty());
}

#[test]
fn slides_are_trimmed_and_non_empty() {
    let body = "  a  \n\n\n\n\n\n---\n\n  \n# b\ntext\n# c\n\n\n\n";
    for s in split(body) {
        assert!(!s.is_empty());
        assert_eq!(s.trim(), s);
    }
}

#[test]
fn frontmatter_then_split() {
    let (_, body) = extract("---\ntitle: T\n---\n# One\n\ntext\n\n# Two");
    let slides = split(&body);
    assert_eq!(slides.len(), 2);
}

#[test]
fn empty_directive_name_is_content() {
    let slides = split("@: x\n# Title\n\nBody");
    assert_eq!(slides.len(), 2);
    assert_eq!(slides[0], "@: x");
}

#[test]
fn slides_keep_all_content() {
    let body = "  a  b\n\n\n\n\n# c\nd\n\n\n\n@x: y\n# e";
    let slides = split(body);
    assert!(slides.len() <= body.chars().filter(|c| !c.is_whitespace()).count());
    let kept: String = slides.concat().chars().filter(|c| !c.is_whitespace()).collect();
    let all: String = body.chars().filter(|c| !c.is_whitespace()).collect();
    assert_eq!(kept, all);
}
