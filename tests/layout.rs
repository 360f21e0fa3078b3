use presemd::blocks::parse;
use presemd::layout::{
    clean_attribution, compute_max_steps, count_list_items, parse_presentation, parse_slide,
};
use presemd::model::{Block, Inline, Layout};

#[test]
fn list_markers_give_one_step() {
    let blocks = parse("- Static\n+ Next\n* WithPrev");
    assert_eq!(compute_max_steps(&blocks), 1);
}

#[test]
fn steps_count_nested_and_across_lists() {
    let blocks = parse("+ a\n  + b\n  * c\n\ntext\n\n+ d\n1. e");
    assert_eq!(compute_max_steps(&blocks), 3);
    assert_eq!(compute_max_steps(&parse("- a\n- b")), 0);
}

#[test]
fn counts_nested_items() {
    let blocks = parse("- Parent\n  - Child\n    - Grandchild\n- Other");
    if let Block::List { items, .. } = &blocks[0] {
        assert_eq!(count_list_items(items), 4);
    } else {
        panic!("Expected List");
    }
}

#[test]
fn attribution_dashes_become_em_dash() {
    let out = clean_attribution(&presemd::inline::parse("--- Ada *L*"));
    assert!(matches!(&out[0], Inline::Text(s) if s == "\u{2014} Ada "));
    assert!(matches!(&out[1], Inline::Italic(_)));
    let out = clean_attribution(&presemd::inline::parse("  -- Bob"));
    assert!(matches!(&out[0], Inline::Text(s) if s == "\u{2014} Bob"));
    let out = clean_attribution(&presemd::inline::parse("Carol"));
    assert!(matches!(&out[0], Inline::Text(s) if s == "Carol"));
}

#[test]
fn layouts_inferred() {
    assert_eq!(parse_slide("# Title\n\nSubtitle").layout, Layout::Title);
    assert_eq!(parse_slide("## Part two").layout, Layout::Section);
    assert_eq!(parse_slide("# H\n\n- a\n- b").layout, Layout::Bullet);
    assert_eq!(parse_slide("> quoted").layout, Layout::Quote);
    assert_eq!(parse_slide("```rust\nx\n```").layout, Layout::Code);
    assert_eq!(parse_slide("![a](a.png)").layout, Layout::Image);
    assert_eq!(parse_slide("![a](a.png)\n![b](b.png)").layout, Layout::Gallery);
    assert_eq!(parse_slide("```@diagram\nA -> B\n```").layout, Layout::Diagram);
    assert_eq!(parse_slide("left\n\n+++\n\nright").layout, Layout::TwoColumn);
    assert_eq!(parse_slide("just text").layout, Layout::Content);
}

#[test]
fn explicit_layout_wins() {
    let s = parse_slide("@layout: two-column\n@theme: dark\n\n# Title\n\nContent");
    assert_eq!(s.layout, Layout::TwoColumn);
    assert_eq!(s.directives.len(), 2);
    let s = parse_slide("@layout: nonsense\n\n- a");
    assert_eq!(s.layout, Layout::Bullet);
}

#[test]
fn whole_document() {
    let doc = "---\ntitle: Deck\n---\n# One\n\n- a\n+ b\n\n# Two\n\n> q\n\n---\n\nplain";
    let p = parse_presentation(doc);
    assert_eq!(p.meta.title.as_deref(), Some("Deck"));
    assert_eq!(p.slides.len(), 3);
    assert_eq!(p.slides[0].layout, Layout::Bullet);
    assert_eq!(p.slides[1].layout, Layout::Quote);
    assert_eq!(p.slides[2].layout, Layout::Content);
    assert_eq!(compute_max_steps(&p.slides[0].blocks), 1);
}
