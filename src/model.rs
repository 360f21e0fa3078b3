//! The deck's data model, and its mathematical view.
use vstd::prelude::*;

verus! {

/// Inline formatting: a tree of spans inside a block.
#[derive(Debug)]
pub enum Inline {
    Text(String),
    Bold(Vec<Inline>),
    Italic(Vec<Inline>),
    Strikethrough(Vec<Inline>),
    Code(String),
    Link { text: Vec<Inline>, url: String },
}

/// How a list item takes part in incremental reveal.
#[derive(Debug, Clone, Copy, PartialEq, Eq, Structural)]
pub enum ListMarker {
    /// `-`: always visible.
    Static,
    /// `+`: appears on the next step.
    NextStep,
    /// `*`: appears with the previous step.
    WithPrev,
    /// `N.`: never gated by a step.
    Ordered,
}

#[derive(Debug)]
pub struct ListItem {
    pub marker: ListMarker,
    pub inlines: Vec<Inline>,
    pub children: Vec<ListItem>,
}

/// Settings read from an image's alt text.
#[derive(Debug)]
pub struct ImageDirectives {
    pub fill: bool,
    pub fit: bool,
    pub align: Option<String>,
    pub width: Option<String>,
    pub height: Option<String>,
}

#[derive(Debug)]
pub enum Block {
    Heading { level: u8, inlines: Vec<Inline> },
    Paragraph { inlines: Vec<Inline> },
    List { ordered: bool, items: Vec<ListItem> },
    CodeBlock { language: Option<String>, code: String, highlight_lines: Vec<usize> },
    Diagram { content: String },
    Image { alt: String, path: String, directives: ImageDirectives },
    BlockQuote { inlines: Vec<Inline> },
    Table { headers: Vec<Vec<Inline>>, rows: Vec<Vec<Vec<Inline>>> },
    HorizontalRule,
    ColumnSeparator,
}

/// A `@name: value` line.
#[derive(Debug)]
pub struct Directive {
    pub name: String,
    pub value: String,
}

/// The presentational archetype of a slide.
#[derive(Debug, Clone, Copy, PartialEq, Eq, Structural)]
pub enum Layout {
    Title,
    Section,
    Quote,
    Bullet,
    Code,
    Image,
    Gallery,
    Diagram,
    TwoColumn,
    Content,
}

#[derive(Debug)]
pub struct Slide {
    pub directives: Vec<Directive>,
    pub blocks: Vec<Block>,
    pub layout: Layout,
}

/// Document-wide settings from the frontmatter.
#[derive(Debug)]
pub struct PresentationMeta {
    pub title: Option<String>,
    pub author: Option<String>,
    pub date: Option<String>,
    pub theme: Option<String>,
    pub transition: Option<String>,
    pub aspect: Option<String>,
    pub code_theme: Option<String>,
    pub footer: Option<String>,
}

#[derive(Debug)]
pub struct Presentation {
    pub meta: PresentationMeta,
    pub slides: Vec<Slide>,
}

// ---------------------------------------------------------------------------
// Views
// ---------------------------------------------------------------------------
pub enum InlineV {
    Text(Seq<char>),
    Bold(Seq<InlineV>),
    Italic(Seq<InlineV>),
    Strikethrough(Seq<InlineV>),
    Code(Seq<char>),
    Link { text: Seq<InlineV>, url: Seq<char> },
}

pub struct ListItemV {
    pub marker: ListMarker,
    pub inlines: Seq<InlineV>,
    pub children: Seq<ListItemV>,
}

pub struct ImageDirectivesV {
    pub fill: bool,
    pub fit: bool,
    pub align: Option<Seq<char>>,
    pub width: Option<Seq<char>>,
    pub height: Option<Seq<char>>,
}

pub enum BlockV {
    Heading { level: u8, inlines: Seq<InlineV> },
    Paragraph { inlines: Seq<InlineV> },
    List { ordered: bool, items: Seq<ListItemV> },
    CodeBlock { language: Option<Seq<char>>, code: Seq<char>, highlight_lines: Seq<usize> },
    Diagram { content: Seq<char> },
    Image { alt: Seq<char>, path: Seq<char>, directives: ImageDirectivesV },
    BlockQuote { inlines: Seq<InlineV> },
    Table { headers: Seq<Seq<InlineV>>, rows: Seq<Seq<Seq<InlineV>>> },
    HorizontalRule,
    ColumnSeparator,
}

pub struct DirectiveV {
    pub name: Seq<char>,
    pub value: Seq<char>,
}

pub open spec fn opt_view(o: Option<String>) -> Option<Seq<char>> {
    match o {
        Some(s) => Some(s@),
        None => None,
    }
}

pub open spec fn view_inlines(v: Seq<Inline>) -> Seq<InlineV>
    decreases v, 0nat,
{
    Seq::new(
        v.len(),
        |i: int|
            if 0 <= i < v.len() {
                view_inline(v[i])
            } else {
                InlineV::Text(Seq::empty())
            },
    )
}

pub open spec fn view_inline(x: Inline) -> InlineV
    decreases x, 1nat,
{
    match x {
        Inline::Text(s) => InlineV::Text(s@),
        Inline::Bold(v) => InlineV::Bold(view_inlines(v@)),
        Inline::Italic(v) => InlineV::Italic(view_inlines(v@)),
        Inline::Strikethrough(v) => InlineV::Strikethrough(view_inlines(v@)),
        Inline::Code(s) => InlineV::Code(s@),
        Inline::Link { text, url } => InlineV::Link { text: view_inlines(text@), url: url@ },
    }
}

pub open spec fn view_items(v: Seq<ListItem>) -> Seq<ListItemV>
    decreases v, 0nat,
{
    Seq::new(
        v.len(),
        |i: int|
            if 0 <= i < v.len() {
                view_item(v[i])
            } else {
                ListItemV { marker: ListMarker::Static, inlines: Seq::empty(), children: Seq::empty() }
            },
    )
}

pub open spec fn view_item(x: ListItem) -> ListItemV
    decreases x, 1nat,
{
    ListItemV {
        marker: x.marker,
        inlines: view_inlines(x.inlines@),
        children: view_items(x.children@),
    }
}

pub open spec fn view_row(v: Seq<Vec<Inline>>) -> Seq<Seq<InlineV>> {
    v.map_values(|c: Vec<Inline>| view_inlines(c@))
}

pub open spec fn view_rows(v: Seq<Vec<Vec<Inline>>>) -> Seq<Seq<Seq<InlineV>>> {
    v.map_values(|r: Vec<Vec<Inline>>| view_row(r@))
}

pub open spec fn view_image_directives(d: ImageDirectives) -> ImageDirectivesV {
    ImageDirectivesV {
        fill: d.fill,
        fit: d.fit,
        align: opt_view(d.align),
        width: opt_view(d.width),
        height: opt_view(d.height),
    }
}

pub open spec fn view_block(b: Block) -> BlockV {
    match b {
        Block::Heading { level, inlines } => BlockV::Heading { level, inlines: view_inlines(inlines@) },
        Block::Paragraph { inlines } => BlockV::Paragraph { inlines: view_inlines(inlines@) },
        Block::List { ordered, items } => BlockV::List { ordered, items: view_items(items@) },
        Block::CodeBlock { language, code, highlight_lines } => BlockV::CodeBlock {
            language: opt_view(language),
            code: code@,
            highlight_lines: highlight_lines@,
        },
        Block::Diagram { content } => BlockV::Diagram { content: content@ },
        Block::Image { alt, path, directives } => BlockV::Image {
            alt: alt@,
            path: path@,
            directives: view_image_directives(directives),
        },
        Block::BlockQuote { inlines } => BlockV::BlockQuote { inlines: view_inlines(inlines@) },
        Block::Table { headers, rows } => BlockV::Table {
            headers: view_row(headers@),
            rows: view_rows(rows@),
        },
        Block::HorizontalRule => BlockV::HorizontalRule,
        Block::ColumnSeparator => BlockV::ColumnSeparator,
    }
}

pub open spec fn view_blocks(v: Seq<Block>) -> Seq<BlockV> {
    v.map_values(|b: Block| view_block(b))
}

pub open spec fn view_directive(d: Directive) -> DirectiveV {
    DirectiveV { name: d.name@, value: d.value@ }
}

pub open spec fn view_directives(v: Seq<Directive>) -> Seq<DirectiveV> {
    v.map_values(|d: Directive| view_directive(d))
}

pub proof fn lemma_view_inlines_push(v: Seq<Inline>, x: Inline)
    ensures
        view_inlines(v.push(x)) == view_inlines(v).push(view_inline(x)),
{
    assert(view_inlines(v.push(x)) =~= view_inlines(v).push(view_inline(x)));
}

pub proof fn lemma_view_items_push(v: Seq<ListItem>, x: ListItem)
    ensures
        view_items(v.push(x)) == view_items(v).push(view_item(x)),
{
    assert(view_items(v.push(x)) =~= view_items(v).push(view_item(x)));
}

} // verus!
