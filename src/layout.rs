//! Slide layouts, reveal steps, and the whole-document pipeline.
use vstd::prelude::*;

use crate::blocks::{directives_spec, extract_directives, parse, parse_blocks};
use crate::frontmatter::{extract, extract_spec, meta_view};
use crate::model::{
    view_block, view_blocks, view_directives, view_inline, view_inlines, view_item, view_items,
    Block, BlockV, Directive, DirectiveV, Inline, InlineV, Layout, ListItem, ListItemV,
    ListMarker, Presentation, Slide,
};
use crate::splitter::{split, split_spec};
use crate::text::{chars_of, eq_chars, has_prefix, slice, starts_with, string_of, trim_start};

verus! {

// ---------------------------------------------------------------------------
// Reveal steps
// ---------------------------------------------------------------------------
/// `a + b`, or `usize::MAX` when that does not fit.
pub open spec fn sat_add(a: nat, b: nat) -> nat {
    if a + b > usize::MAX {
        usize::MAX as nat
    } else {
        a + b
    }
}

/// Reveal steps of the items `items[i..]` and their subtrees: one per `+` item.
pub open spec fn steps_from(items: Seq<ListItemV>, i: int) -> nat
    decreases items, items.len() - i,
{
    if i < 0 || i >= items.len() {
        0
    } else {
        item_steps(items[i]) + steps_from(items, i + 1)
    }
}

/// Reveal steps of one item and its subtree.
pub open spec fn item_steps(x: ListItemV) -> nat
    decreases x, 0int,
{
    (if x.marker == ListMarker::NextStep {
        1nat
    } else {
        0nat
    }) + steps_from(x.children, 0)
}

/// Items in `items[i..]`, subtrees included.
pub open spec fn count_from(items: Seq<ListItemV>, i: int) -> nat
    decreases items, items.len() - i,
{
    if i < 0 || i >= items.len() {
        0
    } else {
        item_count(items[i]) + count_from(items, i + 1)
    }
}

pub open spec fn item_count(x: ListItemV) -> nat
    decreases x, 0int,
{
    1 + count_from(x.children, 0)
}

/// The reveal steps of the first `k` blocks: the slide-wide step counter
/// advances once per `+` item, in every list and at every depth.
pub open spec fn block_steps(bs: Seq<BlockV>, k: int) -> nat
    decreases k,
{
    if k <= 0 || k > bs.len() {
        0
    } else {
        block_steps(bs, k - 1) + match bs[k - 1] {
            BlockV::List { items, .. } => steps_from(items, 0),
            _ => 0,
        }
    }
}

pub open spec fn max_steps(bs: Seq<BlockV>) -> nat {
    block_steps(bs, bs.len() as int)
}

fn sat(a: usize, b: usize) -> (r: usize)
    ensures
        r == sat_add(a as nat, b as nat),
{
    if a > usize::MAX - b {
        usize::MAX
    } else {
        a + b
    }
}

proof fn lemma_sat_assoc(x: nat, y: nat, z: nat)
    ensures
        sat_add(sat_add(x, y), z) == sat_add(x, sat_add(y, z)),
{
}

fn item_step_count(x: &ListItem) -> (r: usize)
    ensures
        r == sat_add(item_steps(view_item(*x)), 0),
    decreases x, 1nat,
{
    let own: usize = if x.marker == ListMarker::NextStep {
        1
    } else {
        0
    };
    let sub = items_step_count(&x.children);
    sat(own, sub)
}

fn items_step_count(items: &Vec<ListItem>) -> (r: usize)
    ensures
        r == sat_add(steps_from(view_items(items@), 0), 0),
    decreases items, 0nat,
{
    let ghost iv = view_items(items@);
    let mut total: usize = 0;
    let mut i = items.len();
    while i > 0
        invariant
            i <= items.len(),
            iv == view_items(items@),
            total == sat_add(steps_from(iv, i as int), 0),
        decreases i,
    {
        assert(iv[i - 1] == view_item(items@[i - 1]));
        let c = item_step_count(&items[i - 1]);
        proof {
            lemma_sat_assoc(item_steps(iv[i - 1]), steps_from(iv, i as int), 0);
        }
        total = sat(c, total);
        i = i - 1;
    }
    total
}

/// How many reveal steps a slide's blocks support (saturating at `usize::MAX`).
pub fn compute_max_steps(blocks: &Vec<Block>) -> (r: usize)
    ensures
        r == sat_add(max_steps(view_blocks(blocks@)), 0),
{
    let ghost bv = view_blocks(blocks@);
    let mut total: usize = 0;
    let mut k: usize = 0;
    while k < blocks.len()
        invariant
            k <= blocks.len(),
            bv == view_blocks(blocks@),
            total == sat_add(block_steps(bv, k as int), 0),
        decreases blocks.len() - k,
    {
        assert(bv[k as int] == view_block(blocks@[k as int]));
        match &blocks[k] {
            Block::List { items, .. } => {
                let c = items_step_count(items);
                total = sat(total, c);
            },
            _ => {},
        }
        k = k + 1;
    }
    total
}

fn item_total(x: &ListItem) -> (r: usize)
    ensures
        r == sat_add(item_count(view_item(*x)), 0),
    decreases x, 1nat,
{
    let sub = count_list_items(&x.children);
    sat(1, sub)
}

/// Number of list items, nested ones included (saturating at `usize::MAX`).
pub fn count_list_items(items: &Vec<ListItem>) -> (r: usize)
    ensures
        r == sat_add(count_from(view_items(items@), 0), 0),
    decreases items, 0nat,
{
    let ghost iv = view_items(items@);
    let mut total: usize = 0;
    let mut i = items.len();
    while i > 0
        invariant
            i <= items.len(),
            iv == view_items(items@),
            total == sat_add(count_from(iv, i as int), 0),
        decreases i,
    {
        assert(iv[i - 1] == view_item(items@[i - 1]));
        let c = item_total(&items[i - 1]);
        proof {
            lemma_sat_assoc(item_count(iv[i - 1]), count_from(iv, i as int), 0);
        }
        total = sat(c, total);
        i = i - 1;
    }
    total
}

// ---------------------------------------------------------------------------
// Quote attribution
// ---------------------------------------------------------------------------
fn clone_inline(x: &Inline) -> (r: Inline)
    ensures
        view_inline(r) == view_inline(*x),
    decreases x, 1nat,
{
    match x {
        Inline::Text(s) => Inline::Text(s.clone()),
        Inline::Bold(v) => Inline::Bold(clone_inlines(v)),
        Inline::Italic(v) => Inline::Italic(clone_inlines(v)),
        Inline::Strikethrough(v) => Inline::Strikethrough(clone_inlines(v)),
        Inline::Code(s) => Inline::Code(s.clone()),
        Inline::Link { text, url } => Inline::Link { text: clone_inlines(text), url: url.clone() },
    }
}

/// A deep copy of `v`.
pub fn clone_inlines(v: &Vec<Inline>) -> (r: Vec<Inline>)
    ensures
        view_inlines(r@) == view_inlines(v@),
    decreases v, 0nat,
{
    let mut r: Vec<Inline> = Vec::new();
    let mut i: usize = 0;
    while i < v.len()
        invariant
            i <= v.len(),
            view_inlines(r@) == view_inlines(v@.subrange(0, i as int)),
        decreases v.len() - i,
    {
        let x = clone_inline(&v[i]);
        let ghost before = r@;
        r.push(x);
        assert(view_inlines(r@) =~= view_inlines(v@.subrange(0, i + 1))) by {
            assert(view_inlines(r@) =~= view_inlines(before).push(view_inline(x)));
        }
        i = i + 1;
    }
    assert(v@.subrange(0, v.len() as int) =~= v@);
    r
}

pub open spec fn em_dash_prefix() -> Seq<char> {
    seq!['\u{2014}', ' ']
}

/// The text of an attribution line: a leading `---` or `--` becomes an em dash.
pub open spec fn attribution_text(s: Seq<char>) -> Seq<char> {
    let t = trim_start(s);
    if starts_with(t, seq!['-', '-', '-']) {
        em_dash_prefix() + trim_start(t.subrange(3, t.len() as int))
    } else if starts_with(t, seq!['-', '-']) {
        em_dash_prefix() + trim_start(t.subrange(2, t.len() as int))
    } else {
        s
    }
}

/// What `clean_attribution` makes of a quote's attribution spans.
pub open spec fn attribution_spec(v: Seq<InlineV>) -> Seq<InlineV> {
    if v.len() > 0 && v[0] is Text {
        v.update(0, InlineV::Text(attribution_text(v[0]->Text_0)))
    } else {
        v
    }
}

/// A quote attribution with a leading `--` or `---` turned into an em dash.
pub fn clean_attribution(inlines: &Vec<Inline>) -> (r: Vec<Inline>)
    ensures
        view_inlines(r@) == attribution_spec(view_inlines(inlines@)),
{
    let mut result = clone_inlines(inlines);
    assert(view_inlines(result@).len() == result@.len());
    assert(view_inlines(inlines@).len() == inlines@.len());
    if inlines.len() == 0 {
        return result;
    }
    let first = match &inlines[0] {
        Inline::Text(s) => {
            let t = crate::text::trim_start_chars(&chars_of(s.as_str()));
            let three: Vec<char> = vec!['-', '-', '-'];
            let two: Vec<char> = vec!['-', '-'];
            let cut: usize = if has_prefix(&t, &three) {
                3
            } else if has_prefix(&t, &two) {
                2
            } else {
                0
            };
            if cut == 0 {
                None
            } else {
                let mut out: Vec<char> = vec!['\u{2014}', ' '];
                let rest = crate::text::trim_start_chars(&slice(&t, cut, t.len()));
                let mut k: usize = 0;
                let ghost base = out@;
                while k < rest.len()
                    invariant
                        k <= rest.len(),
                        out@ == base + rest@.subrange(0, k as int),
                    decreases rest.len() - k,
                {
                    out.push(rest[k]);
                    k = k + 1;
                    assert(out@ =~= base + rest@.subrange(0, k as int));
                }
                assert(rest@.subrange(0, rest.len() as int) =~= rest@);
                assert(out@ == attribution_text(s@));
                Some(string_of(&out))
            }
        },
        _ => None,
    };
    match first {
        Some(text) => {
            let ghost before = result@;
            result.set(0, Inline::Text(text));
            assert(view_inlines(result@) =~= view_inlines(before).update(
                0,
                InlineV::Text(text@),
            ));
        },
        None => {},
    }
    result
}

// ---------------------------------------------------------------------------
// Layout inference
// ---------------------------------------------------------------------------
/// The layout a `@layout:` value names, if any.
pub open spec fn layout_named(v: Seq<char>) -> Option<Layout> {
    if v == seq!['t', 'i', 't', 'l', 'e'] {
        Some(Layout::Title)
    } else if v == seq!['s', 'e', 'c', 't', 'i', 'o', 'n'] {
        Some(Layout::Section)
    } else if v == seq!['q', 'u', 'o', 't', 'e'] {
        Some(Layout::Quote)
    } else if v == seq!['b', 'u', 'l', 'l', 'e', 't'] {
        Some(Layout::Bullet)
    } else if v == seq!['c', 'o', 'd', 'e'] {
        Some(Layout::Code)
    } else if v == seq!['i', 'm', 'a', 'g', 'e'] {
        Some(Layout::Image)
    } else if v == seq!['g', 'a', 'l', 'l', 'e', 'r', 'y'] {
        Some(Layout::Gallery)
    } else if v == seq!['d', 'i', 'a', 'g', 'r', 'a', 'm'] {
        Some(Layout::Diagram)
    } else if v == seq!['t', 'w', 'o', '-', 'c', 'o', 'l', 'u', 'm', 'n'] {
        Some(Layout::TwoColumn)
    } else if v == seq!['c', 'o', 'n', 't', 'e', 'n', 't'] {
        Some(Layout::Content)
    } else {
        None
    }
}

pub open spec fn lit_layout() -> Seq<char> {
    seq!['l', 'a', 'y', 'o', 'u', 't']
}

/// The layout the first `k` directives set: the first `@layout:` with a known
/// value.
pub open spec fn explicit_layout(ds: Seq<DirectiveV>, k: int) -> Option<Layout>
    decreases k,
{
    if k <= 0 || k > ds.len() {
        None
    } else {
        match explicit_layout(ds, k - 1) {
            Some(l) => Some(l),
            None => if ds[k - 1].name == lit_layout() {
                layout_named(ds[k - 1].value)
            } else {
                None
            },
        }
    }
}

/// The shape of a slide's blocks: counts of images and flags of the rest.
pub struct Shape {
    pub images: nat,
    pub columns: bool,
    pub diagram: bool,
    pub code: bool,
    pub quote: bool,
    pub list: bool,
    pub other: bool,
}

pub open spec fn empty_shape() -> Shape {
    Shape {
        images: 0,
        columns: false,
        diagram: false,
        code: false,
        quote: false,
        list: false,
        other: false,
    }
}

/// The shape of the first `k` blocks; `other` marks paragraphs, tables and rules.
pub open spec fn shape_of(bs: Seq<BlockV>, k: int) -> Shape
    decreases k,
{
    if k <= 0 || k > bs.len() {
        empty_shape()
    } else {
        let s = shape_of(bs, k - 1);
        match bs[k - 1] {
            BlockV::Image { .. } => Shape { images: s.images + 1, ..s },
            BlockV::ColumnSeparator => Shape { columns: true, ..s },
            BlockV::Diagram { .. } => Shape { diagram: true, ..s },
            BlockV::CodeBlock { .. } => Shape { code: true, ..s },
            BlockV::BlockQuote { .. } => Shape { quote: true, ..s },
            BlockV::List { .. } => Shape { list: true, ..s },
            BlockV::Heading { .. } => s,
            _ => Shape { other: true, ..s },
        }
    }
}

/// Whether the blocks are a heading of level 1 followed by one subtitle
/// (a lower heading or a paragraph).
pub open spec fn is_title_shape(bs: Seq<BlockV>) -> bool {
    bs.len() == 2 && is_h1(bs[0]) && is_subtitle(bs[1])
}

pub open spec fn is_h1(b: BlockV) -> bool {
    match b {
        BlockV::Heading { level, .. } => level == 1,
        _ => false,
    }
}

pub open spec fn is_subtitle(b: BlockV) -> bool {
    match b {
        BlockV::Paragraph { .. } => true,
        BlockV::Heading { level, .. } => level > 1,
        _ => false,
    }
}

/// The layout inferred from a slide's blocks.
pub open spec fn inferred_layout(bs: Seq<BlockV>) -> Layout {
    let s = shape_of(bs, bs.len() as int);
    if s.columns {
        Layout::TwoColumn
    } else if s.diagram {
        Layout::Diagram
    } else if s.images >= 2 {
        Layout::Gallery
    } else if s.images == 1 {
        Layout::Image
    } else if s.code {
        Layout::Code
    } else if s.quote && !s.list {
        Layout::Quote
    } else if s.list {
        Layout::Bullet
    } else if is_title_shape(bs) {
        Layout::Title
    } else if bs.len() == 1 && bs[0] is Heading {
        Layout::Section
    } else {
        Layout::Content
    }
}

/// A slide's layout: an explicit `@layout:` wins over inference.
pub open spec fn layout_spec(ds: Seq<DirectiveV>, bs: Seq<BlockV>) -> Layout {
    match explicit_layout(ds, ds.len() as int) {
        Some(l) => l,
        None => inferred_layout(bs),
    }
}

fn layout_from_name(v: &Vec<char>) -> (r: Option<Layout>)
    ensures
        r == layout_named(v@),
{
    let names: Vec<Vec<char>> = vec![
        vec!['t', 'i', 't', 'l', 'e'],
        vec!['s', 'e', 'c', 't', 'i', 'o', 'n'],
        vec!['q', 'u', 'o', 't', 'e'],
        vec!['b', 'u', 'l', 'l', 'e', 't'],
        vec!['c', 'o', 'd', 'e'],
        vec!['i', 'm', 'a', 'g', 'e'],
        vec!['g', 'a', 'l', 'l', 'e', 'r', 'y'],
        vec!['d', 'i', 'a', 'g', 'r', 'a', 'm'],
        vec!['t', 'w', 'o', '-', 'c', 'o', 'l', 'u', 'm', 'n'],
        vec!['c', 'o', 'n', 't', 'e', 'n', 't'],
    ];
    if eq_chars(v, &names[0]) {
        Some(Layout::Title)
    } else if eq_chars(v, &names[1]) {
        Some(Layout::Section)
    } else if eq_chars(v, &names[2]) {
        Some(Layout::Quote)
    } else if eq_chars(v, &names[3]) {
        Some(Layout::Bullet)
    } else if eq_chars(v, &names[4]) {
        Some(Layout::Code)
    } else if eq_chars(v, &names[5]) {
        Some(Layout::Image)
    } else if eq_chars(v, &names[6]) {
        Some(Layout::Gallery)
    } else if eq_chars(v, &names[7]) {
        Some(Layout::Diagram)
    } else if eq_chars(v, &names[8]) {
        Some(Layout::TwoColumn)
    } else if eq_chars(v, &names[9]) {
        Some(Layout::Content)
    } else {
        None
    }
}

/// The layout of a slide with these directives and blocks.
pub fn infer_layout(directives: &Vec<Directive>, blocks: &Vec<Block>) -> (r: Layout)
    ensures
        r == layout_spec(view_directives(directives@), view_blocks(blocks@)),
{
    let ghost dv = view_directives(directives@);
    let ghost bv = view_blocks(blocks@);
    let layout_key: Vec<char> = vec!['l', 'a', 'y', 'o', 'u', 't'];
    let mut explicit: Option<Layout> = None;
    let mut k: usize = 0;
    while k < directives.len()
        invariant
            k <= directives.len(),
            dv == view_directives(directives@),
            layout_key@ == lit_layout(),
            explicit == explicit_layout(dv, k as int),
        decreases directives.len() - k,
    {
        if explicit.is_none() {
            let d = &directives[k];
            assert(dv[k as int] == DirectiveV { name: d.name@, value: d.value@ });
            if eq_chars(&chars_of(d.name.as_str()), &layout_key) {
                explicit = layout_from_name(&chars_of(d.value.as_str()));
            }
        }
        k = k + 1;
    }
    match explicit {
        Some(l) => {
            return l;
        },
        None => {},
    }
    let mut images: usize = 0;
    let mut columns = false;
    let mut diagram = false;
    let mut code = false;
    let mut quote = false;
    let mut list = false;
    let mut other = false;
    let mut j: usize = 0;
    while j < blocks.len()
        invariant
            j <= blocks.len(),
            bv == view_blocks(blocks@),
            images <= j,
            shape_of(bv, j as int) == (Shape {
                images: images as nat,
                columns,
                diagram,
                code,
                quote,
                list,
                other,
            }),
        decreases blocks.len() - j,
    {
        assert(bv[j as int] == view_block(blocks@[j as int]));
        match &blocks[j] {
            Block::Image { .. } => {
                images = images + 1;
            },
            Block::ColumnSeparator => {
                columns = true;
            },
            Block::Diagram { .. } => {
                diagram = true;
            },
            Block::CodeBlock { .. } => {
                code = true;
            },
            Block::BlockQuote { .. } => {
                quote = true;
            },
            Block::List { .. } => {
                list = true;
            },
            Block::Heading { .. } => {},
            _ => {
                other = true;
            },
        }
        j = j + 1;
    }
    if columns {
        Layout::TwoColumn
    } else if diagram {
        Layout::Diagram
    } else if images >= 2 {
        Layout::Gallery
    } else if images == 1 {
        Layout::Image
    } else if code {
        Layout::Code
    } else if quote && !list {
        Layout::Quote
    } else if list {
        Layout::Bullet
    } else if blocks.len() == 2 && title_pair(&blocks[0], &blocks[1]) {
        Layout::Title
    } else if blocks.len() == 1 && matches!(&blocks[0], Block::Heading { .. }) {
        Layout::Section
    } else {
        Layout::Content
    }
}

fn title_pair(a: &Block, b: &Block) -> (r: bool)
    ensures
        r == is_title_shape(seq![view_block(*a), view_block(*b)]),
{
    let first = match a {
        Block::Heading { level, .. } => *level == 1,
        _ => false,
    };
    let second = match b {
        Block::Paragraph { .. } => true,
        Block::Heading { level, .. } => *level > 1,
        _ => false,
    };
    first && second
}

// ---------------------------------------------------------------------------
// The pipeline
// ---------------------------------------------------------------------------
/// The model of a slide: directives, blocks and layout.
pub open spec fn slide_spec(raw: Seq<char>) -> (Seq<DirectiveV>, Seq<BlockV>, Layout) {
    let (ds, rest) = directives_spec(raw);
    let bs = parse_blocks(rest);
    (ds, bs, layout_spec(ds, bs))
}

pub open spec fn slide_view(s: Slide) -> (Seq<DirectiveV>, Seq<BlockV>, Layout) {
    (view_directives(s.directives@), view_blocks(s.blocks@), s.layout)
}

/// Build one slide from its raw text.
pub fn parse_slide(raw: &str) -> (r: Slide)
    ensures
        slide_view(r) == slide_spec(raw@),
{
    let (directives, rest) = extract_directives(raw);
    let blocks = parse(rest.as_str());
    let layout = infer_layout(&directives, &blocks);
    Slide { directives, blocks, layout }
}

/// Compile a whole document: header, then slides in document order.
pub fn parse_presentation(content: &str) -> (r: Presentation)
    ensures
        meta_view(r.meta) == extract_spec(content@).0,
        r.slides@.len() == split_spec(extract_spec(content@).1).len(),
        forall|i: int|
            0 <= i < r.slides@.len() ==> slide_view(#[trigger] r.slides@[i]) == slide_spec(
                split_spec(extract_spec(content@).1)[i],
            ),
{
    let (meta, body) = extract(content);
    let raws = split(body.as_str());
    let ghost rv = raws@.map_values(|s: String| s@);
    let mut slides: Vec<Slide> = Vec::new();
    let mut i: usize = 0;
    while i < raws.len()
        invariant
            i <= raws.len(),
            rv == raws@.map_values(|s: String| s@),
            rv == split_spec(body@),
            slides@.len() == i,
            forall|k: int| 0 <= k < i ==> slide_view(#[trigger] slides@[k]) == slide_spec(rv[k]),
        decreases raws.len() - i,
    {
        let s = parse_slide(raws[i].as_str());
        slides.push(s);
        i = i + 1;
    }
    Presentation { meta, slides }
}

} // verus!
