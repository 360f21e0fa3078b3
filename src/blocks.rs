//! Slide directives and the block-level parser.
use vstd::prelude::*;

use crate::inline::{parse_chars, parse_inlines};
use crate::lines::{
    find, find_pair, index_of, index_of_pair, is_name, lines_view, name_chars, parse_usize,
    parse_usize_spec, range_incl,
};
use crate::list::{
    is_list_start, is_list_start_line, is_ordered_start, is_ordered_start_line, list_scan,
    parse_list,
};
use crate::model::{
    view_block, view_blocks, view_directives, view_image_directives, view_inlines, view_row,
    view_rows, Block, BlockV, Directive, DirectiveV, ImageDirectives, ImageDirectivesV, InlineV,
};
use crate::text::{
    chars_of, eq_chars, has_prefix, is_blank, is_blank_chars, is_whitespace, is_ws, join_from,
    join_with, lines, lines_of, slice, split_at_char, split_char, starts_with, string_of, trim,
    trim_chars, trim_start,
};

verus! {

// ---------------------------------------------------------------------------
// Directives
// ---------------------------------------------------------------------------
/// The directive written by the trimmed line `t`, if it is one.
pub open spec fn directive_of(t: Seq<char>) -> Option<DirectiveV> {
    if t.len() > 0 && t[0] == '@' {
        let after = t.drop_first();
        match index_of(after, ':') {
            Some(c) => {
                let name = trim(after.subrange(0, c));
                if name.len() > 0 && is_name(name) {
                    Some(DirectiveV { name, value: trim(after.subrange(c + 1, after.len() as int)) })
                } else {
                    None
                }
            },
            None => None,
        }
    } else {
        None
    }
}

/// Index of the first line at or after `i` that is neither blank nor a directive.
pub open spec fn first_content_line(ls: Seq<Seq<char>>, i: int) -> int
    decreases ls.len() - i,
{
    if i < 0 || i >= ls.len() {
        ls.len() as int
    } else if trim(ls[i]).len() == 0 || directive_of(trim(ls[i])) is Some {
        first_content_line(ls, i + 1)
    } else {
        i
    }
}

/// The directives among the first `k` lines, in order.
pub open spec fn directives_before(ls: Seq<Seq<char>>, k: int) -> Seq<DirectiveV>
    decreases k,
{
    if k <= 0 || k > ls.len() {
        Seq::empty()
    } else {
        let prev = directives_before(ls, k - 1);
        match directive_of(trim(ls[k - 1])) {
            Some(d) => prev.push(d),
            None => prev,
        }
    }
}

/// What `extract_directives` returns for the text `raw`.
pub open spec fn directives_spec(raw: Seq<char>) -> (Seq<DirectiveV>, Seq<char>) {
    let ls = lines_of(raw);
    let k = first_content_line(ls, 0);
    (directives_before(ls, k), join_with(ls.subrange(k, ls.len() as int), '\n'))
}

fn parse_directive_line(t: &Vec<char>) -> (r: Option<Directive>)
    ensures
        match r {
            Some(d) => directive_of(t@) == Some(DirectiveV { name: d.name@, value: d.value@ }),
            None => directive_of(t@) is None,
        },
{
    if t.len() == 0 || t[0] != '@' {
        return None;
    }
    let after = slice(t, 1, t.len());
    assert(after@ =~= t@.drop_first());
    match find(&after, ':') {
        Some(c) => {
            let name = trim_chars(&slice(&after, 0, c));
            if name.len() > 0 && name_chars(&name) {
                let value = trim_chars(&slice(&after, c + 1, after.len()));
                Some(Directive { name: string_of(&name), value: string_of(&value) })
            } else {
                None
            }
        },
        None => None,
    }
}

/// Split the leading `@name: value` lines off a slide's raw text: returns the
/// directives and the text from the first other non-blank line on.
pub fn extract_directives(raw: &str) -> (r: (Vec<Directive>, String))
    ensures
        view_directives(r.0@) == directives_spec(raw@).0,
        r.1@ == directives_spec(raw@).1,
{
    let text = chars_of(raw);
    let ls = lines(&text);
    let ghost lv = lines_view(ls@);
    let mut directives: Vec<Directive> = Vec::new();
    let mut i: usize = 0;
    let mut stop = false;
    assert(view_directives(directives@) =~= directives_before(lv, 0));
    while i < ls.len() && !stop
        invariant
            i <= ls.len(),
            lv == lines_view(ls@),
            lv == lines_of(raw@),
            first_content_line(lv, 0) == first_content_line(lv, i as int),
            stop ==> first_content_line(lv, i as int) == i,
            view_directives(directives@) == directives_before(lv, i as int),
        decreases ls.len() - i + if stop {
            0int
        } else {
            1int
        },
    {
        let t = trim_chars(&ls[i]);
        assert(ls[i as int]@ == lv[i as int]);
        if t.len() == 0 {
            i = i + 1;
            continue ;
        }
        match parse_directive_line(&t) {
            Some(d) => {
                let ghost before = directives@;
                directives.push(d);
                assert(view_directives(directives@) =~= view_directives(before).push(
                    DirectiveV { name: d.name@, value: d.value@ },
                ));
                i = i + 1;
            },
            None => {
                stop = true;
            },
        }
    }
    let rest = join_from(&ls, i, '\n');
    (directives, string_of(&rest))
}

// ---------------------------------------------------------------------------
// Small line classifiers
// ---------------------------------------------------------------------------
/// Index of the first character at or after `i` that is not `c`.
pub open spec fn run_end(s: Seq<char>, c: char, i: int) -> int
    decreases s.len() - i,
{
    if 0 <= i < s.len() && s[i] == c {
        run_end(s, c, i + 1)
    } else {
        i
    }
}

pub proof fn lemma_run_end(s: Seq<char>, c: char, i: int)
    requires
        0 <= i <= s.len(),
    ensures
        i <= run_end(s, c, i) <= s.len(),
        forall|k: int| i <= k < run_end(s, c, i) ==> s[k] == c,
        run_end(s, c, i) < s.len() ==> s[run_end(s, c, i)] != c,
    decreases s.len() - i,
{
    if i < s.len() && s[i] == c {
        lemma_run_end(s, c, i + 1);
    }
}

pub(crate) fn run_len(s: &Vec<char>, c: char, i: usize) -> (r: usize)
    requires
        i <= s.len(),
    ensures
        r == run_end(s@, c, i as int),
        i <= r <= s.len(),
{
    proof {
        lemma_run_end(s@, c, i as int);
    }
    let mut k = i;
    while k < s.len() && s[k] == c
        invariant
            i <= k <= s.len(),
            run_end(s@, c, i as int) == run_end(s@, c, k as int),
        decreases s.len() - k,
    {
        k = k + 1;
    }
    k
}

/// Number of non-whitespace characters in `s`.
pub open spec fn nonws_count(s: Seq<char>) -> nat
    decreases s.len(),
{
    if s.len() == 0 {
        0
    } else {
        nonws_count(s.drop_last()) + if is_ws(s.last()) {
            0nat
        } else {
            1nat
        }
    }
}

/// Whether the trimmed line `t` is a horizontal rule: three or more `*`, or
/// three or more `_`, with only whitespace between them.
pub open spec fn is_rule(t: Seq<char>) -> bool {
    t.len() > 0 && (t[0] == '*' || t[0] == '_') && (forall|k: int|
        0 <= k < t.len() ==> is_ws(#[trigger] t[k]) || t[k] == t[0]) && nonws_count(t) >= 3
}

fn is_horizontal_rule(t: &Vec<char>) -> (r: bool)
    ensures
        r == is_rule(t@),
{
    if t.len() == 0 || !(t[0] == '*' || t[0] == '_') {
        return false;
    }
    let first = t[0];
    let mut count: usize = 0;
    let mut i: usize = 0;
    while i < t.len()
        invariant
            i <= t.len(),
            t.len() > 0 && first == t@[0],
            count == nonws_count(t@.take(i as int)),
            count <= i,
            forall|k: int| 0 <= k < i ==> is_ws(#[trigger] t@[k]) || t@[k] == first,
        decreases t.len() - i,
    {
        assert(t@.take(i + 1).drop_last() =~= t@.take(i as int));
        if is_whitespace(t[i]) {
        } else if t[i] == first {
            count = count + 1;
        } else {
            return false;
        }
        i = i + 1;
    }
    assert(t@.take(t.len() as int) =~= t@);
    count >= 3
}

pub open spec fn heading_of(t: Seq<char>) -> Option<BlockV> {
    let n = run_end(t, '#', 0);
    if t.len() > 0 && t[0] == '#' && n <= 6 {
        let rest = t.subrange(n, t.len() as int);
        if rest.len() == 0 || rest[0] == ' ' {
            Some(BlockV::Heading { level: n as u8, inlines: parse_inlines(trim(rest)) })
        } else {
            None
        }
    } else {
        None
    }
}

fn parse_heading(t: &Vec<char>) -> (r: Option<Block>)
    ensures
        match r {
            Some(b) => heading_of(t@) == Some(crate::model::view_block(b)),
            None => heading_of(t@) is None,
        },
{
    if t.len() == 0 || t[0] != '#' {
        return None;
    }
    let n = run_len(t, '#', 0);
    if n > 6 {
        return None;
    }
    let rest = slice(t, n, t.len());
    if rest.len() != 0 && rest[0] != ' ' {
        return None;
    }
    let inlines = parse_chars(&trim_chars(&rest));
    Some(Block::Heading { level: n as u8, inlines })
}

// ---------------------------------------------------------------------------
// Code fences
// ---------------------------------------------------------------------------
/// The line numbers of one comma-separated part: `n` or `a-b`.
pub open spec fn highlight_part(p: Seq<char>) -> Seq<usize> {
    match index_of(p, '-') {
        Some(d) => match (
            parse_usize_spec(trim(p.subrange(0, d))),
            parse_usize_spec(trim(p.subrange(d + 1, p.len() as int))),
        ) {
            (Some(a), Some(b)) => range_incl(a, b),
            _ => Seq::empty(),
        },
        None => match parse_usize_spec(p) {
            Some(n) => seq![n],
            None => Seq::empty(),
        },
    }
}

/// The pieces of `s`, one after another.
pub open spec fn concat_all(s: Seq<Seq<usize>>) -> Seq<usize>
    decreases s.len(),
{
    if s.len() == 0 {
        Seq::empty()
    } else {
        concat_all(s.drop_last()) + s.last()
    }
}

/// The lines a highlight spec such as `3,5-7` names; malformed parts name none.
pub open spec fn highlight_lines_of(spec: Seq<char>) -> Seq<usize> {
    concat_all(split_char(spec, ',').map_values(|p: Seq<char>| highlight_part(trim(p))))
}

fn push_range(r: &mut Vec<usize>, a: usize, b: usize)
    ensures
        final(r)@ == old(r)@ + range_incl(a, b),
{
    if a > b {
        assert(old(r)@ + range_incl(a, b) =~= old(r)@);
        return;
    }
    let ghost base = r@;
    let mut k = a;
    while k < b
        invariant
            a <= k <= b,
            r@ == base + Seq::new((k - a) as nat, |m: int| (a + m) as usize),
        decreases b - k,
    {
        r.push(k);
        k = k + 1;
        assert(r@ =~= base + Seq::new((k - a) as nat, |m: int| (a + m) as usize));
    }
    r.push(b);
    assert(r@ =~= base + range_incl(a, b));
}

fn highlight_part_lines(p: &Vec<char>, r: &mut Vec<usize>)
    ensures
        final(r)@ == old(r)@ + highlight_part(p@),
{
    match find(p, '-') {
        Some(d) => {
            let a = parse_usize(&trim_chars(&slice(p, 0, d)));
            let b = parse_usize(&trim_chars(&slice(p, d + 1, p.len())));
            match (a, b) {
                (Some(a), Some(b)) => push_range(r, a, b),
                _ => {
                    assert(old(r)@ + highlight_part(p@) =~= old(r)@);
                },
            }
        },
        None => {
            match parse_usize(p) {
                Some(n) => {
                    r.push(n);
                },
                None => {
                    assert(old(r)@ + highlight_part(p@) =~= old(r)@);
                },
            }
        },
    }
}

/// The line numbers a highlight spec names: `3,5-7` gives `[3, 5, 6, 7]`.
pub fn parse_highlight_spec(spec: &str) -> (r: Vec<usize>)
    ensures
        r@ == highlight_lines_of(spec@),
{
    let s = chars_of(spec);
    let parts = split_at_char(&s, ',');
    let ghost pv = split_char(s@, ',').map_values(|p: Seq<char>| highlight_part(trim(p)));
    let mut r: Vec<usize> = Vec::new();
    let mut i: usize = 0;
    while i < parts.len()
        invariant
            i <= parts.len(),
            parts@.map_values(|l: Vec<char>| l@) == split_char(s@, ','),
            pv == split_char(s@, ',').map_values(|p: Seq<char>| highlight_part(trim(p))),
            r@ == concat_all(pv.subrange(0, i as int)),
        decreases parts.len() - i,
    {
        assert(pv.subrange(0, i + 1).drop_last() =~= pv.subrange(0, i as int));
        assert(parts[i as int]@ == split_char(s@, ',')[i as int]);
        let p = trim_chars(&parts[i]);
        highlight_part_lines(&p, &mut r);
        i = i + 1;
    }
    assert(pv.subrange(0, pv.len() as int) =~= pv);
    r
}

/// First whitespace-free word of `s`.
pub open spec fn first_word(s: Seq<char>) -> Seq<char> {
    let t = trim_start(s);
    t.subrange(0, ws_index(t, 0))
}

/// Index of the first whitespace character at or after `i`.
pub open spec fn ws_index(s: Seq<char>, i: int) -> int
    decreases s.len() - i,
{
    if 0 <= i < s.len() && !is_ws(s[i]) {
        ws_index(s, i + 1)
    } else {
        i
    }
}

pub open spec fn diagram_tag() -> Seq<char> {
    seq!['@', 'd', 'i', 'a', 'g', 'r', 'a', 'm']
}

/// What the info string of a code fence says: language, highlighted lines,
/// and whether the fence holds a diagram.
pub open spec fn code_info(info: Seq<char>) -> (Option<Seq<char>>, Seq<usize>, bool) {
    if info.len() == 0 {
        (None, Seq::empty(), false)
    } else if starts_with(info, diagram_tag()) {
        (None, Seq::empty(), true)
    } else {
        match index_of(info, '{') {
            Some(b) => {
                let lang = trim(info.subrange(0, b));
                let rest = info.subrange(b, info.len() as int);
                let hl = match index_of(rest, '}') {
                    Some(e) => highlight_lines_of(rest.subrange(1, e)),
                    None => Seq::empty(),
                };
                (if lang.len() == 0 {
                    None
                } else {
                    Some(lang)
                }, hl, false)
            },
            None => {
                let w = first_word(info);
                (if w.len() == 0 {
                    None
                } else {
                    Some(w)
                }, Seq::empty(), false)
            },
        }
    }
}

fn first_word_of(s: &Vec<char>) -> (r: Vec<char>)
    ensures
        r@ == first_word(s@),
{
    let t = crate::text::trim_start_chars(s);
    let mut k: usize = 0;
    while k < t.len() && !is_whitespace(t[k])
        invariant
            k <= t.len(),
            ws_index(t@, 0) == ws_index(t@, k as int),
        decreases t.len() - k,
    {
        k = k + 1;
    }
    slice(&t, 0, k)
}

fn parse_code_info(info: &Vec<char>) -> (r: (Option<String>, Vec<usize>, bool))
    ensures
        (crate::model::opt_view(r.0), r.1@, r.2) == code_info(info@),
{
    if info.len() == 0 {
        return (None, Vec::new(), false);
    }
    let tag: Vec<char> = vec!['@', 'd', 'i', 'a', 'g', 'r', 'a', 'm'];
    assert(tag@ == diagram_tag());
    if has_prefix(info, &tag) {
        return (None, Vec::new(), true);
    }
    match find(info, '{') {
        Some(b) => {
            let lang = trim_chars(&slice(info, 0, b));
            let rest = slice(info, b, info.len());
            let hl = match find(&rest, '}') {
                Some(e) => {
                    assert(rest@[0] == '{');
                    let inner = string_of(&slice(&rest, 1, e));
                    parse_highlight_spec(inner.as_str())
                },
                None => Vec::new(),
            };
            let language = if lang.len() == 0 {
                None
            } else {
                Some(string_of(&lang))
            };
            (language, hl, false)
        },
        None => {
            let w = first_word_of(info);
            let language = if w.len() == 0 {
                None
            } else {
                Some(string_of(&w))
            };
            (language, Vec::new(), false)
        },
    }
}

// ---------------------------------------------------------------------------
// Fenced code
// ---------------------------------------------------------------------------
/// Whether the trimmed line `t` closes a fence of `n` copies of `fc`.
pub open spec fn is_fence_close(t: Seq<char>, fc: char, n: int) -> bool {
    run_end(t, fc, 0) >= n && is_blank(t.subrange(run_end(t, fc, 0), t.len() as int))
}

/// Index of the line at or after `i` that closes the fence, or the number of lines.
pub open spec fn fence_end(ls: Seq<Seq<char>>, fc: char, n: int, i: int) -> int
    decreases ls.len() - i,
{
    if i < 0 || i >= ls.len() {
        ls.len() as int
    } else if is_fence_close(trim(ls[i]), fc, n) {
        i
    } else {
        fence_end(ls, fc, n, i + 1)
    }
}

/// The fenced block opened at line `start` by `fc`, and the first line after it.
pub open spec fn code_block_at(ls: Seq<Seq<char>>, start: int, fc: char) -> (BlockV, int) {
    let opening = trim(ls[start]);
    let n = run_end(opening, fc, 0);
    let info = code_info(trim(opening.subrange(n, opening.len() as int)));
    let close = fence_end(ls, fc, n, start + 1);
    let code = join_with(ls.subrange(start + 1, close), '\n');
    let end = if close < ls.len() {
        close + 1
    } else {
        ls.len() as int
    };
    (if info.2 {
        BlockV::Diagram { content: code }
    } else {
        BlockV::CodeBlock { language: info.0, code, highlight_lines: info.1 }
    }, end)
}

pub(crate) fn fence_closes(t: &Vec<char>, fc: char, n: usize) -> (r: bool)
    ensures
        r == is_fence_close(t@, fc, n as int),
{
    let k = run_len(t, fc, 0);
    k >= n && is_blank_chars(&slice(t, k, t.len()))
}

fn parse_code_block(ls: &Vec<Vec<char>>, start: usize, fc: char) -> (r: (Block, usize))
    requires
        start < ls.len(),
    ensures
        (view_block(r.0), r.1 as int) == code_block_at(lines_view(ls@), start as int, fc),
        start < r.1 <= ls.len(),
{
    let ghost lv = lines_view(ls@);
    assert(ls[start as int]@ == lv[start as int]);
    let opening = trim_chars(&ls[start]);
    let n = run_len(&opening, fc, 0);
    let info = parse_code_info(&trim_chars(&slice(&opening, n, opening.len())));
    let mut i = start + 1;
    while i < ls.len()
        invariant
            start < i <= ls.len(),
            lv == lines_view(ls@),
            fence_end(lv, fc, n as int, start + 1) == fence_end(lv, fc, n as int, i as int),
        ensures
            start < i <= ls.len(),
            fence_end(lv, fc, n as int, start + 1) == i,
        decreases ls.len() - i,
    {
        assert(ls[i as int]@ == lv[i as int]);
        if fence_closes(&trim_chars(&ls[i]), fc, n) {
            break ;
        }
        i = i + 1;
    }
    let code = join_from_to(ls, start + 1, i, '\n');
    let end = if i < ls.len() {
        i + 1
    } else {
        ls.len()
    };
    let (language, highlight_lines, is_diagram) = info;
    let block = if is_diagram {
        Block::Diagram { content: string_of(&code) }
    } else {
        Block::CodeBlock { language, code: string_of(&code), highlight_lines }
    };
    (block, end)
}

/// The pieces `ls[a..b]` joined with `c`.
fn join_from_to(ls: &Vec<Vec<char>>, a: usize, b: usize, c: char) -> (r: Vec<char>)
    requires
        a <= b <= ls.len(),
    ensures
        r@ == join_with(lines_view(ls@).subrange(a as int, b as int), c),
{
    let mut part: Vec<Vec<char>> = Vec::new();
    let mut k = a;
    while k < b
        invariant
            a <= k <= b <= ls.len(),
            lines_view(part@) == lines_view(ls@).subrange(a as int, k as int),
        decreases b - k,
    {
        let ghost before = part@;
        part.push(slice(&ls[k], 0, ls[k].len()));
        assert(ls[k as int]@.subrange(0, ls[k as int]@.len() as int) =~= ls[k as int]@);
        assert(lines_view(part@) =~= lines_view(before).push(ls[k as int]@));
        assert(lines_view(part@) =~= lines_view(ls@).subrange(a as int, k + 1));
        k = k + 1;
    }
    let r = join_from(&part, 0, c);
    assert(lines_view(part@).subrange(0, part.len() as int) =~= lines_view(part@));
    r
}

// ---------------------------------------------------------------------------
// Images
// ---------------------------------------------------------------------------
/// The whitespace-separated words of `s[i..]`, with the word `cur` in progress
/// and the words `acc` found so far.
pub open spec fn words_scan(s: Seq<char>, i: int, cur: Seq<char>, acc: Seq<Seq<char>>) -> Seq<
    Seq<char>,
>
    decreases s.len() - i,
{
    let flushed = if cur.len() > 0 {
        acc.push(cur)
    } else {
        acc
    };
    if i < 0 || i >= s.len() {
        flushed
    } else if is_ws(s[i]) {
        words_scan(s, i + 1, Seq::empty(), flushed)
    } else {
        words_scan(s, i + 1, cur.push(s[i]), acc)
    }
}

pub open spec fn words_of(s: Seq<char>) -> Seq<Seq<char>> {
    words_scan(s, 0, Seq::empty(), Seq::empty())
}

pub open spec fn no_image_directives() -> ImageDirectivesV {
    ImageDirectivesV { fill: false, fit: false, align: None, width: None, height: None }
}

pub open spec fn lit_fill() -> Seq<char> {
    seq!['f', 'i', 'l', 'l']
}

pub open spec fn lit_fit() -> Seq<char> {
    seq!['f', 'i', 't']
}

pub open spec fn lit_left() -> Seq<char> {
    seq!['l', 'e', 'f', 't']
}

pub open spec fn lit_right() -> Seq<char> {
    seq!['r', 'i', 'g', 'h', 't']
}

pub open spec fn lit_center() -> Seq<char> {
    seq!['c', 'e', 'n', 't', 'e', 'r']
}

pub open spec fn lit_width() -> Seq<char> {
    seq!['w', 'i', 'd', 't', 'h', ':']
}

pub open spec fn lit_height() -> Seq<char> {
    seq!['h', 'e', 'i', 'g', 'h', 't', ':']
}

/// The effect of one alt-text word: an `@` token sets a directive (unknown ones
/// are dropped), any other word is kept as alt text.
pub open spec fn apply_alt_word(w: Seq<char>, d: ImageDirectivesV, parts: Seq<Seq<char>>) -> (
    ImageDirectivesV,
    Seq<Seq<char>>,
) {
    if w.len() > 0 && w[0] == '@' {
        let x = w.drop_first();
        if x == lit_fill() {
            (ImageDirectivesV { fill: true, ..d }, parts)
        } else if x == lit_fit() {
            (ImageDirectivesV { fit: true, ..d }, parts)
        } else if x == lit_left() || x == lit_right() || x == lit_center() {
            (ImageDirectivesV { align: Some(x), ..d }, parts)
        } else if starts_with(x, lit_width()) {
            (ImageDirectivesV { width: Some(x.subrange(6, x.len() as int)), ..d }, parts)
        } else if starts_with(x, lit_height()) {
            (ImageDirectivesV { height: Some(x.subrange(7, x.len() as int)), ..d }, parts)
        } else {
            (d, parts)
        }
    } else {
        (d, parts.push(w))
    }
}

/// The directives and alt words of the first `k` words.
pub open spec fn alt_scan(words: Seq<Seq<char>>, k: int) -> (ImageDirectivesV, Seq<Seq<char>>)
    decreases k,
{
    if k <= 0 || k > words.len() {
        (no_image_directives(), Seq::empty())
    } else {
        let prev = alt_scan(words, k - 1);
        apply_alt_word(words[k - 1], prev.0, prev.1)
    }
}

/// The displayed alt text and the directives of an image's alt text.
#[verifier::opaque]
pub open spec fn image_alt(alt: Seq<char>) -> (Seq<char>, ImageDirectivesV) {
    let words = words_of(alt);
    let st = alt_scan(words, words.len() as int);
    (join_with(st.1, ' '), st.0)
}

/// The image written by the trimmed line `t` (`![alt](path)`), if it is one.
pub open spec fn image_of(t: Seq<char>) -> Option<BlockV> {
    if starts_with(t, seq!['!', '[']) {
        match index_of_pair(t, ']', '(') {
            Some(cb) => {
                let ps = cb + 2;
                match index_of(t.subrange(ps, t.len() as int), ')') {
                    Some(pe) => {
                        let alt = image_alt(t.subrange(2, cb));
                        Some(
                            BlockV::Image {
                                alt: alt.0,
                                path: t.subrange(ps, ps + pe),
                                directives: alt.1,
                            },
                        )
                    },
                    None => None,
                }
            },
            None => None,
        }
    } else {
        None
    }
}

fn split_words(s: &Vec<char>) -> (r: Vec<Vec<char>>)
    ensures
        lines_view(r@) == words_of(s@),
{
    let mut acc: Vec<Vec<char>> = Vec::new();
    let mut cur: Vec<char> = Vec::new();
    let mut i: usize = 0;
    assert(lines_view(acc@) =~= Seq::<Seq<char>>::empty());
    assert(cur@ =~= Seq::<char>::empty());
    while i < s.len()
        invariant
            i <= s.len(),
            words_scan(s@, i as int, cur@, lines_view(acc@)) == words_of(s@),
        decreases s.len() - i,
    {
        if is_whitespace(s[i]) {
            if cur.len() > 0 {
                let ghost before = acc@;
                acc.push(cur);
                assert(lines_view(acc@) =~= lines_view(before).push(cur@));
                cur = Vec::new();
            }
            assert(cur@ =~= Seq::<char>::empty());
        } else {
            cur.push(s[i]);
        }
        i = i + 1;
    }
    if cur.len() > 0 {
        let ghost before = acc@;
        acc.push(cur);
        assert(lines_view(acc@) =~= lines_view(before).push(cur@));
    }
    acc
}

fn parse_image_alt(alt_full: &Vec<char>) -> (r: (String, ImageDirectives))
    ensures
        (r.0@, view_image_directives(r.1)) == image_alt(alt_full@),
{
    let words = split_words(alt_full);
    let ghost wv = words_of(alt_full@);
    let mut d = ImageDirectives { fill: false, fit: false, align: None, width: None, height: None };
    let mut parts: Vec<Vec<char>> = Vec::new();
    let fill: Vec<char> = vec!['f', 'i', 'l', 'l'];
    let fit: Vec<char> = vec!['f', 'i', 't'];
    let left: Vec<char> = vec!['l', 'e', 'f', 't'];
    let right: Vec<char> = vec!['r', 'i', 'g', 'h', 't'];
    let center: Vec<char> = vec!['c', 'e', 'n', 't', 'e', 'r'];
    let width: Vec<char> = vec!['w', 'i', 'd', 't', 'h', ':'];
    let height: Vec<char> = vec!['h', 'e', 'i', 'g', 'h', 't', ':'];
    let mut k: usize = 0;
    assert(lines_view(parts@) =~= Seq::<Seq<char>>::empty());
    while k < words.len()
        invariant
            k <= words.len(),
            lines_view(words@) == wv,
            fill@ == lit_fill(),
            fit@ == lit_fit(),
            left@ == lit_left(),
            right@ == lit_right(),
            center@ == lit_center(),
            width@ == lit_width(),
            height@ == lit_height(),
            alt_scan(wv, k as int) == (view_image_directives(d), lines_view(parts@)),
        decreases words.len() - k,
    {
        let w = &words[k];
        assert(w@ == wv[k as int]);
        if w.len() > 0 && w[0] == '@' {
            let x = slice(w, 1, w.len());
            assert(x@ =~= w@.drop_first());
            if eq_chars(&x, &fill) {
                d.fill = true;
            } else if eq_chars(&x, &fit) {
                d.fit = true;
            } else if eq_chars(&x, &left) || eq_chars(&x, &right) || eq_chars(&x, &center) {
                d.align = Some(string_of(&x));
            } else if has_prefix(&x, &width) {
                d.width = Some(string_of(&slice(&x, 6, x.len())));
            } else if has_prefix(&x, &height) {
                d.height = Some(string_of(&slice(&x, 7, x.len())));
            }
        } else {
            let ghost before = parts@;
            parts.push(slice(w, 0, w.len()));
            assert(w@.subrange(0, w@.len() as int) =~= w@);
            assert(lines_view(parts@) =~= lines_view(before).push(w@));
        }
        k = k + 1;
    }
    let alt = join_from(&parts, 0, ' ');
    assert(lines_view(parts@).subrange(0, parts.len() as int) =~= lines_view(parts@));
    reveal(image_alt);
    (string_of(&alt), d)
}

#[verifier::rlimit(40)]
fn parse_image(t: &Vec<char>) -> (r: Option<Block>)
    ensures
        match r {
            Some(b) => image_of(t@) == Some(view_block(b)),
            None => image_of(t@) is None,
        },
{
    let bang: Vec<char> = vec!['!', '['];
    assert(bang@ == seq!['!', '[']);
    if !has_prefix(t, &bang) {
        return None;
    }
    assert(starts_with(t@, seq!['!', '[']));
    match find_pair(t, ']', '(') {
        Some(cb) => {
            assert(t@.subrange(0, 2)[0] == t@[0]);
            assert(t@.subrange(0, 2)[1] == t@[1]);
            assert(t@[0] == '!' && t@[1] == '[');
            let ps = cb + 2;
            let tail = slice(t, ps, t.len());
            match find(&tail, ')') {
                Some(pe) => {
                    let alt_full = slice(t, 2, cb);
                    let (alt, directives) = parse_image_alt(&alt_full);
                    let path = string_of(&slice(t, ps, ps + pe));
                    let b = Block::Image { alt, path, directives };
                    assert(image_of(t@) == Some(view_block(b)));
                    Some(b)
                },
                None => {
                    assert(image_of(t@) is None);
                    None
                },
            }
        },
        None => None,
    }
}

// ---------------------------------------------------------------------------
// Block quotes, tables, paragraphs
// ---------------------------------------------------------------------------
pub open spec fn lit_quote() -> Seq<char> {
    seq!['>', ' ']
}

/// The text of the quote lines from `i` on, and the first other line.
pub open spec fn quote_scan(ls: Seq<Seq<char>>, i: int, text: Seq<char>) -> (Seq<char>, int)
    decreases ls.len() - i,
{
    if i < 0 || i >= ls.len() {
        (text, i)
    } else {
        let t = trim(ls[i]);
        let sep = if text.len() > 0 {
            text.push(' ')
        } else {
            text
        };
        if starts_with(t, lit_quote()) {
            quote_scan(ls, i + 1, sep + t.subrange(2, t.len() as int))
        } else if t == seq!['>'] {
            quote_scan(ls, i + 1, sep)
        } else {
            (text, i)
        }
    }
}

proof fn lemma_quote_scan_progress(ls: Seq<Seq<char>>, i: int, text: Seq<char>)
    requires
        0 <= i,
    ensures
        quote_scan(ls, i, text).1 >= i,
    decreases ls.len() - i,
{
    if i < ls.len() {
        let t = trim(ls[i]);
        let sep = if text.len() > 0 {
            text.push(' ')
        } else {
            text
        };
        if starts_with(t, lit_quote()) {
            lemma_quote_scan_progress(ls, i + 1, sep + t.subrange(2, t.len() as int));
        } else if t == seq!['>'] {
            lemma_quote_scan_progress(ls, i + 1, sep);
        }
    }
}

proof fn lemma_table_scan_progress(ls: Seq<Seq<char>>, i: int, acc: Seq<Seq<char>>)
    requires
        0 <= i,
    ensures
        table_scan(ls, i, acc).1 >= i,
    decreases ls.len() - i,
{
    if i < ls.len() {
        let t = trim(ls[i]);
        if t.len() > 0 && t[0] == '|' {
            lemma_table_scan_progress(ls, i + 1, acc.push(t));
        }
    }
}

pub open spec fn quote_at(ls: Seq<Seq<char>>, start: int) -> (BlockV, int) {
    let st = quote_scan(ls, start, Seq::empty());
    (BlockV::BlockQuote { inlines: parse_inlines(st.0) }, st.1)
}

fn parse_blockquote(ls: &Vec<Vec<char>>, start: usize) -> (r: (Block, usize))
    requires
        start <= ls.len(),
    ensures
        (view_block(r.0), r.1 as int) == quote_at(lines_view(ls@), start as int),
        start <= r.1 <= ls.len(),
{
    let ghost lv = lines_view(ls@);
    let q: Vec<char> = vec!['>', ' '];
    let mut text: Vec<char> = Vec::new();
    let mut i = start;
    assert(text@ =~= Seq::<char>::empty());
    while i < ls.len()
        invariant
            start <= i <= ls.len(),
            lv == lines_view(ls@),
            q@ == lit_quote(),
            quote_scan(lv, i as int, text@) == quote_scan(lv, start as int, Seq::empty()),
        ensures
            start <= i <= ls.len(),
            quote_scan(lv, start as int, Seq::empty()) == (text@, i as int),
        decreases ls.len() - i,
    {
        assert(ls[i as int]@ == lv[i as int]);
        let t = trim_chars(&ls[i]);
        let is_quote = has_prefix(&t, &q);
        let is_bare = t.len() == 1 && t[0] == '>';
        assert(is_bare == (t@ == seq!['>'])) by {
            if t@.len() == 1 && t@[0] == '>' {
                assert(t@ =~= seq!['>']);
            }
        }
        if !is_quote && !is_bare {
            break ;
        }
        if text.len() > 0 {
            text.push(' ');
        }
        if is_quote {
            let rest = slice(&t, 2, t.len());
            let ghost before = text@;
            let mut k: usize = 0;
            while k < rest.len()
                invariant
                    k <= rest.len(),
                    text@ == before + rest@.subrange(0, k as int),
                decreases rest.len() - k,
            {
                text.push(rest[k]);
                k = k + 1;
                assert(text@ =~= before + rest@.subrange(0, k as int));
            }
            assert(rest@.subrange(0, rest.len() as int) =~= rest@);
        }
        i = i + 1;
    }
    let inlines = parse_chars(&text);
    (Block::BlockQuote { inlines }, i)
}

/// `s` without trailing `|` characters.
pub open spec fn strip_pipes_end(s: Seq<char>) -> Seq<char>
    decreases s.len(),
{
    if s.len() > 0 && s.last() == '|' {
        strip_pipes_end(s.drop_last())
    } else {
        s
    }
}

/// `s` without leading and trailing `|` characters.
pub open spec fn strip_pipes(s: Seq<char>) -> Seq<char> {
    strip_pipes_end(s.subrange(run_end(s, '|', 0), s.len() as int))
}

/// The cells of a table line.
pub open spec fn row_of(line: Seq<char>) -> Seq<Seq<InlineV>> {
    split_char(strip_pipes(trim(line)), '|').map_values(|c: Seq<char>| parse_inlines(trim(c)))
}

/// The trimmed table lines from `i` on (a blank line after them is taken too).
pub open spec fn table_scan(ls: Seq<Seq<char>>, i: int, acc: Seq<Seq<char>>) -> (
    Seq<Seq<char>>,
    int,
)
    decreases ls.len() - i,
{
    if i < 0 || i >= ls.len() {
        (acc, i)
    } else {
        let t = trim(ls[i]);
        if t.len() > 0 && t[0] == '|' {
            table_scan(ls, i + 1, acc.push(t))
        } else if t.len() == 0 {
            (acc, i + 1)
        } else {
            (acc, i)
        }
    }
}

/// The table at line `start`: none when it has fewer than two lines.
pub open spec fn table_at(ls: Seq<Seq<char>>, start: int) -> (Option<BlockV>, int) {
    let st = table_scan(ls, start, Seq::empty());
    let tl = st.0;
    if tl.len() < 2 {
        (None, st.1)
    } else {
        (
            Some(
                BlockV::Table {
                    headers: row_of(tl[0]),
                    rows: tl.subrange(2, tl.len() as int).map_values(|l: Seq<char>| row_of(l)),
                },
            ),
            st.1,
        )
    }
}

fn strip_pipe_chars(s: &Vec<char>) -> (r: Vec<char>)
    ensures
        r@ == strip_pipes(s@),
{
    let a = run_len(s, '|', 0);
    let mut b = s.len();
    assert(s@.subrange(a as int, s.len() as int) =~= s@.subrange(a as int, b as int));
    while b > a && s[b - 1] == '|'
        invariant
            a <= b <= s.len(),
            a == run_end(s@, '|', 0),
            strip_pipes(s@) == strip_pipes_end(s@.subrange(a as int, b as int)),
        decreases b,
    {
        assert(s@.subrange(a as int, b as int).drop_last() =~= s@.subrange(a as int, b - 1));
        b = b - 1;
    }
    slice(s, a, b)
}

fn parse_table_row(line: &Vec<char>) -> (r: Vec<Vec<crate::model::Inline>>)
    ensures
        view_row(r@) == row_of(line@),
{
    let cells = split_at_char(&strip_pipe_chars(&trim_chars(line)), '|');
    let ghost cv = split_char(strip_pipes(trim(line@)), '|');
    let mut r: Vec<Vec<crate::model::Inline>> = Vec::new();
    let mut k: usize = 0;
    while k < cells.len()
        invariant
            k <= cells.len(),
            lines_view(cells@) == cv,
            view_row(r@) == cv.subrange(0, k as int).map_values(
                |c: Seq<char>| parse_inlines(trim(c)),
            ),
        decreases cells.len() - k,
    {
        assert(cells[k as int]@ == cv[k as int]);
        let cell = parse_chars(&trim_chars(&cells[k]));
        let ghost before = r@;
        r.push(cell);
        assert(view_row(r@) =~= cv.subrange(0, k + 1).map_values(
            |c: Seq<char>| parse_inlines(trim(c)),
        )) by {
            assert(view_row(r@) =~= view_row(before).push(view_inlines(cell@)));
        }
        k = k + 1;
    }
    assert(cv.subrange(0, cv.len() as int) =~= cv);
    r
}

fn parse_table(ls: &Vec<Vec<char>>, start: usize) -> (r: (Option<Block>, usize))
    requires
        start <= ls.len(),
    ensures
        (
            match r.0 {
                Some(b) => Some(view_block(b)),
                None => None,
            },
            r.1 as int,
        ) == table_at(lines_view(ls@), start as int),
        start <= r.1 <= ls.len(),
{
    let ghost lv = lines_view(ls@);
    let mut tl: Vec<Vec<char>> = Vec::new();
    let mut i = start;
    let mut stop = false;
    assert(lines_view(tl@) =~= Seq::<Seq<char>>::empty());
    while i < ls.len() && !stop
        invariant
            start <= i <= ls.len(),
            lv == lines_view(ls@),
            !stop ==> table_scan(lv, i as int, lines_view(tl@)) == table_scan(
                lv,
                start as int,
                Seq::empty(),
            ),
            stop ==> table_scan(lv, start as int, Seq::empty()) == (lines_view(tl@), i as int),
        decreases ls.len() - i + if stop {
            0int
        } else {
            1int
        },
    {
        assert(ls[i as int]@ == lv[i as int]);
        let t = trim_chars(&ls[i]);
        if t.len() > 0 && t[0] == '|' {
            let ghost before = tl@;
            tl.push(t);
            assert(lines_view(tl@) =~= lines_view(before).push(trim(lv[i as int])));
            i = i + 1;
        } else if t.len() == 0 {
            i = i + 1;
            stop = true;
        } else {
            stop = true;
        }
    }
    let ghost tv = lines_view(tl@);
    assert(table_scan(lv, start as int, Seq::empty()) == (tv, i as int));
    if tl.len() < 2 {
        return (None, i);
    }
    let headers = parse_table_row(&tl[0]);
    assert(tl[0]@ == tv[0]);
    let mut rows: Vec<Vec<Vec<crate::model::Inline>>> = Vec::new();
    let mut k: usize = 2;
    assert(view_rows(rows@) =~= tv.subrange(2, 2).map_values(|l: Seq<char>| row_of(l)));
    while k < tl.len()
        invariant
            2 <= k <= tl.len(),
            tv == lines_view(tl@),
            view_rows(rows@) == tv.subrange(2, k as int).map_values(|l: Seq<char>| row_of(l)),
        decreases tl.len() - k,
    {
        assert(tl[k as int]@ == tv[k as int]);
        let row = parse_table_row(&tl[k]);
        let ghost before = rows@;
        rows.push(row);
        assert(view_rows(rows@) =~= view_rows(before).push(view_row(row@)));
        assert(view_rows(rows@) =~= tv.subrange(2, k + 1).map_values(|l: Seq<char>| row_of(l)));
        k = k + 1;
    }
    (Some(Block::Table { headers, rows }), i)
}

pub open spec fn lit_fence_tick() -> Seq<char> {
    seq!['`', '`', '`']
}

pub open spec fn lit_fence_tilde() -> Seq<char> {
    seq!['~', '~', '~']
}

pub open spec fn lit_columns() -> Seq<char> {
    seq!['+', '+', '+']
}

pub open spec fn lit_image() -> Seq<char> {
    seq!['!', '[']
}

/// Whether a trimmed line ends a paragraph (when it is not its first line).
pub open spec fn stops_paragraph(t: Seq<char>) -> bool {
    t.len() == 0 || t[0] == '#' || starts_with(t, lit_fence_tick()) || starts_with(
        t,
        lit_fence_tilde(),
    ) || starts_with(t, lit_image()) || starts_with(t, lit_quote()) || t == seq!['>'] || t
        == lit_columns() || is_rule(t) || (t[0] == '|' && t.last() == '|') || is_list_start(t)
        || is_ordered_start(t)
}

/// Index of the first line at or after `i` that ends the paragraph.
pub open spec fn para_end(ls: Seq<Seq<char>>, i: int) -> int
    decreases ls.len() - i,
{
    if i < 0 || i >= ls.len() {
        ls.len() as int
    } else if stops_paragraph(trim(ls[i])) {
        i
    } else {
        para_end(ls, i + 1)
    }
}

/// The paragraph that starts at line `start`: it always takes that line.
pub open spec fn paragraph_at(ls: Seq<Seq<char>>, start: int) -> (BlockV, int) {
    let end = para_end(ls, start + 1);
    (
        BlockV::Paragraph {
            inlines: parse_inlines(
                join_with(ls.subrange(start, end).map_values(|l: Seq<char>| trim(l)), ' '),
            ),
        },
        end,
    )
}

struct Literals {
    tick: Vec<char>,
    tilde: Vec<char>,
    image: Vec<char>,
    quote: Vec<char>,
    columns: Vec<char>,
}

impl Literals {
    spec fn wf(&self) -> bool {
        &&& self.tick@ == lit_fence_tick()
        &&& self.tilde@ == lit_fence_tilde()
        &&& self.image@ == lit_image()
        &&& self.quote@ == lit_quote()
        &&& self.columns@ == lit_columns()
    }

    fn new() -> (r: Literals)
        ensures
            r.wf(),
    {
        Literals {
            tick: vec!['`', '`', '`'],
            tilde: vec!['~', '~', '~'],
            image: vec!['!', '['],
            quote: vec!['>', ' '],
            columns: vec!['+', '+', '+'],
        }
    }
}

fn is_single(t: &Vec<char>, c: char) -> (r: bool)
    ensures
        r == (t@ == seq![c]),
{
    let r = t.len() == 1 && t[0] == c;
    assert(r ==> t@ =~= seq![c]);
    r
}

fn ends_paragraph(t: &Vec<char>, lit: &Literals) -> (r: bool)
    requires
        lit.wf(),
    ensures
        r == stops_paragraph(t@),
{
    t.len() == 0 || t[0] == '#' || has_prefix(t, &lit.tick) || has_prefix(t, &lit.tilde)
        || has_prefix(t, &lit.image) || has_prefix(t, &lit.quote) || is_single(t, '>')
        || eq_chars(t, &lit.columns) || is_horizontal_rule(t) || (t[0] == '|' && t[t.len() - 1]
        == '|') || is_list_start_line(t) || is_ordered_start_line(t)
}

fn parse_paragraph(ls: &Vec<Vec<char>>, start: usize, lit: &Literals) -> (r: (Block, usize))
    requires
        start < ls.len(),
        lit.wf(),
    ensures
        (view_block(r.0), r.1 as int) == paragraph_at(lines_view(ls@), start as int),
        start < r.1 <= ls.len(),
{
    let ghost lv = lines_view(ls@);
    let mut i = start + 1;
    while i < ls.len()
        invariant
            start < i <= ls.len(),
            lv == lines_view(ls@),
            lit.wf(),
            para_end(lv, start + 1) == para_end(lv, i as int),
        ensures
            start < i <= ls.len(),
            para_end(lv, start + 1) == i,
        decreases ls.len() - i,
    {
        assert(ls[i as int]@ == lv[i as int]);
        if ends_paragraph(&trim_chars(&ls[i]), lit) {
            break ;
        }
        i = i + 1;
    }
    let mut trimmed: Vec<Vec<char>> = Vec::new();
    let mut k = start;
    while k < i
        invariant
            start <= k <= i <= ls.len(),
            lv == lines_view(ls@),
            lines_view(trimmed@) == lv.subrange(start as int, k as int).map_values(
                |l: Seq<char>| trim(l),
            ),
        decreases i - k,
    {
        assert(ls[k as int]@ == lv[k as int]);
        let ghost before = trimmed@;
        let tk = trim_chars(&ls[k]);
        trimmed.push(tk);
        assert(lines_view(trimmed@) =~= lines_view(before).push(trim(lv[k as int])));
        assert(lines_view(trimmed@) =~= lv.subrange(start as int, k + 1).map_values(
            |l: Seq<char>| trim(l),
        ));
        k = k + 1;
    }
    let text = join_from(&trimmed, 0, ' ');
    assert(lines_view(trimmed@).subrange(0, trimmed.len() as int) =~= lines_view(trimmed@));
    let inlines = parse_chars(&text);
    (Block::Paragraph { inlines }, i)
}

// ---------------------------------------------------------------------------
// The block parser
// ---------------------------------------------------------------------------
/// The blocks of the lines `ls` from `i` on, after the blocks `acc`.
pub open spec fn blocks_scan(ls: Seq<Seq<char>>, i: int, acc: Seq<BlockV>) -> Seq<BlockV>
    decreases ls.len() - i,
{
    if i < 0 || i >= ls.len() {
        acc
    } else {
        let t = trim(ls[i]);
        if t.len() == 0 {
            blocks_scan(ls, i + 1, acc)
        } else if t == lit_columns() {
            blocks_scan(ls, i + 1, acc.push(BlockV::ColumnSeparator))
        } else if is_rule(t) {
            blocks_scan(ls, i + 1, acc.push(BlockV::HorizontalRule))
        } else if heading_of(t) is Some {
            blocks_scan(ls, i + 1, acc.push(heading_of(t)->0))
        } else if starts_with(t, lit_fence_tick()) || starts_with(t, lit_fence_tilde()) {
            let st = code_block_at(
                ls,
                i,
                if starts_with(t, lit_fence_tick()) {
                    '`'
                } else {
                    '~'
                },
            );
            if i < st.1 <= ls.len() {
                blocks_scan(ls, st.1, acc.push(st.0))
            } else {
                acc
            }
        } else if starts_with(t, lit_image()) && image_of(t) is Some {
            blocks_scan(ls, i + 1, acc.push(image_of(t)->0))
        } else if starts_with(t, lit_quote()) || t == seq!['>'] {
            let st = quote_at(ls, i);
            if i < st.1 <= ls.len() {
                blocks_scan(ls, st.1, acc.push(st.0))
            } else {
                acc
            }
        } else if t[0] == '|' && t.last() == '|' && table_at(ls, i).0 is Some {
            let st = table_at(ls, i);
            if i < st.1 <= ls.len() {
                blocks_scan(ls, st.1, acc.push(st.0->0))
            } else {
                acc
            }
        } else if (is_list_start(t) || is_ordered_start(t)) && i < list_scan(
            ls,
            i,
            !is_list_start(t),
            Seq::empty(),
        ).1 <= ls.len() {
            let ordered = !is_list_start(t);
            let st = list_scan(ls, i, ordered, Seq::empty());
            blocks_scan(ls, st.1, acc.push(BlockV::List { ordered, items: st.0 }))
        } else {
            let st = paragraph_at(ls, i);
            if i < st.1 <= ls.len() {
                blocks_scan(ls, st.1, acc.push(st.0))
            } else {
                acc
            }
        }
    }
}

/// The block sequence of a slide's content.
pub open spec fn parse_blocks(content: Seq<char>) -> Seq<BlockV> {
    blocks_scan(lines_of(content), 0, Seq::empty())
}

fn push_block(blocks: &mut Vec<Block>, b: Block)
    ensures
        view_blocks(final(blocks)@) == view_blocks(old(blocks)@).push(view_block(b)),
{
    let ghost before = blocks@;
    blocks.push(b);
    assert(view_blocks(blocks@) =~= view_blocks(before).push(view_block(b)));
}

/// Parse a slide's content into its blocks.
pub fn parse(content: &str) -> (r: Vec<Block>)
    ensures
        view_blocks(r@) == parse_blocks(content@),
{
    let text = chars_of(content);
    let ls = lines(&text);
    let ghost lv = lines_view(ls@);
    let lit = Literals::new();
    let mut blocks: Vec<Block> = Vec::new();
    let mut i: usize = 0;
    assert(view_blocks(blocks@) =~= Seq::<BlockV>::empty());
    while i < ls.len()
        invariant
            i <= ls.len(),
            lv == lines_view(ls@),
            lv == lines_of(content@),
            lit.wf(),
            blocks_scan(lv, i as int, view_blocks(blocks@)) == parse_blocks(content@),
        decreases ls.len() - i,
    {
        assert(ls[i as int]@ == lv[i as int]);
        let t = trim_chars(&ls[i]);
        if t.len() == 0 {
            i = i + 1;
            continue ;
        }
        if eq_chars(&t, &lit.columns) {
            push_block(&mut blocks, Block::ColumnSeparator);
            i = i + 1;
            continue ;
        }
        if is_horizontal_rule(&t) {
            push_block(&mut blocks, Block::HorizontalRule);
            i = i + 1;
            continue ;
        }
        match parse_heading(&t) {
            Some(h) => {
                push_block(&mut blocks, h);
                i = i + 1;
                continue ;
            },
            None => {},
        }
        let tick = has_prefix(&t, &lit.tick);
        if tick || has_prefix(&t, &lit.tilde) {
            let fc = if tick {
                '`'
            } else {
                '~'
            };
            let (b, e) = parse_code_block(&ls, i, fc);
            push_block(&mut blocks, b);
            i = e;
            continue ;
        }
        if has_prefix(&t, &lit.image) {
            match parse_image(&t) {
                Some(img) => {
                    push_block(&mut blocks, img);
                    i = i + 1;
                    continue ;
                },
                None => {},
            }
        }
        if has_prefix(&t, &lit.quote) || is_single(&t, '>') {
            let (b, e) = parse_blockquote(&ls, i);
            assert(i < e) by {
                let t0 = trim(lv[i as int]);
                let sep = Seq::<char>::empty();
                if starts_with(t0, lit_quote()) {
                    lemma_quote_scan_progress(lv, i + 1, sep + t0.subrange(2, t0.len() as int));
                } else {
                    lemma_quote_scan_progress(lv, i + 1, sep);
                }
                assert(quote_scan(lv, i as int, Seq::empty()).1 > i);
            }
            push_block(&mut blocks, b);
            i = e;
            continue ;
        }
        if t[0] == '|' && t[t.len() - 1] == '|' {
            let (b, e) = parse_table(&ls, i);
            match b {
                Some(table) => {
                    assert(i < e) by {
                        lemma_table_scan_progress(lv, i + 1, seq![trim(lv[i as int])]);
                        assert(table_scan(lv, i as int, Seq::empty()).1 > i);
                    }
                    push_block(&mut blocks, table);
                    i = e;
                    continue ;
                },
                None => {},
            }
        }
        let unordered = is_list_start_line(&t);
        if unordered || is_ordered_start_line(&t) {
            let (items, e) = parse_list(&ls, i, !unordered);
            if i < e {
                push_block(&mut blocks, Block::List { ordered: !unordered, items });
                i = e;
                continue ;
            }
        }
        let (b, e) = parse_paragraph(&ls, i, &lit);
        push_block(&mut blocks, b);
        i = e;
    }
    blocks
}

} // verus!
