//! Splitting a document body into raw slide texts.
//!
//! Three signals end a slide: a `---` line with blank lines on both sides, a
//! run of three or more blank lines, and an `# ` heading once the slide has
//! content. The first two mark breaks between lines; the third is applied
//! inside each piece, where lines of fenced code never count as headings.
use vstd::prelude::*;

use crate::blocks::{is_fence_close, run_end};
use crate::lines::{dash_separator, is_dash_separator, is_directive_line, lines_view};
use crate::text::{
    chars_of, has_prefix, is_blank_chars, join_from, join_with, lemma_trim_props, lines,
    lines_of, slice, split_at_char, split_char, starts_with, string_of, trim, trim_chars,
};

verus! {

/// A line of the body, or a slide break between lines.
pub open spec fn piece_view(p: Option<Vec<char>>) -> Option<Seq<char>> {
    match p {
        Some(v) => Some(v@),
        None => None,
    }
}

pub open spec fn pieces_view(v: Seq<Option<Vec<char>>>) -> Seq<Option<Seq<char>>> {
    v.map_values(|p: Option<Vec<char>>| piece_view(p))
}

/// `s` with each `\r\n` replaced by `\n`, reading from `i`.
pub open spec fn crlf_from(s: Seq<char>, i: int) -> Seq<char>
    decreases s.len() - i,
{
    if i < 0 || i >= s.len() {
        Seq::empty()
    } else if s[i] == '\r' && i + 1 < s.len() && s[i + 1] == '\n' {
        seq!['\n'] + crlf_from(s, i + 2)
    } else {
        seq![s[i]] + crlf_from(s, i + 1)
    }
}

pub open spec fn is_blank_piece(p: Option<Seq<char>>) -> bool {
    p matches Some(l) && trim(l).len() == 0
}

pub open spec fn pop_piece(out: Seq<Option<Seq<char>>>) -> Seq<Option<Seq<char>>> {
    if out.len() > 0 {
        out.drop_last()
    } else {
        out
    }
}

/// First phase: a `---` line whose neighbours are blank (or a break, or the
/// edge of the body) becomes a break, taking the blank lines beside it.
pub open spec fn dash_scan(ls: Seq<Seq<char>>, i: int, out: Seq<Option<Seq<char>>>) -> Seq<
    Option<Seq<char>>,
>
    decreases ls.len() - i,
{
    if i < 0 || i >= ls.len() {
        out
    } else {
        let prev_blank = i == 0 || (out.len() > 0 && (is_blank_piece(out.last())
            || out.last() is None));
        let next_blank = i + 1 >= ls.len() || trim(ls[i + 1]).len() == 0;
        if is_dash_separator(trim(ls[i])) && prev_blank && next_blank {
            let out1 = if out.len() > 0 && is_blank_piece(out.last()) {
                pop_piece(out)
            } else {
                out
            };
            let skip = if i + 1 < ls.len() && trim(ls[i + 1]).len() == 0 {
                2int
            } else {
                1int
            };
            dash_scan(ls, i + skip, out1.push(None))
        } else {
            dash_scan(ls, i + 1, out.push(Some(ls[i])))
        }
    }
}

/// Second phase over the first `k` pieces: the third blank line in a row
/// turns the run into a break; further blank lines of the run are dropped.
/// Returns the pieces and the length of the current blank run.
pub open spec fn blank_fold(out: Seq<Option<Seq<char>>>, k: int) -> (Seq<Option<Seq<char>>>, int)
    decreases k,
{
    if k <= 0 || k > out.len() {
        (Seq::empty(), 0)
    } else {
        let prev = blank_fold(out, k - 1);
        let fin = prev.0;
        let count = prev.1;
        match out[k - 1] {
            None => (fin.push(None), 0),
            Some(l) => if trim(l).len() == 0 {
                if count + 1 < 3 {
                    (fin.push(Some(l)), count + 1)
                } else if count + 1 == 3 {
                    (pop_piece(pop_piece(fin)).push(None), count + 1)
                } else {
                    (fin, count + 1)
                }
            } else {
                (fin.push(Some(l)), 0)
            },
        }
    }
}

/// The runs of lines between breaks among the first `k` pieces.
pub open spec fn groups_fold(fin: Seq<Option<Seq<char>>>, k: int) -> Seq<Seq<Seq<char>>>
    decreases k,
{
    if k <= 0 || k > fin.len() {
        seq![Seq::empty()]
    } else {
        let g = groups_fold(fin, k - 1);
        match fin[k - 1] {
            None => g.push(Seq::empty()),
            Some(l) => g.update(g.len() - 1, g.last().push(l)),
        }
    }
}

/// The pieces of the body between breaks, each trimmed (possibly empty).
pub open spec fn chunks_of(body: Seq<char>) -> Seq<Seq<char>> {
    let ls = split_char(crlf_from(body, 0), '\n');
    let out = dash_scan(ls, 0, Seq::empty());
    let fin = blank_fold(out, out.len() as int).0;
    groups_fold(fin, fin.len() as int).map_values(|g: Seq<Seq<char>>| trim(join_with(g, '\n')))
}

/// State of the heading pass over one chunk.
pub struct HeadState {
    pub current: Seq<char>,
    pub has_content: bool,
    pub in_fence: bool,
    pub fence_char: char,
    pub fence_len: int,
    pub slides: Seq<Seq<char>>,
}

pub open spec fn push_nonempty(slides: Seq<Seq<char>>, s: Seq<char>) -> Seq<Seq<char>> {
    if s.len() > 0 {
        slides.push(s)
    } else {
        slides
    }
}

pub open spec fn lit_tick() -> Seq<char> {
    seq!['`', '`', '`']
}

pub open spec fn lit_tilde() -> Seq<char> {
    seq!['~', '~', '~']
}

pub open spec fn lit_h1() -> Seq<char> {
    seq!['#', ' ']
}

/// The heading pass after one more line.
pub open spec fn head_line(line: Seq<char>, st: HeadState) -> HeadState {
    let t = trim(line);
    let (in_fence, fence_char, fence_len) = if st.in_fence {
        (!is_fence_close(t, st.fence_char, st.fence_len), st.fence_char, st.fence_len)
    } else if starts_with(t, lit_tick()) || starts_with(t, lit_tilde()) {
        (true, t[0], run_end(t, t[0], 0))
    } else {
        (false, st.fence_char, st.fence_len)
    };
    let split = !in_fence && starts_with(line, lit_h1()) && st.has_content;
    let cur0 = if split {
        Seq::empty()
    } else {
        st.current
    };
    let slides = if split {
        push_nonempty(st.slides, trim(st.current))
    } else {
        st.slides
    };
    let has0 = if split {
        false
    } else {
        st.has_content
    };
    HeadState {
        current: (if cur0.len() > 0 {
            cur0.push('\n')
        } else {
            cur0
        }) + line,
        has_content: has0 || (t.len() > 0 && !is_directive_line(t)),
        in_fence,
        fence_char,
        fence_len,
        slides,
    }
}

pub open spec fn head_start(slides: Seq<Seq<char>>) -> HeadState {
    HeadState {
        current: Seq::empty(),
        has_content: false,
        in_fence: false,
        fence_char: '`',
        fence_len: 0,
        slides,
    }
}

/// The heading pass over the first `k` lines.
pub open spec fn head_fold(ls: Seq<Seq<char>>, k: int, slides: Seq<Seq<char>>) -> HeadState
    decreases k,
{
    if k <= 0 || k > ls.len() {
        head_start(slides)
    } else {
        head_line(ls[k - 1], head_fold(ls, k - 1, slides))
    }
}

/// `slides` followed by the slides that heading inference makes of `chunk`.
pub open spec fn split_by_heading(chunk: Seq<char>, slides: Seq<Seq<char>>) -> Seq<Seq<char>> {
    let ls = lines_of(chunk);
    let st = head_fold(ls, ls.len() as int, slides);
    push_nonempty(st.slides, trim(st.current))
}

/// The slides of the first `k` chunks.
pub open spec fn slides_fold(chunks: Seq<Seq<char>>, k: int) -> Seq<Seq<char>>
    decreases k,
{
    if k <= 0 || k > chunks.len() {
        Seq::empty()
    } else {
        let prev = slides_fold(chunks, k - 1);
        if chunks[k - 1].len() == 0 {
            prev
        } else {
            split_by_heading(chunks[k - 1], prev)
        }
    }
}

/// The raw slide texts of a document body.
pub open spec fn split_spec(body: Seq<char>) -> Seq<Seq<char>> {
    let chunks = chunks_of(body);
    slides_fold(chunks, chunks.len() as int)
}

/// Inside a fenced code block a line never ends the slide, whatever it holds
/// (a `# comment` included), and the fence stays open until its closing line.
pub proof fn lemma_fenced_line_never_splits(line: Seq<char>, st: HeadState)
    requires
        st.in_fence,
        !is_fence_close(trim(line), st.fence_char, st.fence_len),
    ensures
        head_line(line, st).slides == st.slides,
        head_line(line, st).in_fence,
{
}

/// Only a line that starts with `# ` can end a slide: `## ` and deeper
/// headings, like any other line, never do.
pub proof fn lemma_only_h1_splits(line: Seq<char>, st: HeadState)
    requires
        !starts_with(line, lit_h1()),
    ensures
        head_line(line, st).slides == st.slides,
{
}

/// Every slide text is non-empty and has no surrounding whitespace.
pub open spec fn all_trimmed(slides: Seq<Seq<char>>) -> bool {
    forall|k: int| 0 <= k < slides.len() ==> #[trigger] slides[k].len() > 0 && trim(slides[k]) == slides[k]
}

fn replace_crlf(s: &Vec<char>) -> (r: Vec<char>)
    ensures
        r@ == crlf_from(s@, 0),
{
    let mut out: Vec<char> = Vec::new();
    let mut i: usize = 0;
    while i < s.len()
        invariant
            i <= s.len(),
            out@ + crlf_from(s@, i as int) == crlf_from(s@, 0),
        decreases s.len() - i,
    {
        let ghost before = out@;
        if s[i] == '\r' && i + 1 < s.len() && s[i + 1] == '\n' {
            out.push('\n');
            assert(before + crlf_from(s@, i as int) =~= out@ + crlf_from(s@, i + 2));
            i = i + 2;
        } else {
            out.push(s[i]);
            assert(before + crlf_from(s@, i as int) =~= out@ + crlf_from(s@, i + 1));
            i = i + 1;
        }
    }
    assert(out@ =~= out@ + crlf_from(s@, i as int));
    out
}

fn copy_chars(v: &Vec<char>) -> (r: Vec<char>)
    ensures
        r@ == v@,
{
    let r = slice(v, 0, v.len());
    assert(v@.subrange(0, v.len() as int) =~= v@);
    r
}

fn push_piece(out: &mut Vec<Option<Vec<char>>>, p: Option<Vec<char>>)
    ensures
        pieces_view(final(out)@) == pieces_view(old(out)@).push(piece_view(p)),
{
    let ghost before = out@;
    out.push(p);
    assert(pieces_view(out@) =~= pieces_view(before).push(piece_view(p)));
}

fn pop_last(out: &mut Vec<Option<Vec<char>>>)
    ensures
        pieces_view(final(out)@) == pop_piece(pieces_view(old(out)@)),
{
    if out.len() > 0 {
        let ghost before = out@;
        let _ = out.pop();
        assert(pieces_view(out@) =~= pieces_view(before).drop_last());
    }
}

fn last_is_blank(out: &Vec<Option<Vec<char>>>) -> (r: bool)
    ensures
        r == (out@.len() > 0 && is_blank_piece(pieces_view(out@).last())),
{
    if out.len() == 0 {
        return false;
    }
    match &out[out.len() - 1] {
        Some(l) => is_blank_chars(l),
        None => false,
    }
}

fn dash_pass(ls: &Vec<Vec<char>>) -> (r: Vec<Option<Vec<char>>>)
    ensures
        pieces_view(r@) == dash_scan(lines_view(ls@), 0, Seq::empty()),
{
    let ghost lv = lines_view(ls@);
    let mut out: Vec<Option<Vec<char>>> = Vec::new();
    let mut i: usize = 0;
    assert(pieces_view(out@) =~= Seq::<Option<Seq<char>>>::empty());
    while i < ls.len()
        invariant
            i <= ls.len(),
            lv == lines_view(ls@),
            dash_scan(lv, i as int, pieces_view(out@)) == dash_scan(lv, 0, Seq::empty()),
        decreases ls.len() - i,
    {
        assert(ls[i as int]@ == lv[i as int]);
        let t = trim_chars(&ls[i]);
        let next_blank = i + 1 >= ls.len() || is_blank_chars(&ls[i + 1]);
        proof {
            if i + 1 < ls.len() {
                assert(ls[i + 1]@ == lv[i + 1]);
            }
        }
        let last_blank = last_is_blank(&out);
        let last_break = out.len() > 0 && out[out.len() - 1].is_none();
        let prev_blank = i == 0 || last_blank || last_break;
        if dash_separator(&t) && prev_blank && next_blank {
            if last_blank {
                pop_last(&mut out);
            }
            push_piece(&mut out, None);
            if i + 1 < ls.len() && is_blank_chars(&ls[i + 1]) {
                i = i + 2;
            } else {
                i = i + 1;
            }
        } else {
            push_piece(&mut out, Some(copy_chars(&ls[i])));
            i = i + 1;
        }
    }
    out
}

fn blank_pass(out: &Vec<Option<Vec<char>>>) -> (r: Vec<Option<Vec<char>>>)
    ensures
        pieces_view(r@) == blank_fold(pieces_view(out@), out@.len() as int).0,
{
    let ghost ov = pieces_view(out@);
    let mut fin: Vec<Option<Vec<char>>> = Vec::new();
    let mut count: usize = 0;
    let mut k: usize = 0;
    assert(pieces_view(fin@) =~= Seq::<Option<Seq<char>>>::empty());
    while k < out.len()
        invariant
            k <= out.len(),
            ov == pieces_view(out@),
            count <= k,
            blank_fold(ov, k as int) == (pieces_view(fin@), count as int),
        decreases out.len() - k,
    {
        match &out[k] {
            None => {
                push_piece(&mut fin, None);
                count = 0;
            },
            Some(l) => {
                if is_blank_chars(l) {
                    count = count + 1;
                    if count < 3 {
                        push_piece(&mut fin, Some(copy_chars(l)));
                    } else if count == 3 {
                        pop_last(&mut fin);
                        pop_last(&mut fin);
                        push_piece(&mut fin, None);
                    }
                } else {
                    push_piece(&mut fin, Some(copy_chars(l)));
                    count = 0;
                }
            },
        }
        k = k + 1;
    }
    fin
}

/// The trimmed text of each run of lines between breaks.
fn chunk_pass(fin: &Vec<Option<Vec<char>>>) -> (r: Vec<Vec<char>>)
    ensures
        lines_view(r@) == groups_fold(pieces_view(fin@), fin@.len() as int).map_values(
            |g: Seq<Seq<char>>| trim(join_with(g, '\n')),
        ),
{
    let ghost fv = pieces_view(fin@);
    let mut done: Vec<Vec<char>> = Vec::new();
    let mut group: Vec<Vec<char>> = Vec::new();
    let mut k: usize = 0;
    assert(lines_view(group@) =~= Seq::<Seq<char>>::empty());
    assert(lines_view(done@) =~= groups_fold(fv, 0).subrange(0, 0).map_values(
        |g: Seq<Seq<char>>| trim(join_with(g, '\n')),
    ));
    while k < fin.len()
        invariant
            k <= fin.len(),
            fv == pieces_view(fin@),
            groups_fold(fv, k as int).len() == done@.len() + 1,
            groups_fold(fv, k as int).last() == lines_view(group@),
            lines_view(done@) == groups_fold(fv, k as int).subrange(0, done@.len() as int).map_values(
                |g: Seq<Seq<char>>| trim(join_with(g, '\n')),
            ),
        decreases fin.len() - k,
    {
        let ghost g0 = groups_fold(fv, k as int);
        match &fin[k] {
            None => {
                let joined = join_from(&group, 0, '\n');
                assert(lines_view(group@).subrange(0, group.len() as int) =~= lines_view(group@));
                let ghost before = done@;
                let ghost gv = lines_view(group@);
                let piece = trim_chars(&joined);
                done.push(piece);
                group = Vec::new();
                proof {
                    let g1 = groups_fold(fv, k + 1);
                    assert(g1 == g0.push(Seq::empty()));
                    assert(lines_view(group@) =~= Seq::<Seq<char>>::empty());
                    assert(lines_view(done@) =~= lines_view(before).push(piece@));
                    assert(g1.subrange(0, done@.len() as int) =~= g0.subrange(
                        0,
                        before.len() as int,
                    ).push(gv));
                    assert(lines_view(done@) =~= g1.subrange(0, done@.len() as int).map_values(
                        |g: Seq<Seq<char>>| trim(join_with(g, '\n')),
                    ));
                }
            },
            Some(l) => {
                let ghost before = group@;
                group.push(copy_chars(l));
                proof {
                    let g1 = groups_fold(fv, k + 1);
                    assert(lines_view(group@) =~= lines_view(before).push(l@));
                    assert(g1 == g0.update(g0.len() - 1, g0.last().push(l@)));
                    assert(g1.subrange(0, done@.len() as int) =~= g0.subrange(
                        0,
                        done@.len() as int,
                    ));
                }
            },
        }
        k = k + 1;
    }
    let joined = join_from(&group, 0, '\n');
    assert(lines_view(group@).subrange(0, group.len() as int) =~= lines_view(group@));
    let ghost before = done@;
    let ghost gv = lines_view(group@);
    let piece = trim_chars(&joined);
    done.push(piece);
    proof {
        let g = groups_fold(fv, fin@.len() as int);
        assert(lines_view(done@) =~= lines_view(before).push(piece@));
        assert(g =~= g.subrange(0, before.len() as int).push(gv));
        assert(lines_view(done@) =~= g.map_values(|g: Seq<Seq<char>>| trim(join_with(g, '\n'))));
    }
    done
}

/// `s` is `s0` followed by non-empty, trimmed slide texts.
pub open spec fn extends_trimmed(s0: Seq<Seq<char>>, s: Seq<Seq<char>>) -> bool {
    &&& s.len() >= s0.len()
    &&& s.subrange(0, s0.len() as int) == s0
    &&& all_trimmed(s.subrange(s0.len() as int, s.len() as int))
}

proof fn lemma_push_nonempty_extends(s0: Seq<Seq<char>>, slides: Seq<Seq<char>>, s: Seq<char>)
    requires
        extends_trimmed(s0, slides),
    ensures
        extends_trimmed(s0, push_nonempty(slides, trim(s))),
{
    lemma_trim_props(s);
    if trim(s).len() > 0 {
        let r = slides.push(trim(s));
        assert(r.subrange(0, s0.len() as int) =~= slides.subrange(0, s0.len() as int));
        let tail = r.subrange(s0.len() as int, r.len() as int);
        let old_tail = slides.subrange(s0.len() as int, slides.len() as int);
        assert(tail =~= old_tail.push(trim(s)));
        assert forall|k: int| 0 <= k < tail.len() implies #[trigger] tail[k].len() > 0 && trim(
            tail[k],
        ) == tail[k] by {
            if k < old_tail.len() {
                assert(tail[k] == old_tail[k]);
            }
        }
    }
}

proof fn lemma_extends_all_trimmed(s0: Seq<Seq<char>>, s: Seq<Seq<char>>)
    requires
        all_trimmed(s0),
        extends_trimmed(s0, s),
    ensures
        all_trimmed(s),
{
    assert forall|k: int| 0 <= k < s.len() implies #[trigger] s[k].len() > 0 && trim(s[k])
        == s[k] by {
        if k < s0.len() {
            assert(s[k] == s.subrange(0, s0.len() as int)[k]);
        } else {
            assert(s[k] == s.subrange(s0.len() as int, s.len() as int)[k - s0.len()]);
        }
    }
}

/// Heading inference over one chunk: the slides found are appended to
/// `slides`, each non-empty and trimmed.
fn split_by_heading_inference(chunk: &Vec<char>, slides: &mut Vec<Vec<char>>)
    ensures
        lines_view(final(slides)@) == split_by_heading(chunk@, lines_view(old(slides)@)),
        extends_trimmed(lines_view(old(slides)@), lines_view(final(slides)@)),
{
    let ls = lines(chunk);
    let ghost lv = lines_view(ls@);
    let ghost s0 = lines_view(slides@);
    assert(s0.subrange(0, s0.len() as int) =~= s0);
    assert(s0.subrange(s0.len() as int, s0.len() as int) =~= Seq::<Seq<char>>::empty());
    let tick: Vec<char> = vec!['`', '`', '`'];
    let tilde: Vec<char> = vec!['~', '~', '~'];
    let h1: Vec<char> = vec!['#', ' '];
    let mut current: Vec<char> = Vec::new();
    let mut has_content = false;
    let mut in_fence = false;
    let mut fence_char: char = '`';
    let mut fence_len: usize = 0;
    let mut i: usize = 0;
    assert(current@ =~= Seq::<char>::empty());
    while i < ls.len()
        invariant
            i <= ls.len(),
            lv == lines_view(ls@),
            lv == lines_of(chunk@),
            tick@ == lit_tick(),
            tilde@ == lit_tilde(),
            h1@ == lit_h1(),
            extends_trimmed(s0, lines_view(slides@)),
            head_fold(lv, i as int, s0) == (HeadState {
                current: current@,
                has_content,
                in_fence,
                fence_char,
                fence_len: fence_len as int,
                slides: lines_view(slides@),
            }),
        decreases ls.len() - i,
    {
        let line = &ls[i];
        assert(line@ == lv[i as int]);
        let t = trim_chars(line);
        if in_fence {
            if crate::blocks::fence_closes(&t, fence_char, fence_len) {
                in_fence = false;
            }
        } else if has_prefix(&t, &tick) || has_prefix(&t, &tilde) {
            in_fence = true;
            fence_char = t[0];
            fence_len = crate::blocks::run_len(&t, fence_char, 0);
        }
        if !in_fence && has_prefix(line, &h1) && has_content {
            let slide = trim_chars(&current);
            proof {
                lemma_push_nonempty_extends(s0, lines_view(slides@), current@);
            }
            if slide.len() > 0 {
                let ghost before = slides@;
                slides.push(slide);
                assert(lines_view(slides@) =~= lines_view(before).push(slide@));
            }
            current = Vec::new();
            has_content = false;
        }
        let ghost c0 = current@;
        if current.len() > 0 {
            current.push('\n');
        }
        let ghost c1 = current@;
        let mut k: usize = 0;
        while k < line.len()
            invariant
                k <= line.len(),
                current@ == c1 + line@.subrange(0, k as int),
            decreases line.len() - k,
        {
            current.push(line[k]);
            k = k + 1;
            assert(current@ =~= c1 + line@.subrange(0, k as int));
        }
        assert(line@.subrange(0, line.len() as int) =~= line@);
        if t.len() > 0 && !directive_line(&t) {
            has_content = true;
        }
        i = i + 1;
    }
    let slide = trim_chars(&current);
    proof {
        lemma_push_nonempty_extends(s0, lines_view(slides@), current@);
    }
    if slide.len() > 0 {
        let ghost before = slides@;
        slides.push(slide);
        assert(lines_view(slides@) =~= lines_view(before).push(slide@));
    }
}

fn directive_line(t: &Vec<char>) -> (r: bool)
    ensures
        r == is_directive_line(t@),
{
    if t.len() == 0 || t[0] != '@' {
        return false;
    }
    match crate::lines::find(t, ':') {
        Some(c) => {
            if c <= 1 {
                return false;
            }
            crate::lines::name_chars(&slice(t, 1, c))
        },
        None => false,
    }
}

/// Split a document body (after the frontmatter) into raw slide texts: every
/// one is non-empty and trimmed.
pub fn split(body: &str) -> (r: Vec<String>)
    ensures
        r@.map_values(|s: String| s@) == split_spec(body@),
        all_trimmed(r@.map_values(|s: String| s@)),
{
    let text = replace_crlf(&chars_of(body));
    let ls = split_at_char(&text, '\n');
    let out = dash_pass(&ls);
    let fin = blank_pass(&out);
    let chunks = chunk_pass(&fin);
    let ghost cv = chunks_of(body@);
    assert(lines_view(chunks@) == cv);
    let mut slides: Vec<Vec<char>> = Vec::new();
    let mut k: usize = 0;
    assert(lines_view(slides@) =~= Seq::<Seq<char>>::empty());
    while k < chunks.len()
        invariant
            k <= chunks.len(),
            lines_view(chunks@) == cv,
            lines_view(slides@) == slides_fold(cv, k as int),
            all_trimmed(lines_view(slides@)),
        decreases chunks.len() - k,
    {
        assert(chunks[k as int]@ == cv[k as int]);
        if chunks[k].len() > 0 {
            let ghost before = lines_view(slides@);
            split_by_heading_inference(&chunks[k], &mut slides);
            proof {
                lemma_extends_all_trimmed(before, lines_view(slides@));
            }
        }
        k = k + 1;
    }
    let mut r: Vec<String> = Vec::new();
    let mut j: usize = 0;
    while j < slides.len()
        invariant
            j <= slides.len(),
            r@.map_values(|s: String| s@) == lines_view(slides@).subrange(0, j as int),
        decreases slides.len() - j,
    {
        let ghost before = r@;
        let s = string_of(&slides[j]);
        r.push(s);
        assert(r@.map_values(|s: String| s@) =~= before.map_values(|s: String| s@).push(s@));
        assert(r@.map_values(|s: String| s@) =~= lines_view(slides@).subrange(0, j + 1));
        j = j + 1;
    }
    assert(lines_view(slides@).subrange(0, slides.len() as int) =~= lines_view(slides@));
    r
}

} // verus!
