//! What splitting keeps: apart from `---` separator lines, the slides hold
//! every non-whitespace character of the body, in order.
use vstd::prelude::*;

use crate::blocks::is_fence_close;
use crate::lines::is_dash_separator;
use crate::splitter::{
    all_trimmed, blank_fold, chunks_of, crlf_from, dash_scan, groups_fold, head_fold, head_line, lit_h1,
    lit_tick, lit_tilde, push_nonempty, slides_fold, split_by_heading, split_spec,
};
use crate::text::{
    is_blank, is_ws, join_with, lines_of, split_char, starts_with, strip_cr, trim, trim_end,
    trim_start,
};

verus! {

/// The non-whitespace characters of `s`, in order.
pub open spec fn nonws(s: Seq<char>) -> Seq<char>
    decreases s.len(),
{
    if s.len() == 0 {
        Seq::empty()
    } else if is_ws(s.last()) {
        nonws(s.drop_last())
    } else {
        nonws(s.drop_last()).push(s.last())
    }
}

/// The texts `ss` one after another.
pub open spec fn flat(ss: Seq<Seq<char>>) -> Seq<char>
    decreases ss.len(),
{
    if ss.len() == 0 {
        Seq::empty()
    } else {
        flat(ss.drop_last()) + ss.last()
    }
}

pub proof fn lemma_nonws_add(a: Seq<char>, b: Seq<char>)
    ensures
        nonws(a + b) == nonws(a) + nonws(b),
    decreases b.len(),
{
    if b.len() == 0 {
        assert(a + b =~= a);
        assert(nonws(a) + nonws(b) =~= nonws(a));
    } else {
        lemma_nonws_add(a, b.drop_last());
        assert((a + b).drop_last() =~= a + b.drop_last());
        assert((a + b).last() == b.last());
        if !is_ws(b.last()) {
            assert(nonws(a) + nonws(b.drop_last()).push(b.last()) =~= (nonws(a) + nonws(
                b.drop_last(),
            )).push(b.last()));
        }
    }
}

pub proof fn lemma_flat_add(a: Seq<Seq<char>>, b: Seq<Seq<char>>)
    ensures
        flat(a + b) == flat(a) + flat(b),
    decreases b.len(),
{
    if b.len() == 0 {
        assert(a + b =~= a);
        assert(flat(a) + flat(b) =~= flat(a));
    } else {
        lemma_flat_add(a, b.drop_last());
        assert((a + b).drop_last() =~= a + b.drop_last());
        assert((a + b).last() == b.last());
        assert(flat(a) + (flat(b.drop_last()) + b.last()) =~= (flat(a) + flat(b.drop_last()))
            + b.last());
    }
}

pub proof fn lemma_nonws_blank(s: Seq<char>)
    requires
        is_blank(s),
    ensures
        nonws(s) == Seq::<char>::empty(),
    decreases s.len(),
{
    if s.len() > 0 {
        assert(is_ws(s[s.len() - 1]));
        assert(is_blank(s.drop_last())) by {
            assert forall|i: int| 0 <= i < s.drop_last().len() implies is_ws(
                #[trigger] s.drop_last()[i],
            ) by {
                assert(s.drop_last()[i] == s[i]);
            }
        }
        lemma_nonws_blank(s.drop_last());
    }
}

proof fn lemma_nonws_trim_start(s: Seq<char>)
    ensures
        nonws(trim_start(s)) == nonws(s),
    decreases s.len(),
{
    if s.len() > 0 && is_ws(s[0]) {
        lemma_nonws_trim_start(s.drop_first());
        assert(s =~= seq![s[0]] + s.drop_first());
        lemma_nonws_add(seq![s[0]], s.drop_first());
        assert(seq![s[0]].drop_last() =~= Seq::<char>::empty());
        assert(seq![s[0]].last() == s[0]);
        assert(nonws(Seq::<char>::empty()) == Seq::<char>::empty());
        assert(nonws(seq![s[0]]) == Seq::<char>::empty());
        assert(Seq::<char>::empty() + nonws(s.drop_first()) =~= nonws(s.drop_first()));
    }
}

proof fn lemma_nonws_trim_end(s: Seq<char>)
    ensures
        nonws(trim_end(s)) == nonws(s),
    decreases s.len(),
{
    if s.len() > 0 && is_ws(s.last()) {
        lemma_nonws_trim_end(s.drop_last());
    }
}

pub proof fn lemma_nonws_trim(s: Seq<char>)
    ensures
        nonws(trim(s)) == nonws(s),
{
    lemma_nonws_trim_start(s);
    lemma_nonws_trim_end(trim_start(s));
}

pub proof fn lemma_nonws_strip_cr(s: Seq<char>)
    ensures
        nonws(strip_cr(s)) == nonws(s),
{
}

/// Joining with a whitespace separator keeps exactly the pieces' content.
pub proof fn lemma_nonws_join(ls: Seq<Seq<char>>, c: char)
    requires
        is_ws(c),
    ensures
        nonws(join_with(ls, c)) == nonws(flat(ls)),
    decreases ls.len(),
{
    if ls.len() == 1 {
        assert(ls.drop_last() =~= Seq::<Seq<char>>::empty());
        assert(flat(ls.drop_last()) == Seq::<char>::empty());
        assert(Seq::<char>::empty() + ls[0] =~= ls[0]);
    } else if ls.len() > 1 {
        lemma_nonws_join(ls.drop_last(), c);
        let j = join_with(ls.drop_last(), c);
        lemma_nonws_add(j.push(c), ls.last());
        lemma_nonws_add(flat(ls.drop_last()), ls.last());
        assert(j.push(c).drop_last() =~= j);
        assert(j.push(c).last() == c);
        assert(nonws(j.push(c)) == nonws(j));
        assert(join_with(ls, c) == j.push(c) + ls.last());
    }
}

proof fn lemma_flat_update_last(g: Seq<Seq<char>>, x: char)
    requires
        g.len() >= 1,
    ensures
        flat(g.update(g.len() - 1, g.last().push(x))) == flat(g).push(x),
{
    let u = g.update(g.len() - 1, g.last().push(x));
    assert(u.drop_last() =~= g.drop_last());
    assert(flat(g.drop_last()) + g.last().push(x) =~= (flat(g.drop_last()) + g.last()).push(x));
}

/// Splitting at a character and joining again gives the text back.
pub proof fn lemma_join_split(s: Seq<char>, c: char)
    ensures
        join_with(split_char(s, c), c) == s,
        split_char(s, c).len() >= 1,
    decreases s.len(),
{
    if s.len() > 0 {
        lemma_join_split(s.drop_last(), c);
        let p = split_char(s.drop_last(), c);
        if s.last() == c {
            let q = p.push(Seq::empty());
            assert(q.drop_last() =~= p);
            assert(join_with(p, c).push(c) + Seq::<char>::empty() =~= s);
        } else {
            let q = p.update(p.len() - 1, p.last().push(s.last()));
            if p.len() == 1 {
                assert(q[0] =~= s);
            } else {
                assert(q.drop_last() =~= p.drop_last());
                assert(join_with(p.drop_last(), c).push(c) + p.last().push(s.last()) =~= (
                join_with(p.drop_last(), c).push(c) + p.last()).push(s.last()));
            }
        }
    } else {
        assert(join_with(split_char(s, c), c) =~= s);
    }
}

proof fn lemma_flat_single(x: Seq<char>)
    ensures
        flat(seq![x]) == x,
{
    assert(seq![x].drop_last() =~= Seq::<Seq<char>>::empty());
    assert(seq![x].last() == x);
    assert(flat(Seq::<Seq<char>>::empty()) == Seq::<char>::empty());
    assert(Seq::<char>::empty() + x =~= x);
}

proof fn lemma_nonws_crlf(s: Seq<char>, i: int)
    requires
        0 <= i <= s.len(),
    ensures
        nonws(crlf_from(s, i)) == nonws(s.subrange(i, s.len() as int)),
    decreases s.len() - i,
{
    if i < s.len() {
        let rest_len = s.len() as int;
        if s[i] == '\r' && i + 1 < s.len() && s[i + 1] == '\n' {
            lemma_nonws_crlf(s, i + 2);
            let a = seq!['\n'];
            let b = seq!['\r', '\n'];
            assert(is_blank(a));
            assert(is_blank(b));
            lemma_nonws_blank(a);
            lemma_nonws_blank(b);
            lemma_nonws_add(a, crlf_from(s, i + 2));
            assert(s.subrange(i, rest_len) =~= b + s.subrange(i + 2, rest_len));
            lemma_nonws_add(b, s.subrange(i + 2, rest_len));
            assert(Seq::<char>::empty() + nonws(s.subrange(i + 2, rest_len)) =~= nonws(
                s.subrange(i + 2, rest_len),
            ));
        } else {
            lemma_nonws_crlf(s, i + 1);
            let a = seq![s[i]];
            lemma_nonws_add(a, crlf_from(s, i + 1));
            assert(s.subrange(i, rest_len) =~= a + s.subrange(i + 1, rest_len));
            lemma_nonws_add(a, s.subrange(i + 1, rest_len));
        }
    } else {
        assert(s.subrange(i, s.len() as int) =~= Seq::<char>::empty());
    }
}

/// The lines held by `ps`, one after another (breaks hold nothing).
pub open spec fn piece_flat(ps: Seq<Option<Seq<char>>>) -> Seq<char>
    decreases ps.len(),
{
    if ps.len() == 0 {
        Seq::empty()
    } else {
        match ps.last() {
            Some(l) => piece_flat(ps.drop_last()) + l,
            None => piece_flat(ps.drop_last()),
        }
    }
}

proof fn lemma_piece_flat_push(ps: Seq<Option<Seq<char>>>, p: Option<Seq<char>>)
    ensures
        piece_flat(ps.push(p)) == match p {
            Some(l) => piece_flat(ps) + l,
            None => piece_flat(ps),
        },
{
    assert(ps.push(p).drop_last() =~= ps);
}

proof fn lemma_dash_scan_keeps(ls: Seq<Seq<char>>, i: int, out: Seq<Option<Seq<char>>>)
    requires
        0 <= i <= ls.len(),
        forall|j: int| 0 <= j < ls.len() ==> !is_dash_separator(#[trigger] trim(ls[j])),
    ensures
        nonws(piece_flat(dash_scan(ls, i, out))) == nonws(piece_flat(out)) + nonws(
            flat(ls.subrange(i, ls.len() as int)),
        ),
    decreases ls.len() - i,
{
    let n = ls.len() as int;
    if i < n {
        assert(!is_dash_separator(trim(ls[i])));
        lemma_dash_scan_keeps(ls, i + 1, out.push(Some(ls[i])));
        lemma_piece_flat_push(out, Some(ls[i]));
        lemma_nonws_add(piece_flat(out), ls[i]);
        assert(ls.subrange(i, n) =~= seq![ls[i]] + ls.subrange(i + 1, n));
        lemma_flat_add(seq![ls[i]], ls.subrange(i + 1, n));
        lemma_flat_single(ls[i]);
        lemma_nonws_add(ls[i], flat(ls.subrange(i + 1, n)));
        assert(nonws(piece_flat(out)) + nonws(ls[i]) + nonws(flat(ls.subrange(i + 1, n)))
            =~= nonws(piece_flat(out)) + (nonws(ls[i]) + nonws(flat(ls.subrange(i + 1, n)))));
    } else {
        assert(ls.subrange(i, n) =~= Seq::<Seq<char>>::empty());
        assert(nonws(piece_flat(out)) + nonws(Seq::<char>::empty()) =~= nonws(piece_flat(out)));
    }
}

pub open spec fn is_blank_line_piece(p: Option<Seq<char>>) -> bool {
    p matches Some(l) && trim(l).len() == 0
}

proof fn lemma_nonws_trim_empty(l: Seq<char>)
    requires
        trim(l).len() == 0,
    ensures
        nonws(l) == Seq::<char>::empty(),
{
    lemma_nonws_trim(l);
    assert(trim(l) =~= Seq::<char>::empty());
}

proof fn lemma_pop_blank(ps: Seq<Option<Seq<char>>>)
    requires
        ps.len() > 0,
        is_blank_line_piece(ps.last()),
    ensures
        nonws(piece_flat(crate::splitter::pop_piece(ps))) == nonws(piece_flat(ps)),
{
    let l = ps.last()->0;
    lemma_nonws_trim_empty(l);
    lemma_nonws_add(piece_flat(ps.drop_last()), l);
    assert(nonws(piece_flat(ps.drop_last())) + Seq::<char>::empty() =~= nonws(
        piece_flat(ps.drop_last()),
    ));
}

proof fn lemma_blank_fold_keeps(out: Seq<Option<Seq<char>>>, k: int)
    requires
        0 <= k <= out.len(),
    ensures
        nonws(piece_flat(blank_fold(out, k).0)) == nonws(piece_flat(out.take(k))),
        blank_fold(out, k).1 >= 0,
        1 <= blank_fold(out, k).1 <= 2 ==> blank_fold(out, k).0.len() >= blank_fold(out, k).1
            && is_blank_line_piece(blank_fold(out, k).0.last()),
        blank_fold(out, k).1 == 2 ==> is_blank_line_piece(
            blank_fold(out, k).0[blank_fold(out, k).0.len() - 2],
        ),
    decreases k,
{
    if k == 0 {
        assert(out.take(0) =~= Seq::<Option<Seq<char>>>::empty());
    } else {
        lemma_blank_fold_keeps(out, k - 1);
        let prev = blank_fold(out, k - 1);
        let fin = prev.0;
        let count = prev.1;
        assert(out.take(k) =~= out.take(k - 1).push(out[k - 1]));
        lemma_piece_flat_push(out.take(k - 1), out[k - 1]);
        match out[k - 1] {
            None => {
                lemma_piece_flat_push(fin, None);
            },
            Some(l) => {
                lemma_nonws_add(piece_flat(out.take(k - 1)), l);
                if trim(l).len() == 0 {
                    lemma_nonws_trim_empty(l);
                    assert(nonws(piece_flat(out.take(k - 1))) + Seq::<char>::empty() =~= nonws(
                        piece_flat(out.take(k - 1)),
                    ));
                    if count + 1 < 3 {
                        lemma_piece_flat_push(fin, Some(l));
                        lemma_nonws_add(piece_flat(fin), l);
                        assert(nonws(piece_flat(fin)) + Seq::<char>::empty() =~= nonws(
                            piece_flat(fin),
                        ));
                        let f2 = fin.push(Some(l));
                        if count == 1 {
                            assert(f2[f2.len() - 2] == fin.last());
                        }
                    } else if count + 1 == 3 {
                        lemma_pop_blank(fin);
                        let f1 = crate::splitter::pop_piece(fin);
                        assert(f1.last() == fin[fin.len() - 2]);
                        lemma_pop_blank(f1);
                        lemma_piece_flat_push(crate::splitter::pop_piece(f1), None);
                    }
                } else {
                    lemma_piece_flat_push(fin, Some(l));
                    lemma_nonws_add(piece_flat(fin), l);
                }
            },
        }
    }
}

/// The lines of the groups `gs`, one after another.
pub open spec fn group_flat(gs: Seq<Seq<Seq<char>>>) -> Seq<char>
    decreases gs.len(),
{
    if gs.len() == 0 {
        Seq::empty()
    } else {
        group_flat(gs.drop_last()) + flat(gs.last())
    }
}

proof fn lemma_groups_keep(fin: Seq<Option<Seq<char>>>, k: int)
    requires
        0 <= k <= fin.len(),
    ensures
        group_flat(groups_fold(fin, k)) == piece_flat(fin.take(k)),
        groups_fold(fin, k).len() >= 1,
    decreases k,
{
    if k == 0 {
        assert(fin.take(0) =~= Seq::<Option<Seq<char>>>::empty());
        let g = groups_fold(fin, 0);
        assert(g.drop_last() =~= Seq::<Seq<Seq<char>>>::empty());
        assert(g.last() == Seq::<Seq<char>>::empty());
        assert(flat(g.last()) == Seq::<char>::empty());
        assert(group_flat(g.drop_last()) == Seq::<char>::empty());
        assert(piece_flat(fin.take(0)) == Seq::<char>::empty());
        assert(Seq::<char>::empty() + Seq::<char>::empty() =~= Seq::<char>::empty());
    } else {
        lemma_groups_keep(fin, k - 1);
        let g = groups_fold(fin, k - 1);
        assert(fin.take(k) =~= fin.take(k - 1).push(fin[k - 1]));
        lemma_piece_flat_push(fin.take(k - 1), fin[k - 1]);
        match fin[k - 1] {
            None => {
                let g2 = g.push(Seq::empty());
                assert(g2.drop_last() =~= g);
                assert(flat(Seq::<Seq<char>>::empty()) == Seq::<char>::empty());
                assert(group_flat(g) + Seq::<char>::empty() =~= group_flat(g));
            },
            Some(l) => {
                let g2 = g.update(g.len() - 1, g.last().push(l));
                assert(g2.drop_last() =~= g.drop_last());
                let last = g.last();
                assert(last.push(l).drop_last() =~= last);
                assert(flat(last.push(l)) == flat(last) + l);
                assert(g2.last() == last.push(l));
                assert(groups_fold(fin, k) == g2);
                assert(group_flat(g.drop_last()) + (flat(last) + l) =~= (group_flat(g.drop_last())
                    + flat(last)) + l);
            },
        }
    }
}

proof fn lemma_chunks_keep(gs: Seq<Seq<Seq<char>>>)
    ensures
        nonws(flat(gs.map_values(|g: Seq<Seq<char>>| trim(join_with(g, '\n'))))) == nonws(
            group_flat(gs),
        ),
    decreases gs.len(),
{
    let m = gs.map_values(|g: Seq<Seq<char>>| trim(join_with(g, '\n')));
    if gs.len() > 0 {
        lemma_chunks_keep(gs.drop_last());
        assert(m.drop_last() =~= gs.drop_last().map_values(
            |g: Seq<Seq<char>>| trim(join_with(g, '\n')),
        ));
        lemma_nonws_add(flat(m.drop_last()), m.last());
        lemma_nonws_add(group_flat(gs.drop_last()), flat(gs.last()));
        lemma_nonws_trim(join_with(gs.last(), '\n'));
        lemma_nonws_join(gs.last(), '\n');
    } else {
        assert(m =~= Seq::<Seq<char>>::empty());
    }
}

proof fn lemma_flat_take(ls: Seq<Seq<char>>, k: int)
    requires
        0 < k <= ls.len(),
    ensures
        flat(ls.take(k)) == flat(ls.take(k - 1)) + ls[k - 1],
{
    assert(ls.take(k).drop_last() =~= ls.take(k - 1));
}

proof fn lemma_push_nonempty_nonws(slides: Seq<Seq<char>>, cur: Seq<char>)
    ensures
        nonws(flat(push_nonempty(slides, trim(cur)))) == nonws(flat(slides)) + nonws(cur),
{
    lemma_nonws_trim(cur);
    if trim(cur).len() > 0 {
        assert(slides.push(trim(cur)).drop_last() =~= slides);
        lemma_nonws_add(flat(slides), trim(cur));
    } else {
        assert(trim(cur) =~= Seq::<char>::empty());
        assert(nonws(flat(slides)) + Seq::<char>::empty() =~= nonws(flat(slides)));
    }
}

proof fn lemma_current_step(cur0: Seq<char>, line: Seq<char>)
    ensures
        nonws(
            (if cur0.len() > 0 {
                cur0.push('\n')
            } else {
                cur0
            }) + line,
        ) == nonws(cur0) + nonws(line),
{
    let c = if cur0.len() > 0 {
        cur0.push('\n')
    } else {
        cur0
    };
    lemma_nonws_add(c, line);
    if cur0.len() > 0 {
        assert(cur0.push('\n').drop_last() =~= cur0);
        assert(cur0.push('\n').last() == '\n');
    }
}

proof fn lemma_head_fold_keeps(ls: Seq<Seq<char>>, k: int, s0: Seq<Seq<char>>)
    requires
        0 <= k <= ls.len(),
    ensures
        nonws(flat(head_fold(ls, k, s0).slides)) + nonws(head_fold(ls, k, s0).current) == nonws(
            flat(s0),
        ) + nonws(flat(ls.take(k))),
    decreases k,
{
    if k == 0 {
        assert(ls.take(0) =~= Seq::<Seq<char>>::empty());
        assert(nonws(flat(s0)) + Seq::<char>::empty() =~= nonws(flat(s0)));
    } else {
        lemma_head_fold_keeps(ls, k - 1, s0);
        let st = head_fold(ls, k - 1, s0);
        let line = ls[k - 1];
        let st2 = head_line(line, st);
        assert(st2 == head_fold(ls, k, s0));
        lemma_flat_take(ls, k);
        lemma_nonws_add(flat(ls.take(k - 1)), line);
        let x = nonws(flat(st.slides));
        let y = nonws(st.current);
        let l = nonws(line);
        let t = trim(line);
        let in_fence = if st.in_fence {
            !is_fence_close(t, st.fence_char, st.fence_len)
        } else if starts_with(t, lit_tick()) || starts_with(t, lit_tilde()) {
            true
        } else {
            false
        };
        let split = !in_fence && starts_with(line, lit_h1()) && st.has_content;
        if split {
            lemma_push_nonempty_nonws(st.slides, st.current);
            lemma_current_step(Seq::empty(), line);
            assert(nonws(Seq::<char>::empty()) + l =~= l);
            assert((x + y) + l =~= (x + y) + l);
        } else {
            lemma_current_step(st.current, line);
        }
        assert(x + (y + l) =~= (x + y) + l);
        assert(nonws(flat(s0)) + (nonws(flat(ls.take(k - 1))) + l) =~= (nonws(flat(s0)) + nonws(
            flat(ls.take(k - 1)),
        )) + l);
    }
}

proof fn lemma_strip_cr_flat(ps: Seq<Seq<char>>)
    ensures
        nonws(flat(ps.map_values(|l: Seq<char>| strip_cr(l)))) == nonws(flat(ps)),
    decreases ps.len(),
{
    let m = ps.map_values(|l: Seq<char>| strip_cr(l));
    if ps.len() > 0 {
        lemma_strip_cr_flat(ps.drop_last());
        assert(m.drop_last() =~= ps.drop_last().map_values(|l: Seq<char>| strip_cr(l)));
        lemma_nonws_add(flat(m.drop_last()), m.last());
        lemma_nonws_add(flat(ps.drop_last()), ps.last());
        let s = ps.last();
        if s.len() > 0 && s.last() == '\r' {
            assert(nonws(s) == nonws(s.drop_last()));
        }
    } else {
        assert(m =~= Seq::<Seq<char>>::empty());
    }
}

proof fn lemma_lines_keep(c: Seq<char>)
    ensures
        nonws(flat(lines_of(c))) == nonws(c),
{
    if c.len() > 0 {
        let body = if c.last() == '\n' {
            c.drop_last()
        } else {
            c
        };
        lemma_strip_cr_flat(split_char(body, '\n'));
        lemma_nonws_join(split_char(body, '\n'), '\n');
        lemma_join_split(body, '\n');
    } else {
        assert(lines_of(c) =~= Seq::<Seq<char>>::empty());
    }
}

proof fn lemma_split_by_heading_keeps(chunk: Seq<char>, s0: Seq<Seq<char>>)
    ensures
        nonws(flat(split_by_heading(chunk, s0))) == nonws(flat(s0)) + nonws(chunk),
{
    let ls = lines_of(chunk);
    lemma_head_fold_keeps(ls, ls.len() as int, s0);
    let st = head_fold(ls, ls.len() as int, s0);
    lemma_push_nonempty_nonws(st.slides, st.current);
    assert(ls.take(ls.len() as int) =~= ls);
    lemma_lines_keep(chunk);
}

proof fn lemma_slides_fold_keeps(chunks: Seq<Seq<char>>, k: int)
    requires
        0 <= k <= chunks.len(),
    ensures
        nonws(flat(slides_fold(chunks, k))) == nonws(flat(chunks.take(k))),
    decreases k,
{
    if k == 0 {
        assert(chunks.take(0) =~= Seq::<Seq<char>>::empty());
    } else {
        lemma_slides_fold_keeps(chunks, k - 1);
        lemma_flat_take(chunks, k);
        lemma_nonws_add(flat(chunks.take(k - 1)), chunks[k - 1]);
        if chunks[k - 1].len() == 0 {
            assert(chunks[k - 1] =~= Seq::<char>::empty());
            assert(nonws(flat(chunks.take(k - 1))) + nonws(Seq::<char>::empty()) =~= nonws(
                flat(chunks.take(k - 1)),
            ));
        } else {
            lemma_split_by_heading_keeps(chunks[k - 1], slides_fold(chunks, k - 1));
        }
    }
}

proof fn lemma_nonws_nonempty(s: Seq<char>)
    requires
        s.len() > 0,
        trim(s) == s,
    ensures
        nonws(s).len() >= 1,
{
    crate::text::lemma_trim_props(s);
    assert(!is_ws(s.last()));
    assert(nonws(s) == nonws(s.drop_last()).push(s.last()));
}

proof fn lemma_count_le_content(ss: Seq<Seq<char>>)
    requires
        all_trimmed(ss),
    ensures
        ss.len() <= nonws(flat(ss)).len(),
    decreases ss.len(),
{
    if ss.len() > 0 {
        assert(all_trimmed(ss.drop_last())) by {
            assert forall|k: int| 0 <= k < ss.drop_last().len() implies #[trigger] ss.drop_last()[k].len()
                > 0 && trim(ss.drop_last()[k]) == ss.drop_last()[k] by {
                assert(ss.drop_last()[k] == ss[k]);
            }
        }
        lemma_count_le_content(ss.drop_last());
        assert(ss[ss.len() - 1].len() > 0 && trim(ss[ss.len() - 1]) == ss[ss.len() - 1]);
        lemma_nonws_nonempty(ss.last());
        lemma_nonws_add(flat(ss.drop_last()), ss.last());
    }
}

/// Splitting makes no more slides than the body has non-whitespace
/// characters, when no line is a `---` separator.
pub proof fn lemma_split_count_bounded(body: Seq<char>)
    requires
        forall|j: int|
            0 <= j < split_char(crlf_from(body, 0), '\n').len() ==> !is_dash_separator(
                #[trigger] trim(split_char(crlf_from(body, 0), '\n')[j]),
            ),
    ensures
        split_spec(body).len() <= nonws(body).len(),
{
    lemma_split_keeps_content(body);
    let chunks = chunks_of(body);
    lemma_slides_fold_trimmed(chunks, chunks.len() as int);
    lemma_count_le_content(split_spec(body));
}

proof fn lemma_push_trimmed(ss: Seq<Seq<char>>, s: Seq<char>)
    requires
        all_trimmed(ss),
    ensures
        all_trimmed(push_nonempty(ss, trim(s))),
{
    crate::text::lemma_trim_props(s);
    if trim(s).len() > 0 {
        let r = ss.push(trim(s));
        assert forall|k: int| 0 <= k < r.len() implies #[trigger] r[k].len() > 0 && trim(r[k])
            == r[k] by {
            if k < ss.len() {
                assert(r[k] == ss[k]);
            }
        }
    }
}

proof fn lemma_head_fold_trimmed(ls: Seq<Seq<char>>, k: int, s0: Seq<Seq<char>>)
    requires
        0 <= k <= ls.len(),
        all_trimmed(s0),
    ensures
        all_trimmed(head_fold(ls, k, s0).slides),
    decreases k,
{
    if k > 0 {
        lemma_head_fold_trimmed(ls, k - 1, s0);
        let st = head_fold(ls, k - 1, s0);
        lemma_push_trimmed(st.slides, st.current);
    }
}

proof fn lemma_slides_fold_trimmed(chunks: Seq<Seq<char>>, k: int)
    requires
        0 <= k <= chunks.len(),
    ensures
        all_trimmed(slides_fold(chunks, k)),
    decreases k,
{
    if k > 0 {
        lemma_slides_fold_trimmed(chunks, k - 1);
        let prev = slides_fold(chunks, k - 1);
        if chunks[k - 1].len() > 0 {
            let ls = lines_of(chunks[k - 1]);
            lemma_head_fold_trimmed(ls, ls.len() as int, prev);
            let st = head_fold(ls, ls.len() as int, prev);
            lemma_push_trimmed(st.slides, st.current);
        }
    }
}

/// Splitting keeps all content: when no line of the body (with `\r\n` read as
/// `\n`) is a `---` separator, the slides hold exactly the body's
/// non-whitespace characters, in order.
pub proof fn lemma_split_keeps_content(body: Seq<char>)
    requires
        forall|j: int|
            0 <= j < split_char(crlf_from(body, 0), '\n').len() ==> !is_dash_separator(
                #[trigger] trim(split_char(crlf_from(body, 0), '\n')[j]),
            ),
    ensures
        nonws(flat(split_spec(body))) == nonws(body),
{
    let ls = split_char(crlf_from(body, 0), '\n');
    let out = dash_scan(ls, 0, Seq::empty());
    let fin = blank_fold(out, out.len() as int).0;
    let gs = groups_fold(fin, fin.len() as int);
    let chunks = chunks_of(body);
    lemma_slides_fold_keeps(chunks, chunks.len() as int);
    assert(chunks.take(chunks.len() as int) =~= chunks);
    lemma_chunks_keep(gs);
    lemma_groups_keep(fin, fin.len() as int);
    assert(fin.take(fin.len() as int) =~= fin);
    lemma_blank_fold_keeps(out, out.len() as int);
    assert(out.take(out.len() as int) =~= out);
    lemma_dash_scan_keeps(ls, 0, Seq::empty());
    assert(ls.subrange(0, ls.len() as int) =~= ls);
    assert(nonws(piece_flat(Seq::<Option<Seq<char>>>::empty())) == Seq::<char>::empty());
    assert(Seq::<char>::empty() + nonws(flat(ls)) =~= nonws(flat(ls)));
    lemma_nonws_join(ls, '\n');
    lemma_join_split(crlf_from(body, 0), '\n');
    lemma_nonws_crlf(body, 0);
    assert(body.subrange(0, body.len() as int) =~= body);
}

} // verus!
