//! The diagram language of `@diagram` fences: nodes and labelled edges.
//!
//! Each non-blank line, after an optional list bullet and trailing
//! `(key: value, ...)` metadata are removed, is an edge `From -> To: label`,
//! a node definition `Name: label`, or a bare node name.
use vstd::prelude::*;

use crate::lines::{
    find_pair, find_seq, find_seq_from, index_of_pair, last_index_before, lines_view, rfind,
};
use crate::text::{chars_of, eq_chars, lines, lines_of, slice, string_of, trim, trim_chars, trim_end};

verus! {

#[derive(Debug)]
pub struct DiagramNode {
    pub name: String,
    pub label: String,
}

#[derive(Debug)]
pub struct DiagramEdge {
    pub from: String,
    pub to: String,
    pub label: String,
}

/// A node as (name, label).
pub type NodeV = (Seq<char>, Seq<char>);

/// An edge as (from, to, label).
pub type EdgeV = (Seq<char>, Seq<char>, Seq<char>);

pub open spec fn lit_arrow() -> Seq<char> {
    seq![' ', '-', '>', ' ']
}

/// `t` without a leading `- `, `+ ` or `* `.
pub open spec fn strip_bullet(t: Seq<char>) -> Seq<char> {
    if t.len() >= 2 && (t[0] == '-' || t[0] == '+' || t[0] == '*') && t[1] == ' ' {
        t.subrange(2, t.len() as int)
    } else {
        t
    }
}

/// `s` without a trailing `(...)` group that follows a space.
pub open spec fn strip_trailing_parens(s: Seq<char>) -> Seq<char> {
    let t = trim_end(s);
    if t.len() > 0 && t.last() == ')' {
        match last_index_before(t, '(', t.len() as int) {
            Some(p) => if p > 0 && t[p - 1] == ' ' {
                trim_end(t.subrange(0, p))
            } else {
                t
            },
            None => t,
        }
    } else {
        t
    }
}

/// Index of the node called `name` at or after `i`.
pub open spec fn node_index(nodes: Seq<NodeV>, name: Seq<char>, i: int) -> Option<int>
    decreases nodes.len() - i,
{
    if i < 0 || i >= nodes.len() {
        None
    } else if nodes[i].0 == name {
        Some(i)
    } else {
        node_index(nodes, name, i + 1)
    }
}

/// `nodes` with `name` added (labelled with itself) unless already there.
pub open spec fn register(nodes: Seq<NodeV>, name: Seq<char>) -> Seq<NodeV> {
    if node_index(nodes, name, 0) is Some {
        nodes
    } else {
        nodes.push((name, name))
    }
}

/// `nodes` with the node `name` labelled `label`, added at the end if new.
pub open spec fn define(nodes: Seq<NodeV>, name: Seq<char>, label: Seq<char>) -> Seq<NodeV> {
    match node_index(nodes, name, 0) {
        Some(i) => nodes.update(i, (name, label)),
        None => nodes.push((name, label)),
    }
}

/// The nodes and edges after one more line.
#[verifier::opaque]
pub open spec fn diagram_line(line: Seq<char>, nodes: Seq<NodeV>, edges: Seq<EdgeV>) -> (
    Seq<NodeV>,
    Seq<EdgeV>,
) {
    let b = strip_bullet(trim(line));
    if b.len() == 0 {
        (nodes, edges)
    } else {
        let t = strip_trailing_parens(b);
        match edge_of(t) {
            Some(e) => (register(register(nodes, e.0), e.1), edges.push(e)),
            None => match definition_of(t) {
                Some(d) => (define(nodes, d.0, d.1), edges),
                None => {
                    let name = trim(t);
                    if name.len() > 0 {
                        (register(nodes, name), edges)
                    } else {
                        (nodes, edges)
                    }
                },
            },
        }
    }
}

/// The edge `from -> to: label` written by `t`, if it holds ` -> `; the
/// label is empty when `: ` does not follow.
pub open spec fn edge_of(t: Seq<char>) -> Option<EdgeV> {
    match find_seq_from(t, lit_arrow(), 0) {
        Some(a) => {
            let from = trim(t.subrange(0, a));
            let rest = t.subrange(a + 4, t.len() as int);
            match index_of_pair(rest, ':', ' ') {
                Some(c) => Some(
                    (from, trim(rest.subrange(0, c)), trim(rest.subrange(c + 2, rest.len() as int))),
                ),
                None => Some((from, trim(rest), Seq::empty())),
            }
        },
        None => None,
    }
}

/// The definition `name: label` written by `t`, if it holds `: `.
pub open spec fn definition_of(t: Seq<char>) -> Option<NodeV> {
    match index_of_pair(t, ':', ' ') {
        Some(c) => Some((trim(t.subrange(0, c)), trim(t.subrange(c + 2, t.len() as int)))),
        None => None,
    }
}

fn edge_parts(t: &Vec<char>, arrow: &Vec<char>) -> (r: Option<(Vec<char>, Vec<char>, Vec<char>)>)
    requires
        arrow@ == lit_arrow(),
    ensures
        match r {
            Some((a, b, c)) => edge_of(t@) == Some((a@, b@, c@)),
            None => edge_of(t@) is None,
        },
{
    match find_seq(t, arrow) {
        Some(a) => {
            let from = trim_chars(&slice(t, 0, a));
            let rest = slice(t, a + 4, t.len());
            match find_pair(&rest, ':', ' ') {
                Some(c) => Some(
                    (from, trim_chars(&slice(&rest, 0, c)), trim_chars(&slice(&rest, c + 2, rest.len()))),
                ),
                None => {
                    let empty: Vec<char> = Vec::new();
                    assert(empty@ =~= Seq::<char>::empty());
                    Some((from, trim_chars(&rest), empty))
                },
            }
        },
        None => None,
    }
}

fn definition_parts(t: &Vec<char>) -> (r: Option<(Vec<char>, Vec<char>)>)
    ensures
        match r {
            Some((a, b)) => definition_of(t@) == Some((a@, b@)),
            None => definition_of(t@) is None,
        },
{
    match find_pair(t, ':', ' ') {
        Some(c) => Some((trim_chars(&slice(t, 0, c)), trim_chars(&slice(t, c + 2, t.len())))),
        None => None,
    }
}

/// The nodes and edges of the first `k` lines.
pub open spec fn diagram_fold(ls: Seq<Seq<char>>, k: int) -> (Seq<NodeV>, Seq<EdgeV>)
    decreases k,
{
    if k <= 0 || k > ls.len() {
        (Seq::empty(), Seq::empty())
    } else {
        let prev = diagram_fold(ls, k - 1);
        diagram_line(ls[k - 1], prev.0, prev.1)
    }
}

/// The nodes (in order of first reference) and edges (in line order) of a diagram.
pub open spec fn diagram_spec(content: Seq<char>) -> (Seq<NodeV>, Seq<EdgeV>) {
    let ls = lines_of(content);
    diagram_fold(ls, ls.len() as int)
}

/// No two nodes share a name.
#[verifier::opaque]
pub open spec fn names_unique(nodes: Seq<NodeV>) -> bool {
    forall|i: int, j: int| 0 <= i < j < nodes.len() ==> #[trigger] nodes[i].0 != #[trigger] nodes[j].0
}

pub open spec fn node_view(n: DiagramNode) -> NodeV {
    (n.name@, n.label@)
}

pub open spec fn edge_view(e: DiagramEdge) -> EdgeV {
    (e.from@, e.to@, e.label@)
}

pub open spec fn pairs_view(v: Seq<(Vec<char>, Vec<char>)>) -> Seq<NodeV> {
    v.map_values(|p: (Vec<char>, Vec<char>)| (p.0@, p.1@))
}

proof fn lemma_node_index(nodes: Seq<NodeV>, name: Seq<char>, i: int)
    requires
        0 <= i,
    ensures
        match node_index(nodes, name, i) {
            Some(k) => i <= k < nodes.len() && nodes[k].0 == name,
            None => forall|k: int| i <= k < nodes.len() ==> nodes[k].0 != name,
        },
    decreases nodes.len() - i,
{
    if i < nodes.len() && nodes[i].0 != name {
        lemma_node_index(nodes, name, i + 1);
    }
}

proof fn lemma_register_unique(nodes: Seq<NodeV>, name: Seq<char>)
    requires
        names_unique(nodes),
    ensures
        names_unique(register(nodes, name)),
{
    reveal(names_unique);
    lemma_node_index(nodes, name, 0);
    let r = register(nodes, name);
    assert forall|i: int, j: int| 0 <= i < j < r.len() implies #[trigger] r[i].0 != #[trigger] r[j].0 by {
        if j == nodes.len() {
            assert(r[i] == nodes[i]);
        } else {
            assert(r[i] == nodes[i] && r[j] == nodes[j]);
        }
    }
}

proof fn lemma_define_unique(nodes: Seq<NodeV>, name: Seq<char>, label: Seq<char>)
    requires
        names_unique(nodes),
    ensures
        names_unique(define(nodes, name, label)),
{
    reveal(names_unique);
    lemma_node_index(nodes, name, 0);
    let r = define(nodes, name, label);
    assert forall|i: int, j: int| 0 <= i < j < r.len() implies #[trigger] r[i].0 != #[trigger] r[j].0 by {
        assert(r[i].0 == nodes[i].0 || i == nodes.len());
        if j < nodes.len() {
            assert(r[j].0 == nodes[j].0);
        }
    }
}

fn copy_chars(v: &Vec<char>) -> (r: Vec<char>)
    ensures
        r@ == v@,
{
    let r = slice(v, 0, v.len());
    assert(v@.subrange(0, v.len() as int) =~= v@);
    r
}

fn find_node(nodes: &Vec<(Vec<char>, Vec<char>)>, name: &Vec<char>) -> (r: Option<usize>)
    ensures
        match r {
            Some(k) => node_index(pairs_view(nodes@), name@, 0) == Some(k as int) && k
                < nodes.len(),
            None => node_index(pairs_view(nodes@), name@, 0) is None,
        },
{
    let ghost nv = pairs_view(nodes@);
    let mut i: usize = 0;
    while i < nodes.len()
        invariant
            i <= nodes.len(),
            nv == pairs_view(nodes@),
            node_index(nv, name@, 0) == node_index(nv, name@, i as int),
        decreases nodes.len() - i,
    {
        if eq_chars(&nodes[i].0, name) {
            return Some(i);
        }
        i = i + 1;
    }
    None
}

fn register_node(nodes: &mut Vec<(Vec<char>, Vec<char>)>, name: &Vec<char>)
    ensures
        pairs_view(final(nodes)@) == register(pairs_view(old(nodes)@), name@),
{
    match find_node(nodes, name) {
        Some(_) => {},
        None => {
            let ghost before = nodes@;
            nodes.push((copy_chars(name), copy_chars(name)));
            assert(pairs_view(nodes@) =~= pairs_view(before).push((name@, name@)));
        },
    }
}

fn define_node(nodes: &mut Vec<(Vec<char>, Vec<char>)>, name: Vec<char>, label: Vec<char>)
    ensures
        pairs_view(final(nodes)@) == define(pairs_view(old(nodes)@), name@, label@),
{
    let ghost before = nodes@;
    let ghost nm = name@;
    let ghost lb = label@;
    match find_node(nodes, &name) {
        Some(i) => {
            nodes.set(i, (name, label));
            assert(pairs_view(nodes@) =~= pairs_view(before).update(i as int, (nm, lb)));
        },
        None => {
            nodes.push((name, label));
            assert(pairs_view(nodes@) =~= pairs_view(before).push((nm, lb)));
        },
    }
}

fn strip_parens(s: &Vec<char>) -> (r: Vec<char>)
    ensures
        r@ == strip_trailing_parens(s@),
{
    let t = trim_end_chars(s);
    if t.len() > 0 && t[t.len() - 1] == ')' {
        match rfind(&t, '(') {
            Some(p) => {
                if p > 0 && t[p - 1] == ' ' {
                    return trim_end_chars(&slice(&t, 0, p));
                }
                t
            },
            None => t,
        }
    } else {
        t
    }
}

fn trim_end_chars(s: &Vec<char>) -> (r: Vec<char>)
    ensures
        r@ == trim_end(s@),
{
    let mut j = s.len();
    assert(s@.subrange(0, s.len() as int) =~= s@);
    while j > 0 && crate::text::is_whitespace(s[j - 1])
        invariant
            j <= s.len(),
            trim_end(s@) == trim_end(s@.subrange(0, j as int)),
        decreases j,
    {
        assert(s@.subrange(0, j as int).drop_last() =~= s@.subrange(0, j - 1));
        j = j - 1;
    }
    slice(s, 0, j)
}

fn diagram_step(
    line: &Vec<char>,
    arrow: &Vec<char>,
    nodes: &mut Vec<(Vec<char>, Vec<char>)>,
    edges: &mut Vec<DiagramEdge>,
)
    requires
        arrow@ == lit_arrow(),
        names_unique(pairs_view(old(nodes)@)),
    ensures
        diagram_line(
            line@,
            pairs_view(old(nodes)@),
            old(edges)@.map_values(|e: DiagramEdge| edge_view(e)),
        ) == (pairs_view(final(nodes)@), final(edges)@.map_values(|e: DiagramEdge| edge_view(e))),
        names_unique(pairs_view(final(nodes)@)),
{
    reveal(diagram_line);
    let t0 = trim_chars(line);
    let b = if t0.len() >= 2 && (t0[0] == '-' || t0[0] == '+' || t0[0] == '*') && t0[1] == ' ' {
        slice(&t0, 2, t0.len())
    } else {
        copy_chars(&t0)
    };
    if b.len() == 0 {
        return ;
    }
    let t = strip_parens(&b);
    match edge_parts(&t, arrow) {
        Some((from, to, label)) => {
            proof {
                lemma_register_unique(pairs_view(nodes@), from@);
                lemma_register_unique(register(pairs_view(nodes@), from@), to@);
            }
            register_node(nodes, &from);
            register_node(nodes, &to);
            let e = DiagramEdge { from: string_of(&from), to: string_of(&to), label: string_of(&label) };
            let ghost before = edges@;
            edges.push(e);
            assert(edges@.map_values(|e: DiagramEdge| edge_view(e)) =~= before.map_values(
                |e: DiagramEdge| edge_view(e),
            ).push((from@, to@, label@)));
        },
        None => {
            match definition_parts(&t) {
                Some((name, label)) => {
                    proof {
                        lemma_define_unique(pairs_view(nodes@), name@, label@);
                    }
                    define_node(nodes, name, label);
                },
                None => {
                    let name = trim_chars(&t);
                    if name.len() > 0 {
                        proof {
                            lemma_register_unique(pairs_view(nodes@), name@);
                        }
                        register_node(nodes, &name);
                    }
                },
            }
        },
    }
}


/// Parse the text of a diagram fence into its nodes (in order of first
/// reference) and edges (in line order). Node names are unique.
pub fn parse_diagram(content: &str) -> (r: (Vec<DiagramNode>, Vec<DiagramEdge>))
    ensures
        r.0@.map_values(|n: DiagramNode| node_view(n)) == diagram_spec(content@).0,
        r.1@.map_values(|e: DiagramEdge| edge_view(e)) == diagram_spec(content@).1,
        names_unique(diagram_spec(content@).0),
{
    let text = chars_of(content);
    let ls = lines(&text);
    let ghost lv = lines_view(ls@);
    let arrow: Vec<char> = vec![' ', '-', '>', ' '];
    let mut nodes: Vec<(Vec<char>, Vec<char>)> = Vec::new();
    let mut edges: Vec<DiagramEdge> = Vec::new();
    let mut k: usize = 0;
    assert(pairs_view(nodes@) =~= Seq::<NodeV>::empty());
    proof {
        reveal(names_unique);
    }
    assert(edges@.map_values(|e: DiagramEdge| edge_view(e)) =~= Seq::<EdgeV>::empty());
    while k < ls.len()
        invariant
            k <= ls.len(),
            lv == lines_view(ls@),
            lv == lines_of(content@),
            arrow@ == lit_arrow(),
            diagram_fold(lv, k as int) == (
                pairs_view(nodes@),
                edges@.map_values(|e: DiagramEdge| edge_view(e)),
            ),
            names_unique(pairs_view(nodes@)),
        decreases ls.len() - k,
    {
        assert(ls[k as int]@ == lv[k as int]);
        diagram_step(&ls[k], &arrow, &mut nodes, &mut edges);
        k = k + 1;
    }
    let mut out: Vec<DiagramNode> = Vec::new();
    let mut j: usize = 0;
    while j < nodes.len()
        invariant
            j <= nodes.len(),
            out@.map_values(|n: DiagramNode| node_view(n)) == pairs_view(nodes@).subrange(
                0,
                j as int,
            ),
        decreases nodes.len() - j,
    {
        let n = DiagramNode { name: string_of(&nodes[j].0), label: string_of(&nodes[j].1) };
        let ghost before = out@;
        out.push(n);
        assert(out@.map_values(|n: DiagramNode| node_view(n)) =~= before.map_values(
            |n: DiagramNode| node_view(n),
        ).push(node_view(n)));
        assert(out@.map_values(|n: DiagramNode| node_view(n)) =~= pairs_view(nodes@).subrange(
            0,
            j + 1,
        ));
        j = j + 1;
    }
    assert(pairs_view(nodes@).subrange(0, nodes.len() as int) =~= pairs_view(nodes@));
    (out, edges)
}

} // verus!
