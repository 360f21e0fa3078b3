//! Character-level text utilities shared by every stage of the pipeline.
//!
//! Text is handled as `Vec<char>` inside the parsers; `Seq<char>` is its model.
use vstd::prelude::*;

verus! {

/// `String::push` appends one character.
pub assume_specification[ String::push ](s: &mut String, ch: char)
    ensures
        final(s)@ == old(s)@.push(ch),
;

/// Unicode `White_Space`, as `char::is_whitespace` documents it.
pub open spec fn is_ws(c: char) -> bool {
    c == ' ' || ('\t' <= c && c <= '\r') || c == '\u{85}' || c == '\u{a0}' || c == '\u{1680}'
        || ('\u{2000}' <= c && c <= '\u{200a}') || c == '\u{2028}' || c == '\u{2029}'
        || c == '\u{202f}' || c == '\u{205f}' || c == '\u{3000}'
}

pub fn is_whitespace(c: char) -> (r: bool)
    ensures
        r == is_ws(c),
{
    c == ' ' || ('\t' <= c && c <= '\r') || c == '\u{85}' || c == '\u{a0}' || c == '\u{1680}'
        || ('\u{2000}' <= c && c <= '\u{200a}') || c == '\u{2028}' || c == '\u{2029}'
        || c == '\u{202f}' || c == '\u{205f}' || c == '\u{3000}'
}

pub open spec fn is_blank(s: Seq<char>) -> bool {
    forall|i: int| 0 <= i < s.len() ==> is_ws(#[trigger] s[i])
}

/// `s` without its leading whitespace.
pub open spec fn trim_start(s: Seq<char>) -> Seq<char>
    decreases s.len(),
{
    if s.len() > 0 && is_ws(s[0]) {
        trim_start(s.drop_first())
    } else {
        s
    }
}

/// `s` without its trailing whitespace.
pub open spec fn trim_end(s: Seq<char>) -> Seq<char>
    decreases s.len(),
{
    if s.len() > 0 && is_ws(s.last()) {
        trim_end(s.drop_last())
    } else {
        s
    }
}

/// `s` without leading and trailing whitespace.
pub open spec fn trim(s: Seq<char>) -> Seq<char> {
    trim_end(trim_start(s))
}

pub open spec fn starts_with(s: Seq<char>, p: Seq<char>) -> bool {
    p.len() <= s.len() && s.subrange(0, p.len() as int) == p
}

pub open spec fn ends_with(s: Seq<char>, p: Seq<char>) -> bool {
    p.len() <= s.len() && s.subrange(s.len() - p.len(), s.len() as int) == p
}

/// Pieces of `s` between occurrences of `c` (always at least one piece).
pub open spec fn split_char(s: Seq<char>, c: char) -> Seq<Seq<char>>
    decreases s.len(),
{
    if s.len() == 0 {
        seq![Seq::empty()]
    } else {
        let p = split_char(s.drop_last(), c);
        if s.last() == c {
            p.push(Seq::empty())
        } else {
            p.update(p.len() - 1, p.last().push(s.last()))
        }
    }
}

pub open spec fn strip_cr(s: Seq<char>) -> Seq<char> {
    if s.len() > 0 && s.last() == '\r' {
        s.drop_last()
    } else {
        s
    }
}

/// The lines of `s`, as `str::lines` yields them: split at `\n`, no final
/// empty line after a trailing `\n`, and one trailing `\r` removed from each.
pub open spec fn lines_of(s: Seq<char>) -> Seq<Seq<char>> {
    if s.len() == 0 {
        Seq::empty()
    } else {
        let body = if s.last() == '\n' {
            s.drop_last()
        } else {
            s
        };
        split_char(body, '\n').map_values(|l: Seq<char>| strip_cr(l))
    }
}

/// The pieces of `ls` joined with `c` between neighbours.
pub open spec fn join_with(ls: Seq<Seq<char>>, c: char) -> Seq<char>
    decreases ls.len(),
{
    if ls.len() == 0 {
        Seq::empty()
    } else if ls.len() == 1 {
        ls[0]
    } else {
        join_with(ls.drop_last(), c).push(c) + ls.last()
    }
}

pub proof fn lemma_trim_start_suffix(s: Seq<char>)
    ensures
        exists|k: int| 0 <= k <= s.len() && trim_start(s) == s.subrange(k, s.len() as int),
        trim_start(s).len() > 0 ==> !is_ws(trim_start(s)[0]),
    decreases s.len(),
{
    if s.len() > 0 && is_ws(s[0]) {
        lemma_trim_start_suffix(s.drop_first());
        let k = choose|k: int|
            0 <= k <= s.drop_first().len() && trim_start(s.drop_first())
                == s.drop_first().subrange(k, s.drop_first().len() as int);
        assert(s.drop_first().subrange(k, s.drop_first().len() as int) =~= s.subrange(
            k + 1,
            s.len() as int,
        ));
    } else {
        assert(s.subrange(0, s.len() as int) =~= s);
    }
}

pub proof fn lemma_trim_end_prefix(s: Seq<char>)
    ensures
        exists|k: int| 0 <= k <= s.len() && trim_end(s) == s.subrange(0, k),
        trim_end(s).len() > 0 ==> !is_ws(trim_end(s).last()),
    decreases s.len(),
{
    if s.len() > 0 && is_ws(s.last()) {
        lemma_trim_end_prefix(s.drop_last());
        let k = choose|k: int|
            0 <= k <= s.drop_last().len() && trim_end(s.drop_last()) == s.drop_last().subrange(
                0,
                k,
            );
        assert(s.drop_last().subrange(0, k) =~= s.subrange(0, k));
    } else {
        assert(s.subrange(0, s.len() as int) =~= s);
    }
}

pub proof fn lemma_trim_end_of_nonblank_start(s: Seq<char>)
    requires
        s.len() > 0,
        !is_ws(s[0]),
    ensures
        trim_end(s).len() > 0,
        trim_end(s)[0] == s[0],
    decreases s.len(),
{
    if s.len() > 1 && is_ws(s.last()) {
        lemma_trim_end_of_nonblank_start(s.drop_last());
    }
}

/// A trimmed text has no whitespace at either end, and is empty exactly when
/// the text is blank.
pub proof fn lemma_trim_props(s: Seq<char>)
    ensures
        trim(s).len() > 0 ==> !is_ws(trim(s)[0]) && !is_ws(trim(s).last()),
        trim(s).len() == 0 <==> is_blank(s),
        trim(trim(s)) == trim(s),
    decreases s.len(),
{
    lemma_trim_start_suffix(s);
    lemma_trim_end_prefix(trim_start(s));
    let t = trim_start(s);
    if t.len() > 0 {
        lemma_trim_end_of_nonblank_start(t);
    }
    lemma_blank_iff_trim_start_empty(s);
    if t.len() > 0 {
        assert(!is_blank(s)) by {
            let k = choose|k: int| 0 <= k <= s.len() && t == s.subrange(k, s.len() as int);
            assert(s[k] == t[0]);
        }
    }
    let r = trim(s);
    if r.len() > 0 {
        assert(trim_start(r) == r);
        assert(trim_end(r) == r);
    } else {
        assert(trim_start(r) == r);
        assert(trim_end(r) == r);
    }
}

proof fn lemma_blank_iff_trim_start_empty(s: Seq<char>)
    ensures
        trim_start(s).len() == 0 <==> is_blank(s),
    decreases s.len(),
{
    if s.len() > 0 && is_ws(s[0]) {
        lemma_blank_iff_trim_start_empty(s.drop_first());
        if is_blank(s.drop_first()) {
            assert forall|i: int| 0 <= i < s.len() implies is_ws(#[trigger] s[i]) by {
                if i > 0 {
                    assert(s[i] == s.drop_first()[i - 1]);
                }
            }
        }
        if is_blank(s) {
            assert forall|i: int| 0 <= i < s.drop_first().len() implies is_ws(
                #[trigger] s.drop_first()[i],
            ) by {
                assert(s.drop_first()[i] == s[i + 1]);
            }
        }
    } else if s.len() > 0 {
        assert(!is_ws(s[0]));
    }
}

/// The characters of `s`.
pub fn chars_of(s: &str) -> (r: Vec<char>)
    ensures
        r@ == s@,
{
    let mut r: Vec<char> = Vec::new();
    for c in it: s.chars()
        invariant
            it.seq() == s@,
            r@ == it.seq().subrange(0, it.index() as int),
    {
        r.push(c);
    }
    assert(r@ =~= s@);
    r
}

/// A `String` holding the characters `v`.
pub fn string_of(v: &Vec<char>) -> (r: String)
    ensures
        r@ == v@,
{
    let mut r = String::new();
    let mut i: usize = 0;
    while i < v.len()
        invariant
            i <= v.len(),
            r@ == v@.subrange(0, i as int),
        decreases v.len() - i,
    {
        r.push(v[i]);
        i = i + 1;
        assert(r@ =~= v@.subrange(0, i as int));
    }
    assert(v@.subrange(0, v.len() as int) =~= v@);
    r
}

/// The characters `v[a..b]`.
pub fn slice(v: &Vec<char>, a: usize, b: usize) -> (r: Vec<char>)
    requires
        a <= b <= v.len(),
    ensures
        r@ == v@.subrange(a as int, b as int),
{
    let mut r: Vec<char> = Vec::new();
    let mut i: usize = a;
    while i < b
        invariant
            a <= i <= b <= v.len(),
            r@ == v@.subrange(a as int, i as int),
        decreases b - i,
    {
        r.push(v[i]);
        i = i + 1;
        assert(r@ =~= v@.subrange(a as int, i as int));
    }
    r
}

/// Number of leading whitespace characters.
pub fn leading_ws(v: &Vec<char>) -> (r: usize)
    ensures
        r <= v.len(),
        trim_start(v@) == v@.subrange(r as int, v.len() as int),
{
    let mut i: usize = 0;
    assert(v@.subrange(0, v.len() as int) =~= v@);
    while i < v.len() && is_whitespace(v[i])
        invariant
            i <= v.len(),
            trim_start(v@) == trim_start(v@.subrange(i as int, v.len() as int)),
        decreases v.len() - i,
    {
        let ghost t = v@.subrange(i as int, v.len() as int);
        assert(t.drop_first() =~= v@.subrange(i + 1, v.len() as int));
        i = i + 1;
    }
    let ghost t = v@.subrange(i as int, v.len() as int);
    assert(i == v.len() ==> t =~= Seq::<char>::empty());
    i
}

/// End of the text once trailing whitespace is dropped from `v[a..]`.
fn trailing_end(v: &Vec<char>, a: usize) -> (r: usize)
    requires
        a <= v.len(),
    ensures
        a <= r <= v.len(),
        trim_end(v@.subrange(a as int, v.len() as int)) == v@.subrange(a as int, r as int),
{
    let mut j: usize = v.len();
    while j > a && is_whitespace(v[j - 1])
        invariant
            a <= j <= v.len(),
            trim_end(v@.subrange(a as int, v.len() as int)) == trim_end(
                v@.subrange(a as int, j as int),
            ),
        decreases j,
    {
        let ghost t = v@.subrange(a as int, j as int);
        assert(t.drop_last() =~= v@.subrange(a as int, j - 1));
        j = j - 1;
    }
    j
}

pub fn trim_chars(v: &Vec<char>) -> (r: Vec<char>)
    ensures
        r@ == trim(v@),
{
    let a = leading_ws(v);
    let b = trailing_end(v, a);
    slice(v, a, b)
}

pub fn trim_start_chars(v: &Vec<char>) -> (r: Vec<char>)
    ensures
        r@ == trim_start(v@),
{
    let a = leading_ws(v);
    slice(v, a, v.len())
}

pub fn is_blank_chars(v: &Vec<char>) -> (r: bool)
    ensures
        r == (trim(v@).len() == 0),
        r == is_blank(v@),
{
    proof {
        lemma_trim_props(v@);
    }
    let a = leading_ws(v);
    proof {
        lemma_blank_iff_trim_start_empty(v@);
        lemma_trim_start_suffix(v@);
        if a < v.len() {
            assert(trim_start(v@)[0] == v@[a as int]);
            lemma_trim_end_of_nonblank_start(trim_start(v@));
        }
    }
    a == v.len()
}

pub fn has_prefix(v: &Vec<char>, p: &Vec<char>) -> (r: bool)
    ensures
        r == starts_with(v@, p@),
{
    if p.len() > v.len() {
        return false;
    }
    let mut i: usize = 0;
    while i < p.len()
        invariant
            p.len() <= v.len(),
            i <= p.len(),
            forall|k: int| 0 <= k < i ==> v@[k] == p@[k],
        decreases p.len() - i,
    {
        if v[i] != p[i] {
            assert(v@.subrange(0, p.len() as int)[i as int] != p@[i as int]);
            return false;
        }
        i = i + 1;
    }
    assert(v@.subrange(0, p.len() as int) =~= p@);
    true
}

pub fn has_suffix(v: &Vec<char>, p: &Vec<char>) -> (r: bool)
    ensures
        r == ends_with(v@, p@),
{
    if p.len() > v.len() {
        return false;
    }
    let off = v.len() - p.len();
    let mut i: usize = 0;
    while i < p.len()
        invariant
            p.len() <= v.len(),
            off == v.len() - p.len(),
            i <= p.len(),
            forall|k: int| 0 <= k < i ==> v@[off + k] == p@[k],
        decreases p.len() - i,
    {
        if v[off + i] != p[i] {
            assert(v@.subrange(off as int, v.len() as int)[i as int] != p@[i as int]);
            return false;
        }
        i = i + 1;
    }
    assert(v@.subrange(off as int, v.len() as int) =~= p@);
    true
}

pub fn eq_chars(a: &Vec<char>, b: &Vec<char>) -> (r: bool)
    ensures
        r == (a@ == b@),
{
    if a.len() != b.len() {
        return false;
    }
    let r = has_prefix(a, b);
    assert(a@.subrange(0, b.len() as int) =~= a@);
    r
}

/// The pieces of `v` between occurrences of `c`.
pub fn split_at_char(v: &Vec<char>, c: char) -> (r: Vec<Vec<char>>)
    ensures
        r@.map_values(|l: Vec<char>| l@) == split_char(v@, c),
{
    let mut done: Vec<Vec<char>> = Vec::new();
    let mut cur: Vec<char> = Vec::new();
    let mut i: usize = 0;
    while i < v.len()
        invariant
            i <= v.len(),
            done@.map_values(|l: Vec<char>| l@).push(cur@) == split_char(
                v@.subrange(0, i as int),
                c,
            ),
        decreases v.len() - i,
    {
        let ghost pre = v@.subrange(0, i as int);
        let ghost next = v@.subrange(0, i + 1);
        assert(next.drop_last() =~= pre);
        if v[i] == c {
            let old_cur = cur;
            cur = Vec::new();
            proof {
                assert(done@.push(old_cur).map_values(|l: Vec<char>| l@) =~= done@.map_values(
                    |l: Vec<char>| l@,
                ).push(old_cur@));
            }
            done.push(old_cur);
        } else {
            let ghost prev = cur@;
            cur.push(v[i]);
            proof {
                let m = done@.map_values(|l: Vec<char>| l@);
                assert(m.push(cur@) =~= m.push(prev).update(m.len() as int, prev.push(v@[i as int])));
            }
        }
        i = i + 1;
    }
    assert(v@.subrange(0, v.len() as int) =~= v@);
    done.push(cur);
    assert(done@.map_values(|l: Vec<char>| l@) =~= split_char(v@, c));
    done
}

} // verus!

verus! {

/// The lines of `v`, as `str::lines` yields them.
pub fn lines(v: &Vec<char>) -> (r: Vec<Vec<char>>)
    ensures
        r@.map_values(|l: Vec<char>| l@) == lines_of(v@),
{
    if v.len() == 0 {
        let r: Vec<Vec<char>> = Vec::new();
        assert(r@.map_values(|l: Vec<char>| l@) =~= lines_of(v@));
        return r;
    }
    let body = if v[v.len() - 1] == '\n' {
        slice(v, 0, v.len() - 1)
    } else {
        slice(v, 0, v.len())
    };
    assert(v@.subrange(0, v.len() as int) =~= v@);
    assert(v@.subrange(0, v.len() - 1) =~= v@.drop_last());
    let pieces = split_at_char(&body, '\n');
    let ghost sp = split_char(body@, '\n');
    let mut r: Vec<Vec<char>> = Vec::new();
    let mut i: usize = 0;
    while i < pieces.len()
        invariant
            i <= pieces.len(),
            pieces@.map_values(|l: Vec<char>| l@) == sp,
            r@.map_values(|l: Vec<char>| l@) == sp.subrange(0, i as int).map_values(
                |l: Seq<char>| strip_cr(l),
            ),
        decreases pieces.len() - i,
    {
        let p = &pieces[i];
        assert(p@ == sp[i as int]);
        let q = if p.len() > 0 && p[p.len() - 1] == '\r' {
            slice(p, 0, p.len() - 1)
        } else {
            slice(p, 0, p.len())
        };
        assert(p@.subrange(0, p.len() as int) =~= p@);
        assert(p@.subrange(0, p.len() - 1) =~= p@.drop_last());
        let ghost before = r@;
        r.push(q);
        assert(r@.map_values(|l: Vec<char>| l@) =~= sp.subrange(0, i + 1).map_values(
            |l: Seq<char>| strip_cr(l),
        )) by {
            assert(before.map_values(|l: Vec<char>| l@).push(q@) =~= r@.map_values(
                |l: Vec<char>| l@,
            ));
        }
        i = i + 1;
    }
    assert(sp.subrange(0, sp.len() as int) =~= sp);
    r
}

/// The pieces `ls[start..]` joined with `c`.
pub fn join_from(ls: &Vec<Vec<char>>, start: usize, c: char) -> (r: Vec<char>)
    requires
        start <= ls.len(),
    ensures
        r@ == join_with(ls@.map_values(|l: Vec<char>| l@).subrange(start as int, ls.len() as int), c),
{
    let ghost m = ls@.map_values(|l: Vec<char>| l@);
    let mut r: Vec<char> = Vec::new();
    let mut i: usize = start;
    assert(m.subrange(start as int, start as int) =~= Seq::<Seq<char>>::empty());
    while i < ls.len()
        invariant
            start <= i <= ls.len(),
            m == ls@.map_values(|l: Vec<char>| l@),
            r@ == join_with(m.subrange(start as int, i as int), c),
        decreases ls.len() - i,
    {
        let ghost pre = m.subrange(start as int, i as int);
        let ghost next = m.subrange(start as int, i + 1);
        assert(next.drop_last() =~= pre);
        if i > start {
            r.push(c);
        }
        let l = &ls[i];
        let mut k: usize = 0;
        let ghost base = r@;
        while k < l.len()
            invariant
                k <= l.len(),
                r@ == base + l@.subrange(0, k as int),
            decreases l.len() - k,
        {
            r.push(l[k]);
            k = k + 1;
            assert(r@ =~= base + l@.subrange(0, k as int));
        }
        assert(l@.subrange(0, l.len() as int) =~= l@);
        if i == start {
            assert(r@ =~= join_with(next, c));
        }
        i = i + 1;
    }
    r
}

} // verus!
