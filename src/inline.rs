//! Inline formatting: code spans, bold, italic, strikethrough and links.
use vstd::prelude::*;

use crate::model::{lemma_view_inlines_push, view_inline, view_inlines, Inline, InlineV};
use crate::text::{chars_of, slice, string_of};

verus! {

pub open spec fn peek(s: Seq<char>, i: int) -> Option<char> {
    if 0 <= i < s.len() {
        Some(s[i])
    } else {
        None
    }
}

/// Index of the first `c` at or after `i`.
pub open spec fn find_from(s: Seq<char>, c: char, i: int) -> Option<int>
    decreases s.len() - i,
{
    if i < 0 || i >= s.len() {
        None
    } else if s[i] == c {
        Some(i)
    } else {
        find_from(s, c, i + 1)
    }
}

/// `c` repeated `n` times (`n` is 1 or 2 for the delimiters).
pub open spec fn delim(c: char, n: nat) -> Seq<char> {
    Seq::new(n, |_i: int| c)
}

pub open spec fn matches_at(s: Seq<char>, i: int, p: Seq<char>) -> bool {
    0 <= i && i + p.len() <= s.len() && s.subrange(i, i + p.len()) == p
}

/// Where the closing delimiter `p` of a span whose content starts at `cs`
/// stands, scanning from `i`: content must be non-empty, and a delimiter
/// inside an open single-backtick run does not count.
pub open spec fn close_scan(s: Seq<char>, p: Seq<char>, cs: int, i: int, in_code: bool) -> Option<
    int,
>
    decreases s.len() - i,
{
    if i < 0 || i >= s.len() {
        None
    } else if !in_code && matches_at(s, i, p) && i > cs {
        Some(i)
    } else {
        close_scan(s, p, cs, i + 1, if s[i] == '`' { !in_code } else { in_code })
    }
}

/// Index of the bracket that closes one already open at depth `depth`.
pub open spec fn match_close(s: Seq<char>, open: char, close: char, i: int, depth: nat) -> Option<
    int,
>
    decreases s.len() - i,
{
    if i < 0 || i >= s.len() {
        None
    } else if s[i] == open {
        match_close(s, open, close, i + 1, depth + 1)
    } else if s[i] == close {
        if depth <= 1 {
            Some(i)
        } else {
            match_close(s, open, close, i + 1, (depth - 1) as nat)
        }
    } else {
        match_close(s, open, close, i + 1, depth)
    }
}

/// `[text](url)` at `i`: the index of `]` and of `)`.
pub open spec fn link_at(s: Seq<char>, i: int) -> Option<(int, int)> {
    match match_close(s, '[', ']', i + 1, 1) {
        Some(te) => if peek(s, te + 1) == Some('(') {
            match match_close(s, '(', ')', te + 2, 1) {
                Some(ue) => Some((te, ue)),
                None => None,
            }
        } else {
            None
        },
        None => None,
    }
}

pub open spec fn flush(cur: Seq<char>, acc: Seq<InlineV>) -> Seq<InlineV> {
    if cur.len() > 0 {
        acc.push(InlineV::Text(cur))
    } else {
        acc
    }
}

/// The kind of span a delimiter opens.
pub open spec fn wrap(kind: char, inner: Seq<InlineV>) -> InlineV {
    if kind == '~' {
        InlineV::Strikethrough(inner)
    } else if kind == 'b' {
        InlineV::Bold(inner)
    } else {
        InlineV::Italic(inner)
    }
}

/// Whether the character at `i` ends the running text before a construct is tried.
pub open spec fn breaks_text(s: Seq<char>, i: int) -> bool {
    s[i] == '`' || s[i] == '*' || (s[i] == '~' && peek(s, i + 1) == Some('~')) || s[i] == '['
}

/// The delimited span (kind, delimiter width) that may open at `i`.
pub open spec fn span_kind(s: Seq<char>, i: int) -> Option<(char, nat)> {
    if s[i] == '*' && peek(s, i + 1) == Some('*') {
        Some(('b', 2))
    } else if s[i] == '~' && peek(s, i + 1) == Some('~') {
        Some(('~', 2))
    } else if s[i] == '*' {
        Some(('i', 1))
    } else {
        None
    }
}

pub open spec fn span_width(s: Seq<char>, i: int) -> nat {
    match span_kind(s, i) {
        Some((_k, n)) => n,
        None => 0,
    }
}

pub open spec fn span_delim(s: Seq<char>, i: int) -> Seq<char> {
    match span_kind(s, i) {
        Some((_k, n)) => delim(s[i], n),
        None => Seq::empty(),
    }
}

/// The inline tree of `s`.
pub open spec fn parse_inlines(s: Seq<char>) -> Seq<InlineV>
    decreases s.len(), s.len() + 1,
{
    inline_scan(s, 0, Seq::empty(), Seq::empty())
}

/// One left-to-right pass over `s` from `i`, with the pending text `cur` and
/// the spans `acc` found so far.
pub open spec fn inline_scan(s: Seq<char>, i: int, cur: Seq<char>, acc: Seq<InlineV>) -> Seq<
    InlineV,
>
    decreases s.len(), s.len() - i,
{
    if i < 0 || i >= s.len() {
        flush(cur, acc)
    } else if s[i] == '`' && find_from(s, '`', i + 1) is Some {
        let j = find_from(s, '`', i + 1)->0;
        if i < j < s.len() {
            inline_scan(s, j + 1, Seq::empty(), flush(cur, acc).push(InlineV::Code(s.subrange(i + 1, j))))
        } else {
            flush(cur, acc)
        }
    } else if span_kind(s, i) is Some && close_scan(
        s,
        span_delim(s, i),
        i + span_width(s, i),
        i + span_width(s, i),
        false,
    ) is Some {
        let (k, n) = span_kind(s, i)->0;
        let j = close_scan(s, span_delim(s, i), i + n, i + n, false)->0;
        if i + n <= j && j + n <= s.len() {
            inline_scan(
                s,
                j + n,
                Seq::empty(),
                flush(cur, acc).push(wrap(k, parse_inlines(s.subrange(i + n, j)))),
            )
        } else {
            flush(cur, acc)
        }
    } else if s[i] == '[' && link_at(s, i) is Some {
        let (te, ue) = link_at(s, i)->0;
        if i < te && te + 2 <= ue < s.len() {
            inline_scan(
                s,
                ue + 1,
                Seq::empty(),
                flush(cur, acc).push(
                    InlineV::Link {
                        text: parse_inlines(s.subrange(i + 1, te)),
                        url: s.subrange(te + 2, ue),
                    },
                ),
            )
        } else {
            flush(cur, acc)
        }
    } else if breaks_text(s, i) {
        inline_scan(s, i + 1, seq![s[i]], flush(cur, acc))
    } else {
        inline_scan(s, i + 1, cur.push(s[i]), acc)
    }
}

proof fn lemma_find_from_range(s: Seq<char>, c: char, i: int)
    ensures
        find_from(s, c, i) matches Some(j) ==> i <= j < s.len() && s[j] == c,
    decreases s.len() - i,
{
    if 0 <= i < s.len() && s[i] != c {
        lemma_find_from_range(s, c, i + 1);
    }
}

proof fn lemma_close_scan_range(s: Seq<char>, p: Seq<char>, cs: int, i: int, in_code: bool)
    ensures
        close_scan(s, p, cs, i, in_code) matches Some(j) ==> i <= j && cs < j && j + p.len()
            <= s.len(),
    decreases s.len() - i,
{
    if 0 <= i < s.len() && !(!in_code && matches_at(s, i, p) && i > cs) {
        lemma_close_scan_range(s, p, cs, i + 1, if s[i] == '`' { !in_code } else { in_code });
    }
}

proof fn lemma_match_close_range(s: Seq<char>, open: char, close: char, i: int, depth: nat)
    ensures
        match_close(s, open, close, i, depth) matches Some(j) ==> i <= j < s.len() && s[j]
            == close,
    decreases s.len() - i,
{
    if 0 <= i < s.len() {
        if s[i] == open {
            lemma_match_close_range(s, open, close, i + 1, depth + 1);
        } else if s[i] == close {
            if depth > 1 {
                lemma_match_close_range(s, open, close, i + 1, (depth - 1) as nat);
            }
        } else {
            lemma_match_close_range(s, open, close, i + 1, depth);
        }
    }
}

fn find_char(s: &Vec<char>, c: char, start: usize) -> (r: Option<usize>)
    requires
        start <= s.len(),
    ensures
        match r {
            Some(j) => find_from(s@, c, start as int) == Some(j as int),
            None => find_from(s@, c, start as int) is None,
        },
{
    let mut i = start;
    while i < s.len()
        invariant
            start <= i <= s.len(),
            find_from(s@, c, start as int) == find_from(s@, c, i as int),
        decreases s.len() - i,
    {
        if s[i] == c {
            return Some(i);
        }
        i = i + 1;
    }
    None
}

fn delim_at(s: &Vec<char>, i: usize, c: char, n: usize) -> (r: bool)
    requires
        n == 1 || n == 2,
    ensures
        r == matches_at(s@, i as int, delim(c, n as nat)),
{
    if i > s.len() || n > s.len() - i {
        return false;
    }
    let mut k: usize = 0;
    while k < n
        invariant
            k <= n,
            i + n <= s.len(),
            forall|m: int| 0 <= m < k ==> #[trigger] s@[i + m] == c,
        decreases n - k,
    {
        if s[i + k] != c {
            assert(s@.subrange(i as int, i + n)[k as int] != delim(c, n as nat)[k as int]);
            return false;
        }
        k = k + 1;
    }
    assert forall|m: int| 0 <= m < n implies #[trigger] s@.subrange(i as int, i + n)[m] == delim(
        c,
        n as nat,
    )[m] by {
        assert(s@[i + m] == c);
    }
    assert(s@.subrange(i as int, i + n) =~= delim(c, n as nat));
    true
}

/// Where a span opened at `start` by `n` copies of `c` closes.
fn close_of(s: &Vec<char>, c: char, n: usize, start: usize) -> (r: Option<usize>)
    requires
        n == 1 || n == 2,
        start + n <= s.len(),
    ensures
        match r {
            Some(j) => close_scan(s@, delim(c, n as nat), start + n, start + n, false) == Some(
                j as int,
            ),
            None => close_scan(s@, delim(c, n as nat), start + n, start + n, false) is None,
        },
{
    let cs = start + n;
    let mut i = cs;
    let mut in_code = false;
    while i < s.len()
        invariant
            n == 1 || n == 2,
            cs == start + n,
            cs <= i <= s.len(),
            close_scan(s@, delim(c, n as nat), cs as int, cs as int, false) == close_scan(
                s@,
                delim(c, n as nat),
                cs as int,
                i as int,
                in_code,
            ),
        decreases s.len() - i,
    {
        if !in_code && i > cs && delim_at(s, i, c, n) {
            assert(close_scan(s@, delim(c, n as nat), cs as int, i as int, in_code) == Some(i as int));
            return Some(i);
        }
        if s[i] == '`' {
            in_code = !in_code;
        }
        i = i + 1;
    }
    None
}

fn match_bracket(s: &Vec<char>, open: char, close: char, start: usize) -> (r: Option<usize>)
    requires
        1 <= start <= s.len(),
    ensures
        match r {
            Some(j) => match_close(s@, open, close, start as int, 1) == Some(j as int),
            None => match_close(s@, open, close, start as int, 1) is None,
        },
{
    let mut i = start;
    let mut depth: usize = 1;
    while i < s.len()
        invariant
            1 <= start <= i <= s.len(),
            1 <= depth <= i - start + 1,
            match_close(s@, open, close, start as int, 1) == match_close(
                s@,
                open,
                close,
                i as int,
                depth as nat,
            ),
        decreases s.len() - i,
    {
        if s[i] == open {
            depth = depth + 1;
        } else if s[i] == close {
            if depth <= 1 {
                return Some(i);
            }
            depth = depth - 1;
        }
        i = i + 1;
    }
    None
}

fn link_of(s: &Vec<char>, i: usize) -> (r: Option<(usize, usize)>)
    requires
        i < s.len(),
    ensures
        match r {
            Some((te, ue)) => link_at(s@, i as int) == Some((te as int, ue as int)),
            None => link_at(s@, i as int) is None,
        },
{
    match match_bracket(s, '[', ']', i + 1) {
        Some(te) => {
            proof {
                lemma_match_close_range(s@, '[', ']', i + 1, 1);
            }
            if te + 1 < s.len() && s[te + 1] == '(' {
                match match_bracket(s, '(', ')', te + 2) {
                    Some(ue) => Some((te, ue)),
                    None => None,
                }
            } else {
                None
            }
        },
        None => None,
    }
}

fn flush_text(cur: &mut Vec<char>, result: &mut Vec<Inline>)
    ensures
        final(cur)@.len() == 0,
        view_inlines(final(result)@) == flush(old(cur)@, view_inlines(old(result)@)),
{
    if cur.len() > 0 {
        let t = string_of(cur);
        let x = Inline::Text(t);
        proof {
            lemma_view_inlines_push(result@, x);
        }
        result.push(x);
        *cur = Vec::new();
    }
}

fn push_inline(result: &mut Vec<Inline>, x: Inline)
    ensures
        view_inlines(final(result)@) == view_inlines(old(result)@).push(view_inline(x)),
{
    proof {
        lemma_view_inlines_push(result@, x);
    }
    result.push(x);
}

/// Parse inline formatting from the characters `s`.
pub fn parse_chars(s: &Vec<char>) -> (r: Vec<Inline>)
    ensures
        view_inlines(r@) == parse_inlines(s@),
    decreases s@.len(),
{
    let mut result: Vec<Inline> = Vec::new();
    let mut cur: Vec<char> = Vec::new();
    let mut i: usize = 0;
    assert(view_inlines(result@) =~= Seq::<InlineV>::empty());
    while i < s.len()
        invariant
            i <= s.len(),
            inline_scan(s@, i as int, cur@, view_inlines(result@)) == parse_inlines(s@),
        decreases s.len() - i,
    {
        let c = s[i];
        let next: Option<char> = if i + 1 < s.len() {
            Some(s[i + 1])
        } else {
            None
        };
        assert(next == peek(s@, i + 1));
        let ghost cur0 = cur@;
        let ghost acc0 = view_inlines(result@);
        if c == '`' {
            match find_char(s, '`', i + 1) {
                Some(j) => {
                    proof {
                        lemma_find_from_range(s@, '`', i + 1);
                    }
                    flush_text(&mut cur, &mut result);
                    let code = slice(s, i + 1, j);
                    let x = Inline::Code(string_of(&code));
                    assert(view_inline(x) == InlineV::Code(s@.subrange(i + 1, j as int)));
                    push_inline(&mut result, x);
                    assert(inline_scan(s@, i as int, cur0, acc0) == inline_scan(
                        s@,
                        j + 1,
                        Seq::empty(),
                        flush(cur0, acc0).push(InlineV::Code(s@.subrange(i + 1, j as int))),
                    ));
                    i = j + 1;
                    assert(cur@ =~= Seq::<char>::empty());
                    continue ;
                },
                None => {},
            }
        }
        let (kind, n): (char, usize) = if c == '*' && next == Some('*') {
            ('b', 2)
        } else if c == '~' && next == Some('~') {
            ('~', 2)
        } else if c == '*' {
            ('i', 1)
        } else {
            (' ', 0)
        };
        if n > 0 {
            assert(span_kind(s@, i as int) == Some((kind, n as nat)));
            assert(span_delim(s@, i as int) == delim(c, n as nat));
            match close_of(s, c, n, i) {
                Some(j) => {
                    proof {
                        lemma_close_scan_range(
                            s@,
                            delim(c, n as nat),
                            i + n,
                            i + n,
                            false,
                        );
                    }
                    flush_text(&mut cur, &mut result);
                    let content = slice(s, i + n, j);
                    let inner = parse_chars(&content);
                    let x = if kind == '~' {
                        Inline::Strikethrough(inner)
                    } else if kind == 'b' {
                        Inline::Bold(inner)
                    } else {
                        Inline::Italic(inner)
                    };
                    push_inline(&mut result, x);
                    i = j + n;
                    assert(cur@ =~= Seq::<char>::empty());
                    continue ;
                },
                None => {},
            }
        } else {
            assert(span_kind(s@, i as int) is None);
        }
        if c == '[' {
            match link_of(s, i) {
                Some((te, ue)) => {
                    proof {
                        lemma_match_close_range(s@, '[', ']', i + 1, 1);
                        lemma_match_close_range(s@, '(', ')', te + 2, 1);
                    }
                    flush_text(&mut cur, &mut result);
                    let text = slice(s, i + 1, te);
                    let url = slice(s, te + 2, ue);
                    let inner = parse_chars(&text);
                    push_inline(&mut result, Inline::Link { text: inner, url: string_of(&url) });
                    i = ue + 1;
                    assert(cur@ =~= Seq::<char>::empty());
                    continue ;
                },
                None => {},
            }
        }
        assert(span_kind(s@, i as int) is Some ==> close_scan(
            s@,
            span_delim(s@, i as int),
            i + span_width(s@, i as int),
            i + span_width(s@, i as int),
            false,
        ) is None);
        if c == '`' || c == '*' || (c == '~' && next == Some('~')) || c == '[' {
            flush_text(&mut cur, &mut result);
            cur.push(c);
            assert(cur@ =~= seq![c]);
        } else {
            cur.push(c);
        }
        assert(inline_scan(s@, i as int, cur0, acc0) == inline_scan(
            s@,
            i + 1,
            cur@,
            view_inlines(result@),
        ));
        i = i + 1;
    }
    flush_text(&mut cur, &mut result);
    result
}

/// Parse inline formatting from a text span.
pub fn parse(text: &str) -> (r: Vec<Inline>)
    ensures
        view_inlines(r@) == parse_inlines(text@),
{
    let s = chars_of(text);
    parse_chars(&s)
}

/// A character that neither opens nor closes any span.
pub open spec fn is_plain(c: char) -> bool {
    c != '`' && c != '*' && c != '~' && c != '['
}

proof fn lemma_no_star_no_close(s: Seq<char>, n: nat, cs: int, i: int, in_code: bool)
    requires
        n >= 1,
        0 <= i,
        forall|j: int| i <= j < s.len() ==> #[trigger] s[j] != '*',
    ensures
        close_scan(s, delim('*', n), cs, i, in_code) is None,
    decreases s.len() - i,
{
    if i < s.len() {
        if matches_at(s, i, delim('*', n)) {
            assert(s.subrange(i, i + n)[0] == s[i]);
        }
        lemma_no_star_no_close(s, n, cs, i + 1, if s[i] == '`' { !in_code } else { in_code });
    }
}

proof fn lemma_plain_tail(s: Seq<char>, i: int, cur: Seq<char>, acc: Seq<InlineV>)
    requires
        0 <= i <= s.len(),
        forall|j: int| i <= j < s.len() ==> is_plain(#[trigger] s[j]),
    ensures
        inline_scan(s, i, cur, acc) == flush(cur + s.subrange(i, s.len() as int), acc),
    decreases s.len() - i,
{
    if i < s.len() {
        assert(is_plain(s[i]));
        lemma_plain_tail(s, i + 1, cur.push(s[i]), acc);
        assert(cur.push(s[i]) + s.subrange(i + 1, s.len() as int) =~= cur + s.subrange(
            i,
            s.len() as int,
        ));
    } else {
        assert(cur + s.subrange(i, s.len() as int) =~= cur);
    }
}

/// An unclosed `**` stays literal text: `**` followed by text without
/// span characters gives only text spans, holding `*` and `*` + the text.
pub proof fn lemma_unclosed_bold_is_text(w: Seq<char>)
    requires
        forall|k: int| 0 <= k < w.len() ==> is_plain(#[trigger] w[k]),
    ensures
        parse_inlines(seq!['*', '*'] + w) == seq![
            InlineV::Text(seq!['*']),
            InlineV::Text(seq!['*'] + w),
        ],
{
    let s = seq!['*', '*'] + w;
    assert(s[0] == '*' && s[1] == '*');
    assert forall|j: int| 2 <= j < s.len() implies is_plain(#[trigger] s[j]) by {
        assert(s[j] == w[j - 2]);
    }
    assert forall|j: int| 2 <= j < s.len() implies #[trigger] s[j] != '*' by {
        assert(is_plain(s[j]));
    }
    lemma_no_star_no_close(s, 2, 2, 2, false);
    lemma_no_star_no_close(s, 1, 2, 2, false);
    assert(span_kind(s, 0) == Some(('b', 2nat)));
    assert(span_delim(s, 0) == delim('*', 2));
    assert(span_width(s, 0) == 2);
    assert(inline_scan(s, 0, Seq::empty(), Seq::empty()) == inline_scan(
        s,
        1,
        seq!['*'],
        Seq::empty(),
    ));
    assert(peek(s, 2) != Some('*')) by {
        if s.len() > 2 {
            assert(is_plain(s[2]));
        }
    }
    assert(span_kind(s, 1) == Some(('i', 1nat)));
    assert(span_delim(s, 1) == delim('*', 1));
    assert(span_width(s, 1) == 1);
    assert(flush(seq!['*'], Seq::empty()) == seq![InlineV::Text(seq!['*'])]);
    assert(inline_scan(s, 1, seq!['*'], Seq::empty()) == inline_scan(
        s,
        2,
        seq!['*'],
        seq![InlineV::Text(seq!['*'])],
    ));
    lemma_plain_tail(s, 2, seq!['*'], seq![InlineV::Text(seq!['*'])]);
    assert(seq!['*'] + s.subrange(2, s.len() as int) =~= seq!['*'] + w);
    assert(flush(seq!['*'] + w, seq![InlineV::Text(seq!['*'])]) =~= seq![
        InlineV::Text(seq!['*']),
        InlineV::Text(seq!['*'] + w),
    ]);
}

} // verus!
