//! Classifiers for single lines and small pieces of text.
use vstd::prelude::*;


verus! {

/// The model of a list of lines.
pub open spec fn lines_view(v: Seq<Vec<char>>) -> Seq<Seq<char>> {
    v.map_values(|l: Vec<char>| l@)
}

pub open spec fn is_digit(c: char) -> bool {
    '0' <= c && c <= '9'
}

pub open spec fn all_digits(s: Seq<char>) -> bool {
    forall|k: int| 0 <= k < s.len() ==> is_digit(#[trigger] s[k])
}

/// The number written by the decimal digits `s`.
pub open spec fn digits_val(s: Seq<char>) -> nat
    decreases s.len(),
{
    if s.len() == 0 {
        0
    } else {
        digits_val(s.drop_last()) * 10 + ((s.last() as nat) - ('0' as nat)) as nat
    }
}

/// `usize::from_str`: an optional `+`, then one or more decimal digits whose
/// value fits in `usize`.
pub open spec fn parse_usize_spec(s: Seq<char>) -> Option<usize> {
    let d = if s.len() > 0 && s[0] == '+' {
        s.drop_first()
    } else {
        s
    };
    if d.len() > 0 && all_digits(d) && digits_val(d) <= usize::MAX {
        Some(digits_val(d) as usize)
    } else {
        None
    }
}

proof fn lemma_digits_val_mono(s: Seq<char>, k: int)
    requires
        0 <= k <= s.len(),
        all_digits(s),
    ensures
        digits_val(s.take(k)) <= digits_val(s),
    decreases s.len() - k,
{
    if k < s.len() {
        lemma_digits_val_mono(s, k + 1);
        assert(s.take(k + 1).drop_last() =~= s.take(k));
    } else {
        assert(s.take(k) =~= s);
    }
}

pub fn parse_usize(s: &Vec<char>) -> (r: Option<usize>)
    ensures
        r == parse_usize_spec(s@),
{
    let start: usize = if s.len() > 0 && s[0] == '+' {
        1
    } else {
        0
    };
    let ghost d = if s@.len() > 0 && s@[0] == '+' {
        s@.drop_first()
    } else {
        s@
    };
    assert(d =~= s@.subrange(start as int, s.len() as int));
    if start >= s.len() {
        return None;
    }
    let mut k: usize = start;
    while k < s.len()
        invariant
            start <= k <= s.len(),
            d =~= s@.subrange(start as int, s.len() as int),
            d == (if s@.len() > 0 && s@[0] == '+' {
                s@.drop_first()
            } else {
                s@
            }),
            forall|m: int| start <= m < k ==> is_digit(#[trigger] s@[m]),
        decreases s.len() - k,
    {
        if !('0' <= s[k] && s[k] <= '9') {
            assert(!is_digit(d[k - start]));
            assert(!all_digits(d));
            return None;
        }
        k = k + 1;
    }
    assert(all_digits(d)) by {
        assert forall|m: int| 0 <= m < d.len() implies is_digit(#[trigger] d[m]) by {
            assert(d[m] == s@[m + start]);
        }
    }
    let mut val: usize = 0;
    let mut k: usize = start;
    while k < s.len()
        invariant
            start <= k <= s.len(),
            d =~= s@.subrange(start as int, s.len() as int),
            d == (if s@.len() > 0 && s@[0] == '+' {
                s@.drop_first()
            } else {
                s@
            }),
            all_digits(d),
            val == digits_val(d.take(k - start)),
        decreases s.len() - k,
    {
        assert(d.take(k - start + 1).drop_last() =~= d.take(k - start));
        assert(d[k - start] == s@[k as int]);
        assert(is_digit(d[k - start]));
        let digit = (s[k] as u32 - '0' as u32) as usize;
        if val > (usize::MAX - digit) / 10 {
            proof {
                lemma_digits_val_mono(d, k - start + 1);
                assert(digits_val(d.take(k - start + 1)) == val * 10 + digit);
                assert(val * 10 + digit > usize::MAX) by (nonlinear_arith)
                    requires
                        val > (usize::MAX - digit) / 10,
                        digit <= 9,
                ;
                assert(digits_val(d) > usize::MAX);
            }
            return None;
        }
        assert(val * 10 + digit <= usize::MAX) by (nonlinear_arith)
            requires
                val <= (usize::MAX - digit) / 10,
                digit <= 9,
        ;
        val = val * 10 + digit;
        k = k + 1;
    }
    assert(d.take(d.len() as int) =~= d);
    Some(val)
}

/// The numbers `a..=b`.
pub open spec fn range_incl(a: usize, b: usize) -> Seq<usize> {
    if a <= b {
        Seq::new((b - a + 1) as nat, |k: int| (a + k) as usize)
    } else {
        Seq::empty()
    }
}

/// Index of the first `c` in `s`.
pub open spec fn index_of(s: Seq<char>, c: char) -> Option<int> {
    if exists|k: int| 0 <= k < s.len() && s[k] == c {
        Some(choose|k: int| 0 <= k < s.len() && s[k] == c && forall|m: int| 0 <= m < k ==> s[m] != c)
    } else {
        None
    }
}

pub open spec fn is_first_index(s: Seq<char>, c: char, k: int) -> bool {
    0 <= k < s.len() && s[k] == c && forall|m: int| 0 <= m < k ==> s[m] != c
}

pub proof fn lemma_index_of(s: Seq<char>, c: char, k: int)
    requires
        is_first_index(s, c, k),
    ensures
        index_of(s, c) == Some(k),
{
    let j = choose|j: int| 0 <= j < s.len() && s[j] == c && forall|m: int| 0 <= m < j ==> s[m] != c;
    assert(j == k) by {
        if j < k {
            assert(s[j] != c);
        }
        if k < j {
            assert(s[k] != c);
        }
    }
}

/// Index of the first `c` in `s`.
pub fn find(s: &Vec<char>, c: char) -> (r: Option<usize>)
    ensures
        match r {
            Some(k) => k < s.len() && is_first_index(s@, c, k as int) && index_of(s@, c) == Some(
                k as int,
            ),
            None => index_of(s@, c) is None && forall|m: int| 0 <= m < s@.len() ==> s@[m] != c,
        },
{
    let mut i: usize = 0;
    while i < s.len()
        invariant
            i <= s.len(),
            forall|m: int| 0 <= m < i ==> s@[m] != c,
        decreases s.len() - i,
    {
        if s[i] == c {
            proof {
                lemma_index_of(s@, c, i as int);
            }
            return Some(i);
        }
        i = i + 1;
    }
    None
}

pub open spec fn pair_at(s: Seq<char>, k: int, a: char, b: char) -> bool {
    0 <= k && k + 1 < s.len() && s[k] == a && s[k + 1] == b
}

/// Index of the first occurrence of the two characters `a b`.
pub open spec fn index_of_pair(s: Seq<char>, a: char, b: char) -> Option<int> {
    if exists|k: int| #[trigger] pair_at(s, k, a, b) {
        Some(
            choose|k: int|
                #[trigger] pair_at(s, k, a, b) && forall|m: int| 0 <= m < k ==> !pair_at(s, m, a, b),
        )
    } else {
        None
    }
}

pub fn find_pair(s: &Vec<char>, a: char, b: char) -> (r: Option<usize>)
    ensures
        match r {
            Some(k) => index_of_pair(s@, a, b) == Some(k as int) && k + 1 < s.len() && pair_at(
                s@,
                k as int,
                a,
                b,
            ),
            None => index_of_pair(s@, a, b) is None,
        },
{
    let mut i: usize = 0;
    while i < s.len() && i + 1 < s.len()
        invariant
            i <= s.len(),
            forall|m: int| 0 <= m < i ==> !#[trigger] pair_at(s@, m, a, b),
        decreases s.len() - i,
    {
        if s[i] == a && s[i + 1] == b {
            proof {
                assert(pair_at(s@, i as int, a, b));
                let j = choose|j: int|
                    #[trigger] pair_at(s@, j, a, b) && forall|m: int|
                        0 <= m < j ==> !pair_at(s@, m, a, b);
                if i < j {
                    assert(!pair_at(s@, i as int, a, b));
                }
            }
            return Some(i);
        }
        i = i + 1;
    }
    proof {
        if exists|k: int| #[trigger] pair_at(s@, k, a, b) {
            let k = choose|k: int| #[trigger] pair_at(s@, k, a, b);
            assert(k < i);
        }
    }
    None
}

/// Index of the first occurrence of `p` in `s` at or after `i`.
pub open spec fn find_seq_from(s: Seq<char>, p: Seq<char>, i: int) -> Option<int>
    decreases s.len() + 1 - i,
{
    if i < 0 || i + p.len() > s.len() {
        None
    } else if s.subrange(i, i + p.len()) == p {
        Some(i)
    } else {
        find_seq_from(s, p, i + 1)
    }
}

fn matches_here(s: &Vec<char>, p: &Vec<char>, i: usize) -> (r: bool)
    requires
        i + p.len() <= s.len(),
    ensures
        r == (s@.subrange(i as int, i + p.len()) == p@),
{
    let mut k: usize = 0;
    while k < p.len()
        invariant
            k <= p.len(),
            i + p.len() <= s.len(),
            forall|m: int| 0 <= m < k ==> #[trigger] s@[i + m] == p@[m],
        decreases p.len() - k,
    {
        if s[i + k] != p[k] {
            assert(s@.subrange(i as int, i + p.len())[k as int] != p@[k as int]);
            return false;
        }
        k = k + 1;
    }
    assert forall|m: int| 0 <= m < p.len() implies #[trigger] s@.subrange(i as int, i + p.len())[m]
        == p@[m] by {
        assert(s@[i + m] == p@[m]);
    }
    assert(s@.subrange(i as int, i + p.len()) =~= p@);
    true
}

/// Index of the first occurrence of `p` in `s`.
pub fn find_seq(s: &Vec<char>, p: &Vec<char>) -> (r: Option<usize>)
    ensures
        match r {
            Some(k) => find_seq_from(s@, p@, 0) == Some(k as int) && k + p.len() <= s.len(),
            None => find_seq_from(s@, p@, 0) is None,
        },
{
    if p.len() > s.len() {
        return None;
    }
    let lim = s.len() - p.len();
    let mut i: usize = 0;
    while i < lim
        invariant
            p.len() <= s.len(),
            lim == s.len() - p.len(),
            i <= lim,
            find_seq_from(s@, p@, 0) == find_seq_from(s@, p@, i as int),
        decreases lim - i,
    {
        if matches_here(s, p, i) {
            return Some(i);
        }
        i = i + 1;
    }
    if matches_here(s, p, i) {
        return Some(i);
    }
    assert(find_seq_from(s@, p@, i + 1) is None);
    None
}

/// Index of the last `c` in `s` before `i`.
pub open spec fn last_index_before(s: Seq<char>, c: char, i: int) -> Option<int>
    decreases i,
{
    if i <= 0 || i > s.len() {
        None
    } else if s[i - 1] == c {
        Some(i - 1)
    } else {
        last_index_before(s, c, i - 1)
    }
}

/// Index of the last `c` in `s`.
pub fn rfind(s: &Vec<char>, c: char) -> (r: Option<usize>)
    ensures
        match r {
            Some(k) => last_index_before(s@, c, s@.len() as int) == Some(k as int) && k < s.len(),
            None => last_index_before(s@, c, s@.len() as int) is None,
        },
{
    let mut i = s.len();
    while i > 0
        invariant
            i <= s.len(),
            last_index_before(s@, c, s@.len() as int) == last_index_before(s@, c, i as int),
        decreases i,
    {
        if s[i - 1] == c {
            return Some(i - 1);
        }
        i = i - 1;
    }
    None
}

/// Whether `s` is made of 3 or more copies of `-` (a slide separator line).
pub open spec fn is_dash_separator(s: Seq<char>) -> bool {
    s.len() >= 3 && forall|k: int| 0 <= k < s.len() ==> #[trigger] s[k] == '-'
}

pub fn dash_separator(s: &Vec<char>) -> (r: bool)
    ensures
        r == is_dash_separator(s@),
{
    if s.len() < 3 {
        return false;
    }
    let mut i: usize = 0;
    while i < s.len()
        invariant
            i <= s.len(),
            forall|k: int| 0 <= k < i ==> #[trigger] s@[k] == '-',
        decreases s.len() - i,
    {
        if s[i] != '-' {
            return false;
        }
        i = i + 1;
    }
    true
}

pub open spec fn is_name_char(c: char) -> bool {
    ('a' <= c && c <= 'z') || ('A' <= c && c <= 'Z') || is_digit(c) || c == '-' || c == '_'
}

pub open spec fn is_name(s: Seq<char>) -> bool {
    forall|k: int| 0 <= k < s.len() ==> is_name_char(#[trigger] s[k])
}

pub fn name_chars(s: &Vec<char>) -> (r: bool)
    ensures
        r == is_name(s@),
{
    let mut i: usize = 0;
    while i < s.len()
        invariant
            i <= s.len(),
            forall|k: int| 0 <= k < i ==> is_name_char(#[trigger] s@[k]),
        decreases s.len() - i,
    {
        let c = s[i];
        if !(('a' <= c && c <= 'z') || ('A' <= c && c <= 'Z') || ('0' <= c && c <= '9') || c == '-'
            || c == '_') {
            return false;
        }
        i = i + 1;
    }
    true
}

/// Whether the (trimmed) line `s` is a `@name: value` directive: the name
/// between `@` and the first `:` is non-empty and made of name characters.
pub open spec fn is_directive_line(s: Seq<char>) -> bool {
    s.len() > 0 && s[0] == '@' && index_of(s, ':') is Some && index_of(s, ':')->0 > 1 && is_name(
        s.subrange(1, index_of(s, ':')->0),
    )
}

} // verus!
