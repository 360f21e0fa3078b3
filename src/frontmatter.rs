//! The optional YAML header of a document.
use vstd::prelude::*;

use crate::blocks::run_end;
use crate::lines::{find, index_of, lines_view};
use crate::model::{opt_view, PresentationMeta};
use crate::text::{
    chars_of, eq_chars, has_prefix, join_from, join_with, lines, lines_of, slice, split_at_char,
    split_char, starts_with, string_of, trim, trim_chars,
};

verus! {

/// What `serde_yaml` reads from a header as a map from string keys to values:
/// `None` when it cannot be read so; else, for each key, whether its value is
/// a YAML string, and the string (for a string) or the value's `Debug` text.
pub uninterp spec fn yaml_fields(doc: Seq<char>) -> Option<Map<Seq<char>, (bool, Seq<char>)>>;

/// A header entry: key, whether the value is a string, and its text.
pub type YamlField = (String, bool, String);

pub open spec fn field_view(f: YamlField) -> (Seq<char>, bool, Seq<char>) {
    (f.0@, f.1, f.2@)
}

pub open spec fn fields_view(v: Seq<YamlField>) -> Seq<(Seq<char>, bool, Seq<char>)> {
    v.map_values(|f: YamlField| field_view(f))
}

/// The list `v` holds exactly the entries of the map `m` (in any order).
pub open spec fn lists_map(
    v: Seq<(Seq<char>, bool, Seq<char>)>,
    m: Map<Seq<char>, (bool, Seq<char>)>,
) -> bool {
    &&& forall|i: int|
        0 <= i < v.len() ==> m.contains_key(#[trigger] v[i].0) && m[v[i].0] == (v[i].1, v[i].2)
    &&& forall|k: Seq<char>| #[trigger] m.contains_key(k) ==> exists|i: int| 0 <= i < v.len() && v[i].0 == k
}

/// Relies on `serde_yaml::from_str` into a `HashMap<String, serde_yaml::Value>`:
/// on success every entry of the map is listed once, in the map's order, with
/// `Value::String` told apart from the other variants (rendered by `Debug`).
#[verifier::external_body]
fn read_yaml_fields(doc: &str) -> (r: Option<Vec<YamlField>>)
    ensures
        r is None <==> yaml_fields(doc@) is None,
        r matches Some(v) ==> lists_map(fields_view(v@), yaml_fields(doc@)->0),
{
    match serde_yaml::from_str::<std::collections::HashMap<String, serde_yaml::Value>>(doc) {
        Ok(map) => Some(
            map.into_iter().map(|(k, v)| match v {
                serde_yaml::Value::String(s) => (k, true, s),
                other => (k, false, format!("{:?}", other)),
            }).collect(),
        ),
        Err(_) => None,
    }
}

pub open spec fn lit_title() -> Seq<char> {
    seq!['t', 'i', 't', 'l', 'e']
}

/// The header keys, in the order of the fields of `PresentationMeta`.
pub open spec fn meta_keys() -> Seq<Seq<char>> {
    seq![
        lit_title(),
        seq!['a', 'u', 't', 'h', 'o', 'r'],
        seq!['d', 'a', 't', 'e'],
        seq!['@', 't', 'h', 'e', 'm', 'e'],
        seq!['@', 't', 'r', 'a', 'n', 's', 'i', 't', 'i', 'o', 'n'],
        seq!['@', 'a', 's', 'p', 'e', 'c', 't'],
        seq!['@', 'c', 'o', 'd', 'e', '-', 't', 'h', 'e', 'm', 'e'],
        seq!['@', 'f', 'o', 'o', 't', 'e', 'r'],
    ]
}

/// Index of the date key: its value is taken whatever its type.
pub open spec fn date_index() -> int {
    2
}

/// The fields of a `PresentationMeta`, in order.
pub open spec fn meta_view(m: PresentationMeta) -> Seq<Option<Seq<char>>> {
    seq![
        opt_view(m.title),
        opt_view(m.author),
        opt_view(m.date),
        opt_view(m.theme),
        opt_view(m.transition),
        opt_view(m.aspect),
        opt_view(m.code_theme),
        opt_view(m.footer),
    ]
}

pub open spec fn no_meta() -> Seq<Option<Seq<char>>> {
    Seq::new(8, |_i: int| None)
}

/// Index of `key` among the header keys, or -1.
pub open spec fn key_index(key: Seq<char>, i: int) -> int
    decreases 8 - i,
{
    if i < 0 || i >= 8 {
        -1
    } else if meta_keys()[i] == key {
        i
    } else {
        key_index(key, i + 1)
    }
}

/// `s` without leading and trailing `"` characters.
pub open spec fn strip_quotes(s: Seq<char>) -> Seq<char> {
    strip_quotes_end(s.subrange(run_end(s, '"', 0), s.len() as int))
}

pub open spec fn strip_quotes_end(s: Seq<char>) -> Seq<char>
    decreases s.len(),
{
    if s.len() > 0 && s.last() == '"' {
        strip_quotes_end(s.drop_last())
    } else {
        s
    }
}

/// The fields after one more `key: value` line of the lenient reading.
pub open spec fn manual_line(meta: Seq<Option<Seq<char>>>, line: Seq<char>) -> Seq<Option<Seq<char>>> {
    let t = trim(line);
    match index_of(t, ':') {
        Some(c) => {
            let idx = key_index(trim(t.subrange(0, c)), 0);
            if 0 <= idx < 8 {
                meta.update(idx, Some(strip_quotes(trim(t.subrange(c + 1, t.len() as int)))))
            } else {
                meta
            }
        },
        None => meta,
    }
}

pub open spec fn manual_fold(ls: Seq<Seq<char>>, k: int) -> Seq<Option<Seq<char>>>
    decreases k,
{
    if k <= 0 || k > ls.len() {
        no_meta()
    } else {
        manual_line(manual_fold(ls, k - 1), ls[k - 1])
    }
}

/// The lenient reading of a header, line by line; later lines win.
pub open spec fn manual_meta(yaml: Seq<char>) -> Seq<Option<Seq<char>>> {
    let ls = lines_of(yaml);
    manual_fold(ls, ls.len() as int)
}

/// The first entry of `v` for `key`.
pub open spec fn field_lookup(v: Seq<(Seq<char>, bool, Seq<char>)>, key: Seq<char>, i: int) -> Option<
    (bool, Seq<char>),
>
    decreases v.len() - i,
{
    if i < 0 || i >= v.len() {
        None
    } else if v[i].0 == key {
        Some((v[i].1, v[i].2))
    } else {
        field_lookup(v, key, i + 1)
    }
}

/// The field `i` of the metadata given the header entries `v`: the date is
/// taken as text whatever it is, the others only when they are strings.
pub open spec fn field_from(v: Seq<(Seq<char>, bool, Seq<char>)>, i: int) -> Option<Seq<char>> {
    match field_lookup(v, meta_keys()[i], 0) {
        Some((is_str, text)) => if is_str || i == date_index() {
            Some(text)
        } else {
            None
        },
        None => None,
    }
}

/// The metadata given what the YAML reading gave (`None`: it failed).
pub open spec fn meta_from(fields: Option<Seq<(Seq<char>, bool, Seq<char>)>>, yaml: Seq<char>) -> Seq<
    Option<Seq<char>>,
> {
    match fields {
        Some(v) => Seq::new(8, |i: int| field_from(v, i)),
        None => manual_meta(yaml),
    }
}

/// The same, given the map the YAML reading gave.
pub open spec fn meta_from_map(m: Map<Seq<char>, (bool, Seq<char>)>, i: int) -> Option<Seq<char>> {
    let k = meta_keys()[i];
    if m.contains_key(k) && (m[k].0 || i == date_index()) {
        Some(m[k].1)
    } else {
        None
    }
}

pub open spec fn header_meta(yaml: Seq<char>) -> Seq<Option<Seq<char>>> {
    match yaml_fields(yaml) {
        Some(m) => Seq::new(8, |i: int| meta_from_map(m, i)),
        None => manual_meta(yaml),
    }
}

pub open spec fn lit_dashes() -> Seq<char> {
    seq!['-', '-', '-']
}

/// Index of the first piece at or after `j` that is `---` once trimmed.
pub open spec fn closing_index(ps: Seq<Seq<char>>, j: int) -> int
    decreases ps.len() - j,
{
    if j < 0 || j >= ps.len() {
        ps.len() as int
    } else if trim(ps[j]) == lit_dashes() {
        j
    } else {
        closing_index(ps, j + 1)
    }
}

/// The document without leading byte-order marks.
pub open spec fn strip_bom(s: Seq<char>) -> Seq<char> {
    s.subrange(run_end(s, '\u{feff}', 0), s.len() as int)
}

/// The header text and the body, when the document opens with a header:
/// a first line `---`, then a later line that is `---` once trimmed.
pub open spec fn header_split(content: Seq<char>) -> Option<(Seq<char>, Seq<char>)> {
    let t = strip_bom(content);
    let crlf = seq!['-', '-', '-', '\r', '\n'];
    let lf = seq!['-', '-', '-', '\n'];
    if !starts_with(t, lf) && !starts_with(t, crlf) {
        None
    } else {
        let after = if starts_with(t, crlf) {
            t.subrange(5, t.len() as int)
        } else {
            t.subrange(4, t.len() as int)
        };
        let ps = split_char(after, '\n');
        let j = closing_index(ps, 1);
        if j >= ps.len() {
            None
        } else {
            Some(
                (
                    join_with(ps.subrange(0, j), '\n').push('\n'),
                    join_with(ps.subrange(j + 1, ps.len() as int), '\n'),
                ),
            )
        }
    }
}

/// What `extract` returns: the metadata and the body.
pub open spec fn extract_spec(content: Seq<char>) -> (Seq<Option<Seq<char>>>, Seq<char>) {
    match header_split(content) {
        Some((yaml, body)) => (header_meta(yaml), body),
        None => (no_meta(), strip_bom(content)),
    }
}

pub fn empty_meta() -> (r: PresentationMeta)
    ensures
        meta_view(r) == no_meta(),
{
    let r = PresentationMeta {
        title: None,
        author: None,
        date: None,
        theme: None,
        transition: None,
        aspect: None,
        code_theme: None,
        footer: None,
    };
    assert(meta_view(r) =~= no_meta());
    r
}

fn set_field(m: &mut PresentationMeta, idx: usize, value: String)
    requires
        idx < 8,
    ensures
        meta_view(*final(m)) == meta_view(*old(m)).update(idx as int, Some(value@)),
{
    if idx == 0 {
        m.title = Some(value);
    } else if idx == 1 {
        m.author = Some(value);
    } else if idx == 2 {
        m.date = Some(value);
    } else if idx == 3 {
        m.theme = Some(value);
    } else if idx == 4 {
        m.transition = Some(value);
    } else if idx == 5 {
        m.aspect = Some(value);
    } else if idx == 6 {
        m.code_theme = Some(value);
    } else {
        m.footer = Some(value);
    }
    assert(meta_view(*m) =~= meta_view(*old(m)).update(idx as int, Some(value@)));
}

fn key_list() -> (r: Vec<Vec<char>>)
    ensures
        lines_view(r@) == meta_keys(),
        r.len() == 8,
{
    let r = vec![
        vec!['t', 'i', 't', 'l', 'e'],
        vec!['a', 'u', 't', 'h', 'o', 'r'],
        vec!['d', 'a', 't', 'e'],
        vec!['@', 't', 'h', 'e', 'm', 'e'],
        vec!['@', 't', 'r', 'a', 'n', 's', 'i', 't', 'i', 'o', 'n'],
        vec!['@', 'a', 's', 'p', 'e', 'c', 't'],
        vec!['@', 'c', 'o', 'd', 'e', '-', 't', 'h', 'e', 'm', 'e'],
        vec!['@', 'f', 'o', 'o', 't', 'e', 'r'],
    ];
    assert(lines_view(r@) =~= meta_keys());
    r
}

fn find_key(keys: &Vec<Vec<char>>, key: &Vec<char>) -> (r: usize)
    requires
        lines_view(keys@) == meta_keys(),
        keys.len() == 8,
    ensures
        r as int == (if key_index(key@, 0) < 0 {
            8
        } else {
            key_index(key@, 0)
        }),
{
    let mut i: usize = 0;
    while i < 8
        invariant
            i <= 8,
            lines_view(keys@) == meta_keys(),
        keys.len() == 8,
            key_index(key@, 0) == key_index(key@, i as int),
        decreases 8 - i,
    {
        assert(keys[i as int]@ == meta_keys()[i as int]);
        if eq_chars(&keys[i], key) {
            return i;
        }
        i = i + 1;
    }
    8
}

fn strip_quote_chars(s: &Vec<char>) -> (r: Vec<char>)
    ensures
        r@ == strip_quotes(s@),
{
    let a = crate::blocks::run_len(s, '"', 0);
    let mut b = s.len();
    assert(s@.subrange(a as int, s.len() as int) =~= s@.subrange(a as int, b as int));
    while b > a && s[b - 1] == '"'
        invariant
            a <= b <= s.len(),
            a == run_end(s@, '"', 0),
            strip_quotes(s@) == strip_quotes_end(s@.subrange(a as int, b as int)),
        decreases b,
    {
        assert(s@.subrange(a as int, b as int).drop_last() =~= s@.subrange(a as int, b - 1));
        b = b - 1;
    }
    slice(s, a, b)
}

/// Fallback reading of a header: `key: value` lines, surrounding quotes
/// removed, unknown keys ignored.
fn parse_frontmatter_manual(yaml: &Vec<char>) -> (r: PresentationMeta)
    ensures
        meta_view(r) == manual_meta(yaml@),
{
    let keys = key_list();
    let ls = lines(yaml);
    let ghost lv = lines_view(ls@);
    let mut meta = empty_meta();
    let mut k: usize = 0;
    while k < ls.len()
        invariant
            k <= ls.len(),
            lv == lines_view(ls@),
            lv == lines_of(yaml@),
            lines_view(keys@) == meta_keys(),
        keys.len() == 8,
            meta_view(meta) == manual_fold(lv, k as int),
        decreases ls.len() - k,
    {
        assert(ls[k as int]@ == lv[k as int]);
        let t = trim_chars(&ls[k]);
        match find(&t, ':') {
            Some(c) => {
                let key = trim_chars(&slice(&t, 0, c));
                let idx = find_key(&keys, &key);
                if idx < 8 {
                    let value = strip_quote_chars(&trim_chars(&slice(&t, c + 1, t.len())));
                    set_field(&mut meta, idx, string_of(&value));
                }
            },
            None => {},
        }
        k = k + 1;
    }
    meta
}

fn lookup_field(fields: &Vec<YamlField>, key: &Vec<char>) -> (r: Option<(bool, String)>)
    ensures
        match r {
            Some((b, s)) => field_lookup(fields_view(fields@), key@, 0) == Some((b, s@)),
            None => field_lookup(fields_view(fields@), key@, 0) is None,
        },
{
    let ghost fv = fields_view(fields@);
    let mut i: usize = 0;
    while i < fields.len()
        invariant
            i <= fields.len(),
            fv == fields_view(fields@),
            field_lookup(fv, key@, 0) == field_lookup(fv, key@, i as int),
        decreases fields.len() - i,
    {
        let (k, is_str, text) = &fields[i];
        let kc = chars_of(k.as_str());
        if eq_chars(&kc, key) {
            return Some((*is_str, string_of(&chars_of(text.as_str()))));
        }
        i = i + 1;
    }
    None
}

/// The metadata of a header given what the YAML reading gave for it
/// (`None` when it failed, which falls back to reading `key: value` lines).
pub fn meta_from_fields(fields: Option<Vec<YamlField>>, yaml: &str) -> (r: PresentationMeta)
    ensures
        meta_view(r) == meta_from(
            match fields {
                Some(v) => Some(fields_view(v@)),
                None => None,
            },
            yaml@,
        ),
{
    match fields {
        None => parse_frontmatter_manual(&chars_of(yaml)),
        Some(v) => {
            let keys = key_list();
            let mut meta = empty_meta();
            let ghost fv = fields_view(v@);
            let mut i: usize = 0;
            while i < 8
                invariant
                    i <= 8,
                    lines_view(keys@) == meta_keys(),
        keys.len() == 8,
                    fv == fields_view(v@),
                    meta_view(meta) == Seq::new(
                        8,
                        |j: int|
                            if j < i {
                                field_from(fv, j)
                            } else {
                                None
                            },
                    ),
                decreases 8 - i,
            {
                assert(keys[i as int]@ == meta_keys()[i as int]);
                let ghost before = meta_view(meta);
                match lookup_field(&v, &keys[i]) {
                    Some((is_str, text)) => {
                        if is_str || i == 2 {
                            set_field(&mut meta, i, text);
                        }
                    },
                    None => {},
                }
                assert(meta_view(meta) =~= Seq::new(
                    8,
                    |j: int|
                        if j < i + 1 {
                            field_from(fv, j)
                        } else {
                            None
                        },
                ));
                i = i + 1;
            }
            assert(meta_view(meta) =~= Seq::new(8, |j: int| field_from(fv, j)));
            meta
        },
    }
}

proof fn lemma_lookup_matches_map(
    v: Seq<(Seq<char>, bool, Seq<char>)>,
    m: Map<Seq<char>, (bool, Seq<char>)>,
    key: Seq<char>,
    i: int,
)
    requires
        lists_map(v, m),
        0 <= i <= v.len(),
        forall|j: int| 0 <= j < i ==> v[j].0 != key,
    ensures
        field_lookup(v, key, i) == (if m.contains_key(key) {
            Some(m[key])
        } else {
            None
        }),
    decreases v.len() - i,
{
    if i < v.len() {
        if v[i].0 != key {
            lemma_lookup_matches_map(v, m, key, i + 1);
        }
    } else {
        if m.contains_key(key) {
            let j = choose|j: int| 0 <= j < v.len() && v[j].0 == key;
            assert(v[j].0 == key);
        }
    }
}

/// The metadata of a header: read as YAML, or line by line when that fails.
fn parse_frontmatter(yaml: &Vec<char>) -> (r: PresentationMeta)
    ensures
        meta_view(r) == header_meta(yaml@),
{
    let doc = string_of(yaml);
    let fields = read_yaml_fields(doc.as_str());
    let ghost fv = match &fields {
        Some(v) => Some(fields_view(v@)),
        None => None,
    };
    let r = meta_from_fields(fields, doc.as_str());
    proof {
        if let Some(m) = yaml_fields(yaml@) {
            let v = fv->0;
            assert forall|i: int| 0 <= i < 8 implies #[trigger] field_from(v, i) == meta_from_map(
                m,
                i,
            ) by {
                lemma_lookup_matches_map(v, m, meta_keys()[i], 0);
            }
            assert(Seq::new(8, |i: int| field_from(v, i)) =~= Seq::new(
                8,
                |i: int| meta_from_map(m, i),
            ));
        }
    }
    r
}

fn closing_line(ps: &Vec<Vec<char>>) -> (r: usize)
    ensures
        r as int == closing_index(lines_view(ps@), 1),
        r == ps.len() || 1 <= r < ps.len(),
{
    let ghost pv = lines_view(ps@);
    let dashes: Vec<char> = vec!['-', '-', '-'];
    if ps.len() < 1 {
        return ps.len();
    }
    let mut j: usize = 1;
    while j < ps.len()
        invariant
            1 <= j <= ps.len(),
            pv == lines_view(ps@),
            dashes@ == lit_dashes(),
            closing_index(pv, 1) == closing_index(pv, j as int),
        ensures
            1 <= j <= ps.len(),
            closing_index(pv, 1) == j,
        decreases ps.len() - j,
    {
        assert(ps[j as int]@ == pv[j as int]);
        if eq_chars(&trim_chars(&ps[j]), &dashes) {
            break ;
        }
        j = j + 1;
    }
    j
}

/// Split an optional YAML header off a document: returns the metadata (empty
/// when there is no header) and the body.
pub fn extract(content: &str) -> (r: (PresentationMeta, String))
    ensures
        (meta_view(r.0), r.1@) == extract_spec(content@),
{
    let c = chars_of(content);
    let a = crate::blocks::run_len(&c, '\u{feff}', 0);
    let t = slice(&c, a, c.len());
    let crlf: Vec<char> = vec!['-', '-', '-', '\r', '\n'];
    let lf: Vec<char> = vec!['-', '-', '-', '\n'];
    assert(crlf@ == seq!['-', '-', '-', '\r', '\n']);
    assert(lf@ == seq!['-', '-', '-', '\n']);
    assert(t@ == strip_bom(content@));
    let is_crlf = has_prefix(&t, &crlf);
    if !has_prefix(&t, &lf) && !is_crlf {
        return (empty_meta(), string_of(&t));
    }
    let after = if is_crlf {
        slice(&t, 5, t.len())
    } else {
        slice(&t, 4, t.len())
    };
    let ps = split_at_char(&after, '\n');
    let j = closing_line(&ps);
    if j >= ps.len() {
        return (empty_meta(), string_of(&t));
    }
    let mut yaml = join_from_upto(&ps, j);
    yaml.push('\n');
    let body = join_from(&ps, j + 1, '\n');
    let meta = parse_frontmatter(&yaml);
    (meta, string_of(&body))
}

/// The pieces `ps[..j]` joined with newlines.
fn join_from_upto(ps: &Vec<Vec<char>>, j: usize) -> (r: Vec<char>)
    requires
        j <= ps.len(),
    ensures
        r@ == join_with(lines_view(ps@).subrange(0, j as int), '\n'),
{
    let mut part: Vec<Vec<char>> = Vec::new();
    let mut k: usize = 0;
    while k < j
        invariant
            k <= j <= ps.len(),
            lines_view(part@) == lines_view(ps@).subrange(0, k as int),
        decreases j - k,
    {
        let ghost before = part@;
        let piece = slice(&ps[k], 0, ps[k].len());
        assert(ps[k as int]@.subrange(0, ps[k as int]@.len() as int) =~= ps[k as int]@);
        part.push(piece);
        assert(lines_view(part@) =~= lines_view(before).push(ps[k as int]@));
        assert(lines_view(part@) =~= lines_view(ps@).subrange(0, k + 1));
        k = k + 1;
    }
    let r = join_from(&part, 0, '\n');
    assert(lines_view(part@).subrange(0, part.len() as int) =~= lines_view(part@));
    r
}

} // verus!
