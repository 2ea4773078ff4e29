//! The on-disk form of the record store.
//!
//! A store is kept as one JSON document: an object with a single
//! `dependencies` field that maps each record's name to an object holding
//! the record's fields, the optional fields absent when empty:
//!
//! ```text
//! {"dependencies":{"serde":{"name":"serde","version":"1.0.0","features":["derive"]}}}
//! ```
//!
//! Rendering and parsing are both defined here, over sequences of
//! characters, and parsing is proved to invert rendering: a saved store
//! loads back as itself.

use vstd::prelude::*;

use crate::storage::DepView;
use crate::storage::JsonDependency;

verus! {

// ---------------------------------------------------------------------------
// The fixed pieces of the document.
// ---------------------------------------------------------------------------
/// The document's opening: `{"dependencies":{`.
pub open spec fn lit_hdr() -> Seq<char> {
    seq!['{', '"', 'd', 'e', 'p', 'e', 'n', 'd', 'e', 'n', 'c', 'i', 'e', 's', '"', ':', '{']
}

/// The key of a record's name field: `"name":`.
pub open spec fn lit_name_key() -> Seq<char> {
    seq!['"', 'n', 'a', 'm', 'e', '"', ':']
}

/// The key of a record's version field, with the separating comma:
/// `,"version":`.
pub open spec fn lit_version_key() -> Seq<char> {
    seq![',', '"', 'v', 'e', 'r', 's', 'i', 'o', 'n', '"', ':']
}

/// The key of a record's feature list, with the separating comma and the
/// list's opening bracket: `,"features":[`.
pub open spec fn lit_features_key() -> Seq<char> {
    seq![',', '"', 'f', 'e', 'a', 't', 'u', 'r', 'e', 's', '"', ':', '[']
}

/// The key of a record's snippet path, with the separating comma:
/// `,"path_to_snippet":`.
pub open spec fn lit_path_key() -> Seq<char> {
    seq![
        ',',
        '"',
        'p',
        'a',
        't',
        'h',
        '_',
        't',
        'o',
        '_',
        's',
        'n',
        'i',
        'p',
        'p',
        'e',
        't',
        '"',
        ':',
    ]
}

/// The document's closing braces: `}}`.
pub open spec fn lit_close() -> Seq<char> {
    seq!['}', '}']
}

// ---------------------------------------------------------------------------
// Rendering.
// ---------------------------------------------------------------------------
/// How one character stands inside a JSON string: the double quote, the
/// backslash and the three common control characters behind a backslash,
/// every other character as itself.
pub open spec fn esc_char(c: char) -> Seq<char> {
    if c == '"' {
        seq!['\\', '"']
    } else if c == '\\' {
        seq!['\\', '\\']
    } else if c == '\n' {
        seq!['\\', 'n']
    } else if c == '\r' {
        seq!['\\', 'r']
    } else if c == '\t' {
        seq!['\\', 't']
    } else {
        seq![c]
    }
}

/// A text with each character escaped.
pub open spec fn esc(s: Seq<char>) -> Seq<char>
    decreases s.len(),
{
    if s.len() == 0 {
        Seq::empty()
    } else {
        esc_char(s[0]) + esc(s.skip(1))
    }
}

/// A text as a JSON string: escaped, between double quotes.
pub open spec fn jstr(s: Seq<char>) -> Seq<char> {
    seq!['"'] + esc(s) + seq!['"']
}

/// JSON strings joined by commas, as a JSON array holds them.
pub open spec fn render_str_items(fs: Seq<Seq<char>>) -> Seq<char>
    decreases fs.len(),
{
    if fs.len() == 0 {
        Seq::empty()
    } else if fs.len() == 1 {
        jstr(fs[0])
    } else {
        jstr(fs[0]) + seq![','] + render_str_items(fs.skip(1))
    }
}

/// One record as a JSON object; `features` and `path_to_snippet` are
/// absent when the record has none.
pub open spec fn render_dep(d: DepView) -> Seq<char> {
    seq!['{'] + lit_name_key() + jstr(d.name) + lit_version_key() + jstr(d.version) + (match d
        .features {
        Some(fs) => lit_features_key() + render_str_items(fs) + seq![']'],
        None => Seq::empty(),
    }) + (match d.path_to_snippet {
        Some(p) => lit_path_key() + jstr(p),
        None => Seq::empty(),
    }) + seq!['}']
}

/// One entry of the `dependencies` map: the record's name as the key, then
/// the record's object.
pub open spec fn render_entry(d: DepView) -> Seq<char> {
    jstr(d.name) + seq![':'] + render_dep(d)
}

/// The entries of the `dependencies` map, joined by commas.
pub open spec fn render_entries(s: Seq<DepView>) -> Seq<char>
    decreases s.len(),
{
    if s.len() == 0 {
        Seq::empty()
    } else if s.len() == 1 {
        render_entry(s[0])
    } else {
        render_entry(s[0]) + seq![','] + render_entries(s.skip(1))
    }
}

/// The whole document for a store's records.
pub open spec fn render_store(s: Seq<DepView>) -> Seq<char> {
    lit_hdr() + render_entries(s) + lit_close()
}

proof fn lemma_esc_snoc(s: Seq<char>, c: char)
    ensures
        esc(s.push(c)) == esc(s) + esc_char(c),
    decreases s.len(),
{
    if s.len() == 0 {
        assert(s.push(c).len() == 1);
        assert(s.push(c)[0] == c);
        assert(s.push(c).skip(1) =~= Seq::<char>::empty());
        assert(esc(s.push(c)) == esc_char(c) + esc(Seq::<char>::empty()));
        assert(esc_char(c) + Seq::<char>::empty() =~= esc(s) + esc_char(c));
    } else {
        assert(s.push(c)[0] == s[0]);
        assert(s.push(c).skip(1) =~= s.skip(1).push(c));
        lemma_esc_snoc(s.skip(1), c);
        assert(esc_char(s[0]) + (esc(s.skip(1)) + esc_char(c)) =~= (esc_char(s[0]) + esc(
            s.skip(1),
        )) + esc_char(c));
    }
}

proof fn lemma_str_items_snoc(fs: Seq<Seq<char>>, f: Seq<char>)
    ensures
        render_str_items(fs.push(f)) == if fs.len() == 0 {
            jstr(f)
        } else {
            render_str_items(fs) + seq![','] + jstr(f)
        },
    decreases fs.len(),
{
    if fs.len() == 0 {
        assert(fs.push(f).len() == 1);
        assert(fs.push(f)[0] == f);
    } else {
        assert(fs.push(f)[0] == fs[0]);
        assert(fs.push(f).skip(1) =~= fs.skip(1).push(f));
        lemma_str_items_snoc(fs.skip(1), f);
        if fs.len() == 1 {
            assert(render_str_items(fs.push(f)) == jstr(fs[0]) + seq![','] + jstr(f));
            assert(render_str_items(fs) + seq![','] + jstr(f) =~= jstr(fs[0]) + seq![','] + jstr(
                f,
            ));
        } else {
            assert(render_str_items(fs.push(f)) == jstr(fs[0]) + seq![','] + (render_str_items(
                fs.skip(1),
            ) + seq![','] + jstr(f)));
            assert(jstr(fs[0]) + seq![','] + (render_str_items(fs.skip(1)) + seq![','] + jstr(f))
                =~= (jstr(fs[0]) + seq![','] + render_str_items(fs.skip(1))) + seq![','] + jstr(
                f,
            ));
        }
    }
}

proof fn lemma_entries_snoc(s: Seq<DepView>, d: DepView)
    ensures
        render_entries(s.push(d)) == if s.len() == 0 {
            render_entry(d)
        } else {
            render_entries(s) + seq![','] + render_entry(d)
        },
    decreases s.len(),
{
    if s.len() == 0 {
        assert(s.push(d).len() == 1);
        assert(s.push(d)[0] == d);
    } else {
        assert(s.push(d)[0] == s[0]);
        assert(s.push(d).skip(1) =~= s.skip(1).push(d));
        lemma_entries_snoc(s.skip(1), d);
        if s.len() == 1 {
            assert(render_entries(s.push(d)) == render_entry(s[0]) + seq![','] + render_entry(d));
            assert(render_entries(s) + seq![','] + render_entry(d) =~= render_entry(s[0])
                + seq![','] + render_entry(d));
        } else {
            assert(render_entries(s.push(d)) == render_entry(s[0]) + seq![','] + (render_entries(
                s.skip(1),
            ) + seq![','] + render_entry(d)));
            assert(render_entry(s[0]) + seq![','] + (render_entries(s.skip(1)) + seq![',']
                + render_entry(d)) =~= (render_entry(s[0]) + seq![','] + render_entries(s.skip(1)))
                + seq![','] + render_entry(d));
        }
    }
}

/// Appends `s` to `out` with each character escaped.
fn append_escaped(out: &mut String, s: &str)
    ensures
        final(out)@ == old(out)@ + esc(s@),
{
    let n = s.unicode_len();
    let mut i: usize = 0;
    proof {
        assert(s@.take(0) =~= Seq::<char>::empty());
        assert(old(out)@ + esc(s@.take(0)) =~= old(out)@);
    }
    while i < n
        invariant
            i <= n,
            n == s@.len(),
            out@ == old(out)@ + esc(s@.take(i as int)),
        decreases n - i,
    {
        let c = s.get_char(i);
        match c {
            '"' => out.append("\\\""),
            '\\' => out.append("\\\\"),
            '\n' => out.append("\\n"),
            '\r' => out.append("\\r"),
            '\t' => out.append("\\t"),
            _ => out.append(s.substring_char(i, i + 1)),
        }
        proof {
            reveal_strlit("\\\"");
            reveal_strlit("\\\\");
            reveal_strlit("\\n");
            reveal_strlit("\\r");
            reveal_strlit("\\t");
            assert(s@.subrange(i as int, i as int + 1) =~= seq![s@[i as int]]);
            lemma_esc_snoc(s@.take(i as int), s@[i as int]);
            assert(s@.take(i as int).push(s@[i as int]) =~= s@.take(i as int + 1));
            assert(out@ =~= old(out)@ + esc(s@.take(i as int + 1)));
        }
        i = i + 1;
    }
    proof {
        assert(s@.take(n as int) =~= s@);
    }
}

/// Appends `s` to `out` as a JSON string.
fn append_json_str(out: &mut String, s: &str)
    ensures
        final(out)@ == old(out)@ + jstr(s@),
{
    out.append("\"");
    append_escaped(out, s);
    out.append("\"");
    proof {
        reveal_strlit("\"");
        assert(out@ =~= old(out)@ + jstr(s@));
    }
}

/// Appends one record to `out` as its JSON object.
fn append_dep(out: &mut String, d: &JsonDependency)
    ensures
        final(out)@ == old(out)@ + render_dep(d@),
{
    out.append("{\"name\":");
    proof {
        reveal_strlit("{\"name\":");
        assert(out@ =~= old(out)@ + seq!['{'] + lit_name_key());
    }
    append_json_str(out, d.name.as_str());
    out.append(",\"version\":");
    proof {
        reveal_strlit(",\"version\":");
        assert(out@ =~= old(out)@ + seq!['{'] + lit_name_key() + jstr(d@.name) + lit_version_key());
    }
    append_json_str(out, d.version.as_str());
    let ghost mid: Seq<char> = old(out)@ + seq!['{'] + lit_name_key() + jstr(d@.name)
        + lit_version_key() + jstr(d@.version);
    proof {
        assert(out@ =~= mid);
    }
    match &d.features {
        Some(fs) => {
            out.append(",\"features\":[");
            proof {
                reveal_strlit(",\"features\":[");
                assert(out@ =~= mid + lit_features_key());
                assert(fs.deep_view().take(0) =~= Seq::<Seq<char>>::empty());
            }
            let ghost fsv: Seq<Seq<char>> = fs.deep_view();
            let mut i: usize = 0;
            while i < fs.len()
                invariant
                    i <= fs@.len(),
                    fsv == fs.deep_view(),
                    fsv.len() == fs@.len(),
                    out@ == mid + lit_features_key() + render_str_items(fsv.take(i as int)),
                decreases fs@.len() - i,
            {
                if i > 0 {
                    out.append(",");
                }
                append_json_str(out, fs[i].as_str());
                proof {
                    reveal_strlit(",");
                    assert(fsv[i as int] == fs@[i as int]@);
                    assert(fsv.take(i as int).push(fsv[i as int]) =~= fsv.take(i + 1));
                    lemma_str_items_snoc(fsv.take(i as int), fsv[i as int]);
                    assert(out@ =~= mid + lit_features_key() + render_str_items(fsv.take(i + 1)));
                }
                i = i + 1;
            }
            out.append("]");
            proof {
                reveal_strlit("]");
                assert(fsv.take(fsv.len() as int) =~= fsv);
                assert(out@ =~= mid + (lit_features_key() + render_str_items(fsv) + seq![']']));
            }
        },
        None => {
            proof {
                assert(out@ =~= mid + Seq::<char>::empty());
            }
        },
    }
    let ghost mid2: Seq<char> = mid + (match d@.features {
        Some(fs) => lit_features_key() + render_str_items(fs) + seq![']'],
        None => Seq::<char>::empty(),
    });
    proof {
        assert(out@ =~= mid2);
    }
    match &d.path_to_snippet {
        Some(p) => {
            out.append(",\"path_to_snippet\":");
            proof {
                reveal_strlit(",\"path_to_snippet\":");
                assert(out@ =~= mid2 + lit_path_key());
            }
            append_json_str(out, p.as_str());
            proof {
                assert(out@ =~= mid2 + (lit_path_key() + jstr(p@)));
            }
        },
        None => {},
    }
    out.append("}");
    proof {
        reveal_strlit("}");
        assert(out@ =~= old(out)@ + render_dep(d@));
    }
}

/// Renders a sequence of records as the store's whole JSON document.
pub(crate) fn store_to_string(deps: &Vec<JsonDependency>) -> (r: String)
    ensures
        r@ == render_store(deps.deep_view()),
{
    let mut out = String::from_str("{\"dependencies\":{");
    proof {
        reveal_strlit("{\"dependencies\":{");
        assert(out@ =~= lit_hdr());
        assert(deps.deep_view().take(0) =~= Seq::<DepView>::empty());
    }
    let ghost dv: Seq<DepView> = deps.deep_view();
    let mut i: usize = 0;
    while i < deps.len()
        invariant
            i <= deps@.len(),
            dv == deps.deep_view(),
            dv.len() == deps@.len(),
            out@ == lit_hdr() + render_entries(dv.take(i as int)),
        decreases deps@.len() - i,
    {
        if i > 0 {
            out.append(",");
        }
        append_json_str(&mut out, deps[i].name.as_str());
        out.append(":");
        append_dep(&mut out, &deps[i]);
        proof {
            reveal_strlit(",");
            reveal_strlit(":");
            assert(dv[i as int] == deps@[i as int]@);
            assert(dv.take(i as int).push(dv[i as int]) =~= dv.take(i + 1));
            lemma_entries_snoc(dv.take(i as int), dv[i as int]);
            assert(out@ =~= lit_hdr() + render_entries(dv.take(i + 1)));
        }
        i = i + 1;
    }
    out.append("}}");
    proof {
        reveal_strlit("}}");
        assert(dv.take(dv.len() as int) =~= dv);
        assert(out@ =~= render_store(dv));
    }
    out
}

// ---------------------------------------------------------------------------
// Parsing.
// ---------------------------------------------------------------------------
/// The character that stands behind a backslash in a JSON string, if the
/// escape is one that rendering produces.
pub open spec fn unesc_char(c: char) -> Option<char> {
    if c == '"' {
        Some('"')
    } else if c == '\\' {
        Some('\\')
    } else if c == 'n' {
        Some('\n')
    } else if c == 'r' {
        Some('\r')
    } else if c == 't' {
        Some('\t')
    } else {
        None
    }
}

/// Parses the inside of a JSON string up to and over its closing quote:
/// the unescaped text and what follows the quote.
pub open spec fn parse_qstr_body(s: Seq<char>) -> Option<(Seq<char>, Seq<char>)>
    decreases s.len(),
{
    if s.len() == 0 {
        None
    } else if s[0] == '"' {
        Some((Seq::empty(), s.skip(1)))
    } else if s[0] == '\\' {
        if s.len() < 2 {
            None
        } else {
            match unesc_char(s[1]) {
                Some(c) => match parse_qstr_body(s.skip(2)) {
                    Some(p) => Some((seq![c] + p.0, p.1)),
                    None => None,
                },
                None => None,
            }
        }
    } else {
        match parse_qstr_body(s.skip(1)) {
            Some(p) => Some((seq![s[0]] + p.0, p.1)),
            None => None,
        }
    }
}

/// Parses a whole JSON string, opening quote included.
pub open spec fn parse_qstr(s: Seq<char>) -> Option<(Seq<char>, Seq<char>)> {
    if s.len() > 0 && s[0] == '"' {
        parse_qstr_body(s.skip(1))
    } else {
        None
    }
}

/// What follows `p` at the head of `s`, if `s` starts with `p`.
pub open spec fn strip_prefix(s: Seq<char>, p: Seq<char>) -> Option<Seq<char>> {
    if p.len() <= s.len() && s.take(p.len() as int) == p {
        Some(s.skip(p.len() as int))
    } else {
        None
    }
}

proof fn lemma_qstr_body_rest(s: Seq<char>)
    ensures
        parse_qstr_body(s) matches Some(p) ==> p.1.len() < s.len(),
    decreases s.len(),
{
    if s.len() == 0 {
    } else if s[0] == '"' {
    } else if s[0] == '\\' {
        if s.len() >= 2 {
            lemma_qstr_body_rest(s.skip(2));
        }
    } else {
        lemma_qstr_body_rest(s.skip(1));
    }
}

proof fn lemma_qstr_rest(s: Seq<char>)
    ensures
        parse_qstr(s) matches Some(p) ==> p.1.len() + 2 <= s.len(),
{
    if s.len() > 0 && s[0] == '"' {
        lemma_qstr_body_rest(s.skip(1));
    }
}

/// Parses the items of a JSON array of strings, the closing bracket
/// included: the item texts and what follows the bracket.
pub open spec fn parse_str_items(s: Seq<char>) -> Option<(Seq<Seq<char>>, Seq<char>)>
    decreases s.len(),
    via parse_str_items_dec
{
    if s.len() == 0 {
        None
    } else if s[0] == ']' {
        Some((Seq::empty(), s.skip(1)))
    } else {
        match parse_qstr(s) {
            None => None,
            Some(p) => {
                if p.1.len() > 0 && p.1[0] == ',' {
                    match parse_str_items(p.1.skip(1)) {
                        Some(q) => Some((seq![p.0] + q.0, q.1)),
                        None => None,
                    }
                } else if p.1.len() > 0 && p.1[0] == ']' {
                    Some((seq![p.0], p.1.skip(1)))
                } else {
                    None
                }
            },
        }
    }
}

#[via_fn]
proof fn parse_str_items_dec(s: Seq<char>) {
    lemma_qstr_rest(s);
}

proof fn lemma_str_items_rest(s: Seq<char>)
    ensures
        parse_str_items(s) matches Some(p) ==> p.1.len() < s.len(),
    decreases s.len(),
{
    if s.len() == 0 {
    } else if s[0] == ']' {
    } else {
        lemma_qstr_rest(s);
        match parse_qstr(s) {
            None => {},
            Some(p) => {
                if p.1.len() > 0 && p.1[0] == ',' {
                    lemma_str_items_rest(p.1.skip(1));
                }
            },
        }
    }
}

/// Parses a record object's optional feature list, key included; absent
/// key means no features.
pub open spec fn parse_features_part(s: Seq<char>) -> Option<(Option<Seq<Seq<char>>>, Seq<char>)> {
    match strip_prefix(s, lit_features_key()) {
        Some(r) => match parse_str_items(r) {
            Some(p) => Some((Some(p.0), p.1)),
            None => None,
        },
        None => Some((None, s)),
    }
}

/// Parses a record object's optional snippet path, key included; absent
/// key means no snippet.
pub open spec fn parse_path_part(s: Seq<char>) -> Option<(Option<Seq<char>>, Seq<char>)> {
    match strip_prefix(s, lit_path_key()) {
        Some(r) => match parse_qstr(r) {
            Some(p) => Some((Some(p.0), p.1)),
            None => None,
        },
        None => Some((None, s)),
    }
}

/// Parses one record object: the record and what follows its closing
/// brace.
pub open spec fn parse_dep(s: Seq<char>) -> Option<(DepView, Seq<char>)> {
    match strip_prefix(s, seq!['{'] + lit_name_key()) {
        None => None,
        Some(r1) => match parse_qstr(r1) {
            None => None,
            Some(pn) => match strip_prefix(pn.1, lit_version_key()) {
                None => None,
                Some(r2) => match parse_qstr(r2) {
                    None => None,
                    Some(pv) => match parse_features_part(pv.1) {
                        None => None,
                        Some(pf) => match parse_path_part(pf.1) {
                            None => None,
                            Some(pp) => match strip_prefix(pp.1, seq!['}']) {
                                None => None,
                                Some(r3) => Some(
                                    (
                                        DepView {
                                            name: pn.0,
                                            version: pv.0,
                                            features: pf.0,
                                            path_to_snippet: pp.0,
                                        },
                                        r3,
                                    ),
                                ),
                            },
                        },
                    },
                },
            },
        },
    }
}

/// Parses one entry of the `dependencies` map: its key is read and the
/// record object decides the record, as the field-wise form does.
pub open spec fn parse_entry(s: Seq<char>) -> Option<(DepView, Seq<char>)> {
    match parse_qstr(s) {
        None => None,
        Some(pk) => match strip_prefix(pk.1, seq![':']) {
            None => None,
            Some(r) => parse_dep(r),
        },
    }
}

proof fn lemma_dep_rest(s: Seq<char>)
    ensures
        parse_dep(s) matches Some(p) ==> p.1.len() < s.len(),
{
    match strip_prefix(s, seq!['{'] + lit_name_key()) {
        None => {},
        Some(r1) => {
            lemma_qstr_rest(r1);
            match parse_qstr(r1) {
                None => {},
                Some(pn) => {
                    match strip_prefix(pn.1, lit_version_key()) {
                        None => {},
                        Some(r2) => {
                            lemma_qstr_rest(r2);
                            match parse_qstr(r2) {
                                None => {},
                                Some(pv) => {
                                    match parse_features_part(pv.1) {
                                        None => {},
                                        Some(pf) => {
                                            lemma_str_items_rest(
                                                match strip_prefix(pv.1, lit_features_key()) {
                                                    Some(r) => r,
                                                    None => pv.1,
                                                },
                                            );
                                            assert(pf.1.len() <= pv.1.len());
                                            match parse_path_part(pf.1) {
                                                None => {},
                                                Some(pp) => {
                                                    lemma_qstr_rest(
                                                        match strip_prefix(pf.1, lit_path_key()) {
                                                            Some(r) => r,
                                                            None => pf.1,
                                                        },
                                                    );
                                                    assert(pp.1.len() <= pf.1.len());
                                                },
                                            }
                                        },
                                    }
                                },
                            }
                        },
                    }
                },
            }
        },
    }
}

proof fn lemma_entry_rest(s: Seq<char>)
    ensures
        parse_entry(s) matches Some(p) ==> p.1.len() < s.len(),
{
    lemma_qstr_rest(s);
    match parse_qstr(s) {
        None => {},
        Some(pk) => {
            match strip_prefix(pk.1, seq![':']) {
                None => {},
                Some(r) => {
                    lemma_dep_rest(r);
                },
            }
        },
    }
}

/// Parses the entries of the `dependencies` map: one or more entries
/// joined by commas, and what follows the last.
pub open spec fn parse_entries(s: Seq<char>) -> Option<(Seq<DepView>, Seq<char>)>
    decreases s.len(),
    via parse_entries_dec
{
    match parse_entry(s) {
        None => None,
        Some(p) => {
            if p.1.len() > 0 && p.1[0] == ',' {
                match parse_entries(p.1.skip(1)) {
                    Some(q) => Some((seq![p.0] + q.0, q.1)),
                    None => None,
                }
            } else {
                Some((seq![p.0], p.1))
            }
        },
    }
}

#[via_fn]
proof fn parse_entries_dec(s: Seq<char>) {
    lemma_entry_rest(s);
}

/// Parses a whole store document: the header, the entries (none when the
/// map is empty), the closing braces, and nothing after them.
pub open spec fn parse_store(s: Seq<char>) -> Option<Seq<DepView>> {
    match strip_prefix(s, lit_hdr()) {
        None => None,
        Some(r) => {
            if r.len() > 0 && r[0] == '"' {
                match parse_entries(r) {
                    None => None,
                    Some(p) => match strip_prefix(p.1, lit_close()) {
                        Some(rest) => if rest.len() == 0 {
                            Some(p.0)
                        } else {
                            None
                        },
                        None => None,
                    },
                }
            } else {
                match strip_prefix(r, lit_close()) {
                    Some(rest) => if rest.len() == 0 {
                        Some(Seq::empty())
                    } else {
                        None
                    },
                    None => None,
                }
            }
        },
    }
}


// ---------------------------------------------------------------------------
// Parsing inverts rendering.
// ---------------------------------------------------------------------------
proof fn lemma_strip_of_concat(p: Seq<char>, rest: Seq<char>)
    ensures
        strip_prefix(p + rest, p) == Some(rest),
{
    assert((p + rest).take(p.len() as int) =~= p);
    assert((p + rest).skip(p.len() as int) =~= rest);
}

proof fn lemma_strip_differs(s: Seq<char>, p: Seq<char>, i: int)
    requires
        0 <= i < p.len(),
        i < s.len(),
        s[i] != p[i],
    ensures
        strip_prefix(s, p) is None,
{
    if p.len() <= s.len() {
        assert(s.take(p.len() as int)[i] == s[i]);
    }
}

proof fn lemma_qstr_body_of_esc(t: Seq<char>, rest: Seq<char>)
    ensures
        parse_qstr_body(esc(t) + seq!['"'] + rest) == Some((t, rest)),
    decreases t.len(),
{
    let s = esc(t) + seq!['"'] + rest;
    if t.len() == 0 {
        assert(esc(t) =~= Seq::<char>::empty());
        assert(s =~= seq!['"'] + rest);
        assert(s[0] == '"');
        assert(s.skip(1) =~= rest);
        assert(t =~= Seq::<char>::empty());
    } else {
        let c = t[0];
        assert(esc(t) == esc_char(c) + esc(t.skip(1)));
        lemma_qstr_body_of_esc(t.skip(1), rest);
        if c == '"' || c == '\\' || c == '\n' || c == '\r' || c == '\t' {
            let x = if c == '"' {
                '"'
            } else if c == '\\' {
                '\\'
            } else if c == '\n' {
                'n'
            } else if c == '\r' {
                'r'
            } else {
                't'
            };
            assert(esc_char(c) =~= seq!['\\', x]);
            assert(s =~= seq!['\\', x] + (esc(t.skip(1)) + seq!['"'] + rest));
            assert(s[0] == '\\');
            assert(s.len() >= 2);
            assert(s[1] == x);
            assert(unesc_char(x) == Some(c));
            assert(s.skip(2) =~= esc(t.skip(1)) + seq!['"'] + rest);
            assert(parse_qstr_body(s) == Some((seq![c] + t.skip(1), rest)));
            assert(seq![c] + t.skip(1) =~= t);
        } else {
            assert(esc_char(c) =~= seq![c]);
            assert(s =~= seq![c] + (esc(t.skip(1)) + seq!['"'] + rest));
            assert(s[0] == c);
            assert(s.skip(1) =~= esc(t.skip(1)) + seq!['"'] + rest);
            assert(parse_qstr_body(s) == Some((seq![c] + t.skip(1), rest)));
            assert(seq![c] + t.skip(1) =~= t);
        }
    }
}

proof fn lemma_qstr_of_jstr(t: Seq<char>, rest: Seq<char>)
    ensures
        parse_qstr(jstr(t) + rest) == Some((t, rest)),
{
    let s = jstr(t) + rest;
    assert(s =~= seq!['"'] + (esc(t) + seq!['"'] + rest));
    assert(s[0] == '"');
    assert(s.len() > 0);
    assert(s.skip(1) =~= esc(t) + seq!['"'] + rest);
    lemma_qstr_body_of_esc(t, rest);
}

proof fn lemma_str_items_round(fs: Seq<Seq<char>>, rest: Seq<char>)
    ensures
        parse_str_items(render_str_items(fs) + seq![']'] + rest) == Some((fs, rest)),
    decreases fs.len(),
{
    let s = render_str_items(fs) + seq![']'] + rest;
    if fs.len() == 0 {
        assert(s =~= seq![']'] + rest);
        assert(s[0] == ']');
        assert(s.skip(1) =~= rest);
        assert(fs =~= Seq::<Seq<char>>::empty());
    } else if fs.len() == 1 {
        let x = seq![']'] + rest;
        assert(s =~= jstr(fs[0]) + x);
        lemma_qstr_of_jstr(fs[0], x);
        assert(jstr(fs[0]).len() > 0);
        assert(s[0] == '"');
        assert(s[0] != ']');
        assert(x[0] == ']');
        assert(x.skip(1) =~= rest);
        assert(seq![fs[0]] =~= fs);
    } else {
        let x = seq![','] + (render_str_items(fs.skip(1)) + seq![']'] + rest);
        assert(s =~= jstr(fs[0]) + x);
        lemma_qstr_of_jstr(fs[0], x);
        assert(jstr(fs[0]).len() > 0);
        assert(s[0] == '"');
        assert(s[0] != ']');
        assert(x[0] == ',');
        assert(x.skip(1) =~= render_str_items(fs.skip(1)) + seq![']'] + rest);
        lemma_str_items_round(fs.skip(1), rest);
        assert(parse_str_items(s) == Some((seq![fs[0]] + fs.skip(1), rest)));
        assert(seq![fs[0]] + fs.skip(1) =~= fs);
    }
}

#[verifier::rlimit(100)]
proof fn lemma_dep_round(d: DepView, rest: Seq<char>)
    ensures
        parse_dep(render_dep(d) + rest) == Some((d, rest)),
{
    let s = render_dep(d) + rest;
    let fpart: Seq<char> = match d.features {
        Some(fs) => lit_features_key() + render_str_items(fs) + seq![']'],
        None => Seq::empty(),
    };
    let ppart: Seq<char> = match d.path_to_snippet {
        Some(p) => lit_path_key() + jstr(p),
        None => Seq::empty(),
    };
    // After the version string: the feature part, the path part, the brace.
    let x2 = fpart + ppart + seq!['}'] + rest;
    // After the features: the path part, the brace.
    let x3 = ppart + seq!['}'] + rest;
    // After the path: the brace.
    let x4 = seq!['}'] + rest;
    assert(s =~= (seq!['{'] + lit_name_key()) + (jstr(d.name) + (lit_version_key() + (jstr(
        d.version,
    ) + x2))));
    lemma_strip_of_concat(
        seq!['{'] + lit_name_key(),
        jstr(d.name) + (lit_version_key() + (jstr(d.version) + x2)),
    );
    lemma_qstr_of_jstr(d.name, lit_version_key() + (jstr(d.version) + x2));
    lemma_strip_of_concat(lit_version_key(), jstr(d.version) + x2);
    lemma_qstr_of_jstr(d.version, x2);
    // The feature part.
    match d.features {
        Some(fs) => {
            assert(x2 =~= lit_features_key() + (render_str_items(fs) + seq![']'] + x3));
            lemma_strip_of_concat(lit_features_key(), render_str_items(fs) + seq![']'] + x3);
            lemma_str_items_round(fs, x3);
            assert(parse_features_part(x2) == Some((d.features, x3)));
        },
        None => {
            assert(x2 =~= x3);
            match d.path_to_snippet {
                Some(p) => {
                    assert(x2 =~= lit_path_key() + (jstr(p) + x4));
                    assert(x2[2] == 'p');
                    assert(lit_features_key()[2] == 'f');
                    lemma_strip_differs(x2, lit_features_key(), 2);
                },
                None => {
                    assert(x2 =~= seq!['}'] + rest);
                    assert(x2[0] == '}');
                    assert(lit_features_key()[0] == ',');
                    lemma_strip_differs(x2, lit_features_key(), 0);
                },
            }
            assert(parse_features_part(x2) == Some((d.features, x3)));
        },
    }
    // The path part.
    match d.path_to_snippet {
        Some(p) => {
            assert(x3 =~= lit_path_key() + (jstr(p) + x4));
            lemma_strip_of_concat(lit_path_key(), jstr(p) + x4);
            lemma_qstr_of_jstr(p, x4);
            assert(parse_path_part(x3) == Some((d.path_to_snippet, x4)));
        },
        None => {
            assert(x3 =~= seq!['}'] + rest);
            assert(x3[0] == '}');
            assert(lit_path_key()[0] == ',');
            lemma_strip_differs(x3, lit_path_key(), 0);
            assert(x3 =~= x4);
            assert(parse_path_part(x3) == Some((d.path_to_snippet, x4)));
        },
    }
    // The brace.
    assert(x4 =~= seq!['}'] + rest);
    lemma_strip_of_concat(seq!['}'], rest);
    assert(parse_dep(s) == Some(
        (
            DepView {
                name: d.name,
                version: d.version,
                features: d.features,
                path_to_snippet: d.path_to_snippet,
            },
            rest,
        ),
    ));
    assert(DepView {
        name: d.name,
        version: d.version,
        features: d.features,
        path_to_snippet: d.path_to_snippet,
    } == d);
}

proof fn lemma_entry_round(d: DepView, rest: Seq<char>)
    ensures
        parse_entry(render_entry(d) + rest) == Some((d, rest)),
{
    let s = render_entry(d) + rest;
    assert(s =~= jstr(d.name) + (seq![':'] + (render_dep(d) + rest)));
    lemma_qstr_of_jstr(d.name, seq![':'] + (render_dep(d) + rest));
    lemma_strip_of_concat(seq![':'], render_dep(d) + rest);
    lemma_dep_round(d, rest);
}

#[verifier::rlimit(50)]
proof fn lemma_entries_round(s: Seq<DepView>, rest: Seq<char>)
    requires
        s.len() > 0,
        rest.len() > 0,
        rest[0] != ',',
    ensures
        parse_entries(render_entries(s) + rest) == Some((s, rest)),
    decreases s.len(),
{
    let t = render_entries(s) + rest;
    if s.len() == 1 {
        assert(t =~= render_entry(s[0]) + rest);
        lemma_entry_round(s[0], rest);
        assert(seq![s[0]] =~= s);
    } else {
        let x = seq![','] + (render_entries(s.skip(1)) + rest);
        assert(t =~= render_entry(s[0]) + x);
        lemma_entry_round(s[0], x);
        assert(x[0] == ',');
        assert(x.skip(1) =~= render_entries(s.skip(1)) + rest);
        lemma_entries_round(s.skip(1), rest);
        assert(parse_entries(t) == Some((seq![s[0]] + s.skip(1), rest)));
        assert(seq![s[0]] + s.skip(1) =~= s);
    }
}

/// Parsing inverts rendering: the document rendered for any records parses
/// back to exactly those records.
pub proof fn lemma_store_round_trip(s: Seq<DepView>)
    ensures
        parse_store(render_store(s)) == Some(s),
{
    let t = render_store(s);
    if s.len() == 0 {
        assert(render_entries(s) =~= Seq::<char>::empty());
        assert(t =~= lit_hdr() + lit_close());
        lemma_strip_of_concat(lit_hdr(), lit_close());
        assert(lit_close()[0] == '}');
        assert(lit_close() =~= lit_close() + Seq::<char>::empty());
        lemma_strip_of_concat(lit_close(), Seq::<char>::empty());
        assert(strip_prefix(lit_close(), lit_close()) == Some(Seq::<char>::empty()));
        assert(s =~= Seq::<DepView>::empty());
    } else {
        assert(t =~= lit_hdr() + (render_entries(s) + lit_close()));
        lemma_strip_of_concat(lit_hdr(), render_entries(s) + lit_close());
        let r = render_entries(s) + lit_close();
        assert(jstr(s[0].name).len() > 0);
        assert(render_entry(s[0])[0] == '"');
        assert(render_entries(s)[0] == '"');
        assert(r[0] == '"');
        assert(lit_close().len() > 0);
        assert(lit_close()[0] != ',');
        lemma_entries_round(s, lit_close());
        lemma_strip_of_concat(lit_close(), Seq::<char>::empty());
        assert(lit_close() =~= lit_close() + Seq::<char>::empty());
    }
}


// ---------------------------------------------------------------------------
// Scanning: executable parsing, tied to the parse functions above.
// ---------------------------------------------------------------------------
proof fn lemma_skip_skip(s: Seq<char>, a: int, b: int)
    requires
        0 <= a,
        0 <= b,
        a + b <= s.len(),
    ensures
        s.skip(a).skip(b) == s.skip(a + b),
{
    assert(s.skip(a).skip(b) =~= s.skip(a + b));
}

/// Advances over `lit` at `pos`, if the text holds it there.
fn expect_lit(s: &str, pos: usize, n: usize, lit: &str) -> (r: Option<usize>)
    requires
        pos <= n,
        n == s@.len(),
    ensures
        r matches Some(j) ==> pos <= j <= n && j as int == pos as int + lit@.len() && strip_prefix(
            s@.skip(pos as int),
            lit@,
        ) == Some(s@.skip(j as int)),
        r is None ==> strip_prefix(s@.skip(pos as int), lit@) is None,
{
    let m = lit.unicode_len();
    if m > n - pos {
        proof {
            assert(s@.skip(pos as int).len() == n - pos);
        }
        return None;
    }
    let mut j: usize = 0;
    while j < m
        invariant
            j <= m,
            pos + m <= n,
            n == s@.len(),
            m == lit@.len(),
            forall|k: int| 0 <= k < j as int ==> s@.skip(pos as int)[k] == lit@[k],
        decreases m - j,
    {
        proof {
            assert(s@.skip(pos as int)[j as int] == s@[pos as int + j as int]);
        }
        if s.get_char(pos + j) != lit.get_char(j) {
            proof {
                lemma_strip_differs(s@.skip(pos as int), lit@, j as int);
            }
            return None;
        }
        j = j + 1;
    }
    proof {
        assert(s@.skip(pos as int).take(m as int) =~= lit@);
        lemma_skip_skip(s@, pos as int, m as int);
    }
    Some(pos + m)
}

/// The one-character string behind a backslash for an escape code, if the
/// code is one that rendering produces.
fn unescape_piece(d: char) -> (r: Option<&'static str>)
    ensures
        r matches Some(t) ==> (unesc_char(d) matches Some(c) && t@ == seq![c]),
        r is Some <==> unesc_char(d) is Some,
{
    proof {
        reveal_strlit("\"");
        reveal_strlit("\\");
        reveal_strlit("\n");
        reveal_strlit("\r");
        reveal_strlit("\t");
        assert("\""@ =~= seq!['"']);
        assert("\\"@ =~= seq!['\\']);
        assert("\n"@ =~= seq!['\n']);
        assert("\r"@ =~= seq!['\r']);
        assert("\t"@ =~= seq!['\t']);
    }
    if d == '"' {
        Some("\"")
    } else if d == '\\' {
        Some("\\")
    } else if d == 'n' {
        Some("\n")
    } else if d == 'r' {
        Some("\r")
    } else if d == 't' {
        Some("\t")
    } else {
        None
    }
}

/// Scans the inside of a JSON string from `pos`, up to and over its
/// closing quote.
fn scan_qstr_body(s: &str, pos: usize, n: usize) -> (r: Option<(String, usize)>)
    requires
        pos <= n,
        n == s@.len(),
    ensures
        r matches Some(p) ==> pos < p.1 <= n && parse_qstr_body(s@.skip(pos as int)) == Some(
            (p.0@, s@.skip(p.1 as int)),
        ),
        r is None ==> parse_qstr_body(s@.skip(pos as int)) is None,
{
    let mut out = String::new();
    let mut i: usize = pos;
    while i < n
        invariant
            pos <= i <= n,
            n == s@.len(),
            match parse_qstr_body(s@.skip(i as int)) {
                Some(p) => parse_qstr_body(s@.skip(pos as int)) == Some((out@ + p.0, p.1)),
                None => parse_qstr_body(s@.skip(pos as int)) is None,
            },
        decreases n - i,
    {
        let ghost su = s@.skip(i as int);
        proof {
            assert(su.len() == n - i);
            assert(su[0] == s@[i as int]);
        }
        let c = s.get_char(i);
        if c == '"' {
            proof {
                lemma_skip_skip(s@, i as int, 1);
                assert(parse_qstr_body(su) == Some(
                    (Seq::<char>::empty(), s@.skip(i as int + 1)),
                ));
                assert(out@ + Seq::<char>::empty() =~= out@);
            }
            return Some((out, i + 1));
        } else if c == '\\' {
            if i + 1 >= n {
                proof {
                    assert(su.len() < 2);
                    assert(parse_qstr_body(su) is None);
                }
                return None;
            }
            proof {
                assert(su[1] == s@[i as int + 1]);
            }
            let d = s.get_char(i + 1);
            match unescape_piece(d) {
                None => {
                    proof {
                        assert(parse_qstr_body(su) is None);
                    }
                    return None;
                },
                Some(piece) => {
                    let ghost out0: Seq<char> = out@;
                    out.append(piece);
                    proof {
                        lemma_skip_skip(s@, i as int, 2);
                        let c2 = unesc_char(d)->Some_0;
                        assert(out@ == out0 + seq![c2]);
                        match parse_qstr_body(s@.skip(i as int + 2)) {
                            Some(p) => {
                                assert(parse_qstr_body(su) == Some((seq![c2] + p.0, p.1)));
                                assert(out0 + (seq![c2] + p.0) =~= out@ + p.0);
                            },
                            None => {
                                assert(parse_qstr_body(su) is None);
                            },
                        }
                    }
                    i = i + 2;
                },
            }
        } else {
            let ghost out0: Seq<char> = out@;
            out.append(s.substring_char(i, i + 1));
            proof {
                assert(s@.subrange(i as int, i as int + 1) =~= seq![s@[i as int]]);
                lemma_skip_skip(s@, i as int, 1);
                assert(out@ == out0 + seq![c]);
                match parse_qstr_body(s@.skip(i as int + 1)) {
                    Some(p) => {
                        assert(parse_qstr_body(su) == Some((seq![c] + p.0, p.1)));
                        assert(out0 + (seq![c] + p.0) =~= out@ + p.0);
                    },
                    None => {
                        assert(parse_qstr_body(su) is None);
                    },
                }
            }
            i = i + 1;
        }
    }
    proof {
        assert(s@.skip(i as int).len() == 0);
        assert(parse_qstr_body(s@.skip(i as int)) is None);
    }
    None
}

/// Scans a whole JSON string at `pos`, opening quote included.
fn scan_qstr(s: &str, pos: usize, n: usize) -> (r: Option<(String, usize)>)
    requires
        pos <= n,
        n == s@.len(),
    ensures
        r matches Some(p) ==> pos < p.1 <= n && parse_qstr(s@.skip(pos as int)) == Some(
            (p.0@, s@.skip(p.1 as int)),
        ),
        r is None ==> parse_qstr(s@.skip(pos as int)) is None,
{
    if pos >= n {
        proof {
            assert(s@.skip(pos as int).len() == 0);
        }
        return None;
    }
    proof {
        assert(s@.skip(pos as int)[0] == s@[pos as int]);
    }
    let c = s.get_char(pos);
    if c != '"' {
        return None;
    }
    proof {
        lemma_skip_skip(s@, pos as int, 1);
    }
    scan_qstr_body(s, pos + 1, n)
}

/// Scans the items of a JSON array of strings at `pos`, closing bracket
/// included.
fn scan_str_items(s: &str, pos: usize, n: usize) -> (r: Option<(Vec<String>, usize)>)
    requires
        pos <= n,
        n == s@.len(),
    ensures
        r matches Some(p) ==> pos < p.1 <= n && parse_str_items(s@.skip(pos as int)) == Some(
            (p.0.deep_view(), s@.skip(p.1 as int)),
        ),
        r is None ==> parse_str_items(s@.skip(pos as int)) is None,
{
    let mut out: Vec<String> = Vec::new();
    let mut i: usize = pos;
    proof {
        assert(out.deep_view() =~= Seq::<Seq<char>>::empty());
    }
    while i < n
        invariant
            pos <= i <= n,
            n == s@.len(),
            match parse_str_items(s@.skip(i as int)) {
                Some(p) => parse_str_items(s@.skip(pos as int)) == Some(
                    (out.deep_view() + p.0, p.1),
                ),
                None => parse_str_items(s@.skip(pos as int)) is None,
            },
        decreases n - i,
    {
        let ghost su = s@.skip(i as int);
        proof {
            assert(su[0] == s@[i as int]);
        }
        let c = s.get_char(i);
        if c == ']' {
            proof {
                lemma_skip_skip(s@, i as int, 1);
                assert(parse_str_items(su) == Some(
                    (Seq::<Seq<char>>::empty(), s@.skip(i as int + 1)),
                ));
                assert(out.deep_view() + Seq::<Seq<char>>::empty() =~= out.deep_view());
            }
            return Some((out, i + 1));
        }
        match scan_qstr(s, i, n) {
            None => {
                proof {
                    assert(parse_str_items(su) is None);
                }
                return None;
            },
            Some((t, j)) => {
                let ghost su2 = s@.skip(j as int);
                if j >= n {
                    proof {
                        assert(su2.len() == 0);
                        assert(parse_str_items(su) is None);
                    }
                    return None;
                }
                proof {
                    assert(su2[0] == s@[j as int]);
                }
                let c2 = s.get_char(j);
                let ghost out0: Seq<Seq<char>> = out.deep_view();
                let ghost tv: Seq<char> = t@;
                out.push(t);
                proof {
                    assert(out.deep_view() =~= out0.push(tv)) by {
                        assert forall|k: int|
                            0 <= k < out.deep_view().len() implies out.deep_view()[k] == out0.push(
                            tv,
                        )[k] by {
                            assert(out.deep_view()[k] == out@[k].deep_view());
                        }
                    }
                }
                if c2 == ',' {
                    proof {
                        lemma_skip_skip(s@, j as int, 1);
                        match parse_str_items(s@.skip(j as int + 1)) {
                            Some(q) => {
                                assert(parse_str_items(su) == Some((seq![tv] + q.0, q.1)));
                                assert(out0 + (seq![tv] + q.0) =~= out.deep_view() + q.0);
                            },
                            None => {
                                assert(parse_str_items(su) is None);
                            },
                        }
                    }
                    i = j + 1;
                } else if c2 == ']' {
                    proof {
                        lemma_skip_skip(s@, j as int, 1);
                        assert(parse_str_items(su) == Some((seq![tv], s@.skip(j as int + 1))));
                        assert(out0 + seq![tv] =~= out.deep_view());
                    }
                    return Some((out, j + 1));
                } else {
                    proof {
                        assert(parse_str_items(su) is None);
                    }
                    return None;
                }
            },
        }
    }
    proof {
        assert(s@.skip(i as int).len() == 0);
        assert(parse_str_items(s@.skip(i as int)) is None);
    }
    None
}

/// Scans one record object at `pos`.
fn scan_dep(s: &str, pos: usize, n: usize) -> (r: Option<(JsonDependency, usize)>)
    requires
        pos <= n,
        n == s@.len(),
    ensures
        r matches Some(p) ==> pos < p.1 <= n && parse_dep(s@.skip(pos as int)) == Some(
            (p.0@, s@.skip(p.1 as int)),
        ),
        r is None ==> parse_dep(s@.skip(pos as int)) is None,
{
    proof {
        reveal_strlit("{\"name\":");
        reveal_strlit(",\"version\":");
        reveal_strlit(",\"features\":[");
        reveal_strlit(",\"path_to_snippet\":");
        reveal_strlit("}");
        assert("{\"name\":"@ =~= seq!['{'] + lit_name_key());
        assert(",\"version\":"@ =~= lit_version_key());
        assert(",\"features\":["@ =~= lit_features_key());
        assert(",\"path_to_snippet\":"@ =~= lit_path_key());
        assert("}"@ =~= seq!['}']);
    }
    let c1 = match expect_lit(s, pos, n, "{\"name\":") {
        Some(j) => j,
        None => {
            return None;
        },
    };
    let (name, c2) = match scan_qstr(s, c1, n) {
        Some(p) => p,
        None => {
            return None;
        },
    };
    let c3 = match expect_lit(s, c2, n, ",\"version\":") {
        Some(j) => j,
        None => {
            return None;
        },
    };
    let (version, c4) = match scan_qstr(s, c3, n) {
        Some(p) => p,
        None => {
            return None;
        },
    };
    let (features, c5): (Option<Vec<String>>, usize) = match expect_lit(s, c4, n, ",\"features\":[")
        {
        Some(j) => {
            match scan_str_items(s, j, n) {
                Some((v, j2)) => (Some(v), j2),
                None => {
                    return None;
                },
            }
        },
        None => (None, c4),
    };
    let (path, c6): (Option<String>, usize) = match expect_lit(s, c5, n, ",\"path_to_snippet\":") {
        Some(j) => {
            match scan_qstr(s, j, n) {
                Some((p, j2)) => (Some(p), j2),
                None => {
                    return None;
                },
            }
        },
        None => (None, c5),
    };
    let c7 = match expect_lit(s, c6, n, "}") {
        Some(j) => j,
        None => {
            return None;
        },
    };
    let dep = JsonDependency { name, version, features, path_to_snippet: path };
    Some((dep, c7))
}

/// Scans one entry of the `dependencies` map at `pos`: its key string,
/// the colon, the record object.
fn scan_entry(s: &str, pos: usize, n: usize) -> (r: Option<(JsonDependency, usize)>)
    requires
        pos <= n,
        n == s@.len(),
    ensures
        r matches Some(p) ==> pos < p.1 <= n && parse_entry(s@.skip(pos as int)) == Some(
            (p.0@, s@.skip(p.1 as int)),
        ),
        r is None ==> parse_entry(s@.skip(pos as int)) is None,
{
    proof {
        reveal_strlit(":");
        assert(":"@ =~= seq![':']);
    }
    match scan_qstr(s, pos, n) {
        None => None,
        Some((_key, j)) => {
            match expect_lit(s, j, n, ":") {
                None => None,
                Some(j2) => scan_dep(s, j2, n),
            }
        },
    }
}

/// Scans the entries of the `dependencies` map at `pos`: one or more
/// entries joined by commas.
fn scan_entries(s: &str, pos: usize, n: usize) -> (r: Option<(Vec<JsonDependency>, usize)>)
    requires
        pos <= n,
        n == s@.len(),
    ensures
        r matches Some(p) ==> pos < p.1 <= n && parse_entries(s@.skip(pos as int)) == Some(
            (p.0.deep_view(), s@.skip(p.1 as int)),
        ),
        r is None ==> parse_entries(s@.skip(pos as int)) is None,
{
    let mut out: Vec<JsonDependency> = Vec::new();
    let mut i: usize = pos;
    proof {
        assert(out.deep_view() =~= Seq::<DepView>::empty());
    }
    while i <= n
        invariant
            pos <= i <= n,
            n == s@.len(),
            match parse_entries(s@.skip(i as int)) {
                Some(p) => parse_entries(s@.skip(pos as int)) == Some(
                    (out.deep_view() + p.0, p.1),
                ),
                None => parse_entries(s@.skip(pos as int)) is None,
            },
        decreases n - i + 1,
    {
        let ghost su = s@.skip(i as int);
        match scan_entry(s, i, n) {
            None => {
                proof {
                    assert(parse_entries(su) is None);
                }
                return None;
            },
            Some((d, j)) => {
                let ghost su2 = s@.skip(j as int);
                let ghost out0: Seq<DepView> = out.deep_view();
                let ghost dv: DepView = d@;
                out.push(d);
                proof {
                    assert(out.deep_view() =~= out0.push(dv)) by {
                        assert forall|k: int|
                            0 <= k < out.deep_view().len() implies out.deep_view()[k] == out0.push(
                            dv,
                        )[k] by {
                            assert(out.deep_view()[k] == out@[k].deep_view());
                        }
                    }
                }
                if j < n {
                    proof {
                        assert(su2[0] == s@[j as int]);
                    }
                    let c = s.get_char(j);
                    if c == ',' {
                        proof {
                            lemma_skip_skip(s@, j as int, 1);
                            match parse_entries(s@.skip(j as int + 1)) {
                                Some(q) => {
                                    assert(parse_entries(su) == Some((seq![dv] + q.0, q.1)));
                                    assert(out0 + (seq![dv] + q.0) =~= out.deep_view() + q.0);
                                },
                                None => {
                                    assert(parse_entries(su) is None);
                                },
                            }
                        }
                        i = j + 1;
                    } else {
                        proof {
                            assert(parse_entries(su) == Some((seq![dv], su2)));
                            assert(out0 + seq![dv] =~= out.deep_view());
                        }
                        return Some((out, j));
                    }
                } else {
                    proof {
                        assert(su2.len() == 0);
                        assert(parse_entries(su) == Some((seq![dv], su2)));
                        assert(out0 + seq![dv] =~= out.deep_view());
                    }
                    return Some((out, j));
                }
            },
        }
    }
    proof {
        assert(false);
    }
    None
}

/// Reads a store document: the records it holds, or nothing when the text
/// is not a store document.
pub(crate) fn store_from_str(s: &str) -> (r: Option<Vec<JsonDependency>>)
    ensures
        parse_store(s@) matches Some(ds) ==> (r matches Some(v) && v.deep_view() == ds),
        parse_store(s@) is None ==> r is None,
{
    let n = s.unicode_len();
    proof {
        reveal_strlit("{\"dependencies\":{");
        reveal_strlit("}}");
        assert("{\"dependencies\":{"@ =~= lit_hdr());
        assert("}}"@ =~= lit_close());
        assert(s@.skip(0) =~= s@);
    }
    let pos = match expect_lit(s, 0, n, "{\"dependencies\":{") {
        Some(j) => j,
        None => {
            return None;
        },
    };
    let ghost r0 = s@.skip(pos as int);
    if pos < n && s.get_char(pos) == '"' {
        proof {
            assert(r0[0] == s@[pos as int]);
        }
        match scan_entries(s, pos, n) {
            None => None,
            Some((v, j)) => {
                match expect_lit(s, j, n, "}}") {
                    Some(k) => {
                        if k == n {
                            proof {
                                assert(s@.skip(k as int).len() == 0);
                            }
                            Some(v)
                        } else {
                            proof {
                                assert(s@.skip(k as int).len() > 0);
                            }
                            None
                        }
                    },
                    None => None,
                }
            },
        }
    } else {
        proof {
            if pos < n {
                assert(r0[0] == s@[pos as int]);
            } else {
                assert(r0.len() == 0);
            }
        }
        match expect_lit(s, pos, n, "}}") {
            Some(k) => {
                if k == n {
                    let out: Vec<JsonDependency> = Vec::new();
                    proof {
                        assert(s@.skip(k as int).len() == 0);
                        assert(out.deep_view() =~= Seq::<DepView>::empty());
                    }
                    Some(out)
                } else {
                    proof {
                        assert(s@.skip(k as int).len() > 0);
                    }
                    None
                }
            },
            None => None,
        }
    }
}

/// The records that a store file's text yields: those of a well-formed
/// document, and none otherwise.
pub open spec fn load_spec(t: Seq<char>) -> Seq<DepView> {
    match parse_store(t) {
        Some(s) => if crate::storage::wf_store(s) {
            s
        } else {
            Seq::empty()
        },
        None => Seq::empty(),
    }
}

/// Saving a loaded store reproduces the file: a well-formed store's
/// document loads back to the same records, so saving what was loaded
/// yields the same text, letter for letter.
pub proof fn lemma_save_load_save(s: Seq<DepView>)
    requires
        crate::storage::wf_store(s),
    ensures
        load_spec(render_store(s)) == s,
        render_store(load_spec(render_store(s))) == render_store(s),
{
    lemma_store_round_trip(s);
}

} // verus!
