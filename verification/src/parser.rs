//! Snippet text: classification of a Rust source file's lines into an
//! import block and a body, and the combination of snippets into one text.
//!
//! Reading files is the caller's task; everything here works on the lines
//! and paths it is handed.

use vstd::prelude::*;

verus! {

/// The whitespace that line trimming removes.
pub open spec fn is_ws(c: char) -> bool {
    c == ' ' || c == '\t' || c == '\n' || c == '\r'
}

/// `s` without leading whitespace.
pub open spec fn trim_start(s: Seq<char>) -> Seq<char>
    decreases s.len(),
{
    if s.len() > 0 && is_ws(s[0]) {
        trim_start(s.skip(1))
    } else {
        s
    }
}

/// `s` without trailing whitespace.
pub open spec fn trim_end(s: Seq<char>) -> Seq<char>
    decreases s.len(),
{
    if s.len() > 0 && is_ws(s[s.len() - 1]) {
        trim_end(s.take(s.len() - 1))
    } else {
        s
    }
}

/// `s` without leading and trailing whitespace.
pub open spec fn spec_trim(s: Seq<char>) -> Seq<char> {
    trim_end(trim_start(s))
}

/// Whether `s` begins with `p`.
pub open spec fn spec_starts_with(s: Seq<char>, p: Seq<char>) -> bool {
    p.len() <= s.len() && s.take(p.len() as int) == p
}

/// Whether `s` ends with `p`.
pub open spec fn spec_ends_with(s: Seq<char>, p: Seq<char>) -> bool {
    p.len() <= s.len() && s.skip(s.len() - p.len()) == p
}

proof fn lemma_trim_start_at(s: Seq<char>, i: int)
    requires
        0 <= i <= s.len(),
        forall|k: int| 0 <= k < i ==> is_ws(s[k]),
        i < s.len() ==> !is_ws(s[i]),
    ensures
        trim_start(s) == s.skip(i),
    decreases i,
{
    if i == 0 {
        assert(s.skip(0) =~= s);
    } else {
        assert(is_ws(s[0]));
        assert forall|k: int| 0 <= k < i - 1 implies is_ws(s.skip(1)[k]) by {
            assert(s.skip(1)[k] == s[k + 1]);
        }
        assert(i - 1 < s.skip(1).len() ==> !is_ws(s.skip(1)[i - 1]));
        lemma_trim_start_at(s.skip(1), i - 1);
        assert(s.skip(1).skip(i - 1) =~= s.skip(i));
    }
}

proof fn lemma_trim_end_at(s: Seq<char>, j: int)
    requires
        0 <= j <= s.len(),
        forall|k: int| j <= k < s.len() ==> is_ws(s[k]),
        j > 0 ==> !is_ws(s[j - 1]),
    ensures
        trim_end(s) == s.take(j),
    decreases s.len() - j,
{
    if j == s.len() {
        if s.len() > 0 && is_ws(s[s.len() - 1]) {
            assert(forall|k: int| j - 1 <= k < s.take(s.len() - 1).len() ==> is_ws(s[k]));
            assert(j > 0 ==> !is_ws(s[j - 1]));
            assert(false);
        }
        assert(s.take(j) =~= s);
    } else {
        assert(is_ws(s[s.len() - 1]));
        let t = s.take(s.len() - 1);
        assert forall|k: int| j <= k < t.len() implies is_ws(t[k]) by {
            assert(t[k] == s[k]);
        }
        assert(j > 0 ==> t[j - 1] == s[j - 1]);
        lemma_trim_end_at(t, j);
        assert(t.take(j) =~= s.take(j));
    }
}

/// Whether the character at `i` is whitespace.
fn ws_at(s: &str, i: usize) -> (b: bool)
    requires
        i < s@.len(),
    ensures
        b == is_ws(s@[i as int]),
{
    let c = s.get_char(i);
    c == ' ' || c == '\t' || c == '\n' || c == '\r'
}

/// `s` without leading and trailing whitespace.
pub(crate) fn trim_str<'a>(s: &'a str) -> (r: &'a str)
    ensures
        r@ == spec_trim(s@),
{
    let n = s.unicode_len();
    let mut i: usize = 0;
    while i < n && ws_at(s, i)
        invariant
            0 <= i <= n,
            n == s@.len(),
            forall|k: int| 0 <= k < i as int ==> is_ws(s@[k]),
        decreases n - i,
    {
        i = i + 1;
    }
    proof {
        lemma_trim_start_at(s@, i as int);
    }
    let mut j: usize = n;
    while j > i && ws_at(s, j - 1)
        invariant
            i <= j <= n,
            n == s@.len(),
            forall|k: int| 0 <= k < i as int ==> is_ws(s@[k]),
            forall|k: int| (j as int) <= k < n as int ==> is_ws(s@[k]),
        decreases j,
    {
        j = j - 1;
    }
    let r = s.substring_char(i, j);
    proof {
        let t = s@.skip(i as int);
        assert forall|k: int| (j - i) <= k < t.len() implies is_ws(t[k]) by {
            assert(t[k] == s@[k + i]);
        }
        if j > i {
            assert(t[j - i - 1] == s@[j as int - 1]);
            assert(!is_ws(t[j - i - 1]));
        }
        lemma_trim_end_at(t, j - i);
        assert(t.take(j - i) =~= s@.subrange(i as int, j as int));
    }
    r
}

/// Whether `s` begins with `p`.
pub(crate) fn starts_with_str(s: &str, p: &str) -> (b: bool)
    ensures
        b == spec_starts_with(s@, p@),
{
    let n = s.unicode_len();
    let m = p.unicode_len();
    if m > n {
        return false;
    }
    let mut j: usize = 0;
    while j < m
        invariant
            j <= m,
            m <= n,
            n == s@.len(),
            m == p@.len(),
            forall|k: int| 0 <= k < j as int ==> s@[k] == p@[k],
        decreases m - j,
    {
        if s.get_char(j) != p.get_char(j) {
            proof {
                assert(s@.take(m as int)[j as int] == s@[j as int]);
            }
            return false;
        }
        j = j + 1;
    }
    proof {
        assert(s@.take(m as int) =~= p@);
    }
    true
}

/// Whether `s` ends with `p`.
pub(crate) fn ends_with_str(s: &str, p: &str) -> (b: bool)
    ensures
        b == spec_ends_with(s@, p@),
{
    let n = s.unicode_len();
    let m = p.unicode_len();
    if m > n {
        return false;
    }
    let mut j: usize = 0;
    while j < m
        invariant
            j <= m,
            m <= n,
            n == s@.len(),
            m == p@.len(),
            forall|k: int| 0 <= k < j as int ==> s@[n - m + k] == p@[k],
        decreases m - j,
    {
        if s.get_char(n - m + j) != p.get_char(j) {
            proof {
                assert(s@.skip(n as int - m as int)[j as int] == s@[n - m + j]);
            }
            return false;
        }
        j = j + 1;
    }
    proof {
        assert(s@.skip(n as int - m as int) =~= p@);
    }
    true
}

/// Lines joined by single newlines.
pub open spec fn join_lines(ls: Seq<Seq<char>>) -> Seq<char>
    decreases ls.len(),
{
    if ls.len() == 0 {
        Seq::empty()
    } else if ls.len() == 1 {
        ls[0]
    } else {
        ls[0] + seq!['\n'] + join_lines(ls.skip(1))
    }
}

proof fn lemma_join_snoc(ls: Seq<Seq<char>>, l: Seq<char>)
    ensures
        join_lines(ls.push(l)) == if ls.len() == 0 {
            l
        } else {
            join_lines(ls) + seq!['\n'] + l
        },
    decreases ls.len(),
{
    if ls.len() == 0 {
        assert(ls.push(l).len() == 1);
        assert(ls.push(l)[0] == l);
    } else {
        assert(ls.push(l)[0] == ls[0]);
        assert(ls.push(l).skip(1) =~= ls.skip(1).push(l));
        lemma_join_snoc(ls.skip(1), l);
        if ls.len() == 1 {
            assert(join_lines(ls.push(l)) == ls[0] + seq!['\n'] + l);
            assert(join_lines(ls) + seq!['\n'] + l =~= ls[0] + seq!['\n'] + l);
        } else {
            assert(join_lines(ls.push(l)) == ls[0] + seq!['\n'] + (join_lines(ls.skip(1))
                + seq!['\n'] + l));
            assert(ls[0] + seq!['\n'] + (join_lines(ls.skip(1)) + seq!['\n'] + l) =~= (ls[0]
                + seq!['\n'] + join_lines(ls.skip(1))) + seq!['\n'] + l);
        }
    }
}

/// Joins lines with single newlines.
pub(crate) fn join_with_newlines(v: &Vec<String>) -> (r: String)
    ensures
        r@ == join_lines(v.deep_view()),
{
    let ghost lv: Seq<Seq<char>> = v.deep_view();
    let mut r = String::new();
    proof {
        assert(lv.take(0) =~= Seq::<Seq<char>>::empty());
    }
    let mut i: usize = 0;
    while i < v.len()
        invariant
            i <= v@.len(),
            lv == v.deep_view(),
            lv.len() == v@.len(),
            r@ == join_lines(lv.take(i as int)),
        decreases v@.len() - i,
    {
        if i > 0 {
            r.append("\n");
        }
        r.append(v[i].as_str());
        proof {
            reveal_strlit("\n");
            assert(lv[i as int] == v@[i as int]@);
            assert(lv.take(i as int).push(lv[i as int]) =~= lv.take(i + 1));
            lemma_join_snoc(lv.take(i as int), lv[i as int]);
            assert(r@ =~= join_lines(lv.take(i + 1)));
        }
        i = i + 1;
    }
    proof {
        assert(lv.take(lv.len() as int) =~= lv);
    }
    r
}


pub(crate) proof fn lemma_vec_deep_view<T: DeepView>(v: Vec<T>)
    ensures
        v.deep_view().len() == v@.len(),
        forall|k: int| 0 <= k < v@.len() ==> v.deep_view()[k] == v@[k].deep_view(),
{
}

/// A code snippet: its `use` lines and the rest of the file.
#[derive(Debug)]
pub struct SnippetEntity {
    /// The snippet's import lines, joined by newlines; `None` when it has
    /// none.
    imports: Option<String>,
    /// The snippet's remaining lines, joined by newlines; `None` when it
    /// has none.
    body: Option<String>,
}

/// Mathematical model of a [`SnippetEntity`].
pub struct SnipView {
    pub imports: Option<Seq<char>>,
    pub body: Option<Seq<char>>,
}

impl View for SnippetEntity {
    type V = SnipView;

    closed spec fn view(&self) -> SnipView {
        SnipView { imports: self.imports.deep_view(), body: self.body.deep_view() }
    }
}

impl DeepView for SnippetEntity {
    type V = SnipView;

    open spec fn deep_view(&self) -> SnipView {
        self.view()
    }
}

/// Sorts lines into import lines and body lines, in order. Until real code
/// is seen, a line whose trimmed text starts with `use` is an import; one
/// that ends with `{` opens an import block that runs to a line ending in
/// `};`. The first other line and everything after it is the body.
pub open spec fn classify(lines: Seq<Seq<char>>, found_code: bool, in_imp: bool) -> (
    Seq<Seq<char>>,
    Seq<Seq<char>>,
)
    decreases lines.len(),
{
    if lines.len() == 0 {
        (Seq::empty(), Seq::empty())
    } else {
        let l = lines[0];
        let tl = spec_trim(l);
        if found_code {
            let r = classify(lines.skip(1), true, in_imp);
            (r.0, seq![l] + r.1)
        } else if in_imp {
            let r = classify(lines.skip(1), false, !spec_ends_with(tl, seq!['}', ';']));
            (seq![l] + r.0, r.1)
        } else if spec_starts_with(tl, seq!['u', 's', 'e']) {
            let r = classify(lines.skip(1), false, spec_ends_with(tl, seq!['{']));
            (seq![l] + r.0, r.1)
        } else {
            let r = classify(lines.skip(1), true, false);
            (r.0, seq![l] + r.1)
        }
    }
}

/// The snippet that a file's lines yield: the import lines and the body
/// lines, each joined by newlines, each absent when empty.
pub open spec fn snippet_of_lines(lines: Seq<Seq<char>>) -> SnipView {
    let c = classify(lines, false, false);
    SnipView {
        imports: if c.0.len() == 0 {
            None
        } else {
            Some(join_lines(c.0))
        },
        body: if c.1.len() == 0 {
            None
        } else {
            Some(join_lines(c.1))
        },
    }
}

/// A snippet's whole text: the imports, a blank line, the body; either
/// part simply absent when the snippet has none.
pub open spec fn snippet_text(v: SnipView) -> Seq<char> {
    (match v.imports {
        Some(i) => i + seq!['\n', '\n'],
        None => Seq::empty(),
    }) + (match v.body {
        Some(b) => b,
        None => Seq::empty(),
    })
}

impl SnippetEntity {
    /// Reads a snippet out of a file's lines.
    pub fn from_lines(lines: &Vec<String>) -> (r: SnippetEntity)
        ensures
            r@ == snippet_of_lines(lines.deep_view()),
    {
        let ghost lv: Seq<Seq<char>> = lines.deep_view();
        let mut imports: Vec<String> = Vec::new();
        let mut body: Vec<String> = Vec::new();
        let mut found_code = false;
        let mut in_imp = false;
        let mut i: usize = 0;
        proof {
            reveal_strlit("use");
            reveal_strlit("};");
            reveal_strlit("{");
            assert("use"@ =~= seq!['u', 's', 'e']);
            assert("};"@ =~= seq!['}', ';']);
            assert("{"@ =~= seq!['{']);
            assert(imports.deep_view() =~= Seq::<Seq<char>>::empty());
            assert(body.deep_view() =~= Seq::<Seq<char>>::empty());
            assert(lv.skip(0) =~= lv);
        }
        while i < lines.len()
            invariant
                i <= lines@.len(),
                lv == lines.deep_view(),
                lv.len() == lines@.len(),
                classify(lv, false, false) == (
                    imports.deep_view() + classify(lv.skip(i as int), found_code, in_imp).0,
                    body.deep_view() + classify(lv.skip(i as int), found_code, in_imp).1,
                ),
            decreases lines@.len() - i,
        {
            let ghost su = lv.skip(i as int);
            let ghost fc0 = found_code;
            let ghost imp0 = in_imp;
            let ghost iv0 = imports.deep_view();
            let ghost bv0 = body.deep_view();
            let ghost iq0 = imports@;
            let ghost bq0 = body@;
            proof {
                lemma_vec_deep_view(imports);
                lemma_vec_deep_view(body);
                assert(su[0] == lv[i as int]);
                assert(lv[i as int] == lines@[i as int]@);
                assert(su.skip(1) =~= lv.skip(i as int + 1));
            }
            let l = &lines[i];
            let tl = trim_str(l.as_str());
            if found_code {
                body.push(l.clone());
            } else if in_imp {
                imports.push(l.clone());
                in_imp = !ends_with_str(tl, "};");
            } else if starts_with_str(tl, "use") {
                imports.push(l.clone());
                in_imp = ends_with_str(tl, "{");
            } else {
                body.push(l.clone());
                found_code = true;
            }
            i = i + 1;
            proof {
                reveal_strlit("use");
                reveal_strlit("};");
                reveal_strlit("{");
                assert("use"@ =~= seq!['u', 's', 'e']);
                assert("};"@ =~= seq!['}', ';']);
                assert("{"@ =~= seq!['{']);
                lemma_vec_deep_view(imports);
                lemma_vec_deep_view(body);
                let r = classify(lv.skip(i as int), found_code, in_imp);
                if fc0 {
                    assert(body@ == bq0.push(lines@[i as int - 1]));
                    assert(body.deep_view() =~= bv0.push(su[0]));
                    assert(imports.deep_view() == iv0);
                    assert(classify(su, fc0, imp0) == (r.0, seq![su[0]] + r.1));
                    assert(bv0 + (seq![su[0]] + r.1) =~= body.deep_view() + r.1);
                } else if imp0 {
                    assert(imports@ == iq0.push(lines@[i as int - 1]));
                    assert(imports.deep_view() =~= iv0.push(su[0]));
                    assert(body.deep_view() == bv0);
                    assert(classify(su, fc0, imp0) == (seq![su[0]] + r.0, r.1));
                    assert(iv0 + (seq![su[0]] + r.0) =~= imports.deep_view() + r.0);
                } else if spec_starts_with(spec_trim(su[0]), seq!['u', 's', 'e']) {
                    assert(imports@ == iq0.push(lines@[i as int - 1]));
                    assert(imports.deep_view() =~= iv0.push(su[0]));
                    assert(body.deep_view() == bv0);
                    assert(classify(su, fc0, imp0) == (seq![su[0]] + r.0, r.1));
                    assert(iv0 + (seq![su[0]] + r.0) =~= imports.deep_view() + r.0);
                } else {
                    assert(body@ == bq0.push(lines@[i as int - 1]));
                    assert(body.deep_view() =~= bv0.push(su[0]));
                    assert(imports.deep_view() == iv0);
                    assert(classify(su, fc0, imp0) == (r.0, seq![su[0]] + r.1));
                    assert(bv0 + (seq![su[0]] + r.1) =~= body.deep_view() + r.1);
                }
            }
        }
        proof {
            assert(lv.skip(lv.len() as int).len() == 0);
            let r = classify(lv.skip(lv.len() as int), found_code, in_imp);
            assert(r.0 =~= Seq::<Seq<char>>::empty());
            assert(r.1 =~= Seq::<Seq<char>>::empty());
            assert(imports.deep_view() + r.0 =~= imports.deep_view());
            assert(body.deep_view() + r.1 =~= body.deep_view());
        }
        let imports_o: Option<String> = if imports.len() == 0 {
            proof {
                assert(imports.deep_view().len() == 0);
            }
            None
        } else {
            Some(join_with_newlines(&imports))
        };
        let body_o: Option<String> = if body.len() == 0 {
            proof {
                assert(body.deep_view().len() == 0);
            }
            None
        } else {
            Some(join_with_newlines(&body))
        };
        SnippetEntity { imports: imports_o, body: body_o }
    }

    /// The snippet's whole text: imports, a blank line, the body.
    pub fn to_text(&self) -> (r: String)
        ensures
            r@ == snippet_text(self@),
    {
        let mut r = String::new();
        match &self.imports {
            Some(imp) => {
                r.append(imp.as_str());
                r.append("\n\n");
                proof {
                    reveal_strlit("\n\n");
                    assert(r@ =~= imp@ + seq!['\n', '\n']);
                }
            },
            None => {},
        }
        match &self.body {
            Some(b) => {
                r.append(b.as_str());
            },
            None => {},
        }
        proof {
            assert(r@ =~= snippet_text(self@));
        }
        r
    }
}

/// The import texts of the snippets that have one, in order.
pub open spec fn collect_imports(es: Seq<SnipView>) -> Seq<Seq<char>>
    decreases es.len(),
{
    if es.len() == 0 {
        Seq::empty()
    } else {
        (match es[0].imports {
            Some(i) => seq![i],
            None => Seq::empty(),
        }) + collect_imports(es.skip(1))
    }
}

/// The body texts of the snippets that have one, in order.
pub open spec fn collect_bodies(es: Seq<SnipView>) -> Seq<Seq<char>>
    decreases es.len(),
{
    if es.len() == 0 {
        Seq::empty()
    } else {
        (match es[0].body {
            Some(b) => seq![b],
            None => Seq::empty(),
        }) + collect_bodies(es.skip(1))
    }
}

/// What combining snippets yields: nothing when no snippet has a body;
/// otherwise all imports joined by newlines, a blank line, and all bodies
/// joined by newlines.
pub open spec fn spec_load_from_deps(es: Seq<SnipView>) -> Option<Seq<char>> {
    if collect_bodies(es).len() == 0 {
        None
    } else {
        Some(join_lines(collect_imports(es)) + seq!['\n', '\n'] + join_lines(collect_bodies(es)))
    }
}

proof fn lemma_collect_snoc(es: Seq<SnipView>, e: SnipView)
    ensures
        collect_imports(es.push(e)) == collect_imports(es) + (match e.imports {
            Some(i) => seq![i],
            None => Seq::<Seq<char>>::empty(),
        }),
        collect_bodies(es.push(e)) == collect_bodies(es) + (match e.body {
            Some(b) => seq![b],
            None => Seq::<Seq<char>>::empty(),
        }),
    decreases es.len(),
{
    let iw: Seq<Seq<char>> = match e.imports {
        Some(i) => seq![i],
        None => Seq::empty(),
    };
    let bw: Seq<Seq<char>> = match e.body {
        Some(b) => seq![b],
        None => Seq::empty(),
    };
    if es.len() == 0 {
        let tail = es.push(e).skip(1);
        assert(es.push(e)[0] == e);
        assert(tail =~= Seq::<SnipView>::empty());
        assert(collect_imports(tail) == Seq::<Seq<char>>::empty());
        assert(collect_bodies(tail) == Seq::<Seq<char>>::empty());
        assert(collect_imports(es.push(e)) == iw + collect_imports(tail));
        assert(collect_bodies(es.push(e)) == bw + collect_bodies(tail));
        assert(iw + Seq::<Seq<char>>::empty() =~= collect_imports(es) + iw);
        assert(bw + Seq::<Seq<char>>::empty() =~= collect_bodies(es) + bw);
    } else {
        let iw0: Seq<Seq<char>> = match es[0].imports {
            Some(i) => seq![i],
            None => Seq::empty(),
        };
        let bw0: Seq<Seq<char>> = match es[0].body {
            Some(b) => seq![b],
            None => Seq::empty(),
        };
        assert(es.push(e)[0] == es[0]);
        assert(es.push(e).skip(1) =~= es.skip(1).push(e));
        lemma_collect_snoc(es.skip(1), e);
        assert(collect_imports(es.push(e)) == iw0 + collect_imports(es.skip(1).push(e)));
        assert(collect_bodies(es.push(e)) == bw0 + collect_bodies(es.skip(1).push(e)));
        assert(collect_imports(es) == iw0 + collect_imports(es.skip(1)));
        assert(collect_bodies(es) == bw0 + collect_bodies(es.skip(1)));
        assert(iw0 + (collect_imports(es.skip(1)) + iw) =~= (iw0 + collect_imports(es.skip(1)))
            + iw);
        assert(bw0 + (collect_bodies(es.skip(1)) + bw) =~= (bw0 + collect_bodies(es.skip(1)))
            + bw);
    }
}

/// Combines the snippets linked to a project's dependencies into one text:
/// nothing when no snippet has a body; otherwise every import block, a
/// blank line, then every body.
pub fn load_from_deps(snippets: &Vec<SnippetEntity>) -> (r: Option<String>)
    ensures
        r.deep_view() == spec_load_from_deps(snippets.deep_view()),
{
    let ghost ev: Seq<SnipView> = snippets.deep_view();
    let mut all_imports: Vec<String> = Vec::new();
    let mut all_bodies: Vec<String> = Vec::new();
    let mut i: usize = 0;
    proof {
        assert(all_imports.deep_view() =~= Seq::<Seq<char>>::empty());
        assert(all_bodies.deep_view() =~= Seq::<Seq<char>>::empty());
        assert(collect_imports(ev.take(0)) =~= Seq::<Seq<char>>::empty());
        assert(collect_bodies(ev.take(0)) =~= Seq::<Seq<char>>::empty());
    }
    while i < snippets.len()
        invariant
            i <= snippets@.len(),
            ev == snippets.deep_view(),
            ev.len() == snippets@.len(),
            all_imports.deep_view() == collect_imports(ev.take(i as int)),
            all_bodies.deep_view() == collect_bodies(ev.take(i as int)),
        decreases snippets@.len() - i,
    {
        let ghost iv0 = all_imports.deep_view();
        let ghost bv0 = all_bodies.deep_view();
        let ghost iq0 = all_imports@;
        let ghost bq0 = all_bodies@;
        proof {
            lemma_vec_deep_view(all_imports);
            lemma_vec_deep_view(all_bodies);
            assert(ev[i as int] == snippets@[i as int]@);
            assert(ev.take(i as int).push(ev[i as int]) =~= ev.take(i + 1));
            lemma_collect_snoc(ev.take(i as int), ev[i as int]);
        }
        match &snippets[i].imports {
            Some(imp) => {
                all_imports.push(imp.clone());
                proof {
                    lemma_vec_deep_view(all_imports);
                    assert(all_imports.deep_view() =~= iv0.push(imp@));
                    assert(iv0.push(imp@) =~= iv0 + seq![imp@]);
                    assert(all_imports.deep_view() =~= collect_imports(ev.take(i + 1)));
                }
            },
            None => {
                proof {
                    assert(iv0 + Seq::<Seq<char>>::empty() =~= iv0);
                    assert(all_imports.deep_view() =~= collect_imports(ev.take(i + 1)));
                }
            },
        }
        match &snippets[i].body {
            Some(b) => {
                all_bodies.push(b.clone());
                proof {
                    lemma_vec_deep_view(all_bodies);
                    assert(all_bodies.deep_view() =~= bv0.push(b@));
                    assert(bv0.push(b@) =~= bv0 + seq![b@]);
                    assert(all_bodies.deep_view() =~= collect_bodies(ev.take(i + 1)));
                }
            },
            None => {
                proof {
                    assert(bv0 + Seq::<Seq<char>>::empty() =~= bv0);
                    assert(all_bodies.deep_view() =~= collect_bodies(ev.take(i + 1)));
                }
            },
        }
        i = i + 1;
    }
    proof {
        assert(ev.take(ev.len() as int) =~= ev);
    }
    if all_bodies.len() == 0 {
        proof {
            assert(all_bodies.deep_view().len() == 0);
        }
        None
    } else {
        let mut r = join_with_newlines(&all_imports);
        r.append("\n\n");
        let bodies = join_with_newlines(&all_bodies);
        r.append(bodies.as_str());
        proof {
            reveal_strlit("\n\n");
            assert(r@ =~= join_lines(collect_imports(ev)) + seq!['\n', '\n'] + join_lines(
                collect_bodies(ev),
            ));
        }
        Some(r)
    }
}


/// The position of the last `c` in `s`; `-1` when there is none.
pub open spec fn last_index_of(s: Seq<char>, c: char) -> int
    decreases s.len(),
{
    if s.len() == 0 {
        -1
    } else if s[s.len() - 1] == c {
        s.len() - 1
    } else {
        last_index_of(s.take(s.len() - 1), c)
    }
}

/// The extension of the file a path names: what follows the last dot of
/// the file name, unless that dot begins the name; `None` when the name
/// has no such dot.
pub open spec fn path_extension(s: Seq<char>) -> Option<Seq<char>> {
    let slash = last_index_of(s, '/');
    let dot = last_index_of(s, '.');
    if dot > slash + 1 {
        Some(s.skip(dot + 1))
    } else {
        None
    }
}

/// Checks that a path names a Rust source file. A path whose file name has
/// no extension is reported as an empty file, one with another extension
/// as not supported; both errors carry the path.
pub fn check_snippet_path(path: &str) -> (r: Result<(), crate::error::LimpError>)
    ensures
        r is Ok <==> path_extension(path@) == Some(seq!['r', 's']),
        path_extension(path@) is None ==> (r matches Err(e) && (e matches
        crate::error::LimpError::EmptyFile(m) && m@ == path@)),
        path_extension(path@) matches Some(x) ==> (x != seq!['r', 's'] ==> (r matches Err(e) && (
        e matches crate::error::LimpError::NotSupported(m) && m@ == "file extension: "@ + path@))),
{
    let n = path.unicode_len();
    let mut slash: Option<usize> = None;
    let mut dot: Option<usize> = None;
    let mut k: usize = 0;
    proof {
        assert(path@.take(0) =~= Seq::<char>::empty());
    }
    while k < n
        invariant
            k <= n,
            n == path@.len(),
            match slash {
                Some(v) => v < k && last_index_of(path@.take(k as int), '/') == v as int,
                None => last_index_of(path@.take(k as int), '/') == -1,
            },
            match dot {
                Some(v) => v < k && last_index_of(path@.take(k as int), '.') == v as int,
                None => last_index_of(path@.take(k as int), '.') == -1,
            },
        decreases n - k,
    {
        let c = path.get_char(k);
        proof {
            let t = path@.take(k as int + 1);
            assert(t[t.len() - 1] == path@[k as int]);
            assert(t.take(t.len() - 1) =~= path@.take(k as int));
        }
        if c == '/' {
            slash = Some(k);
        }
        if c == '.' {
            dot = Some(k);
        }
        k = k + 1;
    }
    proof {
        assert(path@.take(n as int) =~= path@);
    }
    let slash_end: usize = match slash {
        Some(v) => v + 1,
        None => 0,
    };
    match dot {
        Some(d) => {
            if d > slash_end {
                let ext = path.substring_char(d + 1, n);
                proof {
                    assert(ext@ =~= path@.skip(d as int + 1));
                    reveal_strlit("rs");
                    assert("rs"@ =~= seq!['r', 's']);
                }
                if str_eq(ext, "rs") {
                    Ok(())
                } else {
                    let mut m = String::from_str("file extension: ");
                    m.append(path);
                    Err(crate::error::LimpError::NotSupported(m))
                }
            } else {
                let m = String::from_str(path);
                Err(crate::error::LimpError::EmptyFile(m))
            }
        },
        None => {
            let m = String::from_str(path);
            Err(crate::error::LimpError::EmptyFile(m))
        },
    }
}

/// Whether two texts are equal, letter for letter.
pub(crate) fn str_eq(a: &str, b: &str) -> (r: bool)
    ensures
        r == (a@ == b@),
{
    let n = a.unicode_len();
    let m = b.unicode_len();
    if n != m {
        return false;
    }
    proof {
        assert(a@.take(m as int) =~= a@);
    }
    starts_with_str(a, b)
}


/// Whether `p` occurs in `s` as a contiguous run.
pub open spec fn spec_contains(s: Seq<char>, p: Seq<char>) -> bool {
    exists|i: int| 0 <= i <= s.len() - p.len() && #[trigger] s.subrange(i, i + p.len()) == p
}

/// Whether `p` occurs in `s`.
pub(crate) fn contains_str(s: &str, p: &str) -> (b: bool)
    ensures
        b == spec_contains(s@, p@),
{
    let n = s.unicode_len();
    let m = p.unicode_len();
    if m > n {
        return false;
    }
    if m == 0 {
        proof {
            assert(s@.subrange(0, 0 + p@.len() as int) =~= p@);
            assert(spec_contains(s@, p@));
        }
        return true;
    }
    let mut i: usize = 0;
    while i <= n - m
        invariant
            i <= n - m + 1,
            1 <= m <= n,
            n == s@.len(),
            m == p@.len(),
            forall|j: int| 0 <= j < i as int ==> #[trigger] s@.subrange(j, j + p@.len()) != p@,
        decreases n - i,
    {
        let piece = s.substring_char(i, i + m);
        if str_eq(piece, p) {
            proof {
                assert(s@.subrange(i as int, i as int + p@.len()) == p@);
            }
            return true;
        }
        i = i + 1;
    }
    false
}

} // verus!
