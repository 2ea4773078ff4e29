//! Dependency records and the keyed record store.
//!
//! A [`JsonDependency`] is one validated dependency: its name, its resolved
//! version, the features that were verified against that version, and the
//! managed location of a linked snippet, if any. A [`JsonStorage`] holds at
//! most one record per name.

use vstd::prelude::*;

use crate::crates::clone_opt_string_vec;
use crate::crates::clone_string_vec;
use crate::crates::features_ok;
use crate::crates::lemma_version_idx_at;
use crate::crates::spec_dec;
use crate::crates::version_idx;
use crate::crates::version_listed;
use crate::crates::CratesIoDependency;
use crate::crates::MetadataView;
use crate::crates::Version;
use crate::crates::VersionView;
use crate::error::LimpError;

verus! {

/// What became of the snippet named alongside a new dependency: the outcome
/// of looking the snippet file up, reading it, and copying its text into
/// the managed snippet directory. The caller performs those steps and hands
/// the outcome in; record creation decides from it alone. Every outcome but
/// a successful copy fails record creation: no failure on the snippet is
/// swallowed.
#[derive(Debug)]
pub enum SnippetOutcome {
    /// No file exists at the given path.
    Missing(String),
    /// Reading or parsing the snippet file failed with this error.
    ParseFailed(LimpError),
    /// The snippet text now sits at this managed location.
    Stored(String),
    /// A managed snippet of this name already exists; it is not
    /// overwritten.
    Exists(String),
    /// Copying into the managed snippet directory failed with this error.
    StoreFailed(LimpError),
}

/// Whether the snippet outcome stops record creation: every outcome does,
/// except a successful copy.
pub open spec fn snippet_blocked(s: Option<SnippetOutcome>) -> bool {
    match s {
        Some(SnippetOutcome::Stored(_)) => false,
        Some(_) => true,
        None => false,
    }
}

/// The snippet location a record created under this outcome carries.
pub open spec fn spec_snippet_path(s: Option<SnippetOutcome>) -> Option<Seq<char>> {
    match s {
        Some(SnippetOutcome::Stored(p)) => Some(p@),
        _ => None,
    }
}

/// Whether version resolution succeeds: a requested version must be listed
/// in the metadata, and without a request the metadata must list at least
/// one version.
pub open spec fn resolution_ok(m: MetadataView, req: Option<Seq<char>>) -> bool {
    match req {
        Some(v) => version_listed(m.versions, v),
        None => m.versions.len() > 0,
    }
}

/// The version that a request resolves to: the first listed version with
/// the requested number, or the latest (first) version without a request.
/// Meaningful only when `resolution_ok` holds.
pub open spec fn spec_resolved(m: MetadataView, req: Option<Seq<char>>) -> VersionView {
    match req {
        Some(v) => m.versions[version_idx(m.versions, v)],
        None => m.versions[0],
    }
}

/// A validated dependency record.
#[derive(Debug)]
pub struct JsonDependency {
    /// The name of the dependency; the key within the store.
    pub name: String,
    /// The resolved version of the dependency.
    pub version: String,
    /// Features enabled for the dependency, verified against the resolved
    /// version when the record was created.
    pub features: Option<Vec<String>>,
    /// Managed location of the snippet linked to the dependency.
    pub path_to_snippet: Option<String>,
}

/// Mathematical model of a [`JsonDependency`].
pub struct DepView {
    pub name: Seq<char>,
    pub version: Seq<char>,
    pub features: Option<Seq<Seq<char>>>,
    pub path_to_snippet: Option<Seq<char>>,
}

impl View for JsonDependency {
    type V = DepView;

    open spec fn view(&self) -> DepView {
        DepView {
            name: self.name@,
            version: self.version@,
            features: self.features.deep_view(),
            path_to_snippet: self.path_to_snippet.deep_view(),
        }
    }
}

impl DeepView for JsonDependency {
    type V = DepView;

    open spec fn deep_view(&self) -> DepView {
        self.view()
    }
}

impl Clone for JsonDependency {
    /// Clones the record, keeping its value.
    fn clone(&self) -> (res: Self)
        ensures
            res@ == self@,
    {
        JsonDependency {
            name: self.name.clone(),
            version: self.version.clone(),
            features: clone_opt_string_vec(&self.features),
            path_to_snippet: match &self.path_to_snippet {
                Some(p) => Some(p.clone()),
                None => None,
            },
        }
    }
}

/// A feature name between double quotes, as a manifest line holds it.
pub open spec fn spec_feature_item(f: Seq<char>) -> Seq<char> {
    seq!['"'] + f + seq!['"']
}

/// Quoted feature names joined by a comma and a space.
pub open spec fn spec_feature_list(fs: Seq<Seq<char>>) -> Seq<char>
    decreases fs.len(),
{
    if fs.len() == 0 {
        Seq::empty()
    } else if fs.len() == 1 {
        spec_feature_item(fs[0])
    } else {
        spec_feature_item(fs[0]) + ", "@ + spec_feature_list(fs.skip(1))
    }
}

/// The manifest line for a record: `name = "version"` without features,
/// `name = { version = "version", features = ["f1", "f2"] }` with them.
pub open spec fn spec_manifest_line(d: DepView) -> Seq<char> {
    match d.features {
        Some(fs) => d.name + " = { version = \""@ + d.version + "\", features = ["@
            + spec_feature_list(fs) + "] }"@,
        None => d.name + " = \""@ + d.version + "\""@,
    }
}

proof fn lemma_feature_list_snoc(fs: Seq<Seq<char>>, f: Seq<char>)
    ensures
        spec_feature_list(fs.push(f)) == if fs.len() == 0 {
            spec_feature_item(f)
        } else {
            spec_feature_list(fs) + ", "@ + spec_feature_item(f)
        },
    decreases fs.len(),
{
    if fs.len() == 0 {
        assert(fs.push(f).len() == 1);
        assert(fs.push(f)[0] == f);
    } else {
        assert(fs.push(f).skip(1) =~= fs.skip(1).push(f));
        lemma_feature_list_snoc(fs.skip(1), f);
        assert(fs.push(f)[0] == fs[0]);
        if fs.len() == 1 {
            assert(spec_feature_list(fs.push(f)) == spec_feature_item(fs[0]) + ", "@
                + spec_feature_item(f));
            assert(spec_feature_list(fs) + ", "@ + spec_feature_item(f) =~= spec_feature_item(
                fs[0],
            ) + ", "@ + spec_feature_item(f));
        } else {
            assert(spec_feature_list(fs.push(f)) == spec_feature_item(fs[0]) + ", "@ + (
            spec_feature_list(fs.skip(1)) + ", "@ + spec_feature_item(f)));
            assert(spec_feature_item(fs[0]) + ", "@ + (spec_feature_list(fs.skip(1)) + ", "@
                + spec_feature_item(f)) =~= (spec_feature_item(fs[0]) + ", "@ + spec_feature_list(
                fs.skip(1),
            )) + ", "@ + spec_feature_item(f));
        }
    }
}

impl JsonDependency {
    /// Renders the record as one manifest line.
    pub fn display_string(&self) -> (r: String)
        ensures
            r@ == spec_manifest_line(self@),
    {
        match &self.features {
            Some(fs) => {
                let ghost fsv: Seq<Seq<char>> = fs.deep_view();
                let mut r = self.name.clone();
                r.append(" = { version = \"");
                r.append(self.version.as_str());
                r.append("\", features = [");
                let ghost head: Seq<char> = self.name@ + " = { version = \""@ + self.version@
                    + "\", features = ["@;
                proof {
                    assert(r@ =~= head + spec_feature_list(fsv.take(0)));
                }
                let mut i: usize = 0;
                while i < fs.len()
                    invariant
                        i <= fs@.len(),
                        fsv == fs.deep_view(),
                        fsv.len() == fs@.len(),
                        head == self.name@ + " = { version = \""@ + self.version@
                            + "\", features = ["@,
                        r@ == head + spec_feature_list(fsv.take(i as int)),
                    decreases fs@.len() - i,
                {
                    if i > 0 {
                        r.append(", ");
                    }
                    r.append("\"");
                    r.append(fs[i].as_str());
                    r.append("\"");
                    proof {
                        reveal_strlit("\"");
                        assert(fsv[i as int] == fs@[i as int]@);
                        assert(fsv.take(i as int).push(fsv[i as int]) =~= fsv.take(i + 1));
                        lemma_feature_list_snoc(fsv.take(i as int), fsv[i as int]);
                        assert("\""@ =~= seq!['"']);
                        if i == 0 {
                            assert(r@ =~= head + spec_feature_list(fsv.take(i + 1)));
                        } else {
                            assert(r@ =~= head + spec_feature_list(fsv.take(i + 1)));
                        }
                    }
                    i = i + 1;
                }
                r.append("] }");
                proof {
                    assert(fsv.take(fsv.len() as int) =~= fsv);
                    assert(r@ =~= spec_manifest_line(self@));
                }
                r
            },
            None => {
                let mut r = self.name.clone();
                r.append(" = \"");
                r.append(self.version.as_str());
                r.append("\"");
                proof {
                    assert(r@ =~= spec_manifest_line(self@));
                }
                r
            },
        }
    }
}

/// Whether `avail` holds a string equal to `x`.
fn vec_contains_string(avail: &Vec<String>, x: &String) -> (b: bool)
    ensures
        b == avail.deep_view().contains(x@),
{
    let mut j: usize = 0;
    while j < avail.len()
        invariant
            j <= avail@.len(),
            avail.deep_view().len() == avail@.len(),
            forall|l: int| 0 <= l < j as int ==> avail.deep_view()[l] != x@,
        decreases avail@.len() - j,
    {
        proof {
            assert(avail.deep_view()[j as int] == avail@[j as int]@);
        }
        if avail[j].eq(x) {
            proof {
                assert(avail.deep_view()[j as int] == x@);
            }
            return true;
        }
        j = j + 1;
    }
    proof {
        assert forall|l: int| 0 <= l < avail.deep_view().len() implies avail.deep_view()[l]
            != x@ by {}
    }
    false
}

/// Whether every string in `req` also stands in `avail`.
fn all_features_present(req: &Vec<String>, avail: &Vec<String>) -> (b: bool)
    ensures
        b == (forall|i: int|
            0 <= i < req.deep_view().len() ==> avail.deep_view().contains(req.deep_view()[i])),
{
    let mut i: usize = 0;
    while i < req.len()
        invariant
            i <= req@.len(),
            req.deep_view().len() == req@.len(),
            forall|k: int| 0 <= k < i as int ==> avail.deep_view().contains(req.deep_view()[k]),
        decreases req@.len() - i,
    {
        proof {
            assert(req.deep_view()[i as int] == req@[i as int]@);
        }
        if !vec_contains_string(avail, &req[i]) {
            return false;
        }
        i = i + 1;
    }
    true
}

/// The position of the first version in `meta` whose number equals `v`.
fn find_version_index(meta: &CratesIoDependency, v: &str) -> (r: Option<usize>)
    ensures
        r is Some <==> version_listed(meta@.versions, v@),
        r matches Some(i) ==> 0 <= (i as int) < meta@.versions.len() && i as int == version_idx(
            meta@.versions,
            v@,
        ) && meta@.versions[i as int].num == v@,
{
    let vkey = String::from_str(v);
    let mut i: usize = 0;
    while i < meta.versions.len()
        invariant
            i <= meta.versions@.len(),
            vkey@ == v@,
            meta@.versions.len() == meta.versions@.len(),
            forall|j: int| 0 <= j < i as int ==> meta@.versions[j].num != v@,
        decreases meta.versions@.len() - i,
    {
        proof {
            assert(meta@.versions[i as int] == meta.versions@[i as int]@);
        }
        if meta.versions[i].num == vkey {
            proof {
                lemma_version_idx_at(meta@.versions, v@, i as int);
            }
            return Some(i);
        }
        i = i + 1;
    }
    None
}

impl JsonDependency {
    /// Creates a record for `name` resolved to the latest version that the
    /// metadata lists, with no features and no snippet;
    /// `VersionNotFound` when the metadata lists no version at all.
    pub fn new(name: &str, meta: &CratesIoDependency) -> (r: Result<JsonDependency, LimpError>)
        ensures
            r is Ok <==> meta@.versions.len() > 0,
            r matches Ok(d) ==> d@.name == name@ && d@.version == meta@.versions[0].num
                && d@.features is None && d@.path_to_snippet is None,
            meta@.versions.len() == 0 ==> (r matches Err(e) && (e matches
            LimpError::VersionNotFound(m) && m@ == meta@.name + "/"@ + spec_dec(0))),
    {
        match meta.get_version(0) {
            Ok(v) => Ok(
                JsonDependency {
                    name: String::from_str(name),
                    version: v.num,
                    features: None,
                    path_to_snippet: None,
                },
            ),
            Err(e) => Err(e),
        }
    }

    /// Creates a fully validated record for `name`.
    ///
    /// A requested version must be listed in the metadata, letter for
    /// letter; without a request the latest listed version is used.
    /// Requested features must then all stand in the resolved version's
    /// feature set; the record keeps exactly the requested list, not the
    /// full set. Last comes the snippet: any outcome short of a stored copy
    /// fails creation with that outcome's error, a collision with a managed
    /// snippet as `SnippetExists`.
    pub fn new_full(
        name: &str,
        version: Option<&str>,
        features: Option<&Vec<String>>,
        snippet: Option<SnippetOutcome>,
        meta: &CratesIoDependency,
    ) -> (r: Result<JsonDependency, LimpError>)
        ensures
            r is Ok <==> (!snippet_blocked(snippet) && resolution_ok(meta@, version.deep_view())
                && (match features {
                Some(fq) => features_ok(
                    spec_resolved(meta@, version.deep_view()),
                    fq.deep_view(),
                ),
                None => true,
            })),
            version matches Some(v) ==> (!version_listed(meta@.versions, v@) ==> (r matches Err(e)
                && (e matches LimpError::VersionNotFound(m) && m@ == name@ + "/"@ + v@))),
            (version is None && meta@.versions.len() == 0) ==> (r matches Err(e) && (e matches
            LimpError::VersionNotFound(m) && m@ == meta@.name + "/"@ + spec_dec(0))),
            resolution_ok(meta@, version.deep_view()) ==> (match features {
                Some(fq) => !features_ok(spec_resolved(meta@, version.deep_view()), fq.deep_view())
                    ==> (r matches Err(e) && (e matches LimpError::IncompatibleFeatures(m) && m@
                    == name@ + "/"@ + spec_resolved(meta@, version.deep_view()).num)),
                None => true,
            }),
            (resolution_ok(meta@, version.deep_view()) && (match features {
                Some(fq) => features_ok(spec_resolved(meta@, version.deep_view()), fq.deep_view()),
                None => true,
            })) ==> ((snippet matches Some(SnippetOutcome::Missing(p)) ==> (r matches Err(e) && (
            e matches LimpError::SnippetNotFound(m) && m@ == p@))) && (snippet matches Some(
                SnippetOutcome::ParseFailed(e0),
            ) ==> (r matches Err(e) && e == e0)) && (snippet matches Some(
                SnippetOutcome::Exists(n),
            ) ==> (r matches Err(e) && (e matches LimpError::SnippetExists(m) && m@ == n@))) && (
            snippet matches Some(SnippetOutcome::StoreFailed(e0)) ==> (r matches Err(e) && e
                == e0))),
            r matches Ok(d) ==> d@.name == name@ && d@.version == spec_resolved(
                meta@,
                version.deep_view(),
            ).num && d@.features == features.deep_view() && d@.path_to_snippet == spec_snippet_path(
                snippet,
            ),
    {
        let resolved: Version = match version {
            Some(v) => {
                match find_version_index(meta, v) {
                    Some(i) => {
                        let rv = meta.versions[i].clone();
                        proof {
                            assert(meta@.versions[i as int] == meta.versions@[i as int]@);
                        }
                        rv
                    },
                    None => {
                        let mut m = String::from_str(name);
                        m.append("/");
                        m.append(v);
                        return Err(LimpError::VersionNotFound(m));
                    },
                }
            },
            None => {
                match meta.get_version(0) {
                    Ok(v0) => v0,
                    Err(e) => {
                        return Err(e);
                    },
                }
            },
        };
        proof {
            assert(resolved@ == spec_resolved(meta@, version.deep_view()));
        }
        if let Some(fq) = features {
            let feature_err: bool = match &resolved.features {
                None => true,
                Some(avail) => !all_features_present(fq, avail),
            };
            if feature_err {
                let mut m = String::from_str(name);
                m.append("/");
                m.append(resolved.num.as_str());
                return Err(LimpError::IncompatibleFeatures(m));
            }
        }
        let result_path: Option<String> = match snippet {
            Some(SnippetOutcome::Missing(p)) => {
                return Err(LimpError::SnippetNotFound(p));
            },
            Some(SnippetOutcome::ParseFailed(e)) => {
                return Err(e);
            },
            Some(SnippetOutcome::Exists(n)) => {
                return Err(LimpError::SnippetExists(n));
            },
            Some(SnippetOutcome::StoreFailed(e)) => {
                return Err(e);
            },
            Some(SnippetOutcome::Stored(p)) => Some(p),
            None => None,
        };
        let kept_features: Option<Vec<String>> = match features {
            Some(f) => {
                let c = clone_string_vec(f);
                proof {
                    assert(c.deep_view() =~= f.deep_view());
                }
                Some(c)
            },
            None => None,
        };
        Ok(
            JsonDependency {
                name: String::from_str(name),
                version: resolved.num,
                features: kept_features,
                path_to_snippet: result_path,
            },
        )
    }

    /// Re-resolves the record against fresh metadata: overwrites the
    /// version with the latest listed one and changes nothing else;
    /// `VersionNotFound` when the metadata lists no version, leaving the
    /// record as it was. Stored features are not re-checked against the
    /// new version.
    pub fn update(&mut self, meta: &CratesIoDependency) -> (r: Result<(), LimpError>)
        ensures
            r is Ok <==> meta@.versions.len() > 0,
            r is Ok ==> final(self)@ == (DepView {
                version: meta@.versions[0].num,
                ..old(self)@
            }),
            r matches Err(e) ==> (final(self)@ == old(self)@ && (e matches
            LimpError::VersionNotFound(m) && m@ == meta@.name + "/"@ + spec_dec(0))),
    {
        match meta.get_version(0) {
            Ok(v) => {
                self.version = v.num;
                Ok(())
            },
            Err(e) => Err(e),
        }
    }
}

/// Whether some record in `s` has the name `n`.
pub open spec fn has_name(s: Seq<DepView>, n: Seq<char>) -> bool {
    exists|i: int| 0 <= i < s.len() && s[i].name == n
}

/// The first record in `s` named `n`, if any.
pub open spec fn spec_get(s: Seq<DepView>, n: Seq<char>) -> Option<DepView>
    decreases s.len(),
{
    if s.len() == 0 {
        None
    } else if s[0].name == n {
        Some(s[0])
    } else {
        spec_get(s.skip(1), n)
    }
}

/// `s` with the record `d` inserted: the first record named `d.name` is
/// replaced, or `d` is appended when no record has that name.
pub open spec fn spec_add(s: Seq<DepView>, d: DepView) -> Seq<DepView>
    decreases s.len(),
{
    if s.len() == 0 {
        seq![d]
    } else if s[0].name == d.name {
        seq![d] + s.skip(1)
    } else {
        seq![s[0]] + spec_add(s.skip(1), d)
    }
}

/// `s` without its first record named `n`; `s` itself when no record has
/// that name.
pub open spec fn spec_remove(s: Seq<DepView>, n: Seq<char>) -> Seq<DepView>
    decreases s.len(),
{
    if s.len() == 0 {
        s
    } else if s[0].name == n {
        s.skip(1)
    } else {
        seq![s[0]] + spec_remove(s.skip(1), n)
    }
}

/// How many records in `s` have the name `n`.
pub open spec fn count_name(s: Seq<DepView>, n: Seq<char>) -> nat
    decreases s.len(),
{
    if s.len() == 0 {
        0
    } else {
        (if s[0].name == n {
            1nat
        } else {
            0nat
        }) + count_name(s.skip(1), n)
    }
}

/// Well-formedness of a store's contents: no two records share a name.
pub open spec fn wf_store(s: Seq<DepView>) -> bool {
    forall|i: int, j: int| 0 <= i < j < s.len() ==> s[i].name != s[j].name
}

proof fn lemma_spec_add_at(s: Seq<DepView>, d: DepView, i: int)
    requires
        0 <= i < s.len(),
        s[i].name == d.name,
        forall|j: int| 0 <= j < i ==> s[j].name != d.name,
    ensures
        spec_add(s, d) == s.update(i, d),
    decreases i,
{
    if i == 0 {
        assert(seq![d] + s.skip(1) =~= s.update(0, d));
    } else {
        lemma_spec_add_at(s.skip(1), d, i - 1);
        assert(seq![s[0]] + s.skip(1).update(i - 1, d) =~= s.update(i, d));
    }
}

proof fn lemma_spec_add_push(s: Seq<DepView>, d: DepView)
    requires
        !has_name(s, d.name),
    ensures
        spec_add(s, d) == s.push(d),
    decreases s.len(),
{
    if s.len() == 0 {
        assert(seq![d] =~= s.push(d));
    } else {
        assert(!has_name(s.skip(1), d.name));
        lemma_spec_add_push(s.skip(1), d);
        assert(seq![s[0]] + s.skip(1).push(d) =~= s.push(d));
    }
}

proof fn lemma_spec_remove_at(s: Seq<DepView>, n: Seq<char>, i: int)
    requires
        0 <= i < s.len(),
        s[i].name == n,
        forall|j: int| 0 <= j < i ==> s[j].name != n,
    ensures
        spec_remove(s, n) == s.remove(i),
    decreases i,
{
    if i == 0 {
        assert(s.skip(1) =~= s.remove(0));
    } else {
        lemma_spec_remove_at(s.skip(1), n, i - 1);
        assert(seq![s[0]] + s.skip(1).remove(i - 1) =~= s.remove(i));
    }
}

/// Removing a name that no record in the store has leaves the store as it
/// was: in particular its size is unchanged. The operation reports no error
/// either way; `JsonStorage::remove` returns nothing.
pub proof fn lemma_remove_absent(s: Seq<DepView>, n: Seq<char>)
    requires
        !has_name(s, n),
    ensures
        spec_remove(s, n) == s,
    decreases s.len(),
{
    if s.len() == 0 {
    } else {
        assert(!has_name(s.skip(1), n));
        lemma_remove_absent(s.skip(1), n);
        assert(seq![s[0]] + s.skip(1) =~= s);
    }
}

proof fn lemma_count_absent(s: Seq<DepView>, n: Seq<char>)
    requires
        !has_name(s, n),
    ensures
        count_name(s, n) == 0,
    decreases s.len(),
{
    if s.len() == 0 {
    } else {
        assert(!has_name(s.skip(1), n));
        lemma_count_absent(s.skip(1), n);
    }
}

/// Adding a record to a well-formed store is idempotent: adding an
/// identical record twice leaves the same store as adding it once, and
/// that store holds exactly one record under the added name.
pub proof fn lemma_add_idempotent(s: Seq<DepView>, d: DepView)
    requires
        wf_store(s),
    ensures
        spec_add(spec_add(s, d), d) == spec_add(s, d),
        count_name(spec_add(s, d), d.name) == 1,
    decreases s.len(),
{
    if s.len() == 0 {
        assert(seq![d].skip(1) =~= Seq::<DepView>::empty());
        assert(count_name(Seq::<DepView>::empty(), d.name) == 0);
        assert(spec_add(s, d) == seq![d]);
        assert(count_name(seq![d], d.name) == 1);
        assert(spec_add(seq![d], d) == seq![d] + seq![d].skip(1));
        assert(seq![d] + seq![d].skip(1) =~= seq![d]);
    } else if s[0].name == d.name {
        let t = seq![d] + s.skip(1);
        assert(spec_add(s, d) == t);
        assert(t[0] == d);
        assert(t.skip(1) =~= s.skip(1));
        assert(spec_add(t, d) == seq![d] + t.skip(1));
        assert(seq![d] + t.skip(1) =~= t);
        assert(!has_name(s.skip(1), d.name)) by {
            assert forall|j: int| 0 <= j < s.skip(1).len() implies s.skip(1)[j].name != d.name by {
                assert(s.skip(1)[j] == s[j + 1]);
            }
        }
        lemma_count_absent(s.skip(1), d.name);
        assert(count_name(t, d.name) == 1 + count_name(t.skip(1), d.name));
    } else {
        assert(wf_store(s.skip(1))) by {
            assert forall|p: int, q: int|
                0 <= p < q < s.skip(1).len() implies s.skip(1)[p].name != s.skip(1)[q].name by {
                assert(s.skip(1)[p] == s[p + 1]);
                assert(s.skip(1)[q] == s[q + 1]);
            }
        }
        lemma_add_idempotent(s.skip(1), d);
        let t = seq![s[0]] + spec_add(s.skip(1), d);
        assert(spec_add(s, d) == t);
        assert(t[0] == s[0]);
        assert(t.skip(1) =~= spec_add(s.skip(1), d));
        assert(spec_add(t, d) == seq![t[0]] + spec_add(t.skip(1), d));
        assert(seq![t[0]] + spec_add(t.skip(1), d) =~= t);
        assert(count_name(t, d.name) == count_name(t.skip(1), d.name));
    }
}

/// A keyed collection of dependency records: at most one record per name.
pub struct JsonStorage {
    dependencies: Vec<JsonDependency>,
}

impl View for JsonStorage {
    type V = Seq<DepView>;

    closed spec fn view(&self) -> Seq<DepView> {
        self.dependencies.deep_view()
    }
}

impl JsonStorage {
    /// Well-formedness: no two records share a name.
    pub open spec fn wf(&self) -> bool {
        wf_store(self@)
    }

    /// How many records the store holds.
    pub fn len(&self) -> (n: usize)
        ensures
            n == self@.len(),
    {
        self.dependencies.len()
    }

    /// All records of the store.
    pub fn records(&self) -> (r: &Vec<JsonDependency>)
        ensures
            r.deep_view() == self@,
    {
        &self.dependencies
    }

    /// Whether the store holds a record named `name`.
    pub fn contains(&self, name: &str) -> (b: bool)
        ensures
            b == has_name(self@, name@),
    {
        let key = String::from_str(name);
        let mut i: usize = 0;
        while i < self.dependencies.len()
            invariant
                i <= self@.len(),
                key@ == name@,
                self@.len() == self.dependencies@.len(),
                forall|j: int| 0 <= j < i as int ==> self@[j].name != name@,
            decreases self@.len() - i,
        {
            proof {
                assert(self@[i as int] == self.dependencies@[i as int]@);
            }
            if self.dependencies[i].name == key {
                return true;
            }
            i = i + 1;
        }
        false
    }

    /// Inserts the record, replacing any record of the same name.
    pub fn add(&mut self, dep: JsonDependency)
        requires
            old(self).wf(),
        ensures
            final(self).wf(),
            final(self)@ == spec_add(old(self)@, dep@),
    {
        let ghost s0: Seq<DepView> = self@;
        let mut i: usize = 0;
        while i < self.dependencies.len()
            invariant
                i <= self@.len(),
                self@ == s0,
                s0 == old(self)@,
                wf_store(s0),
                self@.len() == self.dependencies@.len(),
                forall|j: int| 0 <= j < i as int ==> self@[j].name != dep@.name,
            decreases self@.len() - i,
        {
            proof {
                assert(self@[i as int] == self.dependencies@[i as int]@);
            }
            if self.dependencies[i].name == dep.name {
                proof {
                    assert(s0[i as int].name == dep@.name);
                }
                self.dependencies.set(i, dep);
                proof {
                    assert(self@ =~= s0.update(i as int, dep@)) by {
                        assert forall|j: int| 0 <= j < s0.len() implies self@[j] == s0.update(
                            i as int,
                            dep@,
                        )[j] by {
                            assert(self@[j] == self.dependencies@[j]@);
                        }
                    }
                    lemma_spec_add_at(s0, dep@, i as int);
                    assert forall|p: int, q: int|
                        0 <= p < q < self@.len() implies self@[p].name != self@[q].name by {
                        assert(self@[p].name == s0[p].name);
                        assert(self@[q].name == s0[q].name);
                    }
                }
                return ;
            }
            i = i + 1;
        }
        proof {
            assert(!has_name(s0, dep@.name));
            lemma_spec_add_push(s0, dep@);
        }
        self.dependencies.push(dep);
        proof {
            assert(self@ =~= s0.push(dep@)) by {
                assert forall|j: int| 0 <= j < self@.len() implies self@[j] == s0.push(dep@)[j] by {
                    assert(self@[j] == self.dependencies@[j]@);
                }
            }
        }
    }

    /// Deletes the record named `name`; deleting an absent name changes
    /// nothing and is not an error.
    pub fn remove(&mut self, name: &str)
        requires
            old(self).wf(),
        ensures
            final(self).wf(),
            final(self)@ == spec_remove(old(self)@, name@),
    {
        let ghost s0: Seq<DepView> = self@;
        let key = String::from_str(name);
        let mut i: usize = 0;
        while i < self.dependencies.len()
            invariant
                i <= self@.len(),
                self@ == s0,
                s0 == old(self)@,
                wf_store(s0),
                key@ == name@,
                self@.len() == self.dependencies@.len(),
                forall|j: int| 0 <= j < i as int ==> self@[j].name != name@,
            decreases self@.len() - i,
        {
            proof {
                assert(self@[i as int] == self.dependencies@[i as int]@);
            }
            if self.dependencies[i].name == key {
                self.dependencies.remove(i);
                proof {
                    assert(self@ =~= s0.remove(i as int)) by {
                        assert forall|j: int|
                            0 <= j < self@.len() implies self@[j] == s0.remove(i as int)[j] by {
                            assert(self@[j] == self.dependencies@[j]@);
                        }
                    }
                    lemma_spec_remove_at(s0, name@, i as int);
                    assert forall|p: int, q: int|
                        0 <= p < q < self@.len() implies self@[p].name != self@[q].name by {
                        assert(self@[p] == s0.remove(i as int)[p]);
                        assert(self@[q] == s0.remove(i as int)[q]);
                        if p < i {
                            assert(self@[p] == s0[p]);
                        } else {
                            assert(self@[p] == s0[p + 1]);
                        }
                        if q < i {
                            assert(self@[q] == s0[q]);
                        } else {
                            assert(self@[q] == s0[q + 1]);
                        }
                    }
                }
                return ;
            }
            i = i + 1;
        }
        proof {
            assert(!has_name(s0, name@));
            lemma_remove_absent(s0, name@);
        }
    }

    /// The record named `name`, if the store holds one.
    pub fn get(&self, name: &str) -> (r: Option<&JsonDependency>)
        ensures
            r is Some <==> has_name(self@, name@),
            r matches Some(d) ==> spec_get(self@, name@) == Some(d@),
    {
        let key = String::from_str(name);
        let mut i: usize = 0;
        while i < self.dependencies.len()
            invariant
                i <= self@.len(),
                key@ == name@,
                self@.len() == self.dependencies@.len(),
                forall|j: int| 0 <= j < i as int ==> self@[j].name != name@,
            decreases self@.len() - i,
        {
            proof {
                assert(self@[i as int] == self.dependencies@[i as int]@);
            }
            if self.dependencies[i].name == key {
                proof {
                    lemma_spec_get_at(self@, name@, i as int);
                }
                return Some(&self.dependencies[i]);
            }
            i = i + 1;
        }
        None
    }

    /// The record named `name`, borrowed for mutation, if the store holds
    /// one. The store afterwards holds whatever the caller left behind the
    /// borrow, in the record's place; changing the record's name through it
    /// may leave two records of one name, so keep the name as it was.
    pub fn get_mut(&mut self, name: &str) -> (r: Option<&mut JsonDependency>)
        ensures
            r is Some <==> has_name(old(self)@, name@),
            r is None ==> final(self)@ == old(self)@,
            r matches Some(p) ==> (*p)@ == old(self)@[idx_of(old(self)@, name@)]
                && final(self)@ == old(self)@.update(idx_of(old(self)@, name@), (*final(p))@),
    {
        let ghost s0: Seq<DepView> = self@;
        let key = String::from_str(name);
        let mut i: usize = 0;
        while i < self.dependencies.len()
            invariant
                i <= self@.len(),
                self@ == s0,
                s0 == old(self)@,
                key@ == name@,
                self@.len() == self.dependencies@.len(),
                forall|j: int| 0 <= j < i as int ==> self@[j].name != name@,
            decreases self@.len() - i,
        {
            proof {
                assert(self@[i as int] == self.dependencies@[i as int]@);
            }
            if self.dependencies[i].name == key {
                proof {
                    lemma_idx_of_at(s0, name@, i as int);
                }
                let p = &mut self.dependencies[i];
                return Some(p);
            }
            i = i + 1;
        }
        None
    }
}

/// The position of the first record in `s` named `n`; meaningful only when
/// some record has that name.
pub open spec fn idx_of(s: Seq<DepView>, n: Seq<char>) -> int
    decreases s.len(),
{
    if s.len() == 0 {
        0
    } else if s[0].name == n {
        0
    } else {
        1 + idx_of(s.skip(1), n)
    }
}

proof fn lemma_idx_of_at(s: Seq<DepView>, n: Seq<char>, i: int)
    requires
        0 <= i < s.len(),
        s[i].name == n,
        forall|j: int| 0 <= j < i ==> s[j].name != n,
    ensures
        idx_of(s, n) == i,
    decreases i,
{
    if i == 0 {
    } else {
        lemma_idx_of_at(s.skip(1), n, i - 1);
    }
}

proof fn lemma_spec_get_at(s: Seq<DepView>, n: Seq<char>, i: int)
    requires
        0 <= i < s.len(),
        s[i].name == n,
        forall|j: int| 0 <= j < i ==> s[j].name != n,
    ensures
        spec_get(s, n) == Some(s[i]),
    decreases i,
{
    if i == 0 {
    } else {
        lemma_spec_get_at(s.skip(1), n, i - 1);
    }
}

/// Whether no two records in `v` share a name.
fn check_unique_names(v: &Vec<JsonDependency>) -> (b: bool)
    ensures
        b == wf_store(v.deep_view()),
{
    let ghost dv: Seq<DepView> = v.deep_view();
    let mut i: usize = 0;
    while i < v.len()
        invariant
            i <= v@.len(),
            dv == v.deep_view(),
            dv.len() == v@.len(),
            forall|p: int, q: int|
                0 <= p < q < dv.len() && p < i as int ==> dv[p].name != dv[q].name,
        decreases v@.len() - i,
    {
        let mut j: usize = i + 1;
        while j < v.len()
            invariant
                i < j <= v@.len() || (i + 1 == j && j >= v@.len()),
                i < v@.len(),
                dv == v.deep_view(),
                dv.len() == v@.len(),
                forall|q: int| (i as int) < q < (j as int) ==> dv[i as int].name != dv[q].name,
            decreases v@.len() - j,
        {
            proof {
                assert(dv[i as int] == v@[i as int]@);
                assert(dv[j as int] == v@[j as int]@);
            }
            if v[i].name == v[j].name {
                proof {
                    assert(dv[i as int].name == dv[j as int].name);
                    assert(!wf_store(dv));
                }
                return false;
            }
            j = j + 1;
        }
        i = i + 1;
    }
    true
}

impl JsonStorage {
    /// Renders the whole store as the JSON document that the store file
    /// holds.
    pub fn save(&self) -> (r: String)
        ensures
            r@ == crate::codec::render_store(self@),
    {
        crate::codec::store_to_string(&self.dependencies)
    }

    /// Reads a store from the text of its file: the records of a
    /// well-formed document; the empty store for any other text, never an
    /// error, so a missing, empty or corrupt file starts the store fresh.
    pub fn load(content: &str) -> (r: JsonStorage)
        ensures
            r.wf(),
            r@ == crate::codec::load_spec(content@),
    {
        match crate::codec::store_from_str(content) {
            Some(v) => {
                if check_unique_names(&v) {
                    JsonStorage { dependencies: v }
                } else {
                    JsonStorage::default()
                }
            },
            None => JsonStorage::default(),
        }
    }
}

impl Default for JsonStorage {
    /// An empty store.
    fn default() -> (res: Self)
        ensures
            res@ == Seq::<DepView>::empty(),
            res.wf(),
    {
        let res = JsonStorage { dependencies: Vec::new() };
        proof {
            assert(res@ =~= Seq::<DepView>::empty());
        }
        res
    }
}


} // verus!
