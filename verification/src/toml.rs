//! Project manifests: a new project's `Cargo.toml` content and the
//! dependency lines it lists.
//!
//! Writing the manifest file belongs to the caller; everything here builds
//! its text.

use vstd::prelude::*;

use crate::crates::clone_opt_string_vec;
use crate::storage::spec_manifest_line;
use crate::storage::DepView;
use crate::storage::JsonDependency;

verus! {

/// A dependency as stored for reuse: its version, features and snippet
/// link, without the name that keys it.
#[derive(Debug)]
pub struct DependencyInfo {
    /// The version of the dependency.
    pub version: String,
    /// Features enabled for the dependency.
    pub features: Option<Vec<String>>,
    /// Managed location of the snippet linked to the dependency.
    pub path_to_snippet: Option<String>,
}

impl Default for DependencyInfo {
    /// An empty entry: no version, no features, no snippet.
    fn default() -> (res: Self)
        ensures
            res.version@ == Seq::<char>::empty(),
            res.features is None,
            res.path_to_snippet is None,
    {
        DependencyInfo { version: String::new(), features: None, path_to_snippet: None }
    }
}

/// One dependency of a project's manifest.
#[derive(Debug)]
pub struct Dependency {
    /// The name of the dependency.
    pub name: String,
    /// The version of the dependency.
    pub version: String,
    /// Features enabled for the dependency.
    pub features: Option<Vec<String>>,
}

impl View for Dependency {
    type V = DepView;

    open spec fn view(&self) -> DepView {
        DepView {
            name: self.name@,
            version: self.version@,
            features: self.features.deep_view(),
            path_to_snippet: None,
        }
    }
}

impl DeepView for Dependency {
    type V = DepView;

    open spec fn deep_view(&self) -> DepView {
        self.view()
    }
}

impl Dependency {
    /// A throwaway dependency whose version no index lists, for trying the
    /// failure paths out.
    pub fn test(name: &str) -> (r: Dependency)
        ensures
            r@.name == name@,
            r@.version == "2039482398408"@,
            r@.features matches Some(fs) && fs == seq!["hellol"@],
    {
        let fs: Vec<String> = vec![String::from_str("hellol")];
        proof {
            assert(fs.deep_view() =~= seq!["hellol"@]);
        }
        Dependency {
            name: String::from_str(name),
            version: String::from_str("2039482398408"),
            features: Some(fs),
        }
    }

    /// The manifest dependency for a stored entry.
    pub fn from_jd(name: &str, di: &DependencyInfo) -> (r: Dependency)
        ensures
            r@.name == name@,
            r@.version == di.version@,
            r@.features == di.features.deep_view(),
    {
        Dependency {
            name: String::from_str(name),
            version: di.version.clone(),
            features: clone_opt_string_vec(&di.features),
        }
    }

    /// Renders the dependency as one manifest line.
    pub fn display_string(&self) -> (r: String)
        ensures
            r@ == spec_manifest_line(self@),
    {
        let jd = JsonDependency {
            name: self.name.clone(),
            version: self.version.clone(),
            features: clone_opt_string_vec(&self.features),
            path_to_snippet: None,
        };
        jd.display_string()
    }
}

/// The dependency lines of a manifest, each followed by a newline.
pub open spec fn spec_dep_lines(ds: Seq<DepView>) -> Seq<char>
    decreases ds.len(),
{
    if ds.len() == 0 {
        Seq::empty()
    } else {
        spec_manifest_line(ds[0]) + seq!['\n'] + spec_dep_lines(ds.skip(1))
    }
}

/// The whole text of a new project's manifest.
pub open spec fn spec_project_manifest(
    name: Seq<char>,
    version: Seq<char>,
    edition: Seq<char>,
    ds: Seq<DepView>,
) -> Seq<char> {
    "[package]\nname = \""@ + name + "\"\nversion = \""@ + version + "\"\nedition = \""@ + edition
        + "\"\n\n[dependencies]\n"@ + spec_dep_lines(ds)
}

proof fn lemma_dep_lines_snoc(ds: Seq<DepView>, d: DepView)
    ensures
        spec_dep_lines(ds.push(d)) == spec_dep_lines(ds) + spec_manifest_line(d) + seq!['\n'],
    decreases ds.len(),
{
    if ds.len() == 0 {
        assert(ds.push(d)[0] == d);
        assert(ds.push(d).skip(1) =~= Seq::<DepView>::empty());
        assert(spec_dep_lines(ds.push(d)) == spec_manifest_line(d) + seq!['\n'] + spec_dep_lines(
            Seq::<DepView>::empty(),
        ));
        assert(spec_manifest_line(d) + seq!['\n'] + Seq::<char>::empty() =~= Seq::<char>::empty()
            + spec_manifest_line(d) + seq!['\n']);
    } else {
        assert(ds.push(d)[0] == ds[0]);
        assert(ds.push(d).skip(1) =~= ds.skip(1).push(d));
        lemma_dep_lines_snoc(ds.skip(1), d);
        assert(spec_dep_lines(ds.push(d)) == spec_manifest_line(ds[0]) + seq!['\n'] + ((
        spec_dep_lines(ds.skip(1)) + spec_manifest_line(d)) + seq!['\n']));
        assert(spec_manifest_line(ds[0]) + seq!['\n'] + ((spec_dep_lines(ds.skip(1))
            + spec_manifest_line(d)) + seq!['\n']) =~= ((spec_manifest_line(ds[0]) + seq!['\n']
            + spec_dep_lines(ds.skip(1))) + spec_manifest_line(d)) + seq!['\n']);
    }
}

/// A new project: its package fields and the dependencies its manifest
/// lists.
pub struct Project {
    /// The name of the project.
    pub name: String,
    /// The version the manifest declares.
    pub version: String,
    /// The edition the manifest declares.
    pub edition: String,
    /// The dependencies the manifest lists.
    pub dependencies: Vec<Dependency>,
}

impl Default for Project {
    /// The tool's own defaults: version `0.1.0`, edition `2021`.
    fn default() -> (res: Self)
        ensures
            res.name@ == "limp"@,
            res.version@ == "0.1.0"@,
            res.edition@ == "2021"@,
            res.dependencies@.len() == 0,
    {
        Project {
            name: String::from_str("limp"),
            version: String::from_str("0.1.0"),
            edition: String::from_str("2021"),
            dependencies: Vec::new(),
        }
    }
}

impl Project {
    /// A project under the given name with the given dependencies, on the
    /// default version and edition.
    pub fn new(name: &str, deps: Vec<Dependency>) -> (r: Project)
        ensures
            r.name@ == name@,
            r.version@ == "0.1.0"@,
            r.edition@ == "2021"@,
            r.dependencies.deep_view() == deps.deep_view(),
    {
        Project {
            name: String::from_str(name),
            version: String::from_str("0.1.0"),
            edition: String::from_str("2021"),
            dependencies: deps,
        }
    }

    /// The whole text of the project's manifest file.
    pub fn manifest_text(&self) -> (r: String)
        ensures
            r@ == spec_project_manifest(
                self.name@,
                self.version@,
                self.edition@,
                self.dependencies.deep_view(),
            ),
    {
        let mut r = String::from_str("[package]\nname = \"");
        r.append(self.name.as_str());
        r.append("\"\nversion = \"");
        r.append(self.version.as_str());
        r.append("\"\nedition = \"");
        r.append(self.edition.as_str());
        r.append("\"\n\n[dependencies]\n");
        let ghost head: Seq<char> = r@;
        let ghost dv: Seq<DepView> = self.dependencies.deep_view();
        proof {
            assert(dv.take(0) =~= Seq::<DepView>::empty());
            assert(r@ =~= head + spec_dep_lines(dv.take(0)));
        }
        let mut i: usize = 0;
        while i < self.dependencies.len()
            invariant
                i <= self.dependencies@.len(),
                dv == self.dependencies.deep_view(),
                dv.len() == self.dependencies@.len(),
                r@ == head + spec_dep_lines(dv.take(i as int)),
            decreases self.dependencies@.len() - i,
        {
            let line = self.dependencies[i].display_string();
            r.append(line.as_str());
            r.append("\n");
            proof {
                reveal_strlit("\n");
                assert(dv[i as int] == self.dependencies@[i as int]@);
                assert(dv.take(i as int).push(dv[i as int]) =~= dv.take(i + 1));
                lemma_dep_lines_snoc(dv.take(i as int), dv[i as int]);
                assert(r@ =~= head + spec_dep_lines(dv.take(i + 1)));
            }
            i = i + 1;
        }
        proof {
            assert(dv.take(dv.len() as int) =~= dv);
        }
        r
    }
}



/// The dependencies-section header that manifest editing looks for.
pub open spec fn dep_section() -> Seq<char> {
    seq!['[', 'd', 'e', 'p', 'e', 'n', 'd', 'e', 'n', 'c', 'i', 'e', 's', ']']
}

/// Appends one dependency line to a manifest's text: at the end when the
/// text already holds a `[dependencies]` section, behind a freshly opened
/// section otherwise.
pub fn add_dependency_line(content: &str, line: &str) -> (r: String)
    ensures
        crate::parser::spec_contains(content@, dep_section()) ==> r@ == content@ + line@
            + seq!['\n'],
        !crate::parser::spec_contains(content@, dep_section()) ==> r@ == content@ + seq!['\n']
            + dep_section() + seq!['\n'] + line@ + seq!['\n'],
{
    let mut r = String::from_str(content);
    proof {
        reveal_strlit("[dependencies]");
        reveal_strlit("\n[dependencies]\n");
        reveal_strlit("\n");
        assert("[dependencies]"@ =~= dep_section());
        assert("\n[dependencies]\n"@ =~= seq!['\n'] + dep_section() + seq!['\n']);
    }
    if !crate::parser::contains_str(content, "[dependencies]") {
        r.append("\n[dependencies]\n");
    }
    r.append(line);
    r.append("\n");
    proof {
        if !crate::parser::spec_contains(content@, dep_section()) {
            assert(r@ =~= content@ + seq!['\n'] + dep_section() + seq!['\n'] + line@ + seq!['\n']);
        }
    }
    r
}

} // verus!
