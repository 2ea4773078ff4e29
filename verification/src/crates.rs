//! Typed model of a package-index metadata document.
//!
//! A fetched document describes one crate: its name, its latest version, and
//! the full list of known versions, newest first. Each version carries its
//! version number and, when the index reports one, the set of feature names
//! it offers. The adapter that talks to the index decodes its response into
//! these types; everything here works on the decoded values alone.

use vstd::prelude::*;

use crate::error::LimpError;

verus! {

/// Basic information about a crate: its name and its latest version.
#[derive(Debug)]
pub struct Crate {
    /// The name of the crate.
    pub name: String,
    /// The latest version of the crate.
    pub max_version: String,
}

/// One version of a crate.
#[derive(Debug)]
pub struct Version {
    /// The name of the crate this version belongs to.
    pub crate_name: String,
    /// The feature names this version offers, when the index reports them.
    pub features: Option<Vec<String>>,
    /// The version number, in dotted numeric form.
    pub num: String,
}

/// A crate's full metadata document: the crate information and every known
/// version, newest first (index 0 is the latest).
#[derive(Debug)]
pub struct CratesIoDependency {
    /// Basic information about the crate.
    pub crate_info: Crate,
    /// All known versions, newest first.
    pub versions: Vec<Version>,
}

/// Mathematical model of a [`Version`].
pub struct VersionView {
    pub crate_name: Seq<char>,
    pub features: Option<Seq<Seq<char>>>,
    pub num: Seq<char>,
}

/// Mathematical model of a [`CratesIoDependency`].
pub struct MetadataView {
    pub name: Seq<char>,
    pub max_version: Seq<char>,
    pub versions: Seq<VersionView>,
}

impl View for Version {
    type V = VersionView;

    open spec fn view(&self) -> VersionView {
        VersionView {
            crate_name: self.crate_name@,
            features: self.features.deep_view(),
            num: self.num@,
        }
    }
}

impl DeepView for Version {
    type V = VersionView;

    open spec fn deep_view(&self) -> VersionView {
        self.view()
    }
}

impl View for CratesIoDependency {
    type V = MetadataView;

    open spec fn view(&self) -> MetadataView {
        MetadataView {
            name: self.crate_info.name@,
            max_version: self.crate_info.max_version@,
            versions: self.versions.deep_view(),
        }
    }
}

/// Clones a vector of strings, keeping every element's value.
pub(crate) fn clone_string_vec(v: &Vec<String>) -> (r: Vec<String>)
    ensures
        r@ == v@,
{
    let mut r: Vec<String> = Vec::new();
    let mut i: usize = 0;
    while i < v.len()
        invariant
            i <= v@.len(),
            r@ == v@.take(i as int),
        decreases v@.len() - i,
    {
        r.push(v[i].clone());
        i = i + 1;
        proof {
            assert(r@ =~= v@.take(i as int));
        }
    }
    proof {
        assert(v@.take(v@.len() as int) =~= v@);
    }
    r
}

/// Clones an optional vector of strings, keeping its value.
pub(crate) fn clone_opt_string_vec(v: &Option<Vec<String>>) -> (r: Option<Vec<String>>)
    ensures
        r.deep_view() == v.deep_view(),
        r is Some <==> v is Some,
{
    match v {
        Some(fs) => {
            let c = clone_string_vec(fs);
            proof {
                assert(c.deep_view() =~= fs.deep_view());
            }
            Some(c)
        },
        None => None,
    }
}

impl Clone for Version {
    /// Clones the version, keeping its value.
    fn clone(&self) -> (res: Self)
        ensures
            res@ == self@,
    {
        Version {
            crate_name: self.crate_name.clone(),
            features: clone_opt_string_vec(&self.features),
            num: self.num.clone(),
        }
    }
}

/// The decimal digit `d` as a character; meaningful for `0 <= d <= 9`.
pub open spec fn spec_digit(d: int) -> char {
    if d == 0 {
        '0'
    } else if d == 1 {
        '1'
    } else if d == 2 {
        '2'
    } else if d == 3 {
        '3'
    } else if d == 4 {
        '4'
    } else if d == 5 {
        '5'
    } else if d == 6 {
        '6'
    } else if d == 7 {
        '7'
    } else if d == 8 {
        '8'
    } else {
        '9'
    }
}

/// The decimal rendering of a non-negative integer.
pub open spec fn spec_dec(n: int) -> Seq<char>
    decreases n,
    when n >= 0
    via spec_dec_decreases
{
    if n < 10 {
        seq![spec_digit(n)]
    } else {
        spec_dec(n / 10) + seq![spec_digit(n % 10)]
    }
}

#[via_fn]
proof fn spec_dec_decreases(n: int) {
    assert(n >= 10 ==> 0 <= n / 10 < n) by (nonlinear_arith);
}

/// One decimal digit as a string; meaningful for `n <= 9`.
fn digit_str(n: u64) -> (r: &'static str)
    requires
        n <= 9,
    ensures
        r@ == seq![spec_digit(n as int)],
{
    proof {
        reveal_strlit("0");
        reveal_strlit("1");
        reveal_strlit("2");
        reveal_strlit("3");
        reveal_strlit("4");
        reveal_strlit("5");
        reveal_strlit("6");
        reveal_strlit("7");
        reveal_strlit("8");
        reveal_strlit("9");
    }
    match n {
        0 => "0",
        1 => "1",
        2 => "2",
        3 => "3",
        4 => "4",
        5 => "5",
        6 => "6",
        7 => "7",
        8 => "8",
        _ => "9",
    }
}

/// Renders a number in decimal.
pub(crate) fn u64_to_string(n: u64) -> (r: String)
    ensures
        r@ == spec_dec(n as int),
    decreases n,
{
    if n < 10 {
        String::from_str(digit_str(n))
    } else {
        proof {
            assert(n >= 10 ==> 0 <= n as int / 10 < n as int) by (nonlinear_arith);
        }
        let mut r = u64_to_string(n / 10);
        r.append(digit_str(n % 10));
        proof {
            assert(n as int / 10 == (n / 10) as int);
            assert(n as int % 10 == (n % 10) as int);
        }
        r
    }
}

/// Whether some version in `vs` has the number `v`.
pub open spec fn version_listed(vs: Seq<VersionView>, v: Seq<char>) -> bool {
    exists|i: int| 0 <= i < vs.len() && vs[i].num == v
}

/// The position of the first version in `vs` numbered `v`; meaningful only
/// when some version has that number.
pub open spec fn version_idx(vs: Seq<VersionView>, v: Seq<char>) -> int
    decreases vs.len(),
{
    if vs.len() == 0 {
        0
    } else if vs[0].num == v {
        0
    } else {
        1 + version_idx(vs.skip(1), v)
    }
}

pub(crate) proof fn lemma_version_idx_at(vs: Seq<VersionView>, v: Seq<char>, i: int)
    requires
        0 <= i < vs.len(),
        vs[i].num == v,
        forall|j: int| 0 <= j < i ==> vs[j].num != v,
    ensures
        version_idx(vs, v) == i,
    decreases i,
{
    if i == 0 {
    } else {
        lemma_version_idx_at(vs.skip(1), v, i - 1);
    }
}

/// Whether the version `vv` offers a feature set that holds every feature
/// in `req`.
pub open spec fn features_ok(vv: VersionView, req: Seq<Seq<char>>) -> bool {
    match vv.features {
        Some(avail) => forall|i: int| 0 <= i < req.len() ==> avail.contains(req[i]),
        None => false,
    }
}

impl Version {
    /// The feature names this version offers: a copy of the feature list,
    /// or `None` when the index reported none.
    pub fn get_features(&self) -> (r: Option<Vec<String>>)
        ensures
            r.deep_view() == self@.features,
            r is Some <==> self.features is Some,
    {
        clone_opt_string_vec(&self.features)
    }
}

impl CratesIoDependency {
    /// All known versions of the crate, newest first.
    pub fn get_all_versions(&self) -> (r: Vec<Version>)
        ensures
            r.deep_view() == self@.versions,
    {
        let mut r: Vec<Version> = Vec::new();
        let mut i: usize = 0;
        while i < self.versions.len()
            invariant
                i <= self.versions@.len(),
                r@.len() == i as int,
                forall|j: int| 0 <= j < i as int ==> r@[j]@ == self.versions@[j]@,
            decreases self.versions@.len() - i,
        {
            r.push(self.versions[i].clone());
            i = i + 1;
        }
        proof {
            assert forall|j: int| 0 <= j < r@.len() implies r.deep_view()[j]
                == self.versions.deep_view()[j] by {
                assert(r.deep_view()[j] == r@[j].deep_view());
                assert(self.versions.deep_view()[j] == self.versions@[j].deep_view());
            }
            assert(r.deep_view().len() == self.versions.deep_view().len());
            assert(r.deep_view() =~= self.versions.deep_view());
        }
        r
    }

    /// The version at position `id` among the known versions, newest first;
    /// `VersionNotFound` when no such position exists, naming the crate and
    /// the position.
    pub fn get_version(&self, id: u64) -> (r: Result<Version, LimpError>)
        ensures
            r is Ok <==> id < self@.versions.len(),
            id < self@.versions.len() ==> (r matches Ok(v) && v@ == self@.versions[id as int]),
            id >= self@.versions.len() ==> (r matches Err(e) && (e matches
                LimpError::VersionNotFound(m)
                && m@ == self@.name + "/"@ + spec_dec(id as int))),
    {
        if id < self.versions.len() as u64 {
            let v = self.versions[id as usize].clone();
            Ok(v)
        } else {
            let mut m = self.crate_info.name.clone();
            m.append("/");
            m.append(u64_to_string(id).as_str());
            Err(LimpError::VersionNotFound(m))
        }
    }

    /// The feature names of the version at position `id`: its feature list
    /// when the index reported one, `None` when it reported none or when no
    /// such position exists.
    pub fn get_features(&self, id: u64) -> (r: Option<Vec<String>>)
        ensures
            id < self@.versions.len() ==> r.deep_view() == self@.versions[id as int].features,
            id >= self@.versions.len() ==> r is None,
    {
        match self.get_version(id) {
            Ok(version) => version.get_features(),
            Err(_) => None,
        }
    }
}

} // verus!
