//! Registry data model: package metadata and per-version descriptors.
//!
//! A `Package` holds a "latest" tag and an association list from version
//! string to that version's descriptor; the list stands in key order as
//! the registry reported it, and a well-formed package never repeats a
//! key. Each type has a mathematical view over sequences of characters.

use vstd::prelude::*;

verus! {

/// A package's repository record.
#[derive(Debug, Clone, PartialEq, Eq)]
pub struct PackageRepository {
    pub rtype: Option<String>,
    pub url: String,
}

/// A repository reference: either a bare URL string or a full record.
#[derive(Debug, Clone, PartialEq, Eq)]
pub enum RepositoryResult {
    Str(String),
    Full(PackageRepository),
}

/// Distribution data of one published version: the archive location.
#[derive(Debug, Clone, PartialEq, Eq)]
pub struct PackageVersionDist {
    pub tarball: String,
}

/// One published version's record.
#[derive(Debug, Clone, PartialEq, Eq)]
pub struct PackageVersion {
    pub name: Option<String>,
    pub version: String,
    pub repository: Option<RepositoryResult>,
    pub dependencies: Option<Vec<(String, String)>>,
    pub dev_dependencies: Option<Vec<(String, String)>>,
    pub main: Option<String>,
    pub dist: PackageVersionDist,
}

/// The registry's distribution tags; only `latest` is consumed.
#[derive(Debug, Clone, PartialEq, Eq)]
pub struct DistTags {
    pub latest: String,
}

/// A package's full metadata document.
#[derive(Debug, Clone, PartialEq, Eq)]
pub struct Package {
    pub name: Option<String>,
    pub dist_tags: DistTags,
    pub versions: Vec<(String, PackageVersion)>,
}

#[verifier::ext_equal]
pub ghost enum RepositoryRefView {
    Str(Seq<char>),
    Full { rtype: Option<Seq<char>>, url: Seq<char> },
}

#[verifier::ext_equal]
pub ghost struct PackageVersionView {
    pub name: Option<Seq<char>>,
    pub version: Seq<char>,
    pub repository: Option<RepositoryRefView>,
    pub dependencies: Option<Seq<(Seq<char>, Seq<char>)>>,
    pub dev_dependencies: Option<Seq<(Seq<char>, Seq<char>)>>,
    pub main: Option<Seq<char>>,
    pub tarball: Seq<char>,
}

#[verifier::ext_equal]
pub ghost struct PackageView {
    pub name: Option<Seq<char>>,
    pub latest: Seq<char>,
    pub versions: Seq<(Seq<char>, PackageVersionView)>,
}

pub open spec fn opt_string_view(o: Option<String>) -> Option<Seq<char>> {
    match o {
        Some(s) => Some(s@),
        None => None,
    }
}

pub open spec fn deps_view(d: Seq<(String, String)>) -> Seq<(Seq<char>, Seq<char>)> {
    d.map_values(|p: (String, String)| (p.0@, p.1@))
}

pub open spec fn opt_deps_view(o: Option<Vec<(String, String)>>) -> Option<
    Seq<(Seq<char>, Seq<char>)>,
> {
    match o {
        Some(d) => Some(deps_view(d@)),
        None => None,
    }
}

impl View for RepositoryResult {
    type V = RepositoryRefView;

    open spec fn view(&self) -> RepositoryRefView {
        match self {
            RepositoryResult::Str(s) => RepositoryRefView::Str(s@),
            RepositoryResult::Full(r) => RepositoryRefView::Full {
                rtype: opt_string_view(r.rtype),
                url: r.url@,
            },
        }
    }
}

impl View for PackageVersion {
    type V = PackageVersionView;

    open spec fn view(&self) -> PackageVersionView {
        PackageVersionView {
            name: opt_string_view(self.name),
            version: self.version@,
            repository: match self.repository {
                Some(r) => Some(r@),
                None => None,
            },
            dependencies: opt_deps_view(self.dependencies),
            dev_dependencies: opt_deps_view(self.dev_dependencies),
            main: opt_string_view(self.main),
            tarball: self.dist.tarball@,
        }
    }
}

/// Views of an association list from version string to descriptor.
pub open spec fn entries_view(vs: Seq<(String, PackageVersion)>) -> Seq<
    (Seq<char>, PackageVersionView),
> {
    vs.map_values(|p: (String, PackageVersion)| (p.0@, p.1@))
}

impl View for Package {
    type V = PackageView;

    open spec fn view(&self) -> PackageView {
        PackageView {
            name: opt_string_view(self.name),
            latest: self.dist_tags.latest@,
            versions: entries_view(self.versions@),
        }
    }
}

impl Package {
    /// A well-formed metadata document never lists a version twice; the
    /// registry's mapping keys each version string once.
    pub open spec fn wf(self) -> bool {
        forall|i: int, j: int|
            0 <= i < j < self@.versions.len() ==> (#[trigger] self@.versions[i]).0 != (
            #[trigger] self@.versions[j]).0
    }
}

/// The version keys of an association list, in order.
pub open spec fn version_keys(vs: Seq<(Seq<char>, PackageVersionView)>) -> Seq<Seq<char>> {
    vs.map_values(|p: (Seq<char>, PackageVersionView)| p.0)
}

/// First descriptor stored under `key`, if any.
pub open spec fn lookup_version(
    vs: Seq<(Seq<char>, PackageVersionView)>,
    key: Seq<char>,
) -> Option<PackageVersionView>
    decreases vs.len(),
{
    if vs.len() == 0 {
        None
    } else if vs[0].0 == key {
        Some(vs[0].1)
    } else {
        lookup_version(vs.skip(1), key)
    }
}

/// The runtime dependency pairs of a descriptor; development dependencies
/// are excluded from resolution by design.
pub open spec fn runtime_deps(v: PackageVersionView) -> Seq<(Seq<char>, Seq<char>)> {
    match v.dependencies {
        Some(d) => d,
        None => Seq::empty(),
    }
}

/// A missing `lookup_version` result means the key is on no entry.
pub proof fn lemma_lookup_none_means_absent(
    vs: Seq<(Seq<char>, PackageVersionView)>,
    key: Seq<char>,
)
    requires
        lookup_version(vs, key) is None,
    ensures
        forall|i: int| 0 <= i < vs.len() ==> (#[trigger] vs[i]).0 != key,
    decreases vs.len(),
{
    if vs.len() > 0 {
        lemma_lookup_none_means_absent(vs.skip(1), key);
        assert forall|i: int| 0 <= i < vs.len() implies (#[trigger] vs[i]).0 != key by {
            if i > 0 {
                assert(vs.skip(1)[i - 1] == vs[i]);
            }
        }
    }
}

/// A present `lookup_version` result means the key is one of the
/// version keys.
pub proof fn lemma_lookup_some_key_present(
    vs: Seq<(Seq<char>, PackageVersionView)>,
    key: Seq<char>,
)
    requires
        lookup_version(vs, key) is Some,
    ensures
        version_keys(vs).contains(key),
    decreases vs.len(),
{
    if vs.len() > 0 {
        if vs[0].0 == key {
            assert(version_keys(vs)[0] == key);
        } else {
            lemma_lookup_some_key_present(vs.skip(1), key);
            let i = choose|i: int|
                0 <= i < version_keys(vs.skip(1)).len() && version_keys(vs.skip(1))[i] == key;
            assert(vs.skip(1)[i].0 == key);
            assert(vs[i + 1].0 == key);
            assert(version_keys(vs)[i + 1] == key);
        }
    }
}

/// Once a name is resolved, appending further entries never changes what
/// a lookup of that name returns: the first resolution wins.
pub proof fn lemma_first_resolution_wins(
    vs: Seq<(Seq<char>, PackageVersionView)>,
    entry: (Seq<char>, PackageVersionView),
    name: Seq<char>,
)
    requires
        lookup_version(vs, name) is Some,
    ensures
        lookup_version(vs.push(entry), name) == lookup_version(vs, name),
    decreases vs.len(),
{
    if vs.len() > 0 {
        if vs[0].0 == name {
            assert(vs.push(entry)[0] == vs[0]);
        } else {
            lemma_first_resolution_wins(vs.skip(1), entry, name);
            assert(vs.push(entry).skip(1) =~= vs.skip(1).push(entry));
            assert(vs.push(entry)[0] == vs[0]);
        }
    }
}

/// Appending an entry under a fresh key makes that key's lookup find
/// exactly it.
pub proof fn lemma_lookup_push_absent(
    vs: Seq<(Seq<char>, PackageVersionView)>,
    entry: (Seq<char>, PackageVersionView),
)
    requires
        lookup_version(vs, entry.0) is None,
    ensures
        lookup_version(vs.push(entry), entry.0) == Some(entry.1),
    decreases vs.len(),
{
    if vs.len() == 0 {
        assert(vs.push(entry)[0] == entry);
    } else {
        lemma_lookup_push_absent(vs.skip(1), entry);
        assert(vs.push(entry)[0] == vs[0]);
        assert(vs.push(entry).skip(1) =~= vs.skip(1).push(entry));
    }
}

/// The display name of an optional package name.
pub open spec fn display_name(o: Option<Seq<char>>) -> Seq<char> {
    match o {
        Some(n) => n,
        None => "unidentified"@,
    }
}

/// Unwrap an optional name, falling back to a fixed placeholder.
pub fn stringify_opt(opt: &Option<String>) -> (r: String)
    ensures
        r@ == display_name(opt_string_view(*opt)),
{
    match opt {
        Some(val) => val.clone(),
        None => "unidentified".to_owned(),
    }
}

/// Character-wise equality of two string slices.
pub fn str_eq(a: &str, b: &str) -> (r: bool)
    ensures
        r == (a@ == b@),
{
    let sa: String = a.to_owned();
    let sb: String = b.to_owned();
    sa == sb
}

fn clone_string_opt(o: &Option<String>) -> (r: Option<String>)
    ensures
        opt_string_view(r) == opt_string_view(*o),
{
    match o {
        Some(s) => Some(s.clone()),
        None => None,
    }
}

pub(crate) fn clone_deps(d: &Vec<(String, String)>) -> (r: Vec<(String, String)>)
    ensures
        deps_view(r@) == deps_view(d@),
{
    let mut out: Vec<(String, String)> = Vec::new();
    let mut i: usize = 0;
    while i < d.len()
        invariant
            i <= d.len(),
            out@.len() == i,
            forall|j: int|
                0 <= j < i ==> (#[trigger] out@[j]).0@ == d@[j].0@ && out@[j].1@ == d@[j].1@,
        decreases d.len() - i,
    {
        let pair: &(String, String) = &d[i];
        out.push((pair.0.clone(), pair.1.clone()));
        i = i + 1;
    }
    proof {
        assert(deps_view(out@) =~= deps_view(d@));
    }
    out
}

fn clone_deps_opt(o: &Option<Vec<(String, String)>>) -> (r: Option<Vec<(String, String)>>)
    ensures
        opt_deps_view(r) == opt_deps_view(*o),
{
    match o {
        Some(d) => Some(clone_deps(d)),
        None => None,
    }
}

fn clone_repository(r: &RepositoryResult) -> (out: RepositoryResult)
    ensures
        out@ == r@,
{
    match r {
        RepositoryResult::Str(s) => RepositoryResult::Str(s.clone()),
        RepositoryResult::Full(f) => RepositoryResult::Full(
            PackageRepository { rtype: clone_string_opt(&f.rtype), url: f.url.clone() },
        ),
    }
}

/// Copy a version descriptor; the copy has the same view.
pub fn clone_version(v: &PackageVersion) -> (r: PackageVersion)
    ensures
        r@ == v@,
{
    let r = PackageVersion {
        name: clone_string_opt(&v.name),
        version: v.version.clone(),
        repository: match &v.repository {
            Some(rep) => Some(clone_repository(rep)),
            None => None,
        },
        dependencies: clone_deps_opt(&v.dependencies),
        dev_dependencies: clone_deps_opt(&v.dev_dependencies),
        main: clone_string_opt(&v.main),
        dist: PackageVersionDist { tarball: v.dist.tarball.clone() },
    };
    proof {
        assert(r@ =~= v@);
    }
    r
}

} // verus!
