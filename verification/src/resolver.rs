//! The dependency-graph resolver.
//!
//! Resolution expands a root descriptor into a deduplicated, flattened
//! mapping from package name to chosen version descriptor. The walk keeps
//! an explicit worklist of `(name, constraint)` pairs; a name already
//! present in the result set is never re-resolved: the first resolution
//! for a name wins for the whole run. Fetching a package's metadata is
//! the caller's business: `Resolver` asks for one package at a time
//! through `next_pending` and is answered through `resolve_pending`,
//! while `resolve_graph` runs the same walk against an in-memory
//! registry.

use vstd::prelude::*;

use crate::errors::{ResolveError, ResolveErrorView};
use crate::matcher::{parse_version, select_spec};
use crate::types::{
    clone_deps, clone_version, deps_view, display_name, entries_view, lookup_version,
    lemma_first_resolution_wins, lemma_lookup_none_means_absent, lemma_lookup_push_absent,
    runtime_deps, str_eq, stringify_opt, version_keys, Package, PackageVersion,
    PackageVersionView, PackageView,
};

verus! {

broadcast use vstd::set::group_set_axioms, vstd::seq_lib::seq_to_set_is_finite;

/// What resolving constraint `c` against package `p` yields: the
/// descriptor stored under the selected version string, a no-match
/// error when a bounded constraint has no candidate, or a not-found
/// error when the selected version is not published.
pub open spec fn choose_version(p: PackageView, c: Seq<char>) -> Result<
    PackageVersionView,
    ResolveErrorView,
> {
    match select_spec(version_keys(p.versions), c) {
        None => Err(ResolveErrorView::NoMatch { package: display_name(p.name), constraint: c }),
        Some(sel) => match lookup_version(p.versions, sel) {
            Some(vd) => Ok(vd),
            None => Err(
                ResolveErrorView::VersionNotFound { package: display_name(p.name), version: sel },
            ),
        },
    }
}

fn find_version<'a>(vs: &'a Vec<(String, PackageVersion)>, key: &str) -> (r: Option<
    &'a PackageVersion,
>)
    ensures
        ({
            match (r, lookup_version(entries_view(vs@), key@)) {
                (Some(v), Some(sv)) => v@ == sv,
                (None, None) => true,
                _ => false,
            }
        }),
{
    let ghost views = entries_view(vs@);
    let mut i: usize = 0;
    proof {
        assert(views.skip(0) =~= views);
    }
    while i < vs.len()
        invariant
            i <= vs.len(),
            views == entries_view(vs@),
            views.len() == vs@.len(),
            lookup_version(views, key@) == lookup_version(views.skip(i as int), key@),
        decreases vs.len() - i,
    {
        proof {
            assert(views[i as int] == (vs@[i as int].0@, vs@[i as int].1@));
            assert(views.skip(i as int)[0] == views[i as int]);
            assert(views.skip(i as int).skip(1) =~= views.skip(i as int + 1));
        }
        if str_eq(vs[i].0.as_str(), key) {
            return Some(&vs[i].1);
        }
        i = i + 1;
    }
    proof {
        assert(views.skip(i as int).len() == 0);
    }
    None
}

/// Choose the concrete version descriptor of `package` under an optional
/// constraint. Without a constraint the descriptor under the package's
/// "latest" tag is taken directly, bypassing the matcher; the tag must
/// then be a published version.
pub fn get_version_data(package: &Package, version: Option<&str>) -> (r: Result<
    PackageVersion,
    ResolveError,
>)
    requires
        version is None ==> lookup_version(package@.versions, package@.latest) is Some,
    ensures
        ({
            match version {
                None => match r {
                    Ok(vd) => Some(vd@) == lookup_version(package@.versions, package@.latest),
                    Err(_) => false,
                },
                Some(c) => match (r, choose_version(package@, c@)) {
                    (Ok(vd), Ok(v)) => vd@ == v,
                    (Err(e), Err(ev)) => e@ == ev,
                    _ => false,
                },
            }
        }),
{
    match version {
        None => {
            let latest: &str = package.dist_tags.latest.as_str();
            match find_version(&package.versions, latest) {
                Some(vd) => Ok(clone_version(vd)),
                None => vstd::pervasive::unreached(),
            }
        },
        Some(c) => {
            let sel: String = match parse_version(package, c) {
                Ok(s) => s,
                Err(e) => {
                    return Err(e);
                },
            };
            match find_version(&package.versions, sel.as_str()) {
                Some(vd) => Ok(clone_version(vd)),
                None => Err(
                    ResolveError::VersionNotFound {
                        package: stringify_opt(&package.name),
                        version: sel,
                    },
                ),
            }
        },
    }
}

/// No two entries of a resolved set carry the same name.
pub open spec fn resolved_names_unique(rs: Seq<(Seq<char>, PackageVersionView)>) -> bool {
    forall|i: int, j: int|
        0 <= i < j < rs.len() ==> (#[trigger] rs[i]).0 != (#[trigger] rs[j]).0
}

/// A name already has a chosen descriptor in the resolved set.
pub open spec fn name_resolved(
    rs: Seq<(Seq<char>, PackageVersionView)>,
    name: Seq<char>,
) -> bool {
    lookup_version(rs, name) is Some
}

/// Worklist entries at the front whose names are already resolved are
/// skipped; the result starts with the first entry still to do.
pub open spec fn drop_resolved_prefix(
    pending: Seq<(Seq<char>, Seq<char>)>,
    rs: Seq<(Seq<char>, PackageVersionView)>,
) -> Seq<(Seq<char>, Seq<char>)>
    decreases pending.len(),
{
    if pending.len() == 0 {
        pending
    } else if name_resolved(rs, pending[0].0) {
        drop_resolved_prefix(pending.skip(1), rs)
    } else {
        pending
    }
}

/// Mathematical view of a resolver: the worklist still to process and
/// the resolved set built so far, both in order.
#[verifier::ext_equal]
pub ghost struct ResolverView {
    pub pending: Seq<(Seq<char>, Seq<char>)>,
    pub resolved: Seq<(Seq<char>, PackageVersionView)>,
}

/// The dependency-graph walk's state: a worklist of `(name, constraint)`
/// pairs and the accumulated resolved set.
pub struct Resolver {
    pending: Vec<(String, String)>,
    resolved: Vec<(String, PackageVersion)>,
}

impl View for Resolver {
    type V = ResolverView;

    closed spec fn view(&self) -> ResolverView {
        ResolverView { pending: deps_view(self.pending@), resolved: entries_view(self.resolved@) }
    }
}

impl Resolver {
    /// The resolved set never repeats a name.
    pub open spec fn wf(self) -> bool {
        resolved_names_unique(self@.resolved)
    }

    /// Start a walk at a root descriptor: its runtime dependencies form
    /// the initial worklist, and nothing is resolved yet. The root
    /// itself takes no slot in the resolved set.
    pub fn new(root: &PackageVersion) -> (r: Resolver)
        ensures
            r@.pending == runtime_deps(root@),
            r@.resolved.len() == 0,
            r.wf(),
    {
        let pending: Vec<(String, String)> = match &root.dependencies {
            Some(d) => clone_deps(d),
            None => Vec::new(),
        };
        let r = Resolver { pending, resolved: Vec::new() };
        proof {
            assert(r@.pending =~= runtime_deps(root@));
            assert(r@.resolved =~= Seq::<(Seq<char>, PackageVersionView)>::empty());
        }
        r
    }

    /// Whether `name` already has a chosen descriptor.
    pub fn is_resolved(&self, name: &str) -> (r: bool)
        ensures
            r == name_resolved(self@.resolved, name@),
    {
        find_version(&self.resolved, name).is_some()
    }

    /// Take the next worklist entry whose name is not yet resolved,
    /// discarding already-resolved entries on the way; `None` when the
    /// worklist is exhausted and the walk is complete.
    pub fn next_pending(&mut self) -> (r: Option<(String, String)>)
        ensures
            final(self)@.resolved == old(self)@.resolved,
            ({
                let rest = drop_resolved_prefix(old(self)@.pending, old(self)@.resolved);
                match r {
                    None => rest.len() == 0 && final(self)@.pending == rest,
                    Some(p) => rest.len() > 0 && (p.0@, p.1@) == rest[0]
                        && final(self)@.pending == rest.skip(1)
                        && !name_resolved(old(self)@.resolved, p.0@),
                }
            }),
    {
        loop
            invariant
                self@.resolved == old(self)@.resolved,
                drop_resolved_prefix(self@.pending, self@.resolved) == drop_resolved_prefix(
                    old(self)@.pending,
                    old(self)@.resolved,
                ),
            decreases self@.pending.len(),
        {
            if self.pending.len() == 0 {
                return None;
            }
            let ghost pend = self@.pending;
            proof {
                assert(pend[0] == (self.pending@[0].0@, self.pending@[0].1@));
            }
            let already: bool = self.is_resolved(self.pending[0].0.as_str());
            let entry: (String, String) = self.pending.remove(0);
            proof {
                assert(deps_view(self.pending@) =~= pend.skip(1));
            }
            if !already {
                return Some(entry);
            }
        }
    }

    /// Record the resolution of `name` against the fetched metadata
    /// `pkg`: choose the descriptor `constraint` picks, append it to the
    /// resolved set and append its runtime dependencies to the worklist.
    /// On an error the state is unchanged and the caller aborts the run.
    pub fn resolve_pending(&mut self, name: &String, constraint: &String, pkg: &Package) -> (r:
        Result<(), ResolveError>)
        requires
            old(self).wf(),
            !name_resolved(old(self)@.resolved, name@),
        ensures
            final(self).wf(),
            ({
                match r {
                    Ok(_) => choose_version(pkg@, constraint@) is Ok && final(self)@.resolved
                        == old(self)@.resolved.push(
                        (name@, choose_version(pkg@, constraint@)->Ok_0),
                    ) && final(self)@.pending == old(self)@.pending + runtime_deps(
                        choose_version(pkg@, constraint@)->Ok_0,
                    ),
                    Err(e) => choose_version(pkg@, constraint@) is Err && e@ == choose_version(
                        pkg@,
                        constraint@,
                    )->Err_0 && final(self)@ == old(self)@,
                }
            }),
    {
        let vd: PackageVersion = match get_version_data(pkg, Some(constraint.as_str())) {
            Ok(vd) => vd,
            Err(e) => {
                return Err(e);
            },
        };
        let ghost pend0 = self@.pending;
        match &vd.dependencies {
            Some(d) => {
                let mut i: usize = 0;
                proof {
                    assert(deps_view(d@.take(0)) =~= Seq::<(Seq<char>, Seq<char>)>::empty());
                    assert(deps_view(self.pending@) =~= pend0 + deps_view(d@.take(0)));
                }
                while i < d.len()
                    invariant
                        i <= d.len(),
                        vd.dependencies == Some(*d),
                        self@.resolved == old(self)@.resolved,
                        deps_view(self.pending@) == pend0 + deps_view(d@.take(i as int)),
                    decreases d.len() - i,
                {
                    let ghost pendprev = deps_view(self.pending@);
                    let pair: (String, String) = (d[i].0.clone(), d[i].1.clone());
                    self.pending.push(pair);
                    proof {
                        assert(deps_view(self.pending@) =~= pendprev.push(
                            (d@[i as int].0@, d@[i as int].1@),
                        ));
                        assert(d@.take(i as int + 1) =~= d@.take(i as int).push(d@[i as int]));
                        assert(deps_view(d@.take(i as int + 1)) =~= deps_view(
                            d@.take(i as int),
                        ).push((d@[i as int].0@, d@[i as int].1@)));
                        assert(pendprev.push((d@[i as int].0@, d@[i as int].1@)) =~= pend0
                            + deps_view(d@.take(i as int + 1)));
                    }
                    i = i + 1;
                }
                proof {
                    assert(d@.take(d@.len() as int) =~= d@);
                    assert(deps_view(self.pending@) =~= pend0 + runtime_deps(vd@));
                }
            },
            None => {
                proof {
                    assert(deps_view(self.pending@) =~= pend0 + runtime_deps(vd@));
                }
            },
        }
        let ghost res0 = self@.resolved;
        let ghost vdv = vd@;
        self.resolved.push((name.clone(), vd));
        proof {
            assert(entries_view(self.resolved@) =~= res0.push((name@, vdv)));
            lemma_lookup_none_means_absent(res0, name@);
            assert forall|i: int, j: int|
                0 <= i < j < self@.resolved.len() implies (#[trigger] self@.resolved[i]).0 != (
            #[trigger] self@.resolved[j]).0 by {
                if j < res0.len() as int {
                    assert(self@.resolved[i] == res0[i] && self@.resolved[j] == res0[j]);
                } else {
                    assert(self@.resolved[i] == res0[i]);
                    assert(self@.resolved[j].0 == name@);
                }
            }
        }
        Ok(())
    }

    /// Hand the finished resolved set over, in resolution order.
    pub fn into_resolved(self) -> (r: Vec<(String, PackageVersion)>)
        ensures
            entries_view(r@) == self@.resolved,
    {
        self.resolved
    }
}

/// Views of an in-memory registry snapshot: name to metadata, in order.
pub open spec fn registry_view(reg: Seq<(String, Package)>) -> Seq<(Seq<char>, PackageView)> {
    reg.map_values(|p: (String, Package)| (p.0@, p.1@))
}

/// First metadata document stored under `name`, if any.
pub open spec fn registry_lookup(
    reg: Seq<(Seq<char>, PackageView)>,
    name: Seq<char>,
) -> Option<PackageView>
    decreases reg.len(),
{
    if reg.len() == 0 {
        None
    } else if reg[0].0 == name {
        Some(reg[0].1)
    } else {
        registry_lookup(reg.skip(1), name)
    }
}

/// The set of package names the registry knows.
pub open spec fn registry_names(reg: Seq<(Seq<char>, PackageView)>) -> Set<Seq<char>> {
    reg.map_values(|p: (Seq<char>, PackageView)| p.0).to_set()
}

/// The set of names with a chosen descriptor.
pub open spec fn resolved_names(rs: Seq<(Seq<char>, PackageVersionView)>) -> Set<Seq<char>> {
    rs.map_values(|p: (Seq<char>, PackageVersionView)| p.0).to_set()
}

/// How many registry packages have no chosen descriptor yet.
pub open spec fn unresolved_count(
    reg: Seq<(Seq<char>, PackageView)>,
    rs: Seq<(Seq<char>, PackageVersionView)>,
) -> nat {
    registry_names(reg).difference(resolved_names(rs)).len()
}

proof fn lemma_registry_lookup_in_names(reg: Seq<(Seq<char>, PackageView)>, name: Seq<char>)
    requires
        registry_lookup(reg, name) is Some,
    ensures
        registry_names(reg).contains(name),
    decreases reg.len(),
{
    if reg.len() > 0 {
        if reg[0].0 == name {
            assert(reg.map_values(|p: (Seq<char>, PackageView)| p.0)[0] == name);
            assert(reg.map_values(|p: (Seq<char>, PackageView)| p.0).contains(name));
        } else {
            lemma_registry_lookup_in_names(reg.skip(1), name);
            let sub = reg.skip(1).map_values(|p: (Seq<char>, PackageView)| p.0);
            assert(sub.contains(name));
            let i = choose|i: int| 0 <= i < sub.len() && sub[i] == name;
            assert(reg.skip(1)[i].0 == name);
            assert(reg[i + 1].0 == name);
            assert(reg.map_values(|p: (Seq<char>, PackageView)| p.0)[i + 1] == name);
            assert(reg.map_values(|p: (Seq<char>, PackageView)| p.0).contains(name));
        }
    }
}

proof fn lemma_unresolved_not_in_names(rs: Seq<(Seq<char>, PackageVersionView)>, name: Seq<char>)
    requires
        lookup_version(rs, name) is None,
    ensures
        !resolved_names(rs).contains(name),
{
    lemma_lookup_none_means_absent(rs, name);
    let ms = rs.map_values(|p: (Seq<char>, PackageVersionView)| p.0);
    if resolved_names(rs).contains(name) {
        assert(ms.contains(name));
        let i = choose|i: int| 0 <= i < ms.len() && ms[i] == name;
        assert(rs[i].0 == name);
    }
}

proof fn lemma_resolved_names_push(
    rs: Seq<(Seq<char>, PackageVersionView)>,
    entry: (Seq<char>, PackageVersionView),
)
    ensures
        resolved_names(rs.push(entry)) == resolved_names(rs).insert(entry.0),
{
    let ms = rs.map_values(|p: (Seq<char>, PackageVersionView)| p.0);
    let msp = rs.push(entry).map_values(|p: (Seq<char>, PackageVersionView)| p.0);
    assert(msp =~= ms.push(entry.0));
    assert forall|x: Seq<char>| resolved_names(rs.push(entry)).contains(x) implies resolved_names(
        rs,
    ).insert(entry.0).contains(x) by {
        let i = choose|i: int| 0 <= i < msp.len() && msp[i] == x;
        if i < ms.len() {
            assert(ms.contains(x));
        } else {
            assert(x == entry.0);
        }
    }
    assert forall|x: Seq<char>|
        resolved_names(rs).insert(entry.0).contains(x) implies resolved_names(
        rs.push(entry),
    ).contains(x) by {
        if x == entry.0 {
            assert(msp[msp.len() - 1] == x);
            assert(msp.contains(x));
        } else {
            let i = choose|i: int| 0 <= i < ms.len() && ms[i] == x;
            assert(msp[i] == x);
            assert(msp.contains(x));
        }
    }
    assert(resolved_names(rs.push(entry)) =~= resolved_names(rs).insert(entry.0));
}

/// One resolve step shrinks the count of registry packages without a
/// chosen descriptor.
proof fn lemma_resolve_step_measure(
    reg: Seq<(Seq<char>, PackageView)>,
    rs: Seq<(Seq<char>, PackageVersionView)>,
    entry: (Seq<char>, PackageVersionView),
)
    requires
        registry_lookup(reg, entry.0) is Some,
        lookup_version(rs, entry.0) is None,
    ensures
        unresolved_count(reg, rs.push(entry)) < unresolved_count(reg, rs),
{
    lemma_registry_lookup_in_names(reg, entry.0);
    lemma_unresolved_not_in_names(rs, entry.0);
    lemma_resolved_names_push(rs, entry);
    let diff = registry_names(reg).difference(resolved_names(rs));
    assert(registry_names(reg).difference(resolved_names(rs.push(entry))) =~= diff.remove(
        entry.0,
    ));
    assert(registry_names(reg).finite());
    assert(diff.finite()) by {
        vstd::set::axiom_set_difference_finite(registry_names(reg), resolved_names(rs));
    }
    assert(diff.contains(entry.0));
    assert(diff.remove(entry.0).len() < diff.len()) by {
        vstd::set::axiom_set_remove_len(diff, entry.0);
    }
}

/// The resolved set a worklist walk reaches from the given state, over a
/// fixed registry snapshot: skip entries already resolved, fail on a
/// missing package or version, otherwise push the chosen descriptor and
/// queue its runtime dependencies.
pub open spec fn spec_resolve_from(
    reg: Seq<(Seq<char>, PackageView)>,
    pending: Seq<(Seq<char>, Seq<char>)>,
    resolved: Seq<(Seq<char>, PackageVersionView)>,
) -> Result<Seq<(Seq<char>, PackageVersionView)>, ResolveErrorView>
    decreases unresolved_count(reg, resolved), pending.len(),
    via spec_resolve_from_decreases
{
    if pending.len() == 0 {
        Ok(resolved)
    } else if name_resolved(resolved, pending[0].0) {
        spec_resolve_from(reg, pending.skip(1), resolved)
    } else {
        match registry_lookup(reg, pending[0].0) {
            None => Err(ResolveErrorView::PackageNotFound { package: pending[0].0 }),
            Some(p) => match choose_version(p, pending[0].1) {
                Err(e) => Err(e),
                Ok(vd) => spec_resolve_from(
                    reg,
                    pending.skip(1) + runtime_deps(vd),
                    resolved.push((pending[0].0, vd)),
                ),
            },
        }
    }
}

#[via_fn]
proof fn spec_resolve_from_decreases(
    reg: Seq<(Seq<char>, PackageView)>,
    pending: Seq<(Seq<char>, Seq<char>)>,
    resolved: Seq<(Seq<char>, PackageVersionView)>,
) {
    if pending.len() > 0 && !name_resolved(resolved, pending[0].0) {
        match registry_lookup(reg, pending[0].0) {
            None => {
            },
            Some(p) => match choose_version(p, pending[0].1) {
                Err(_) => {
                },
                Ok(vd) => {
                    lemma_resolve_step_measure(reg, resolved, (pending[0].0, vd));
                },
            },
        }
    }
}

/// An exact constraint present in the published set resolves to exactly
/// that version's descriptor.
pub proof fn lemma_exact_present_resolves_to_itself(p: PackageView, c: Seq<char>)
    requires
        crate::matcher::is_exact(c),
        lookup_version(p.versions, c) is Some,
    ensures
        choose_version(p, c) == Ok::<PackageVersionView, ResolveErrorView>(
            lookup_version(p.versions, c)->0,
        ),
{
    crate::types::lemma_lookup_some_key_present(p.versions, c);
    crate::matcher::lemma_exact_constraint_selects_itself(version_keys(p.versions), c);
}

/// Whatever state a walk starts from, a resolved set it returns never
/// carries two entries for one name: every package gets exactly one
/// chosen descriptor, the first resolution encountered.
pub proof fn lemma_resolution_names_unique(
    reg: Seq<(Seq<char>, PackageView)>,
    pending: Seq<(Seq<char>, Seq<char>)>,
    resolved: Seq<(Seq<char>, PackageVersionView)>,
)
    requires
        resolved_names_unique(resolved),
        spec_resolve_from(reg, pending, resolved) is Ok,
    ensures
        resolved_names_unique(spec_resolve_from(reg, pending, resolved)->Ok_0),
    decreases unresolved_count(reg, resolved), pending.len(),
{
    if pending.len() == 0 {
    } else if name_resolved(resolved, pending[0].0) {
        lemma_resolution_names_unique(reg, pending.skip(1), resolved);
    } else {
        match registry_lookup(reg, pending[0].0) {
            None => {
            },
            Some(p) => match choose_version(p, pending[0].1) {
                Err(_) => {
                },
                Ok(vd) => {
                    let entry = (pending[0].0, vd);
                    let pushed = resolved.push(entry);
                    lemma_lookup_none_means_absent(resolved, pending[0].0);
                    assert forall|i: int, j: int|
                        0 <= i < j < pushed.len() implies (#[trigger] pushed[i]).0 != (
                    #[trigger] pushed[j]).0 by {
                        if j < resolved.len() as int {
                            assert(pushed[i] == resolved[i] && pushed[j] == resolved[j]);
                        } else {
                            assert(pushed[i] == resolved[i]);
                            assert(pushed[j].0 == pending[0].0);
                        }
                    }
                    lemma_resolve_step_measure(reg, resolved, entry);
                    lemma_resolution_names_unique(
                        reg,
                        pending.skip(1) + runtime_deps(vd),
                        pushed,
                    );
                },
            },
        }
    }
}

/// A name once resolved stays resolved: the walk only appends to the
/// resolved set.
proof fn lemma_resolution_monotone(
    reg: Seq<(Seq<char>, PackageView)>,
    pending: Seq<(Seq<char>, Seq<char>)>,
    resolved: Seq<(Seq<char>, PackageVersionView)>,
    n: Seq<char>,
)
    requires
        name_resolved(resolved, n),
        spec_resolve_from(reg, pending, resolved) is Ok,
    ensures
        name_resolved(spec_resolve_from(reg, pending, resolved)->Ok_0, n),
    decreases unresolved_count(reg, resolved), pending.len(),
{
    if pending.len() == 0 {
    } else if name_resolved(resolved, pending[0].0) {
        lemma_resolution_monotone(reg, pending.skip(1), resolved, n);
    } else {
        match registry_lookup(reg, pending[0].0) {
            None => {
            },
            Some(p) => match choose_version(p, pending[0].1) {
                Err(_) => {
                },
                Ok(vd) => {
                    let entry = (pending[0].0, vd);
                    lemma_first_resolution_wins(resolved, entry, n);
                    lemma_resolve_step_measure(reg, resolved, entry);
                    lemma_resolution_monotone(
                        reg,
                        pending.skip(1) + runtime_deps(vd),
                        resolved.push(entry),
                        n,
                    );
                },
            },
        }
    }
}

/// Every name on the worklist of a walk that returns a resolved set has
/// an entry in that set; with the uniqueness law, each requested
/// dependency gets exactly one chosen descriptor.
pub proof fn lemma_requested_name_resolved(
    reg: Seq<(Seq<char>, PackageView)>,
    pending: Seq<(Seq<char>, Seq<char>)>,
    resolved: Seq<(Seq<char>, PackageVersionView)>,
    k: int,
)
    requires
        0 <= k < pending.len(),
        spec_resolve_from(reg, pending, resolved) is Ok,
    ensures
        name_resolved(spec_resolve_from(reg, pending, resolved)->Ok_0, pending[k].0),
    decreases unresolved_count(reg, resolved), pending.len(),
{
    if name_resolved(resolved, pending[0].0) {
        if k == 0 {
            lemma_resolution_monotone(reg, pending.skip(1), resolved, pending[0].0);
        } else {
            assert(pending.skip(1)[k - 1] == pending[k]);
            lemma_requested_name_resolved(reg, pending.skip(1), resolved, k - 1);
        }
    } else {
        match registry_lookup(reg, pending[0].0) {
            None => {
            },
            Some(p) => match choose_version(p, pending[0].1) {
                Err(_) => {
                },
                Ok(vd) => {
                    let entry = (pending[0].0, vd);
                    lemma_lookup_push_absent(resolved, entry);
                    lemma_resolve_step_measure(reg, resolved, entry);
                    let pending2 = pending.skip(1) + runtime_deps(vd);
                    if k == 0 {
                        lemma_resolution_monotone(reg, pending2, resolved.push(entry), pending[0].0);
                    } else {
                        assert(pending2[k - 1] == pending[k]);
                        lemma_requested_name_resolved(reg, pending2, resolved.push(entry), k - 1);
                    }
                },
            },
        }
    }
}

/// Skipping already-resolved worklist entries does not change where the
/// walk ends.
proof fn lemma_spec_resolve_drop(
    reg: Seq<(Seq<char>, PackageView)>,
    pending: Seq<(Seq<char>, Seq<char>)>,
    resolved: Seq<(Seq<char>, PackageVersionView)>,
)
    ensures
        spec_resolve_from(reg, pending, resolved) == spec_resolve_from(
            reg,
            drop_resolved_prefix(pending, resolved),
            resolved,
        ),
    decreases pending.len(),
{
    if pending.len() > 0 && name_resolved(resolved, pending[0].0) {
        lemma_spec_resolve_drop(reg, pending.skip(1), resolved);
    }
}

/// Resolution depends on the registry data and the root alone: two runs
/// over equal snapshots from equal roots end in the same resolved set or
/// the same error.
pub proof fn lemma_resolution_deterministic(
    reg1: Seq<(Seq<char>, PackageView)>,
    reg2: Seq<(Seq<char>, PackageView)>,
    root1: PackageVersionView,
    root2: PackageVersionView,
)
    requires
        reg1 == reg2,
        root1 == root2,
    ensures
        spec_resolve_from(reg1, runtime_deps(root1), Seq::empty()) == spec_resolve_from(
            reg2,
            runtime_deps(root2),
            Seq::empty(),
        ),
{
}

fn registry_find<'a>(registry: &'a Vec<(String, Package)>, name: &str) -> (r: Option<&'a Package>)
    ensures
        ({
            match (r, registry_lookup(registry_view(registry@), name@)) {
                (Some(p), Some(pv)) => p@ == pv,
                (None, None) => true,
                _ => false,
            }
        }),
{
    let ghost views = registry_view(registry@);
    let mut i: usize = 0;
    proof {
        assert(views.skip(0) =~= views);
    }
    while i < registry.len()
        invariant
            i <= registry.len(),
            views == registry_view(registry@),
            views.len() == registry@.len(),
            registry_lookup(views, name@) == registry_lookup(views.skip(i as int), name@),
        decreases registry.len() - i,
    {
        proof {
            assert(views[i as int] == (registry@[i as int].0@, registry@[i as int].1@));
            assert(views.skip(i as int)[0] == views[i as int]);
            assert(views.skip(i as int).skip(1) =~= views.skip(i as int + 1));
        }
        if str_eq(registry[i].0.as_str(), name) {
            return Some(&registry[i].1);
        }
        i = i + 1;
    }
    proof {
        assert(views.skip(i as int).len() == 0);
    }
    None
}

/// Resolve a root descriptor's whole dependency graph against an
/// in-memory registry snapshot. The walk is the one `Resolver` performs;
/// the result is exactly what the specification-level walk computes, so
/// two runs over the same data return the same resolved set.
pub fn resolve_graph(registry: &Vec<(String, Package)>, root: &PackageVersion) -> (r: Result<
    Vec<(String, PackageVersion)>,
    ResolveError,
>)
    ensures
        ({
            match (r, spec_resolve_from(
                registry_view(registry@),
                runtime_deps(root@),
                Seq::empty(),
            )) {
                (Ok(v), Ok(s)) => entries_view(v@) == s,
                (Err(e), Err(se)) => e@ == se,
                _ => false,
            }
        }),
{
    let ghost regv = registry_view(registry@);
    let ghost target = spec_resolve_from(regv, runtime_deps(root@), Seq::empty());
    let mut resolver: Resolver = Resolver::new(root);
    proof {
        assert(resolver@.resolved =~= Seq::<(Seq<char>, PackageVersionView)>::empty());
    }
    loop
        invariant
            resolver.wf(),
            spec_resolve_from(regv, resolver@.pending, resolver@.resolved) == target,
            regv == registry_view(registry@),
            target == spec_resolve_from(regv, runtime_deps(root@), Seq::empty()),
        decreases unresolved_count(regv, resolver@.resolved),
    {
        let ghost pend0 = resolver@.pending;
        let ghost res0 = resolver@.resolved;
        let next: Option<(String, String)> = resolver.next_pending();
        proof {
            lemma_spec_resolve_drop(regv, pend0, res0);
        }
        match next {
            None => {
                return Ok(resolver.into_resolved());
            },
            Some(entry) => {
                let ghost rest = drop_resolved_prefix(pend0, res0);
                match registry_find(registry, entry.0.as_str()) {
                    None => {
                        return Err(ResolveError::PackageNotFound { package: entry.0 });
                    },
                    Some(pkg) => {
                        match resolver.resolve_pending(&entry.0, &entry.1, pkg) {
                            Ok(_) => {
                                proof {
                                    let vd = choose_version(pkg@, entry.1@)->Ok_0;
                                    lemma_resolve_step_measure(regv, res0, (entry.0@, vd));
                                }
                            },
                            Err(e) => {
                                return Err(e);
                            },
                        }
                    },
                }
            },
        }
    }
}

} // verus!
