//! Install-pipeline bookkeeping: which resolved entries get downloaded
//! and extracted, and the progress record each step reports.
//!
//! An entry whose descriptor carries no repository reference is skipped
//! as a non-installable, local-only entry; it still occupies its slot in
//! the resolved set, so the step indices and the total keep counting it.

use vstd::prelude::*;

use crate::types::{
    display_name, stringify_opt, entries_view, PackageVersion, PackageVersionView,
};

verus! {

/// One download-and-extract step, with its progress record.
#[derive(Debug, Clone, PartialEq, Eq)]
pub struct InstallAction {
    pub name: String,
    pub version: String,
    pub tarball: String,
    pub percent: u8,
    pub index: usize,
    pub total: usize,
}

/// Mathematical view of an install step.
#[verifier::ext_equal]
pub ghost struct InstallActionView {
    pub name: Seq<char>,
    pub version: Seq<char>,
    pub tarball: Seq<char>,
    pub percent: int,
    pub index: int,
    pub total: int,
}

impl View for InstallAction {
    type V = InstallActionView;

    open spec fn view(&self) -> InstallActionView {
        InstallActionView {
            name: self.name@,
            version: self.version@,
            tarball: self.tarball@,
            percent: self.percent as int,
            index: self.index as int,
            total: self.total as int,
        }
    }
}

/// Views of a vector of install steps.
pub open spec fn actions_view(s: Seq<InstallAction>) -> Seq<InstallActionView> {
    s.map_values(|a: InstallAction| a@)
}

/// `100 * index / total`, rounded to the nearest integer, halves up.
pub open spec fn rounded_percent(index: int, total: int) -> int
    recommends
        0 < total,
{
    (200 * index + total) / (2 * total)
}

/// Percentage of the pipeline done after step `index` of `total`.
pub fn progress_percent(index: usize, total: usize) -> (r: u8)
    requires
        0 < total,
        index <= total,
    ensures
        r as int == rounded_percent(index as int, total as int),
{
    let wide: u128 = 200u128 * (index as u128) + (total as u128);
    let div: u128 = wide / (2u128 * (total as u128));
    proof {
        assert(wide as int == 200 * (index as int) + (total as int));
        assert(div as int == rounded_percent(index as int, total as int));
        assert(div <= 100) by (nonlinear_arith)
            requires
                0 < total,
                index <= total,
                wide as int == 200 * (index as int) + (total as int),
                div as int == (wide as int) / (2 * (total as int)),
        ;
    }
    div as u8
}

/// The install steps for the entries of `rs` starting at slot `i`, with
/// `total` slots in all: one step per entry with a repository reference,
/// none for the others, indices counting every slot.
pub open spec fn install_plan_from(
    rs: Seq<(Seq<char>, PackageVersionView)>,
    i: int,
    total: int,
) -> Seq<InstallActionView>
    decreases rs.len(),
{
    if rs.len() == 0 {
        Seq::empty()
    } else {
        let rest = install_plan_from(rs.skip(1), i + 1, total);
        if rs[0].1.repository is Some {
            seq![
                InstallActionView {
                    name: display_name(rs[0].1.name),
                    version: rs[0].1.version,
                    tarball: rs[0].1.tarball,
                    percent: rounded_percent(i + 1, total),
                    index: i + 1,
                    total: total,
                },
            ] + rest
        } else {
            rest
        }
    }
}

/// The install steps of a whole resolved set.
pub open spec fn install_plan(rs: Seq<(Seq<char>, PackageVersionView)>) -> Seq<InstallActionView> {
    install_plan_from(rs, 0, rs.len() as int)
}

/// How many entries carry a repository reference.
pub open spec fn installable_count(rs: Seq<(Seq<char>, PackageVersionView)>) -> nat
    decreases rs.len(),
{
    if rs.len() == 0 {
        0
    } else {
        (if rs[0].1.repository is Some {
            1nat
        } else {
            0nat
        }) + installable_count(rs.skip(1))
    }
}

proof fn lemma_install_plan_from_counts(
    rs: Seq<(Seq<char>, PackageVersionView)>,
    i: int,
    total: int,
)
    ensures
        install_plan_from(rs, i, total).len() == installable_count(rs),
        forall|k: int|
            0 <= k < install_plan_from(rs, i, total).len() ==> (#[trigger] install_plan_from(
                rs,
                i,
                total,
            )[k]).total == total,
    decreases rs.len(),
{
    if rs.len() > 0 {
        lemma_install_plan_from_counts(rs.skip(1), i + 1, total);
    }
}

/// An entry without a repository reference gets no install step, yet
/// still occupies its slot: the plan has exactly one step per entry
/// with a reference, and every step's total counts all entries.
pub proof fn lemma_no_repository_excluded(rs: Seq<(Seq<char>, PackageVersionView)>)
    ensures
        install_plan(rs).len() == installable_count(rs),
        forall|k: int|
            0 <= k < install_plan(rs).len() ==> (#[trigger] install_plan(rs)[k]).total == rs.len(),
{
    lemma_install_plan_from_counts(rs, 0, rs.len() as int);
}

/// Turn a resolved set into its sequence of install steps, in the set's
/// own order.
pub fn install_actions(resolved: &Vec<(String, PackageVersion)>) -> (r: Vec<InstallAction>)
    ensures
        actions_view(r@) == install_plan(entries_view(resolved@)),
{
    let ghost views = entries_view(resolved@);
    let ghost total_g = views.len() as int;
    let total: usize = resolved.len();
    let mut out: Vec<InstallAction> = Vec::new();
    let mut i: usize = 0;
    proof {
        assert(views.skip(0) =~= views);
        assert(actions_view(out@).len() == 0);
    }
    while i < resolved.len()
        invariant
            i <= resolved.len(),
            total == resolved.len(),
            views == entries_view(resolved@),
            views.len() == resolved@.len(),
            actions_view(out@) + install_plan_from(views.skip(i as int), i as int, total_g)
                == install_plan_from(views, 0, total_g),
            total_g == views.len() as int,
        decreases resolved.len() - i,
    {
        proof {
            assert(views[i as int] == (resolved@[i as int].0@, resolved@[i as int].1@));
            assert(views.skip(i as int)[0] == views[i as int]);
            assert(views.skip(i as int).skip(1) =~= views.skip(i as int + 1));
        }
        let ghost prev = actions_view(out@);
        let entry: &(String, PackageVersion) = &resolved[i];
        if entry.1.repository.is_some() {
            let action = InstallAction {
                name: stringify_opt(&entry.1.name),
                version: entry.1.version.clone(),
                tarball: entry.1.dist.tarball.clone(),
                percent: progress_percent(i + 1, total),
                index: i + 1,
                total: total,
            };
            out.push(action);
            proof {
                assert(actions_view(out@) =~= prev.push(
                    install_plan_from(views.skip(i as int), i as int, total_g)[0],
                ));
                assert(prev.push(install_plan_from(views.skip(i as int), i as int, total_g)[0])
                    + install_plan_from(views.skip(i as int + 1), i as int + 1, total_g) =~= prev
                    + install_plan_from(views.skip(i as int), i as int, total_g));
            }
        }
        i = i + 1;
    }
    proof {
        assert(views.skip(i as int).len() == 0);
        assert(actions_view(out@) + install_plan_from(views.skip(i as int), i as int, total_g)
            =~= actions_view(out@));
    }
    out
}

/// Relies on std::path::Path::exists: whether `path` names an existing
/// filesystem entry. The answer depends on the state of the disk, so
/// nothing is promised of it.
#[verifier::external_body]
fn path_exists(path: &str) -> bool {
    std::path::Path::new(path).exists()
}

/// Whether `path` names an existing filesystem entry. The answer depends
/// on the state of the disk, so the contract promises nothing of it.
pub fn dir_exists(path: &str) -> bool {
    path_exists(path)
}

} // verus!
