//! Transitive dependency resolution: pick the highest satisfying version
//! of every required package, and report conflicts.

use crate::dependency::Dependency;
use crate::dependency::DependencyKind;
use crate::errors::UhpmError;
use crate::package::Package;
use crate::reference::PackageReference;
use crate::text::str_eq;
use crate::text::str_to_string;
use crate::vreq::req_matches;
use vstd::prelude::*;

verus! {

/// A requirement that cannot stand beside the version already chosen.
#[derive(Clone, Debug)]
pub struct DependencyConflict {
    pub package: String,
    pub required: String,
    pub installed: String,
    pub message: String,
}

/// What resolution decided.
#[derive(Debug)]
pub struct ResolutionResult {
    pub packages_to_install: Vec<Package>,
    pub packages_to_update: Vec<PackageReference>,
    pub packages_to_remove: Vec<PackageReference>,
    pub conflicts: Vec<DependencyConflict>,
}

/// Whether some package of the list bears the name.
pub open spec fn pkgs_have_name(ps: Seq<Package>, name: Seq<char>) -> bool {
    exists|i: int| 0 <= i < ps.len() && (#[trigger] ps[i]).name@ == name
}

/// Every name appears once.
pub open spec fn pkg_names_unique(ps: Seq<Package>) -> bool {
    forall|i: int, j: int|
        0 <= i < j < ps.len() ==> (#[trigger] ps[i]).name@ != (#[trigger] ps[j]).name@
}

/// Whether some package of the list has the same id text.
pub open spec fn pkgs_have_id(ps: Seq<Package>, id: Seq<char>) -> bool {
    exists|i: int| 0 <= i < ps.len() && (#[trigger] ps[i]).id@ == id
}

/// The highest available version of the named package that satisfies the
/// requirement.
fn best_available<'a>(available: &'a Vec<Package>, dep: &Dependency) -> (r: Option<&'a Package>)
    ensures
        match r {
            Some(p) => p.name@ == dep.name@ && req_matches(
                dep.constraint.requirement@,
                p.version@,
            ) && pkgs_have_id(available@, p.id@) && (forall|i: int|
                0 <= i < available@.len() && (#[trigger] available@[i]).name@ == dep.name@
                    && req_matches(dep.constraint.requirement@, available@[i].version@)
                    ==> !crate::version::version_lt(p.version@, available@[i].version@)),
            None => forall|i: int|
                0 <= i < available@.len() ==> !((#[trigger] available@[i]).name@ == dep.name@
                    && req_matches(dep.constraint.requirement@, available@[i].version@)),
        },
{
    let n = available.len();
    let mut best: Option<usize> = None;
    let mut i: usize = 0;
    while i < n
        invariant
            0 <= i <= n,
            n == available@.len(),
            match best {
                Some(b) => b < i && available@[b as int].name@ == dep.name@ && req_matches(
                    dep.constraint.requirement@,
                    available@[b as int].version@,
                ) && (forall|k: int|
                    0 <= k < i && (#[trigger] available@[k]).name@ == dep.name@ && req_matches(
                        dep.constraint.requirement@,
                        available@[k].version@,
                    ) ==> !crate::version::version_lt(
                        available@[b as int].version@,
                        available@[k].version@,
                    )),
                None => forall|k: int|
                    0 <= k < i ==> !((#[trigger] available@[k]).name@ == dep.name@ && req_matches(
                        dep.constraint.requirement@,
                        available@[k].version@,
                    )),
            },
        decreases n - i,
    {
        let cand = &available[i];
        if str_eq(cand.name.as_str(), dep.name.as_str()) && dep.matches_version(&cand.version) {
            match best {
                None => {
                    proof {
                        crate::version::lemma_version_lt_asymmetric(
                            available@[i as int].version@,
                            available@[i as int].version@,
                        );
                    }
                    best = Some(i);
                },
                Some(b) => {
                    if available[b].version.lt(&cand.version) {
                        let ghost old_best = available@[b as int].version@;
                        proof {
                            assert forall|k: int|
                                0 <= k < i + 1 && (#[trigger] available@[k]).name@ == dep.name@
                                    && req_matches(
                                    dep.constraint.requirement@,
                                    available@[k].version@,
                                ) implies !crate::version::version_lt(
                                available@[i as int].version@,
                                available@[k].version@,
                            ) by {
                                if k < i {
                                    if crate::version::version_lt(
                                        available@[i as int].version@,
                                        available@[k].version@,
                                    ) {
                                        crate::version::lemma_version_lt_transitive(
                                            old_best,
                                            available@[i as int].version@,
                                            available@[k].version@,
                                        );
                                    }
                                } else {
                                    crate::version::lemma_version_lt_asymmetric(
                                        available@[i as int].version@,
                                        available@[k].version@,
                                    );
                                }
                            }
                        }
                        best = Some(i);
                    } else {
                        proof {
                            assert(!crate::version::version_lt(
                                available@[b as int].version@,
                                available@[i as int].version@,
                            ));
                        }
                    }
                },
            }
        }
        i = i + 1;
    }
    match best {
        Some(b) => {
            proof {
                assert(pkgs_have_id(available@, available@[b as int].id@));
            }
            Some(&available[b])
        },
        None => None,
    }
}

/// Whether the list holds a required dependency with this name and
/// constraint.
pub open spec fn dep_like_in(ds: Seq<Dependency>, d: Dependency) -> bool {
    exists|i: int|
        0 <= i < ds.len() && (#[trigger] ds[i]).name@ == d.name@
            && ds[i].constraint.requirement@ == d.constraint.requirement@ && ds[i].kind
            == DependencyKind::Required
}

/// A requirement the resolver can meet along the way: a root, or a
/// required dependency of an available package.
pub open spec fn obligation(available: Seq<Package>, roots: Seq<Dependency>, d: Dependency) -> bool {
    dep_like_in(roots, d) || exists|i: int|
        0 <= i < available.len() && dep_like_in((#[trigger] available[i]).dependencies@, d)
}

/// Whether some available package satisfies the requirement.
pub open spec fn satisfiable(available: Seq<Package>, d: Dependency) -> bool {
    exists|i: int|
        0 <= i < available.len() && (#[trigger] available[i]).name@ == d.name@ && req_matches(
            d.constraint.requirement@,
            available[i].version@,
        )
}

/// No satisfying available version is higher than this one.
pub open spec fn best_choice_for(available: Seq<Package>, d: Dependency, v: crate::version::VersionView) -> bool {
    forall|i: int|
        0 <= i < available.len() && (#[trigger] available[i]).name@ == d.name@ && req_matches(
            d.constraint.requirement@,
            available[i].version@,
        ) ==> !crate::version::version_lt(v, available[i].version@)
}

/// A package the resolver may plan: some requirement it owes names the
/// package and is satisfied by it, and no satisfying available version is
/// higher.
pub open spec fn well_chosen(available: Seq<Package>, roots: Seq<Dependency>, p: Package) -> bool {
    exists|d: Dependency|
        obligation(available, roots, d) && d.name@ == p.name@ && req_matches(
            d.constraint.requirement@,
            p.version@,
        ) && best_choice_for(available, d, p.version@)
}

/// Whether the queue still holds a requirement with this name and
/// constraint.
pub open spec fn queued_like(queue: Seq<Dependency>, d: Dependency) -> bool {
    exists|i: int|
        0 <= i < queue.len() && (#[trigger] queue[i]).name@ == d.name@
            && queue[i].constraint.requirement@ == d.constraint.requirement@
}

/// Whether a chosen package satisfies the requirement by name and version.
pub open spec fn sat_by_chosen(chosen: Seq<Package>, d: Dependency) -> bool {
    exists|i: int|
        0 <= i < chosen.len() && (#[trigger] chosen[i]).name@ == d.name@ && req_matches(
            d.constraint.requirement@,
            chosen[i].version@,
        )
}

/// Whether the plan or the installed set satisfies the requirement.
pub open spec fn dep_satisfied_by(plan: Seq<Package>, installed: Seq<Package>, d: Dependency) -> bool {
    (exists|i: int|
        0 <= i < plan.len() && (#[trigger] plan[i]).name@ == d.name@ && req_matches(
            d.constraint.requirement@,
            plan[i].version@,
        )) || (exists|i: int|
        0 <= i < installed.len() && (#[trigger] installed[i]).name@ == d.name@ && installed[i].installed
            && req_matches(d.constraint.requirement@, installed[i].version@))
}

/// Whether a chosen package reappears, name and version, in the plan or
/// the installed set.
pub open spec fn chosen_covered(plan: Seq<Package>, installed: Seq<Package>, c: Package) -> bool {
    (exists|i: int|
        0 <= i < plan.len() && (#[trigger] plan[i]).name@ == c.name@ && plan[i].version@
            == c.version@) || (exists|i: int|
        0 <= i < installed.len() && (#[trigger] installed[i]).name@ == c.name@
            && installed[i].version@ == c.version@ && installed[i].installed)
}

/// Whether some package of the list bears the name at this version.
pub open spec fn version_among(
    ps: Seq<Package>,
    name: Seq<char>,
    v: crate::version::VersionView,
) -> bool {
    exists|i: int| 0 <= i < ps.len() && (#[trigger] ps[i]).name@ == name && ps[i].version@ == v
}

/// Whether some installed row bears the name at this version.
pub open spec fn installed_version_among(
    ps: Seq<Package>,
    name: Seq<char>,
    v: crate::version::VersionView,
) -> bool {
    exists|i: int|
        0 <= i < ps.len() && (#[trigger] ps[i]).name@ == name && ps[i].installed && ps[i].version@
            == v
}

/// A version of the name that the plan or the installed rows carry.
pub open spec fn covered_version(
    plan: Seq<Package>,
    installed: Seq<Package>,
    name: Seq<char>,
    v: crate::version::VersionView,
) -> bool {
    version_among(plan, name, v) || installed_version_among(installed, name, v)
}

/// A genuine clash behind a conflict record: some reached requirement,
/// whose name and text the record carries, rejects the version of that
/// name — carried as the record's `installed` text — that the plan or the
/// installed rows hold.
pub open spec fn conflict_genuine(
    available: Seq<Package>,
    roots: Seq<Dependency>,
    plan: Seq<Package>,
    installed: Seq<Package>,
    c: DependencyConflict,
) -> bool {
    exists|d: Dependency, v: crate::version::VersionView|
        #[trigger] obligation(available, roots, d) && d.name@ == c.package@
            && d.constraint.requirement.spec_text() == c.required@
            && #[trigger] crate::version::version_str(v) == c.installed@ && !req_matches(
            d.constraint.requirement@,
            v,
        ) && covered_version(plan, installed, c.package@, v)
}

/// No two reached requirements of one name disagree: a best satisfying
/// available choice for either one also satisfies the other.
pub open spec fn no_clashes(available: Seq<Package>, roots: Seq<Dependency>) -> bool {
    forall|d1: Dependency, d2: Dependency, i: int|
        #[trigger] obligation(available, roots, d1) && #[trigger] obligation(available, roots, d2)
            && d1.name@ == d2.name@ && 0 <= i < available.len() && (#[trigger] available[i]).name@
            == d1.name@ && req_matches(d1.constraint.requirement@, available[i].version@)
            && best_choice_for(available, d1, available[i].version@) ==> req_matches(
            d2.constraint.requirement@,
            available[i].version@,
        )
}

/// A requirement the loop has settled: either a conflict is on record, or
/// a chosen package satisfies it.
pub open spec fn settled(
    conflicts: Seq<DependencyConflict>,
    chosen: Seq<Package>,
    d: Dependency,
) -> bool {
    conflicts.len() > 0 || sat_by_chosen(chosen, d)
}

/// The largest dependency count of any available package.
pub open spec fn max_deps(available: Seq<Package>) -> int
    decreases available.len(),
{
    if available.len() == 0 {
        0
    } else {
        let rest = max_deps(available.drop_last());
        if available.last().dependencies@.len() > rest {
            available.last().dependencies@.len() as int
        } else {
            rest
        }
    }
}

/// Every package's dependency count is at most the maximum.
proof fn lemma_max_deps(available: Seq<Package>, i: int)
    requires
        0 <= i < available.len(),
    ensures
        available[i].dependencies@.len() <= max_deps(available),
        max_deps(available) >= 0,
    decreases available.len(),
{
    if i == available.len() - 1 {
        lemma_max_deps_nonneg(available.drop_last());
    } else {
        lemma_max_deps(available.drop_last(), i);
        assert(available.drop_last()[i] == available[i]);
    }
}

proof fn lemma_max_deps_nonneg(available: Seq<Package>)
    ensures
        max_deps(available) >= 0,
    decreases available.len(),
{
    if available.len() > 0 {
        lemma_max_deps_nonneg(available.drop_last());
    }
}

/// Distinct indices into a range of `n` values number at most `n`.
proof fn lemma_distinct_indices_bound(picked: Seq<int>, n: int)
    requires
        n >= 0,
        forall|i: int| 0 <= i < picked.len() ==> 0 <= #[trigger] picked[i] < n,
        forall|i: int, j: int| 0 <= i < j < picked.len() ==> picked[i] != picked[j],
    ensures
        picked.len() <= n,
{
    assert(picked.no_duplicates());
    picked.unique_seq_to_set();
    assert(picked.to_set().subset_of(vstd::set_lib::set_int_range(0, n))) by {
        assert forall|x: int| picked.to_set().contains(x) implies vstd::set_lib::set_int_range(
            0,
            n,
        ).contains(x) by {
            assert(picked.contains(x));
            let w = choose|w: int| 0 <= w < picked.len() && picked[w] == x;
            assert(0 <= picked[w] < n);
        }
    }
    vstd::set_lib::lemma_int_range(0, n);
    vstd::set_lib::lemma_len_subset(picked.to_set(), vstd::set_lib::set_int_range(0, n));
}

/// Resolves the roots transitively against what is available: a work
/// queue, one chosen version per name — always the highest satisfying
/// version — and a conflict on record wherever a later requirement, root
/// or transitive, rejects the version already chosen. Resolution fails
/// exactly when some requirement it reaches has no satisfying available
/// version. Packages already installed, name and version, are left out of
/// the plan; when no conflict is reported, every required root and every
/// required dependency of a planned package is satisfied by the plan or by
/// what is installed. Every conflict on record is genuine, and where no
/// two reached requirements of one name disagree none is recorded.
#[verifier::rlimit(100)]
pub fn resolve(available: &Vec<Package>, roots: &Vec<Dependency>, installed: &Vec<Package>) -> (r:
    Result<ResolutionResult, UhpmError>)
    ensures
        match r {
            Ok(res) => {
                &&& res.packages_to_update@.len() == 0
                &&& res.packages_to_remove@.len() == 0
                &&& pkg_names_unique(res.packages_to_install@)
                &&& (forall|k: int|
                    0 <= k < res.packages_to_install@.len() ==> pkgs_have_id(
                        available@,
                        (#[trigger] res.packages_to_install@[k]).id@,
                    ))
                &&& (forall|k: int|
                    0 <= k < res.packages_to_install@.len() ==> well_chosen(
                        available@,
                        roots@,
                        #[trigger] res.packages_to_install@[k],
                    ))
                &&& (forall|k: int|
                    0 <= k < res.packages_to_install@.len() ==> version_among(
                        available@,
                        (#[trigger] res.packages_to_install@[k]).name@,
                        res.packages_to_install@[k].version@,
                    ))
                &&& (forall|q: int|
                    0 <= q < res.conflicts@.len() ==> conflict_genuine(
                        available@,
                        roots@,
                        res.packages_to_install@,
                        installed@,
                        #[trigger] res.conflicts@[q],
                    ))
                &&& (no_clashes(available@, roots@) ==> res.conflicts@.len() == 0)
                &&& (res.conflicts@.len() == 0 ==> forall|k: int|
                    0 <= k < roots@.len() && (#[trigger] roots@[k]).kind
                        == DependencyKind::Required ==> dep_satisfied_by(
                        res.packages_to_install@,
                        installed@,
                        roots@[k],
                    ))
                &&& (res.conflicts@.len() == 0 ==> forall|x: int, j: int|
                    0 <= x < res.packages_to_install@.len() && 0 <= j
                        < res.packages_to_install@[x].dependencies@.len() && (
                    #[trigger] res.packages_to_install@[x].dependencies@[j]).kind
                        == DependencyKind::Required ==> dep_satisfied_by(
                        res.packages_to_install@,
                        installed@,
                        res.packages_to_install@[x].dependencies@[j],
                    ))
            },
            Err(e) => e matches UhpmError::ResolutionError(_) && exists|d: Dependency|
                obligation(available@, roots@, d) && !satisfiable(available@, d),
        },
{
    let mut queue: Vec<Dependency> = Vec::new();
    let rn = roots.len();
    let mut i: usize = 0;
    while i < rn
        invariant
            0 <= i <= rn,
            rn == roots@.len(),
            forall|k: int|
                0 <= k < i && (#[trigger] roots@[k]).kind == DependencyKind::Required
                    ==> queued_like(queue@, roots@[k]),
            forall|k: int|
                0 <= k < queue@.len() ==> dep_like_in(roots@, #[trigger] queue@[k]),
        decreases rn - i,
    {
        let ghost before = queue@;
        match roots[i].kind {
            DependencyKind::Required => {
                queue.push(roots[i].duplicate());
                proof {
                    assert(forall|k: int|
                        0 <= k < before.len() ==> #[trigger] queue@[k] == before[k]);
                    assert(queue@[queue@.len() - 1].name@ == roots@[i as int].name@);
                    assert(queue@[queue@.len() - 1].constraint.requirement@
                        == roots@[i as int].constraint.requirement@);
                    assert(dep_like_in(roots@, queue@[queue@.len() - 1]));
                    assert forall|k: int|
                        0 <= k < i + 1 && (#[trigger] roots@[k]).kind == DependencyKind::Required
                            implies queued_like(queue@, roots@[k]) by {
                        if k < i {
                            let w = choose|w: int|
                                0 <= w < before.len() && (#[trigger] before[w]).name@
                                    == roots@[k].name@ && before[w].constraint.requirement@
                                    == roots@[k].constraint.requirement@;
                            assert(queue@[w] == before[w]);
                        }
                    }
                }
            },
            _ => {},
        }
        i = i + 1;
    }
    let mut chosen: Vec<Package> = Vec::new();
    let mut conflicts: Vec<DependencyConflict> = Vec::new();
    let ghost n_avail = available@.len() as int;
    let ghost maxd = max_deps(available@);
    let ghost mut picked: Seq<int> = Seq::<int>::empty();
    proof {
        lemma_max_deps_nonneg(available@);
        lemma_distinct_indices_bound(picked, n_avail);
    }
    while queue.len() > 0
        invariant
            rn == roots@.len(),
            n_avail == available@.len(),
            maxd == max_deps(available@),
            maxd >= 0,
            pkg_names_unique(chosen@),
            picked.len() == chosen@.len(),
            forall|x: int|
                0 <= x < picked.len() ==> 0 <= #[trigger] picked[x] < n_avail
                    && available@[picked[x]].name@ == chosen@[x].name@
                    && available@[picked[x]].version@ == chosen@[x].version@,
            forall|x: int, y: int| 0 <= x < y < picked.len() ==> picked[x] != picked[y],
            forall|q: int|
                0 <= q < conflicts@.len() ==> conflict_genuine(
                    available@,
                    roots@,
                    chosen@,
                    installed@,
                    #[trigger] conflicts@[q],
                ),
            no_clashes(available@, roots@) ==> conflicts@.len() == 0,
            forall|k: int|
                0 <= k < chosen@.len() ==> pkgs_have_id(
                    available@,
                    (#[trigger] chosen@[k]).id@,
                ),
            forall|k: int|
                0 <= k < chosen@.len() ==> well_chosen(available@, roots@, #[trigger] chosen@[k]),
            forall|k: int|
                0 <= k < queue@.len() ==> obligation(available@, roots@, #[trigger] queue@[k]),
            forall|k: int|
                0 <= k < rn && (#[trigger] roots@[k]).kind == DependencyKind::Required
                    ==> queued_like(queue@, roots@[k]) || settled(conflicts@, chosen@, roots@[k]),
            forall|x: int, j: int|
                0 <= x < chosen@.len() && 0 <= j < chosen@[x].dependencies@.len() && (
                #[trigger] chosen@[x].dependencies@[j]).kind == DependencyKind::Required
                    ==> queued_like(queue@, chosen@[x].dependencies@[j]) || settled(
                    conflicts@,
                    chosen@,
                    chosen@[x].dependencies@[j],
                ),
        decreases queue@.len() + (n_avail + 1 - chosen@.len()) * (maxd + 1),
    {
        proof {
            lemma_distinct_indices_bound(picked, n_avail);
        }
        let ghost old_queue = queue@;
        let ghost old_chosen = chosen@;
        let ghost old_conflicts = conflicts@;
        let dep = queue.remove(0);
        proof {
            assert(dep == old_queue[0]);
            assert(queue@ =~= old_queue.subrange(1, old_queue.len() as int));
            assert(obligation(available@, roots@, dep));
            assert forall|k: int|
                0 <= k < rn && (#[trigger] roots@[k]).kind == DependencyKind::Required implies ((
            queued_like(queue@, roots@[k]) || (roots@[k].name@ == dep.name@
                && roots@[k].constraint.requirement@ == dep.constraint.requirement@)) || settled(
                conflicts@,
                chosen@,
                roots@[k],
            )) by {
                if queued_like(old_queue, roots@[k]) {
                    let w = choose|w: int|
                        0 <= w < old_queue.len() && (#[trigger] old_queue[w]).name@
                            == roots@[k].name@ && old_queue[w].constraint.requirement@
                            == roots@[k].constraint.requirement@;
                    if w > 0 {
                        assert(queue@[w - 1] == old_queue[w]);
                    }
                }
            }
            assert forall|x: int, j: int|
                0 <= x < chosen@.len() && 0 <= j < chosen@[x].dependencies@.len() && (
                #[trigger] chosen@[x].dependencies@[j]).kind == DependencyKind::Required implies ((
            queued_like(queue@, chosen@[x].dependencies@[j]) || (chosen@[x].dependencies@[j].name@
                == dep.name@ && chosen@[x].dependencies@[j].constraint.requirement@
                == dep.constraint.requirement@)) || settled(
                conflicts@,
                chosen@,
                chosen@[x].dependencies@[j],
            )) by {
                let d2 = chosen@[x].dependencies@[j];
                if queued_like(old_queue, d2) {
                    let w = choose|w: int|
                        0 <= w < old_queue.len() && (#[trigger] old_queue[w]).name@ == d2.name@
                            && old_queue[w].constraint.requirement@ == d2.constraint.requirement@;
                    if w > 0 {
                        assert(queue@[w - 1] == old_queue[w]);
                    }
                }
            }
        }
        // an already chosen name either satisfies the new requirement or
        // conflicts with it
        let cn = chosen.len();
        let mut found: Option<usize> = None;
        let mut j: usize = 0;
        while j < cn
            invariant_except_break
                0 <= j <= cn,
                cn == chosen@.len(),
                found is None,
                forall|k: int| 0 <= k < j ==> (#[trigger] chosen@[k]).name@ != dep.name@,
            ensures
                cn == chosen@.len(),
                found matches Some(f) ==> f < cn && chosen@[f as int].name@ == dep.name@,
                found is None ==> forall|k: int|
                    0 <= k < cn ==> (#[trigger] chosen@[k]).name@ != dep.name@,
            decreases cn - j,
        {
            if str_eq(chosen[j].name.as_str(), dep.name.as_str()) {
                found = Some(j);
                break ;
            }
            j = j + 1;
        }
        match found {
            Some(f) => {
                if !dep.matches_version(&chosen[f].version) {
                    proof {
                        if no_clashes(available@, roots@) {
                            assert(well_chosen(available@, roots@, chosen@[f as int]));
                            let d0 = choose|d0: Dependency|
                                obligation(available@, roots@, d0) && d0.name@
                                    == chosen@[f as int].name@ && req_matches(
                                    d0.constraint.requirement@,
                                    chosen@[f as int].version@,
                                ) && best_choice_for(
                                    available@,
                                    d0,
                                    chosen@[f as int].version@,
                                );
                            let w = picked[f as int];
                            assert(available@[w].name@ == chosen@[f as int].name@);
                            assert(available@[w].version@ == chosen@[f as int].version@);
                            assert(obligation(available@, roots@, d0));
                            assert(obligation(available@, roots@, dep));
                            assert(req_matches(
                                dep.constraint.requirement@,
                                available@[w].version@,
                            ));
                            assert(false);
                        }
                    }
                    let vs = chosen[f].version.to_string();
                    let ghost old_cf = conflicts@;
                    conflicts.push(
                        DependencyConflict {
                            package: str_to_string(dep.name.as_str()),
                            required: dep.constraint.requirement.to_text(),
                            installed: vs,
                            message: str_to_string(
                                "requirement rejects the version already chosen",
                            ),
                        },
                    );
                    proof {
                        assert(conflicts@.len() > 0);
                        assert(forall|q: int|
                            0 <= q < old_cf.len() ==> #[trigger] conflicts@[q] == old_cf[q]);
                        let c = conflicts@[conflicts@.len() - 1];
                        assert(c.package@ == dep.name@);
                        assert(c.required@ == dep.constraint.requirement.spec_text());
                        assert(c.installed@ == crate::version::version_str(
                            chosen@[f as int].version@,
                        ));
                        assert(chosen@[f as int].name@ == c.package@);
                        assert(version_among(
                            chosen@,
                            c.package@,
                            chosen@[f as int].version@,
                        ));
                        assert(conflict_genuine(available@, roots@, chosen@, installed@, c)) by {
                            assert(obligation(available@, roots@, dep) && dep.name@ == c.package@
                                && dep.constraint.requirement.spec_text() == c.required@
                                && crate::version::version_str(chosen@[f as int].version@)
                                == c.installed@ && !req_matches(
                                dep.constraint.requirement@,
                                chosen@[f as int].version@,
                            ) && covered_version(
                                chosen@,
                                installed@,
                                c.package@,
                                chosen@[f as int].version@,
                            ));
                        }
                    }
                } else {
                    proof {
                        assert(sat_by_chosen(chosen@, dep)) by {
                            assert(chosen@[f as int].name@ == dep.name@ && req_matches(
                                dep.constraint.requirement@,
                                chosen@[f as int].version@,
                            ));
                        }
                        assert forall|k: int|
                            0 <= k < rn && (#[trigger] roots@[k]).kind == DependencyKind::Required
                                implies queued_like(queue@, roots@[k]) || settled(
                                conflicts@,
                                chosen@,
                                roots@[k],
                            ) by {
                            if roots@[k].name@ == dep.name@ && roots@[k].constraint.requirement@
                                == dep.constraint.requirement@ {
                                assert(chosen@[f as int].name@ == roots@[k].name@ && req_matches(
                                    roots@[k].constraint.requirement@,
                                    chosen@[f as int].version@,
                                ));
                            }
                        }
                        assert forall|x: int, j2: int|
                            0 <= x < chosen@.len() && 0 <= j2 < chosen@[x].dependencies@.len()
                                && (#[trigger] chosen@[x].dependencies@[j2]).kind
                                == DependencyKind::Required implies queued_like(
                            queue@,
                            chosen@[x].dependencies@[j2],
                        ) || settled(conflicts@, chosen@, chosen@[x].dependencies@[j2]) by {
                            let d2 = chosen@[x].dependencies@[j2];
                            if d2.name@ == dep.name@ && d2.constraint.requirement@
                                == dep.constraint.requirement@ {
                                assert(chosen@[f as int].name@ == d2.name@ && req_matches(
                                    d2.constraint.requirement@,
                                    chosen@[f as int].version@,
                                ));
                            }
                        }
                    }
                }
            },
            None => {
                let picked_index = match best_available_index(available, &dep) {
                    Some(bi) => bi,
                    None => {
                        proof {
                            assert(!satisfiable(available@, dep));
                        }
                        return Err(
                            UhpmError::ResolutionError(
                                str_to_string("cannot resolve dependency"),
                            ),
                        );
                    },
                };
                let pick = available[picked_index].duplicate();
                let ghost before = chosen@;
                let ghost queue_mid = queue@;
                proof {
                    assert forall|k: int|
                        0 <= k < pick.dependencies@.len() implies dep_like_in(
                        available@[picked_index as int].dependencies@,
                        #[trigger] pick.dependencies@[k],
                    ) || pick.dependencies@[k].kind != DependencyKind::Required by {
                        if pick.dependencies@[k].kind == DependencyKind::Required {
                            assert((available@[picked_index as int].dependencies@[k]).name@
                                == pick.dependencies@[k].name@);
                        }
                    }
                }
                let dn = pick.dependencies.len();
                let mut d: usize = 0;
                while d < dn
                    invariant
                        0 <= d <= dn,
                        dn == pick.dependencies@.len(),
                        chosen@ == before,
                        conflicts@ == old_conflicts,
                        rn == roots@.len(),
                        n_avail == available@.len(),
                        0 <= picked_index < n_avail,
                        pick.name@ == dep.name@,
                        pick.name@ == available@[picked_index as int].name@,
                        pick.version@ == available@[picked_index as int].version@,
                        pick.id@ == available@[picked_index as int].id@,
                        req_matches(dep.constraint.requirement@, pick.version@),
                        best_choice_for(available@, dep, pick.version@),
                        obligation(available@, roots@, dep),
                        pick.dependencies@.len()
                            == available@[picked_index as int].dependencies@.len(),
                        forall|k: int|
                            0 <= k < rn && (#[trigger] roots@[k]).kind == DependencyKind::Required
                                ==> queued_like(queue_mid, roots@[k]) || (roots@[k].name@
                                == dep.name@ && roots@[k].constraint.requirement@
                                == dep.constraint.requirement@) || settled(
                                old_conflicts,
                                before,
                                roots@[k],
                            ),
                        forall|x: int, j2: int|
                            0 <= x < before.len() && 0 <= j2 < before[x].dependencies@.len() && (
                            #[trigger] before[x].dependencies@[j2]).kind
                                == DependencyKind::Required ==> queued_like(
                                queue_mid,
                                before[x].dependencies@[j2],
                            ) || (before[x].dependencies@[j2].name@ == dep.name@
                                && before[x].dependencies@[j2].constraint.requirement@
                                == dep.constraint.requirement@) || settled(
                                old_conflicts,
                                before,
                                before[x].dependencies@[j2],
                            ),
                        forall|k: int|
                            0 <= k < pick.dependencies@.len() ==> dep_like_in(
                                available@[picked_index as int].dependencies@,
                                #[trigger] pick.dependencies@[k],
                            ) || pick.dependencies@[k].kind != DependencyKind::Required,
                        queue@.len() >= queue_mid.len(),
                        forall|k: int|
                            0 <= k < queue_mid.len() ==> #[trigger] queue@[k] == queue_mid[k],
                        queue@.len() <= queue_mid.len() + d,
                        forall|k: int|
                            queue_mid.len() <= k < queue@.len() ==> obligation(
                                available@,
                                roots@,
                                #[trigger] queue@[k],
                            ),
                        forall|k: int|
                            0 <= k < d && pick.dependencies@[k].kind == DependencyKind::Required
                                ==> queued_like(queue@, #[trigger] pick.dependencies@[k]),
                    decreases dn - d,
                {
                    let ghost qb = queue@;
                    match pick.dependencies[d].kind {
                        DependencyKind::Required => {
                            queue.push(pick.dependencies[d].duplicate());
                            proof {
                                assert(forall|k: int|
                                    0 <= k < qb.len() ==> #[trigger] queue@[k] == qb[k]);
                                assert(queue@[queue@.len() - 1].name@
                                    == pick.dependencies@[d as int].name@);
                                assert(queue@[queue@.len() - 1].constraint.requirement@
                                    == pick.dependencies@[d as int].constraint.requirement@);
                                assert(dep_like_in(
                                    available@[picked_index as int].dependencies@,
                                    pick.dependencies@[d as int],
                                ));
                                assert(dep_like_in(
                                    available@[picked_index as int].dependencies@,
                                    queue@[queue@.len() - 1],
                                )) by {
                                    let w = choose|w: int|
                                        0 <= w < available@[picked_index as int].dependencies@.len()
                                            && (#[trigger] available@[picked_index as int].dependencies@[w]).name@
                                            == pick.dependencies@[d as int].name@
                                            && available@[picked_index as int].dependencies@[w].constraint.requirement@
                                            == pick.dependencies@[d as int].constraint.requirement@
                                            && available@[picked_index as int].dependencies@[w].kind
                                            == DependencyKind::Required;
                                }
                                assert(obligation(available@, roots@, queue@[queue@.len() - 1]));
                                assert forall|k: int|
                                    0 <= k < d + 1 && pick.dependencies@[k].kind
                                        == DependencyKind::Required implies queued_like(
                                    queue@,
                                    #[trigger] pick.dependencies@[k],
                                ) by {
                                    if k < d {
                                        let w = choose|w: int|
                                            0 <= w < qb.len() && (#[trigger] qb[w]).name@
                                                == pick.dependencies@[k].name@
                                                && qb[w].constraint.requirement@
                                                == pick.dependencies@[k].constraint.requirement@;
                                        assert(queue@[w] == qb[w]);
                                    }
                                }
                            }
                        },
                        _ => {},
                    }
                    d = d + 1;
                }
                proof {
                    assert(pick.name@ == dep.name@);
                    assert(forall|k: int|
                        0 <= k < before.len() ==> (#[trigger] before[k]).name@ != dep.name@);
                }
                chosen.push(pick);
                proof {
                    picked = picked.push(picked_index as int);
                    assert(forall|k: int|
                        0 <= k < before.len() ==> #[trigger] chosen@[k] == before[k]);
                    assert(forall|k: int|
                        0 <= k < picked.len() - 1 ==> #[trigger] picked[k] == picked.drop_last()[
                        k]);
                    let last = chosen@.len() - 1;
                    assert(chosen@[last].name@ == dep.name@);
                    assert(req_matches(dep.constraint.requirement@, chosen@[last].version@));
                    assert(best_choice_for(available@, dep, chosen@[last].version@)) by {
                        assert(chosen@[last].version@
                            == available@[picked_index as int].version@);
                    }
                    assert(available@[picked.last()].name@ == chosen@[last].name@);
                    assert(available@[picked.last()].version@ == chosen@[last].version@);
                    assert forall|q: int|
                        0 <= q < conflicts@.len() implies conflict_genuine(
                        available@,
                        roots@,
                        chosen@,
                        installed@,
                        #[trigger] conflicts@[q],
                    ) by {
                        let c = conflicts@[q];
                        assert(conflict_genuine(available@, roots@, before, installed@, c));
                        let (d0, v0) = choose|d0: Dependency, v0: crate::version::VersionView|
                            obligation(available@, roots@, d0) && d0.name@ == c.package@
                                && d0.constraint.requirement.spec_text() == c.required@
                                && crate::version::version_str(v0) == c.installed@ && !req_matches(
                                d0.constraint.requirement@,
                                v0,
                            ) && covered_version(before, installed@, c.package@, v0);
                        if version_among(before, c.package@, v0) {
                            let w = choose|w: int|
                                0 <= w < before.len() && (#[trigger] before[w]).name@ == c.package@
                                    && before[w].version@ == v0;
                            assert(chosen@[w] == before[w]);
                            assert(version_among(chosen@, c.package@, v0));
                        }
                        assert(covered_version(chosen@, installed@, c.package@, v0));
                        assert(obligation(available@, roots@, d0) && crate::version::version_str(
                            v0,
                        ) == c.installed@);
                    }
                    assert forall|x: int, y: int| 0 <= x < y < picked.len() implies picked[x]
                        != picked[y] by {
                        if y == picked.len() - 1 {
                            assert(available@[picked[x]].name@ == before[x].name@);
                            assert(before[x].name@ != dep.name@);
                        }
                    }
                    assert forall|a: int, b: int| 0 <= a < b < chosen@.len() implies (
                    #[trigger] chosen@[a]).name@ != (#[trigger] chosen@[b]).name@ by {
                        if b < chosen@.len() - 1 {
                            assert(before[a].name@ != before[b].name@);
                        }
                    }
                    assert forall|k: int|
                        0 <= k < rn && (#[trigger] roots@[k]).kind == DependencyKind::Required
                            implies queued_like(queue@, roots@[k]) || settled(
                            conflicts@,
                            chosen@,
                            roots@[k],
                        ) by {
                        if roots@[k].name@ == dep.name@ && roots@[k].constraint.requirement@
                            == dep.constraint.requirement@ {
                            assert(chosen@[last].name@ == roots@[k].name@ && req_matches(
                                roots@[k].constraint.requirement@,
                                chosen@[last].version@,
                            ));
                        } else if sat_by_chosen(before, roots@[k]) {
                            let w = choose|w: int|
                                0 <= w < before.len() && (#[trigger] before[w]).name@
                                    == roots@[k].name@ && req_matches(
                                    roots@[k].constraint.requirement@,
                                    before[w].version@,
                                );
                            assert(chosen@[w] == before[w]);
                        } else if queued_like(queue_mid, roots@[k]) {
                            let w = choose|w: int|
                                0 <= w < queue_mid.len() && (#[trigger] queue_mid[w]).name@
                                    == roots@[k].name@ && queue_mid[w].constraint.requirement@
                                    == roots@[k].constraint.requirement@;
                            assert(queue@[w] == queue_mid[w]);
                        }
                    }
                    assert forall|x: int, j2: int|
                        0 <= x < chosen@.len() && 0 <= j2 < chosen@[x].dependencies@.len() && (
                        #[trigger] chosen@[x].dependencies@[j2]).kind == DependencyKind::Required
                            implies queued_like(queue@, chosen@[x].dependencies@[j2]) || settled(
                            conflicts@,
                            chosen@,
                            chosen@[x].dependencies@[j2],
                        ) by {
                        let d2 = chosen@[x].dependencies@[j2];
                        if x == chosen@.len() - 1 {
                            assert(queued_like(queue@, d2)) by {
                                assert(pick.dependencies@[j2] == d2);
                            }
                        } else {
                            assert(chosen@[x] == before[x]);
                            if d2.name@ == dep.name@ && d2.constraint.requirement@
                                == dep.constraint.requirement@ {
                                assert(chosen@[last].name@ == d2.name@ && req_matches(
                                    d2.constraint.requirement@,
                                    chosen@[last].version@,
                                ));
                            } else if sat_by_chosen(before, d2) {
                                let w = choose|w: int|
                                    0 <= w < before.len() && (#[trigger] before[w]).name@
                                        == d2.name@ && req_matches(
                                        d2.constraint.requirement@,
                                        before[w].version@,
                                    );
                                assert(chosen@[w] == before[w]);
                            } else if queued_like(queue_mid, d2) {
                                let w = choose|w: int|
                                    0 <= w < queue_mid.len() && (#[trigger] queue_mid[w]).name@
                                        == d2.name@ && queue_mid[w].constraint.requirement@
                                        == d2.constraint.requirement@;
                                assert(queue@[w] == queue_mid[w]);
                            }
                        }
                    }
                    assert(well_chosen(available@, roots@, chosen@[last])) by {
                        assert(obligation(available@, roots@, dep) && dep.name@
                            == chosen@[last].name@ && req_matches(
                            dep.constraint.requirement@,
                            chosen@[last].version@,
                        ) && best_choice_for(available@, dep, chosen@[last].version@));
                    }
                    assert forall|k: int| 0 <= k < chosen@.len() implies well_chosen(
                        available@,
                        roots@,
                        #[trigger] chosen@[k],
                    ) by {
                        if k < chosen@.len() - 1 {
                            assert(chosen@[k] == before[k]);
                            assert(well_chosen(available@, roots@, before[k]));
                        }
                    }
                    lemma_max_deps(available@, picked_index as int);
                    lemma_distinct_indices_bound(picked, n_avail);
                    assert(queue@.len() + (n_avail + 1 - chosen@.len()) * (maxd + 1)
                        < old_queue.len() + (n_avail + 1 - old_chosen.len()) * (maxd + 1))
                        by (nonlinear_arith)
                        requires
                            queue@.len() <= old_queue.len() - 1 + maxd,
                            chosen@.len() == old_chosen.len() + 1,
                            maxd >= 0,
                    ;
                    assert(queue@.len() + (n_avail + 1 - chosen@.len()) * (maxd + 1) >= 0)
                        by (nonlinear_arith)
                        requires
                            chosen@.len() <= n_avail,
                            maxd >= 0,
                            queue@.len() >= 0,
                    ;
                }
            },
        }
    }
    // leave out what is already installed, name and version, at the
    // chosen version
    let ghost final_chosen = chosen@;
    proof {
        assert forall|k: int|
            0 <= k < rn && (#[trigger] roots@[k]).kind == DependencyKind::Required implies settled(
            conflicts@,
            final_chosen,
            roots@[k],
        ) by {
            if queued_like(queue@, roots@[k]) {
                let w = choose|w: int|
                    0 <= w < queue@.len() && (#[trigger] queue@[w]).name@ == roots@[k].name@
                        && queue@[w].constraint.requirement@
                        == roots@[k].constraint.requirement@;
                assert(false);
            }
        }
        assert forall|x: int, j2: int|
            0 <= x < final_chosen.len() && 0 <= j2 < final_chosen[x].dependencies@.len() && (
            #[trigger] final_chosen[x].dependencies@[j2]).kind == DependencyKind::Required implies
            settled(conflicts@, final_chosen, final_chosen[x].dependencies@[j2]) by {
            if queued_like(queue@, final_chosen[x].dependencies@[j2]) {
                let w = choose|w: int|
                    0 <= w < queue@.len() && (#[trigger] queue@[w]).name@
                        == final_chosen[x].dependencies@[j2].name@
                        && queue@[w].constraint.requirement@
                        == final_chosen[x].dependencies@[j2].constraint.requirement@;
                assert(false);
            }
        }
    }
    let mut to_install: Vec<Package> = Vec::new();
    let cn = chosen.len();
    let mut j: usize = 0;
    while j < cn
        invariant
            0 <= j <= cn,
            cn == chosen@.len(),
            chosen@ == final_chosen,
            pkg_names_unique(chosen@),
            forall|k: int|
                0 <= k < chosen@.len() ==> pkgs_have_id(available@, (#[trigger] chosen@[k]).id@),
            forall|k: int|
                0 <= k < chosen@.len() ==> well_chosen(available@, roots@, #[trigger] chosen@[k]),
            pkg_names_unique(to_install@),
            forall|k: int|
                0 <= k < to_install@.len() ==> pkgs_have_id(
                    available@,
                    (#[trigger] to_install@[k]).id@,
                ),
            forall|k: int|
                0 <= k < to_install@.len() ==> exists|x: int|
                    0 <= x < chosen@.len() && x < j && (#[trigger] to_install@[k]).name@ == (
                    #[trigger] chosen@[x]).name@ && to_install@[k].version@ == chosen@[x].version@
                        && to_install@[k].dependencies@.len() == chosen@[x].dependencies@.len()
                        && (forall|q: int|
                        0 <= q < to_install@[k].dependencies@.len()
                            ==> (#[trigger] to_install@[k].dependencies@[q]).name@
                            == chosen@[x].dependencies@[q].name@
                            && to_install@[k].dependencies@[q].constraint.requirement@
                            == chosen@[x].dependencies@[q].constraint.requirement@
                            && to_install@[k].dependencies@[q].kind
                            == chosen@[x].dependencies@[q].kind),
            forall|x: int|
                0 <= x < j ==> chosen_covered(to_install@, installed@, #[trigger] chosen@[x]),
        decreases cn - j,
    {
        let im = installed.len();
        let mut have = false;
        let mut x: usize = 0;
        while x < im
            invariant_except_break
                0 <= x <= im,
                im == installed@.len(),
                0 <= j < cn,
                cn == chosen@.len(),
                chosen@ == final_chosen,
                !have,
            ensures
                cn == chosen@.len(),
                chosen@ == final_chosen,
                0 <= j < cn,
                have ==> exists|y: int|
                    0 <= y < installed@.len() && (#[trigger] installed@[y]).name@
                        == chosen@[j as int].name@ && installed@[y].version@
                        == chosen@[j as int].version@ && installed@[y].installed,
            decreases im - x,
        {
            if installed[x].installed && str_eq(
                installed[x].name.as_str(),
                chosen[j].name.as_str(),
            ) && installed[x].version.same(&chosen[j].version) {
                have = true;
                proof {
                    assert((installed@[x as int]).name@ == chosen@[j as int].name@
                        && installed@[x as int].version@ == chosen@[j as int].version@
                        && installed@[x as int].installed);
                }
                break ;
            }
            x = x + 1;
        }
        let ghost before = to_install@;
        if !have {
            let copy = chosen[j].duplicate();
            proof {
                assert(copy.name@ == chosen@[j as int].name@);
                assert(copy.version@ == chosen@[j as int].version@);
                assert(copy.id@ == chosen@[j as int].id@);
                assert(pkgs_have_id(available@, chosen@[j as int].id@));
            }
            to_install.push(copy);
            proof {
                assert(forall|k: int|
                    0 <= k < before.len() ==> #[trigger] to_install@[k] == before[k]);
                assert(to_install@[to_install@.len() - 1] == copy);
                assert forall|a: int, b: int| 0 <= a < b < to_install@.len() implies (
                #[trigger] to_install@[a]).name@ != (#[trigger] to_install@[b]).name@ by {
                    if b < to_install@.len() - 1 {
                        assert(before[a].name@ != before[b].name@);
                    } else {
                        let xa = choose|xa: int|
                            0 <= xa < chosen@.len() && xa < j && (#[trigger] before[a]).name@ == (
                            #[trigger] chosen@[xa]).name@ && before[a].version@
                                == chosen@[xa].version@;
                        assert(chosen@[xa].name@ != chosen@[j as int].name@);
                    }
                }
            }
        }
        proof {
            assert forall|x2: int|
                0 <= x2 < j + 1 implies chosen_covered(
                to_install@,
                installed@,
                #[trigger] chosen@[x2],
            ) by {
                if x2 == j {
                    if !have {
                        assert(to_install@[to_install@.len() - 1].name@ == chosen@[j as int].name@
                            && to_install@[to_install@.len() - 1].version@
                            == chosen@[j as int].version@);
                    }
                } else {
                    assert(chosen_covered(before, installed@, chosen@[x2]));
                    if exists|i2: int|
                        0 <= i2 < before.len() && (#[trigger] before[i2]).name@
                            == chosen@[x2].name@ && before[i2].version@ == chosen@[x2].version@ {
                        let w = choose|w: int|
                            0 <= w < before.len() && (#[trigger] before[w]).name@
                                == chosen@[x2].name@ && before[w].version@ == chosen@[x2].version@;
                        assert(to_install@[w] == before[w]);
                    }
                }
            }
        }
        j = j + 1;
    }
    proof {
        assert forall|k: int|
            0 <= k < rn && (#[trigger] roots@[k]).kind == DependencyKind::Required
                && conflicts@.len() == 0 implies dep_satisfied_by(
            to_install@,
            installed@,
            roots@[k],
        ) by {
            assert(sat_by_chosen(final_chosen, roots@[k]));
            let w = choose|w: int|
                0 <= w < final_chosen.len() && (#[trigger] final_chosen[w]).name@
                    == roots@[k].name@ && req_matches(
                    roots@[k].constraint.requirement@,
                    final_chosen[w].version@,
                );
            assert(chosen_covered(to_install@, installed@, chosen@[w]));
        }
        assert forall|x: int, j2: int|
            0 <= x < to_install@.len() && 0 <= j2 < to_install@[x].dependencies@.len() && (
            #[trigger] to_install@[x].dependencies@[j2]).kind == DependencyKind::Required
                && conflicts@.len() == 0 implies dep_satisfied_by(
            to_install@,
            installed@,
            to_install@[x].dependencies@[j2],
        ) by {
            let xc = choose|xc: int|
                0 <= xc < chosen@.len() && xc < cn && (#[trigger] to_install@[x]).name@ == (
                #[trigger] chosen@[xc]).name@ && to_install@[x].version@ == chosen@[xc].version@
                    && to_install@[x].dependencies@.len() == chosen@[xc].dependencies@.len() && (
                forall|q: int|
                    0 <= q < to_install@[x].dependencies@.len()
                        ==> (#[trigger] to_install@[x].dependencies@[q]).name@
                        == chosen@[xc].dependencies@[q].name@
                        && to_install@[x].dependencies@[q].constraint.requirement@
                        == chosen@[xc].dependencies@[q].constraint.requirement@
                        && to_install@[x].dependencies@[q].kind
                        == chosen@[xc].dependencies@[q].kind);
            let d2 = chosen@[xc].dependencies@[j2];
            assert(d2.kind == DependencyKind::Required);
            assert(settled(conflicts@, final_chosen, d2));
            assert(sat_by_chosen(final_chosen, d2));
            let w = choose|w: int|
                0 <= w < final_chosen.len() && (#[trigger] final_chosen[w]).name@ == d2.name@
                    && req_matches(d2.constraint.requirement@, final_chosen[w].version@);
            assert(chosen_covered(to_install@, installed@, chosen@[w]));
            assert(to_install@[x].dependencies@[j2].name@ == d2.name@);
            assert(to_install@[x].dependencies@[j2].constraint.requirement@
                == d2.constraint.requirement@);
        }
    }
    proof {
        assert forall|k: int| 0 <= k < to_install@.len() implies well_chosen(
            available@,
            roots@,
            #[trigger] to_install@[k],
        ) by {
            let xc = choose|xc: int|
                0 <= xc < chosen@.len() && xc < cn && (#[trigger] to_install@[k]).name@ == (
                #[trigger] chosen@[xc]).name@ && to_install@[k].version@ == chosen@[xc].version@
                    && to_install@[k].dependencies@.len() == chosen@[xc].dependencies@.len() && (
                forall|q: int|
                    0 <= q < to_install@[k].dependencies@.len()
                        ==> (#[trigger] to_install@[k].dependencies@[q]).name@
                        == chosen@[xc].dependencies@[q].name@
                        && to_install@[k].dependencies@[q].constraint.requirement@
                        == chosen@[xc].dependencies@[q].constraint.requirement@
                        && to_install@[k].dependencies@[q].kind
                        == chosen@[xc].dependencies@[q].kind);
            assert(well_chosen(available@, roots@, chosen@[xc]));
            let d0 = choose|d0: Dependency|
                obligation(available@, roots@, d0) && d0.name@ == chosen@[xc].name@
                    && req_matches(d0.constraint.requirement@, chosen@[xc].version@)
                    && best_choice_for(available@, d0, chosen@[xc].version@);
            assert(obligation(available@, roots@, d0) && d0.name@ == to_install@[k].name@
                && req_matches(d0.constraint.requirement@, to_install@[k].version@)
                && best_choice_for(available@, d0, to_install@[k].version@));
        }
        assert forall|k: int| 0 <= k < to_install@.len() implies version_among(
            available@,
            (#[trigger] to_install@[k]).name@,
            to_install@[k].version@,
        ) by {
            let xc = choose|xc: int|
                0 <= xc < chosen@.len() && xc < cn && (#[trigger] to_install@[k]).name@ == (
                #[trigger] chosen@[xc]).name@ && to_install@[k].version@ == chosen@[xc].version@
                    && to_install@[k].dependencies@.len() == chosen@[xc].dependencies@.len() && (
                forall|q: int|
                    0 <= q < to_install@[k].dependencies@.len()
                        ==> (#[trigger] to_install@[k].dependencies@[q]).name@
                        == chosen@[xc].dependencies@[q].name@
                        && to_install@[k].dependencies@[q].constraint.requirement@
                        == chosen@[xc].dependencies@[q].constraint.requirement@
                        && to_install@[k].dependencies@[q].kind
                        == chosen@[xc].dependencies@[q].kind);
            assert(available@[picked[xc]].name@ == chosen@[xc].name@);
            assert(available@[picked[xc]].version@ == chosen@[xc].version@);
            assert(version_among(available@, to_install@[k].name@, to_install@[k].version@));
        }
        assert forall|q: int| 0 <= q < conflicts@.len() implies conflict_genuine(
            available@,
            roots@,
            to_install@,
            installed@,
            #[trigger] conflicts@[q],
        ) by {
            let c = conflicts@[q];
            assert(conflict_genuine(available@, roots@, final_chosen, installed@, c));
            let (d0, v0) = choose|d0: Dependency, v0: crate::version::VersionView|
                obligation(available@, roots@, d0) && d0.name@ == c.package@
                    && d0.constraint.requirement.spec_text() == c.required@
                    && crate::version::version_str(v0) == c.installed@ && !req_matches(
                    d0.constraint.requirement@,
                    v0,
                ) && covered_version(final_chosen, installed@, c.package@, v0);
            if version_among(final_chosen, c.package@, v0) {
                let w = choose|w: int|
                    0 <= w < final_chosen.len() && (#[trigger] final_chosen[w]).name@ == c.package@
                        && final_chosen[w].version@ == v0;
                assert(chosen_covered(to_install@, installed@, chosen@[w]));
                if exists|t: int|
                    0 <= t < to_install@.len() && (#[trigger] to_install@[t]).name@
                        == chosen@[w].name@ && to_install@[t].version@ == chosen@[w].version@ {
                    let t = choose|t: int|
                        0 <= t < to_install@.len() && (#[trigger] to_install@[t]).name@
                            == chosen@[w].name@ && to_install@[t].version@ == chosen@[w].version@;
                    assert(version_among(to_install@, c.package@, v0));
                } else {
                    let t = choose|t: int|
                        0 <= t < installed@.len() && (#[trigger] installed@[t]).name@
                            == chosen@[w].name@ && installed@[t].version@ == chosen@[w].version@
                            && installed@[t].installed;
                    assert(installed_version_among(installed@, c.package@, v0));
                }
            }
            assert(covered_version(to_install@, installed@, c.package@, v0));
            assert(obligation(available@, roots@, d0) && crate::version::version_str(v0)
                == c.installed@);
        }
    }
    Ok(
        ResolutionResult {
            packages_to_install: to_install,
            packages_to_update: Vec::new(),
            packages_to_remove: Vec::new(),
            conflicts,
        },
    )
}

/// The index of the highest available version of the named package that
/// satisfies the requirement.
fn best_available_index(available: &Vec<Package>, dep: &Dependency) -> (r: Option<usize>)
    ensures
        match r {
            Some(b) => b < available@.len() && available@[b as int].name@ == dep.name@
                && req_matches(dep.constraint.requirement@, available@[b as int].version@) && (
            forall|i: int|
                0 <= i < available@.len() && (#[trigger] available@[i]).name@ == dep.name@
                    && req_matches(dep.constraint.requirement@, available@[i].version@)
                    ==> !crate::version::version_lt(
                    available@[b as int].version@,
                    available@[i].version@,
                )),
            None => forall|i: int|
                0 <= i < available@.len() ==> !((#[trigger] available@[i]).name@ == dep.name@
                    && req_matches(dep.constraint.requirement@, available@[i].version@)),
        },
{
    let n = available.len();
    let mut best: Option<usize> = None;
    let mut i: usize = 0;
    while i < n
        invariant
            0 <= i <= n,
            n == available@.len(),
            match best {
                Some(b) => b < i && available@[b as int].name@ == dep.name@ && req_matches(
                    dep.constraint.requirement@,
                    available@[b as int].version@,
                ) && (forall|k: int|
                    0 <= k < i && (#[trigger] available@[k]).name@ == dep.name@ && req_matches(
                        dep.constraint.requirement@,
                        available@[k].version@,
                    ) ==> !crate::version::version_lt(
                        available@[b as int].version@,
                        available@[k].version@,
                    )),
                None => forall|k: int|
                    0 <= k < i ==> !((#[trigger] available@[k]).name@ == dep.name@ && req_matches(
                        dep.constraint.requirement@,
                        available@[k].version@,
                    )),
            },
        decreases n - i,
    {
        let cand = &available[i];
        if str_eq(cand.name.as_str(), dep.name.as_str()) && dep.matches_version(&cand.version) {
            match best {
                None => {
                    proof {
                        crate::version::lemma_version_lt_asymmetric(
                            available@[i as int].version@,
                            available@[i as int].version@,
                        );
                    }
                    best = Some(i);
                },
                Some(b) => {
                    if available[b].version.lt(&cand.version) {
                        let ghost old_best = available@[b as int].version@;
                        proof {
                            assert forall|k: int|
                                0 <= k < i + 1 && (#[trigger] available@[k]).name@ == dep.name@
                                    && req_matches(
                                    dep.constraint.requirement@,
                                    available@[k].version@,
                                ) implies !crate::version::version_lt(
                                available@[i as int].version@,
                                available@[k].version@,
                            ) by {
                                if k < i {
                                    if crate::version::version_lt(
                                        available@[i as int].version@,
                                        available@[k].version@,
                                    ) {
                                        crate::version::lemma_version_lt_transitive(
                                            old_best,
                                            available@[i as int].version@,
                                            available@[k].version@,
                                        );
                                    }
                                } else {
                                    crate::version::lemma_version_lt_asymmetric(
                                        available@[i as int].version@,
                                        available@[k].version@,
                                    );
                                }
                            }
                        }
                        best = Some(i);
                    } else {
                        proof {
                            assert(!crate::version::version_lt(
                                available@[b as int].version@,
                                available@[i as int].version@,
                            ));
                        }
                    }
                },
            }
        }
        i = i + 1;
    }
    best
}

} // verus!
