//! The installation ledger: the durable record of packages and
//! installations, held here as verified data; persistence mirrors it row
//! for row.

use crate::installation::Installation;
use crate::package::Package;
use crate::text::find_idx;
use crate::text::str_eq;
use vstd::prelude::*;

verus! {

/// The name part of a `name@version` key.
pub open spec fn id_name(id: Seq<char>) -> Seq<char> {
    let i = find_idx(id, '@');
    if i >= 0 {
        id.subrange(0, i)
    } else {
        id
    }
}

/// Every package row keyed once.
pub open spec fn pkg_rows_unique(ps: Seq<Package>) -> bool {
    forall|i: int, j: int|
        0 <= i < j < ps.len() ==> (#[trigger] ps[i]).id@ != (#[trigger] ps[j]).id@
}

/// Every installation row keyed once.
pub open spec fn inst_rows_unique(is: Seq<Installation>) -> bool {
    forall|i: int, j: int|
        0 <= i < j < is.len() ==> (#[trigger] is[i]).id.text@ != (#[trigger] is[j]).id.text@
}

/// At most one active installation for any one package name.
pub open spec fn one_active_per_name(is: Seq<Installation>) -> bool {
    forall|i: int, j: int|
        0 <= i < j < is.len() && (#[trigger] is[i]).active && (#[trigger] is[j]).active ==> id_name(
            is[i].package_id@,
        ) != id_name(is[j].package_id@)
}

/// A sound ledger: unique keys, and one active installation per name.
pub open spec fn ledger_wf(l: Ledger) -> bool {
    &&& pkg_rows_unique(l.packages@)
    &&& inst_rows_unique(l.installations@)
    &&& one_active_per_name(l.installations@)
}

/// Whether some package row bears the key.
pub open spec fn has_pkg(ps: Seq<Package>, id: Seq<char>) -> bool {
    exists|i: int| 0 <= i < ps.len() && (#[trigger] ps[i]).id@ == id
}

/// Whether some package row bears the key with exactly these flags.
pub open spec fn pkg_row_state(ps: Seq<Package>, id: Seq<char>, installed: bool, active: bool) -> bool {
    exists|i: int|
        0 <= i < ps.len() && (#[trigger] ps[i]).id@ == id && ps[i].installed == installed
            && ps[i].active == active
}

/// Whether some installation row belongs to the key.
pub open spec fn has_inst_for(is: Seq<Installation>, package_id: Seq<char>) -> bool {
    exists|i: int| 0 <= i < is.len() && (#[trigger] is[i]).package_id@ == package_id
}

/// Whether some active installation row belongs to the key.
pub open spec fn has_active_inst_for(is: Seq<Installation>, package_id: Seq<char>) -> bool {
    exists|i: int|
        0 <= i < is.len() && (#[trigger] is[i]).package_id@ == package_id && is[i].active
}

/// The number of installation rows of the key.
pub open spec fn count_inst_for(is: Seq<Installation>, package_id: Seq<char>) -> int
    decreases is.len(),
{
    if is.len() == 0 {
        0
    } else {
        count_inst_for(is.drop_last(), package_id) + if is.last().package_id@ == package_id {
            1int
        } else {
            0int
        }
    }
}

/// The durable record.
#[derive(Debug)]
pub struct Ledger {
    pub packages: Vec<Package>,
    pub installations: Vec<Installation>,
}

impl Ledger {
    /// An empty ledger.
    pub fn new() -> (r: Ledger)
        ensures
            r.packages@.len() == 0,
            r.installations@.len() == 0,
            ledger_wf(r),
    {
        Ledger { packages: Vec::new(), installations: Vec::new() }
    }

    /// The row of the key, if any.
    pub fn get_package(&self, id: &str) -> (r: Option<&Package>)
        ensures
            match r {
                Some(p) => p.id@ == id@ && exists|i: int|
                    0 <= i < self.packages@.len() && (#[trigger] self.packages@[i]).id@ == id@
                        && p == &self.packages@[i],
                None => !has_pkg(self.packages@, id@),
            },
    {
        let n = self.packages.len();
        let mut i: usize = 0;
        while i < n
            invariant
                0 <= i <= n,
                n == self.packages@.len(),
                forall|k: int| 0 <= k < i ==> (#[trigger] self.packages@[k]).id@ != id@,
            decreases n - i,
        {
            if str_eq(self.packages[i].id.as_str(), id) {
                return Some(&self.packages[i]);
            }
            i = i + 1;
        }
        proof {
            assert(!has_pkg(self.packages@, id@));
        }
        None
    }

    /// Writes a package row: a row with the same key is replaced, else the
    /// row is appended.
    pub fn save_package(&mut self, p: Package)
        requires
            ledger_wf(*old(self)),
        ensures
            ledger_wf(*final(self)),
            has_pkg(final(self).packages@, p.id@),
            exists|i: int|
                0 <= i < final(self).packages@.len() && #[trigger] final(self).packages@[i] == p,
            forall|i: int|
                0 <= i < final(self).packages@.len() && (#[trigger] final(self).packages@[i]).id@
                    != p.id@ ==> old(self).packages@.contains(final(self).packages@[i]),
            forall|i: int|
                0 <= i < old(self).packages@.len() && (#[trigger] old(self).packages@[i]).id@
                    != p.id@ ==> final(self).packages@.contains(old(self).packages@[i]),
            has_pkg(old(self).packages@, p.id@) ==> final(self).packages@.len()
                == old(self).packages@.len() && (forall|i: int|
                0 <= i < final(self).packages@.len() ==> (((#[trigger] old(self).packages@[i]).id@
                    != p.id@ ==> final(self).packages@[i] == old(self).packages@[i]) && (old(
                    self,
                ).packages@[i].id@ == p.id@ ==> final(self).packages@[i] == p))),
            !has_pkg(old(self).packages@, p.id@) ==> final(self).packages@
                == old(self).packages@.push(p),
            final(self).installations == old(self).installations,
    {
        let n = self.packages.len();
        let mut i: usize = 0;
        while i < n
            invariant
                0 <= i <= n,
                n == self.packages@.len(),
                *self == *old(self),
                ledger_wf(*old(self)),
                forall|k: int| 0 <= k < i ==> (#[trigger] self.packages@[k]).id@ != p.id@,
            decreases n - i,
        {
            if str_eq(self.packages[i].id.as_str(), p.id.as_str()) {
                let ghost before = self.packages@;
                self.packages.set(i, p);
                proof {
                    assert(forall|k: int|
                        0 <= k < self.packages@.len() && k != i
                            ==> #[trigger] self.packages@[k] == before[k]);
                    assert(self.packages@[i as int] == p);
                    assert(before[i as int].id@ == p.id@);
                    assert(pkg_rows_unique(before));
                    assert forall|a: int, b: int| 0 <= a < b < self.packages@.len() implies (
                    #[trigger] self.packages@[a]).id@ != (#[trigger] self.packages@[b]).id@ by {
                        assert((#[trigger] before[a]).id@ != (#[trigger] before[b]).id@);
                    }
                    assert forall|k: int|
                        0 <= k < old(self).packages@.len() && (#[trigger] old(self).packages@[k]).id@ != p.id@ implies self.packages@.contains(
                        old(self).packages@[k],
                    ) by {
                        assert(self.packages@[k] == old(self).packages@[k]);
                    }
                    assert(has_pkg(before, p.id@)) by {
                        assert(before[i as int].id@ == p.id@);
                    }
                    assert forall|k: int|
                        0 <= k < self.packages@.len() && (#[trigger] old(self).packages@[k]).id@
                            == p.id@ implies self.packages@[k] == p by {
                        if k != i {
                            assert(before[k].id@ != before[i as int].id@);
                            assert(false);
                        }
                    }
                }
                return ;
            }
            i = i + 1;
        }
        let ghost before = self.packages@;
        self.packages.push(p);
        proof {
            assert(forall|k: int|
                0 <= k < before.len() ==> #[trigger] self.packages@[k] == before[k]);
            assert(self.packages@[self.packages@.len() - 1] == p);
            assert(pkg_rows_unique(before));
            assert forall|a: int, b: int| 0 <= a < b < self.packages@.len() implies (
            #[trigger] self.packages@[a]).id@ != (#[trigger] self.packages@[b]).id@ by {
                if b < self.packages@.len() - 1 {
                    assert((#[trigger] before[a]).id@ != (#[trigger] before[b]).id@);
                } else {
                    assert(before[a].id@ != p.id@);
                }
            }
            assert forall|k: int|
                0 <= k < old(self).packages@.len() && (#[trigger] old(self).packages@[k]).id@
                    != p.id@ implies self.packages@.contains(old(self).packages@[k]) by {
                assert(self.packages@[k] == old(self).packages@[k]);
            }
            assert(!has_pkg(before, p.id@)) by {
                if has_pkg(before, p.id@) {
                    let w = choose|w: int|
                        0 <= w < before.len() && (#[trigger] before[w]).id@ == p.id@;
                    assert(false);
                }
            }
            assert(self.packages@ =~= before.push(p));
        }
    }

    /// The installation row of the identifier, if any.
    pub fn get_installation(&self, installation_id: &str) -> (r: Option<&Installation>)
        ensures
            match r {
                Some(inst) => inst.id.text@ == installation_id@ && exists|i: int|
                    0 <= i < self.installations@.len() && (
                    #[trigger] self.installations@[i]).id.text@ == installation_id@ && inst
                        == &self.installations@[i],
                None => forall|i: int|
                    0 <= i < self.installations@.len() ==> (
                    #[trigger] self.installations@[i]).id.text@ != installation_id@,
            },
    {
        let n = self.installations.len();
        let mut i: usize = 0;
        while i < n
            invariant
                0 <= i <= n,
                n == self.installations@.len(),
                forall|k: int|
                    0 <= k < i ==> (#[trigger] self.installations@[k]).id.text@
                        != installation_id@,
            decreases n - i,
        {
            if str_eq(self.installations[i].id.text.as_str(), installation_id) {
                return Some(&self.installations[i]);
            }
            i = i + 1;
        }
        None
    }

    /// The first active installation of the package key, if any.
    pub fn active_installation_for(&self, package_id: &str) -> (r: Option<&Installation>)
        ensures
            match r {
                Some(inst) => inst.package_id@ == package_id@ && inst.active
                    && has_active_inst_for(self.installations@, package_id@),
                None => !has_active_inst_for(self.installations@, package_id@),
            },
    {
        let n = self.installations.len();
        let mut i: usize = 0;
        while i < n
            invariant
                0 <= i <= n,
                n == self.installations@.len(),
                forall|k: int|
                    0 <= k < i ==> !((#[trigger] self.installations@[k]).package_id@ == package_id@
                        && self.installations@[k].active),
            decreases n - i,
        {
            if self.installations[i].active && str_eq(
                self.installations[i].package_id.as_str(),
                package_id,
            ) {
                return Some(&self.installations[i]);
            }
            i = i + 1;
        }
        None
    }

    /// Whether any installation row belongs to the key.
    pub fn has_installation_for(&self, package_id: &str) -> (r: bool)
        ensures
            r == has_inst_for(self.installations@, package_id@),
    {
        let n = self.installations.len();
        let mut i: usize = 0;
        while i < n
            invariant
                0 <= i <= n,
                n == self.installations@.len(),
                forall|k: int|
                    0 <= k < i ==> (#[trigger] self.installations@[k]).package_id@ != package_id@,
            decreases n - i,
        {
            if str_eq(self.installations[i].package_id.as_str(), package_id) {
                return true;
            }
            i = i + 1;
        }
        false
    }

    /// Writes an installation row: a row with the same identifier is
    /// replaced, else the row is appended. The caller keeps one active row
    /// per name by deactivating others first.
    pub fn save_installation(&mut self, inst: Installation)
        requires
            ledger_wf(*old(self)),
            inst.active ==> forall|i: int|
                0 <= i < old(self).installations@.len() && (#[trigger] old(self).installations@[i]).active ==> id_name(old(self).installations@[i].package_id@)
                    != id_name(inst.package_id@),
        ensures
            ledger_wf(*final(self)),
            exists|i: int|
                0 <= i < final(self).installations@.len() && (#[trigger] final(self).installations@[i]).id.text@ == inst.id.text@ && final(self).installations@[i]
                    == inst,
            forall|i: int|
                0 <= i < final(self).installations@.len() && (#[trigger] final(self).installations@[i]).id.text@ != inst.id.text@ ==> old(self).installations@.contains(final(self).installations@[i]),
            forall|i: int|
                0 <= i < old(self).installations@.len() && (#[trigger] old(self).installations@[i]).id.text@ != inst.id.text@ ==> final(self).installations@.contains(old(self).installations@[i]),
            final(self).packages == old(self).packages,
            has_inst_for(final(self).installations@, inst.package_id@),
            inst.active ==> has_active_inst_for(final(self).installations@, inst.package_id@),
    {
        let n = self.installations.len();
        let mut i: usize = 0;
        while i < n
            invariant
                0 <= i <= n,
                n == self.installations@.len(),
                *self == *old(self),
                ledger_wf(*old(self)),
                inst.active ==> forall|k: int|
                    0 <= k < old(self).installations@.len() && (#[trigger] old(self).installations@[k]).active ==> id_name(
                        old(self).installations@[k].package_id@,
                    ) != id_name(inst.package_id@),
                forall|k: int|
                    0 <= k < i ==> (#[trigger] self.installations@[k]).id.text@ != inst.id.text@,
            decreases n - i,
        {
            if str_eq(self.installations[i].id.text.as_str(), inst.id.text.as_str()) {
                let ghost before = self.installations@;
                self.installations.set(i, inst);
                proof {
                    assert(forall|k: int|
                        0 <= k < self.installations@.len() && k != i
                            ==> #[trigger] self.installations@[k] == before[k]);
                    assert(self.installations@[i as int] == inst);
                    assert(inst_rows_unique(before));
                    assert(one_active_per_name(before));
                    assert forall|a: int, b: int| 0 <= a < b < self.installations@.len() implies (
                    #[trigger] self.installations@[a]).id.text@ != (
                    #[trigger] self.installations@[b]).id.text@ by {
                        assert((#[trigger] before[a]).id.text@ != (#[trigger] before[b]).id.text@);
                    }
                    assert forall|a: int, b: int|
                        0 <= a < b < self.installations@.len() && (
                        #[trigger] self.installations@[a]).active && (
                        #[trigger] self.installations@[b]).active implies id_name(
                        self.installations@[a].package_id@,
                    ) != id_name(self.installations@[b].package_id@) by {
                        if a != i && b != i {
                            assert(before[a].active && before[b].active);
                        } else {
                            assert(inst.active);
                        }
                    }
                    assert forall|k: int|
                        0 <= k < old(self).installations@.len() && (#[trigger] old(self).installations@[k]).id.text@ != inst.id.text@ implies self.installations@
                            .contains(old(self).installations@[k]) by {
                        assert(self.installations@[k] == old(self).installations@[k]);
                    }
                }
                return ;
            }
            i = i + 1;
        }
        let ghost before = self.installations@;
        self.installations.push(inst);
        proof {
            assert(forall|k: int|
                0 <= k < before.len() ==> #[trigger] self.installations@[k] == before[k]);
            assert(self.installations@[self.installations@.len() - 1] == inst);
            assert(inst_rows_unique(before));
            assert(one_active_per_name(before));
            assert forall|a: int, b: int| 0 <= a < b < self.installations@.len() implies (
            #[trigger] self.installations@[a]).id.text@ != (
            #[trigger] self.installations@[b]).id.text@ by {
                if b < self.installations@.len() - 1 {
                    assert((#[trigger] before[a]).id.text@ != (#[trigger] before[b]).id.text@);
                } else {
                    assert(before[a].id.text@ != inst.id.text@);
                }
            }
            assert forall|a: int, b: int|
                0 <= a < b < self.installations@.len() && (
                #[trigger] self.installations@[a]).active && (
                #[trigger] self.installations@[b]).active implies id_name(
                self.installations@[a].package_id@,
            ) != id_name(self.installations@[b].package_id@) by {
                if b < self.installations@.len() - 1 {
                    assert(before[a].active && before[b].active);
                } else {
                    assert(before[a].active && inst.active);
                }
            }
            assert forall|k: int|
                0 <= k < old(self).installations@.len() && (#[trigger] old(self).installations@[k]).id.text@ != inst.id.text@ implies self.installations@
                    .contains(old(self).installations@[k]) by {
                assert(self.installations@[k] == old(self).installations@[k]);
            }
        }
    }

    /// The first installation row of the package key, if any.
    pub fn installation_for(&self, package_id: &str) -> (r: Option<&Installation>)
        ensures
            match r {
                Some(inst) => inst.package_id@ == package_id@ && has_inst_for(
                    self.installations@,
                    package_id@,
                ) && exists|i: int|
                    0 <= i < self.installations@.len() && inst == &(
                    #[trigger] self.installations@[i]),
                None => !has_inst_for(self.installations@, package_id@),
            },
    {
        let n = self.installations.len();
        let mut i: usize = 0;
        while i < n
            invariant
                0 <= i <= n,
                n == self.installations@.len(),
                forall|k: int|
                    0 <= k < i ==> (#[trigger] self.installations@[k]).package_id@ != package_id@,
            decreases n - i,
        {
            if str_eq(self.installations[i].package_id.as_str(), package_id) {
                return Some(&self.installations[i]);
            }
            i = i + 1;
        }
        None
    }

    /// Clears the active flag on every installation row of the package
    /// key.
    pub fn deactivate_installations_for(&mut self, package_id: &str)
        requires
            ledger_wf(*old(self)),
        ensures
            ledger_wf(*final(self)),
            final(self).packages == old(self).packages,
            final(self).installations@.len() == old(self).installations@.len(),
            forall|i: int|
                0 <= i < final(self).installations@.len() ==> {
                    let a = #[trigger] final(self).installations@[i];
                    let b = old(self).installations@[i];
                    &&& a.id == b.id
                    &&& a.package_id == b.package_id
                    &&& a.installed_files == b.installed_files
                    &&& a.symlinks == b.symlinks
                    &&& a.installed_at == b.installed_at
                    &&& (b.package_id@ == package_id@ ==> a.active == false)
                    &&& (b.package_id@ != package_id@ ==> a.active == b.active)
                },
            !has_active_inst_for(final(self).installations@, package_id@),
    {
        let n = self.installations.len();
        let mut i: usize = 0;
        while i < n
            invariant
                0 <= i <= n,
                n == self.installations@.len(),
                n == old(self).installations@.len(),
                self.packages == old(self).packages,
                ledger_wf(*old(self)),
                forall|k: int|
                    i <= k < n ==> #[trigger] self.installations@[k] == old(
                        self,
                    ).installations@[k],
                forall|k: int|
                    0 <= k < i ==> {
                        let a = #[trigger] self.installations@[k];
                        let b = old(self).installations@[k];
                        &&& a.id == b.id
                        &&& a.package_id == b.package_id
                        &&& a.installed_files == b.installed_files
                        &&& a.symlinks == b.symlinks
                        &&& a.installed_at == b.installed_at
                        &&& (b.package_id@ == package_id@ ==> a.active == false)
                        &&& (b.package_id@ != package_id@ ==> a.active == b.active)
                    },
            decreases n - i,
        {
            if str_eq(self.installations[i].package_id.as_str(), package_id) {
                let ghost before = self.installations@;
                let mut row = self.installations.remove(i);
                row.deactivate();
                self.installations.insert(i, row);
                proof {
                    assert(self.installations@ =~= before.update(i as int, row));
                    assert(forall|k: int|
                        0 <= k < self.installations@.len() && k != i
                            ==> #[trigger] self.installations@[k] == before[k]);
                }
            }
            i = i + 1;
        }
        proof {
            let fi = self.installations@;
            assert forall|a: int, b: int| 0 <= a < b < fi.len() implies (
            #[trigger] fi[a]).id.text@ != (#[trigger] fi[b]).id.text@ by {
                assert(fi[a].id == old(self).installations@[a].id);
                assert(fi[b].id == old(self).installations@[b].id);
            }
            assert forall|a: int, b: int|
                0 <= a < b < fi.len() && (#[trigger] fi[a]).active && (
                #[trigger] fi[b]).active implies id_name(fi[a].package_id@) != id_name(
                fi[b].package_id@,
            ) by {
                assert(old(self).installations@[a].active && old(self).installations@[b].active);
                assert(fi[a].package_id == old(self).installations@[a].package_id);
                assert(fi[b].package_id == old(self).installations@[b].package_id);
            }
        }
    }

    /// Deletes every installation row of the package key.
    pub fn remove_installations_for(&mut self, package_id: &str)
        requires
            ledger_wf(*old(self)),
        ensures
            ledger_wf(*final(self)),
            final(self).installations@ == old(self).installations@.filter(
                |inst: Installation| inst.package_id@ != package_id@,
            ),
            !has_inst_for(final(self).installations@, package_id@),
            final(self).packages == old(self).packages,
    {
        let ghost orig = old(self).installations@;
        let ghost pred = |inst: Installation| inst.package_id@ != package_id@;
        let n = self.installations.len();
        let mut j: usize = 0;
        let mut i: usize = 0;
        proof {
            reveal(Seq::filter);
            assert(orig.subrange(0, 0) =~= Seq::<Installation>::empty());
            assert(orig.subrange(0, 0).filter(pred) =~= Seq::<Installation>::empty());
            assert(self.installations@ =~= orig.subrange(0, 0).filter(pred) + orig.subrange(
                0,
                n as int,
            ));
            assert(orig.subrange(0, n as int) =~= orig);
        }
        while j < n
            invariant
                0 <= j <= n,
                n == orig.len(),
                pred == (|inst: Installation| inst.package_id@ != package_id@),
                i == orig.subrange(0, j as int).filter(pred).len(),
                self.installations@ == orig.subrange(0, j as int).filter(pred) + orig.subrange(
                    j as int,
                    n as int,
                ),
                self.packages == old(self).packages,
                ledger_wf(*old(self)),
                orig == old(self).installations@,
            decreases n - j,
        {
            proof {
                reveal(Seq::filter);
                assert(orig.subrange(0, j + 1).drop_last() =~= orig.subrange(0, j as int));
                assert(orig.subrange(0, j + 1).last() == orig[j as int]);
                assert(self.installations@[i as int] == orig[j as int]);
            }
            let keep = !str_eq(self.installations[i].package_id.as_str(), package_id);
            if keep {
                proof {
                    assert(orig.subrange(0, j + 1).filter(pred) =~= orig.subrange(
                        0,
                        j as int,
                    ).filter(pred).push(orig[j as int]));
                    assert(self.installations@ =~= orig.subrange(0, j + 1).filter(pred)
                        + orig.subrange(j + 1, n as int));
                }
                i = i + 1;
            } else {
                self.installations.remove(i);
                proof {
                    assert(orig.subrange(0, j + 1).filter(pred) =~= orig.subrange(
                        0,
                        j as int,
                    ).filter(pred));
                    assert(self.installations@ =~= orig.subrange(0, j + 1).filter(pred)
                        + orig.subrange(j + 1, n as int));
                }
            }
            j = j + 1;
        }
        proof {
            assert(orig.subrange(0, n as int) =~= orig);
            assert(orig.subrange(n as int, n as int) =~= Seq::<Installation>::empty());
            assert(self.installations@ =~= orig.filter(pred));
            let fs = orig.filter(pred);
            assert forall|a: int, b: int| 0 <= a < b < fs.len() implies (
            #[trigger] fs[a]).id.text@ != (#[trigger] fs[b]).id.text@ by {
                lemma_filter_members(orig, pred, a, b);
            }
            assert forall|a: int, b: int|
                0 <= a < b < fs.len() && (#[trigger] fs[a]).active && (
                #[trigger] fs[b]).active implies id_name(fs[a].package_id@) != id_name(
                fs[b].package_id@,
            ) by {
                lemma_filter_members(orig, pred, a, b);
            }
            assert forall|k: int| 0 <= k < fs.len() implies (#[trigger] fs[k]).package_id@
                != package_id@ by {
                assert(fs.len() <= orig.len());
                lemma_filter_member_one(orig, pred, k);
            }
        }
    }
}

/// Two positions of a filtered sequence come from two ordered positions
/// of the sequence it was filtered from.
pub proof fn lemma_filter_members(
    s: Seq<Installation>,
    pred: spec_fn(Installation) -> bool,
    a: int,
    b: int,
)
    requires
        0 <= a < b < s.filter(pred).len(),
    ensures
        exists|x: int, y: int|
            0 <= x < y < s.len() && s[x] == #[trigger] s.filter(pred)[a] && s[y] == #[trigger] s.filter(pred)[b],
    decreases s.len(),
{
    reveal(Seq::filter);
    if s.len() > 0 {
        let fs = s.filter(pred);
        let prev = s.drop_last().filter(pred);
        if pred(s.last()) {
            if b < fs.len() - 1 {
                lemma_filter_members(s.drop_last(), pred, a, b);
                let (x, y) = choose|x: int, y: int|
                    0 <= x < y < s.drop_last().len() && s.drop_last()[x] == #[trigger] prev[a] && s
                        .drop_last()[y] == #[trigger] prev[b];
                assert(s[x] == fs[a] && s[y] == fs[b]);
            } else {
                assert(fs[b] == s.last());
                assert(fs[a] == prev[a]);
                lemma_filter_member_one(s.drop_last(), pred, a);
                let x = choose|x: int|
                    0 <= x < s.drop_last().len() && s.drop_last()[x] == #[trigger] prev[a];
                assert(s[x] == fs[a] && s[s.len() - 1] == fs[b]);
            }
        } else {
            lemma_filter_members(s.drop_last(), pred, a, b);
            let (x, y) = choose|x: int, y: int|
                0 <= x < y < s.drop_last().len() && s.drop_last()[x] == #[trigger] prev[a] && s
                    .drop_last()[y] == #[trigger] prev[b];
            assert(s[x] == fs[a] && s[y] == fs[b]);
        }
    }
}

/// A position of a filtered sequence comes from a position of the
/// sequence it was filtered from.
pub proof fn lemma_filter_member_one(s: Seq<Installation>, pred: spec_fn(Installation) -> bool, a: int)
    requires
        0 <= a < s.filter(pred).len(),
    ensures
        exists|x: int| 0 <= x < s.len() && s[x] == #[trigger] s.filter(pred)[a],
    decreases s.len(),
{
    reveal(Seq::filter);
    if s.len() > 0 {
        let fs = s.filter(pred);
        let prev = s.drop_last().filter(pred);
        if pred(s.last()) && a == fs.len() - 1 {
            assert(s[s.len() - 1] == fs[a]);
        } else {
            lemma_filter_member_one(s.drop_last(), pred, a);
            let x = choose|x: int|
                0 <= x < s.drop_last().len() && s.drop_last()[x] == #[trigger] prev[a];
            assert(s[x] == fs[a]);
        }
    }
}

} // verus!
