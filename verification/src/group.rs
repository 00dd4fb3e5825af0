//! The runtime group object: a named subset of stub-table indices with
//! cached resolution status, and the scoped-assertion token emitted by a
//! successful resolve in checked mode.

use vstd::prelude::*;

use crate::errors::{LinkError, LinkErrorV};
use crate::library::{count_occ, Library};
use crate::loading::Address;

verus! {

/// Resolution status of a group.
#[derive(Copy, Clone, PartialEq, Eq, Structural, Debug)]
pub enum GroupStatus {
    /// Not yet attempted to resolve.
    Unknown,
    /// All symbols have been resolved successfully.
    Resolved,
    /// At least one symbol could not be resolved.
    Failed,
}

/// The address a list of lookup outcomes gives for symbol `i`: the first
/// matching pair's address, or zero.
pub open spec fn lookup_of(lookups: Seq<(u32, Address)>, i: u32) -> Address
    decreases lookups.len(),
{
    if lookups.len() == 0 {
        0
    } else if lookups.first().0 == i {
        lookups.first().1
    } else {
        lookup_of(lookups.drop_first(), i)
    }
}

/// Symbol `i` can be resolved: its slot is already warm, or the lookups
/// provide a non-zero address for it.
pub open spec fn resolvable(lib: &Library, lookups: Seq<(u32, Address)>, i: u32) -> bool {
    lib.slot(i as int) != 0 || lookup_of(lookups, i) != 0
}

/// Position of the first group member that cannot be resolved.
pub open spec fn first_fail(indices: Seq<u32>, lib: &Library, lookups: Seq<(u32, Address)>) -> Option<
    int,
>
    decreases indices.len(),
{
    if indices.len() == 0 {
        None
    } else if !resolvable(lib, lookups, indices.first()) {
        Some(0int)
    } else {
        match first_fail(indices.drop_first(), lib, lookups) {
            Some(f) => Some(f + 1),
            None => None,
        }
    }
}

/// Whether slot `j` belongs to the listed indices.
pub open spec fn touches(indices: Seq<u32>, j: int) -> bool {
    exists|k: int| 0 <= k < indices.len() && indices[k] == j as u32
}

/// How resolution changes the consulted slots: every listed cold slot takes
/// the lookups' address for it; everything else is untouched.
pub open spec fn slots_updated(
    new_lib: &Library,
    old_lib: &Library,
    indices: Seq<u32>,
    lookups: Seq<(u32, Address)>,
) -> bool {
    forall|j: int|
        0 <= j < old_lib.sym_count() ==> new_lib.slot(j) == (if touches(indices, j)
            && old_lib.slot(j) == 0 {
            lookup_of(lookups, j as u32)
        } else {
            old_lib.slot(j)
        })
}

/// `first_fail` returns the least failing position.
pub proof fn lemma_first_fail_props(
    indices: Seq<u32>,
    lib: &Library,
    lookups: Seq<(u32, Address)>,
)
    ensures
        match first_fail(indices, lib, lookups) {
            Some(f) => 0 <= f < indices.len() && !resolvable(lib, lookups, indices[f]) && forall|
                t: int,
            | 0 <= t < f ==> resolvable(lib, lookups, indices[t]),
            None => forall|t: int| 0 <= t < indices.len() ==> resolvable(lib, lookups, indices[t]),
        },
    decreases indices.len(),
{
    if indices.len() > 0 && resolvable(lib, lookups, indices.first()) {
        lemma_first_fail_props(indices.drop_first(), lib, lookups);
        match first_fail(indices.drop_first(), lib, lookups) {
            Some(f) => {
                assert(indices[f + 1] == indices.drop_first()[f]);
                assert forall|t: int| 0 <= t < f + 1 implies resolvable(
                    lib,
                    lookups,
                    indices[t],
                ) by {
                    if t > 0 {
                        assert(indices[t] == indices.drop_first()[t - 1]);
                    }
                }
            },
            None => {
                assert forall|t: int| 0 <= t < indices.len() implies resolvable(
                    lib,
                    lookups,
                    indices[t],
                ) by {
                    if t > 0 {
                        assert(indices[t] == indices.drop_first()[t - 1]);
                    }
                }
            },
        }
    }
}

/// The address the lookups give for `i`, as executable code.
fn lookup_find(lookups: &Vec<(u32, Address)>, i: u32) -> (r: Address)
    ensures
        r == lookup_of(lookups@, i),
    decreases lookups@.len(),
{
    let ghost lv = lookups@;
    let mut k: usize = 0;
    proof {
        assert(lv.skip(0) =~= lv);
    }
    while k < lookups.len()
        invariant
            k <= lv.len(),
            lv == lookups@,
            lookup_of(lv, i) == lookup_of(lv.skip(k as int), i),
        decreases lv.len() - k,
    {
        proof {
            assert(lv.skip(k as int).first() == lv[k as int]);
            assert(lv.skip(k as int).drop_first() =~= lv.skip(k as int + 1));
        }
        if lookups[k].0 == i {
            return lookups[k].1;
        }
        k += 1;
    }
    proof {
        assert(lv.skip(lv.len() as int) =~= Seq::<(u32, Address)>::empty());
    }
    0
}

/// A scoped-assertion token: proof that a group was resolved, held for the
/// duration of a scope.  Releasing it withdraws the scoped assertions;
/// consuming it with [`GroupResolved::mark_permanent`] promotes them to the
/// process-wide bitmap instead.
pub struct GroupResolved {
    sym_indices: Vec<u32>,
}

impl GroupResolved {
    /// The stub-table indices the token asserts.
    pub closed spec fn indices_v(&self) -> Seq<u32> {
        self.sym_indices@
    }
}

/// A symbol group defined at build time: a name, a static list of
/// stub-table indices, and the cached resolution status.
pub struct Group {
    name: String,
    sym_indices: Vec<u32>,
    status: GroupStatus,
}

impl Group {
    /// The group's name.
    pub closed spec fn name_v(&self) -> Seq<char> {
        self.name@
    }

    /// The group's stub-table indices.
    pub closed spec fn indices_v(&self) -> Seq<u32> {
        self.sym_indices@
    }

    /// The cached resolution status.
    pub closed spec fn status_v(&self) -> GroupStatus {
        self.status
    }

    /// Every index points into the library's symbol table.
    pub open spec fn valid_for(&self, lib: &Library) -> bool {
        forall|k: int|
            0 <= k < self.indices_v().len() ==> #[trigger] self.indices_v()[k] < lib.sym_count()
    }

    /// A fresh group over the given indices, with status Unknown.
    pub fn new(name: &str, sym_indices: Vec<u32>) -> (r: Group)
        ensures
            r.name_v() == name@,
            r.indices_v() == sym_indices@,
            r.status_v() == GroupStatus::Unknown,
    {
        Group { name: name.to_string(), sym_indices, status: GroupStatus::Unknown }
    }

    /// The cached resolution status.
    pub fn status(&self) -> (r: GroupStatus)
        ensures
            r == self.status_v(),
    {
        self.status
    }

    /// The group members that still need a platform lookup: those whose
    /// consulted slot is zero, in group order.  When the status is already
    /// cached, nothing is pending.
    #[verifier::loop_isolation(false)]
    pub fn pending_lookups(&self, lib: &Library) -> (r: Vec<u32>)
        requires
            lib.wf(),
            self.valid_for(lib),
        ensures
            self.status_v() != GroupStatus::Unknown ==> r@ == Seq::<u32>::empty(),
            forall|k: int| 0 <= k < r@.len() ==> #[trigger] r@[k] < lib.sym_count(),
            forall|k: int| 0 <= k < r@.len() ==> lib.slot(#[trigger] r@[k] as int) == 0,
            forall|k: int| 0 <= k < r@.len() ==> touches(self.indices_v(), #[trigger] r@[k] as int),
            self.status_v() == GroupStatus::Unknown ==> forall|k: int|
                0 <= k < self.indices_v().len() && lib.slot(#[trigger] self.indices_v()[k] as int)
                    == 0 ==> touches(r@, self.indices_v()[k] as int),
    {
        let mut out: Vec<u32> = Vec::new();
        if !matches!(self.status, GroupStatus::Unknown) {
            proof {
                assert(out@ =~= Seq::<u32>::empty());
            }
            return out;
        }
        let mut k: usize = 0;
        while k < self.sym_indices.len()
            invariant
                k <= self.indices_v().len(),
                forall|t: int| 0 <= t < out@.len() ==> #[trigger] out@[t] < lib.sym_count(),
                forall|t: int| 0 <= t < out@.len() ==> lib.slot(#[trigger] out@[t] as int) == 0,
                forall|t: int|
                    0 <= t < out@.len() ==> touches(self.indices_v(), #[trigger] out@[t] as int),
                forall|t: int|
                    0 <= t < k && lib.slot(#[trigger] self.indices_v()[t] as int) == 0 ==> touches(
                        out@,
                        self.indices_v()[t] as int,
                    ),
            decreases self.indices_v().len() - k,
        {
            let ghost before = out@;
            let i = self.sym_indices[k];
            if lib.cached_symbol(i).is_none() {
                out.push(i);
                proof {
                    assert forall|t: int|
                        0 <= t < before.len() implies out@[t] == before[t] by {}
                }
            }
            proof {
                assert forall|t: int|
                    0 <= t < k + 1 && lib.slot(#[trigger] self.indices_v()[t] as int)
                        == 0 implies touches(out@, self.indices_v()[t] as int) by {
                    if t < k {
                        let w = choose|w: int|
                            0 <= w < before.len() && before[w] == self.indices_v()[t] as u32;
                        assert(out@[w] == self.indices_v()[t] as u32);
                    } else {
                        assert(out@[out@.len() - 1] == self.indices_v()[t] as u32);
                    }
                }
            }
            k += 1;
        }
        out
    }

    /// Attempt to resolve all symbols in the group, given the platform
    /// lookup outcomes the driver gathered: every cold slot takes its
    /// looked-up address; the first member with neither a warm slot nor a
    /// non-zero lookup stops the walk.  The cached status is not changed.
    #[verifier::loop_isolation(false)]
    pub fn resolve_uncached(&self, lib: &mut Library, lookups: &Vec<(u32, Address)>) -> (r: Result<
        (),
        LinkError,
    >)
        requires
            old(lib).wf(),
            self.valid_for(old(lib)),
        ensures
            final(lib).wf(),
            Library::same_identity(final(lib), old(lib)),
            final(lib).checked() == old(lib).checked(),
            final(lib).global_v() == old(lib).global_v(),
            final(lib).thread_v() == old(lib).thread_v(),
            old(lib).checked() ==> final(lib).table_v() == old(lib).table_v(),
            match first_fail(self.indices_v(), old(lib), lookups@) {
                None => r is Ok && slots_updated(final(lib), old(lib), self.indices_v(), lookups@),
                Some(f) => (r matches Err(e) && e@ == LinkErrorV::SymbolMissing(
                    old(lib).names_v()[self.indices_v()[f] as int],
                )) && slots_updated(
                    final(lib),
                    old(lib),
                    self.indices_v().subrange(0, f),
                    lookups@,
                ),
            },
    {
        let ghost idx = self.indices_v();
        let n = self.sym_indices.len();
        let mut k: usize = 0;
        proof {
            assert(idx.subrange(0, 0) =~= Seq::<u32>::empty());
        }
        while k < n
            invariant
                k <= n,
                n == idx.len(),
                lib.wf(),
                Library::same_identity(lib, old(lib)),
                lib.checked() == old(lib).checked(),
                lib.global_v() == old(lib).global_v(),
                lib.thread_v() == old(lib).thread_v(),
                old(lib).checked() ==> lib.table_v() == old(lib).table_v(),
                forall|t: int| 0 <= t < k ==> resolvable(old(lib), lookups@, idx[t]),
                slots_updated(lib, old(lib), idx.subrange(0, k as int), lookups@),
            decreases n - k,
        {
            let i = self.sym_indices[k];
            let ghost subk = idx.subrange(0, k as int);
            let ghost subk1 = idx.subrange(0, k + 1);
            proof {
                assert(forall|t: int| 0 <= t < k ==> subk1[t] == idx[t] && subk[t] == idx[t]);
                assert(subk1[k as int] == idx[k as int]);
            }
            match lib.cached_symbol(i) {
                Some(_) => {
                    proof {
                        // A warm slot means the member was resolvable in the
                        // starting state: either its slot was warm there, or
                        // an earlier pass committed its lookup address.
                        if old(lib).slot(i as int) == 0 {
                            assert(touches(subk, i as int) && lookup_of(lookups@, i) != 0);
                        }
                        assert(resolvable(old(lib), lookups@, i));
                        assert forall|j: int| 0 <= j < old(lib).sym_count() implies lib.slot(j)
                            == (if touches(subk1, j) && old(lib).slot(j) == 0 {
                            lookup_of(lookups@, j as u32)
                        } else {
                            old(lib).slot(j)
                        }) by {
                            if j == i as int {
                            } else {
                                assert(touches(subk1, j) == touches(subk, j)) by {
                                    if touches(subk1, j) {
                                        let w = choose|w: int|
                                            0 <= w < subk1.len() && subk1[w] == j as u32;
                                        assert(w < k);
                                        assert(subk[w] == j as u32);
                                    }
                                    if touches(subk, j) {
                                        let w = choose|w: int|
                                            0 <= w < subk.len() && subk[w] == j as u32;
                                        assert(subk1[w] == j as u32);
                                    }
                                }
                            }
                        }
                    }
                },
                None => {
                    let addr = lookup_find(lookups, i);
                    if addr == 0 {
                        proof {
                            if old(lib).slot(i as int) != 0 {
                                assert(lib.slot(i as int) == old(lib).slot(i as int));
                                assert(false);
                            }
                            assert(!resolvable(old(lib), lookups@, i));
                            lemma_first_fail_props(idx, old(lib), lookups@);
                            match first_fail(idx, old(lib), lookups@) {
                                Some(f) => {
                                    if f < k {
                                        assert(resolvable(old(lib), lookups@, idx[f]));
                                        assert(false);
                                    }
                                    if f > k {
                                        assert(resolvable(old(lib), lookups@, idx[k as int]));
                                        assert(false);
                                    }
                                },
                                None => {
                                    assert(resolvable(old(lib), lookups@, idx[k as int]));
                                    assert(false);
                                },
                            }
                        }
                        let msg = lib.symbol_name(i).clone();
                        return Err(LinkError::SymbolMissing(msg));
                    }
                    let ghost pre = *lib;
                    let cr = lib.commit_symbol(i, addr);
                    proof {
                        assert(cr is Ok);
                        // The slot was cold in the starting state.
                        if old(lib).slot(i as int) != 0 {
                            assert(pre.slot(i as int) == old(lib).slot(i as int));
                            assert(false);
                        }
                        assert(resolvable(old(lib), lookups@, i));
                        assert forall|j: int| 0 <= j < old(lib).sym_count() implies lib.slot(j)
                            == (if touches(subk1, j) && old(lib).slot(j) == 0 {
                            lookup_of(lookups@, j as u32)
                        } else {
                            old(lib).slot(j)
                        }) by {
                            if j == i as int {
                                assert(touches(subk1, j)) by {
                                    assert(subk1[k as int] == j as u32);
                                }
                                assert(lib.slot(j) == addr);
                            } else {
                                assert(lib.slot(j) == pre.slot(j));
                                assert(touches(subk1, j) == touches(subk, j)) by {
                                    if touches(subk1, j) {
                                        let w = choose|w: int|
                                            0 <= w < subk1.len() && subk1[w] == j as u32;
                                        assert(w < k);
                                        assert(subk[w] == j as u32);
                                    }
                                    if touches(subk, j) {
                                        let w = choose|w: int|
                                            0 <= w < subk.len() && subk[w] == j as u32;
                                        assert(subk1[w] == j as u32);
                                    }
                                }
                            }
                        }
                    }
                },
            }
            k += 1;
        }
        proof {
            assert(idx.subrange(0, n as int) =~= idx);
            lemma_first_fail_props(idx, old(lib), lookups@);
            if first_fail(idx, old(lib), lookups@) is Some {
                let f = first_fail(idx, old(lib), lookups@)->Some_0;
                assert(resolvable(old(lib), lookups@, idx[f]));
                assert(false);
            }
        }
        Ok(())
    }

    /// Resolve the group and cache the outcome.  A Resolved status is a
    /// cached success, a Failed status a cached failure; from Unknown the
    /// symbols are resolved with the given lookup outcomes, and the status
    /// becomes Resolved or Failed accordingly.  On success the group's
    /// symbols are asserted for the scope of the returned token (checked
    /// mode).
    pub fn resolve(&mut self, lib: &mut Library, lookups: &Vec<(u32, Address)>) -> (r: Result<
        GroupResolved,
        LinkError,
    >)
        requires
            old(lib).wf(),
            old(self).valid_for(old(lib)),
            old(lib).checked() ==> forall|j: int|
                0 <= j < old(lib).thread_v().len() ==> old(lib).thread_v()[j] + count_occ(
                    old(self).indices_v(),
                    j as u32,
                ) <= 255,
        ensures
            final(lib).wf(),
            final(self).name_v() == old(self).name_v(),
            final(self).indices_v() == old(self).indices_v(),
            Library::same_identity(final(lib), old(lib)),
            final(lib).checked() == old(lib).checked(),
            final(lib).global_v() == old(lib).global_v(),
            old(lib).checked() ==> final(lib).table_v() == old(lib).table_v(),
            r matches Ok(t) ==> t.indices_v() == old(self).indices_v(),
            old(self).status_v() == GroupStatus::Failed ==> (r matches Err(e) && e@
                == LinkErrorV::GroupResolutionFailed(old(self).name_v())) && final(self).status_v()
                == GroupStatus::Failed && final(lib).table_v() == old(lib).table_v() && final(lib).shadow_v() == old(lib).shadow_v() && final(lib).thread_v() == old(lib).thread_v(),
            old(self).status_v() == GroupStatus::Resolved ==> r is Ok && final(self).status_v()
                == GroupStatus::Resolved && final(lib).table_v() == old(lib).table_v() && final(lib).shadow_v() == old(lib).shadow_v() && thread_bumped(final(lib), old(lib), old(self).indices_v()),
            old(self).status_v() == GroupStatus::Unknown ==> match first_fail(
                old(self).indices_v(),
                old(lib),
                lookups@,
            ) {
                None => r is Ok && final(self).status_v() == GroupStatus::Resolved
                    && slots_updated(final(lib), old(lib), old(self).indices_v(), lookups@)
                    && thread_bumped(final(lib), old(lib), old(self).indices_v()),
                Some(f) => (r matches Err(e) && e@ == LinkErrorV::SymbolMissing(
                    old(lib).names_v()[old(self).indices_v()[f] as int],
                )) && final(self).status_v() == GroupStatus::Failed && slots_updated(
                    final(lib),
                    old(lib),
                    old(self).indices_v().subrange(0, f),
                    lookups@,
                ) && final(lib).thread_v() == old(lib).thread_v(),
            },
    {
        match self.status {
            GroupStatus::Failed => Err(LinkError::GroupResolutionFailed(self.name.clone())),
            GroupStatus::Resolved => {
                if lib.is_checked() {
                    lib.assert_resolved(&self.sym_indices);
                }
                Ok(GroupResolved { sym_indices: copy_indices(&self.sym_indices) })
            },
            GroupStatus::Unknown => {
                match self.resolve_uncached(lib, lookups) {
                    Ok(()) => {
                        self.status = GroupStatus::Resolved;
                        if lib.is_checked() {
                            lib.assert_resolved(&self.sym_indices);
                        }
                        Ok(GroupResolved { sym_indices: copy_indices(&self.sym_indices) })
                    },
                    Err(e) => {
                        self.status = GroupStatus::Failed;
                        Err(e)
                    },
                }
            },
        }
    }

    /// Run `f` only if the group resolves (resolving it first if needed);
    /// the scoped assertions cover exactly the duration of the call, so the
    /// per-thread counters end where they began.
    pub fn if_resolved<R, F: Fn() -> R>(
        &mut self,
        lib: &mut Library,
        lookups: &Vec<(u32, Address)>,
        f: F,
    ) -> (r: Result<R, LinkError>)
        requires
            old(lib).wf(),
            old(self).valid_for(old(lib)),
            old(lib).checked() ==> forall|j: int|
                0 <= j < old(lib).thread_v().len() ==> old(lib).thread_v()[j] + count_occ(
                    old(self).indices_v(),
                    j as u32,
                ) <= 255,
            call_requires(f, ()),
        ensures
            final(lib).wf(),
            final(self).name_v() == old(self).name_v(),
            final(self).indices_v() == old(self).indices_v(),
            Library::same_identity(final(lib), old(lib)),
            final(lib).checked() == old(lib).checked(),
            final(lib).global_v() == old(lib).global_v(),
            final(lib).thread_v() == old(lib).thread_v(),
            old(lib).checked() ==> final(lib).table_v() == old(lib).table_v(),
            r matches Ok(v) ==> call_ensures(f, (), v) && final(self).status_v()
                == GroupStatus::Resolved,
            r is Err ==> final(self).status_v() == GroupStatus::Failed,
    {
        match self.resolve(lib, lookups) {
            Ok(token) => {
                let result = f();
                proof {
                    assert(thread_bumped(lib, old(lib), old(self).indices_v()));
                    assert(token.indices_v() == old(self).indices_v());
                    if lib.checked() {
                        assert forall|k: int|
                            0 <= k < token.indices_v().len() implies #[trigger] token.indices_v()[k]
                            < lib.sym_count() by {
                            assert(old(self).indices_v()[k] < old(lib).sym_count());
                        }
                        assert forall|j: int|
                            0 <= j < lib.thread_v().len() implies lib.thread_v()[j] >= count_occ(
                            token.indices_v(),
                            j as u32,
                        ) by {
                            assert(lib.thread_v()[j] == old(lib).thread_v()[j] + count_occ(
                                old(self).indices_v(),
                                j as u32,
                            ));
                        }
                    }
                }
                token.release(lib);
                proof {
                    assert(lib.thread_v() =~= old(lib).thread_v());
                }
                Ok(result)
            },
            Err(e) => Err(e),
        }
    }

    /// Mark the group as having failed symbol resolution, to simulate a
    /// failed group resolution.
    pub fn mark_failed(&mut self)
        ensures
            final(self).status_v() == GroupStatus::Failed,
            final(self).name_v() == old(self).name_v(),
            final(self).indices_v() == old(self).indices_v(),
    {
        self.status = GroupStatus::Failed;
    }
}

/// The per-thread counters grew by one per occurrence of each listed index
/// (when checked mode is on; otherwise they are unchanged and empty).
pub open spec fn thread_bumped(new_lib: &Library, old_lib: &Library, indices: Seq<u32>) -> bool {
    &&& new_lib.thread_v().len() == old_lib.thread_v().len()
    &&& forall|j: int|
        0 <= j < old_lib.thread_v().len() ==> new_lib.thread_v()[j] == old_lib.thread_v()[j]
            + (if old_lib.checked() {
            count_occ(indices, j as u32)
        } else {
            0nat
        })
}

impl GroupResolved {
    /// Release the token: withdraw the scoped assertions it holds (a no-op
    /// outside checked mode).
    pub fn release(self, lib: &mut Library)
        requires
            old(lib).wf(),
            old(lib).checked() ==> forall|k: int|
                0 <= k < self.indices_v().len() ==> #[trigger] self.indices_v()[k] < old(lib).sym_count(),
            old(lib).checked() ==> forall|j: int|
                0 <= j < old(lib).thread_v().len() ==> old(lib).thread_v()[j] >= count_occ(
                    self.indices_v(),
                    j as u32,
                ),
        ensures
            final(lib).wf(),
            Library::same_identity(final(lib), old(lib)),
            final(lib).checked() == old(lib).checked(),
            final(lib).table_v() == old(lib).table_v(),
            final(lib).shadow_v() == old(lib).shadow_v(),
            final(lib).global_v() == old(lib).global_v(),
            final(lib).thread_v().len() == old(lib).thread_v().len(),
            forall|j: int|
                0 <= j < old(lib).thread_v().len() ==> final(lib).thread_v()[j] == old(lib).thread_v()[j] - (if old(lib).checked() {
                    count_occ(self.indices_v(), j as u32)
                } else {
                    0nat
                }),
    {
        if lib.is_checked() {
            proof {
                assert forall|k: int| 0 <= k < self.sym_indices@.len() implies #[trigger] self.sym_indices@[k]
                    < old(lib).sym_count() by {
                    assert(self.indices_v()[k] < old(lib).sym_count());
                }
            }
            lib.deassert_resolved(&self.sym_indices);
        }
    }

    /// Make the group resolution permanent: promote the assertion to the
    /// process-wide bitmap and skip the scoped withdrawal.
    pub fn mark_permanent(self, lib: &mut Library)
        requires
            old(lib).wf(),
            old(lib).checked() ==> forall|k: int|
                0 <= k < self.indices_v().len() ==> #[trigger] self.indices_v()[k] < old(lib).sym_count(),
        ensures
            final(lib).wf(),
            Library::same_identity(final(lib), old(lib)),
            final(lib).checked() == old(lib).checked(),
            final(lib).table_v() == old(lib).table_v(),
            final(lib).shadow_v() == old(lib).shadow_v(),
            final(lib).thread_v() == old(lib).thread_v(),
            final(lib).global_v().len() == old(lib).global_v().len(),
            forall|j: int|
                0 <= j < old(lib).global_v().len() ==> final(lib).global_v()[j] == (if old(lib).checked() && count_occ(self.indices_v(), j as u32) > 0 {
                    1u8
                } else {
                    old(lib).global_v()[j]
                }),
    {
        if lib.is_checked() {
            proof {
                assert forall|k: int| 0 <= k < self.sym_indices@.len() implies #[trigger] self.sym_indices@[k]
                    < old(lib).sym_count() by {
                    assert(self.indices_v()[k] < old(lib).sym_count());
                }
            }
            lib.global_assert_resolved(&self.sym_indices);
        }
    }
}

/// An element-by-element copy of an index list.
fn copy_indices(v: &Vec<u32>) -> (r: Vec<u32>)
    ensures
        r@ == v@,
{
    let mut out: Vec<u32> = Vec::new();
    let mut k: usize = 0;
    while k < v.len()
        invariant
            k <= v@.len(),
            out@ =~= v@.subrange(0, k as int),
        decreases v@.len() - k,
    {
        out.push(v[k]);
        proof {
            assert(out@ =~= v@.subrange(0, k + 1));
        }
        k += 1;
    }
    proof {
        assert(v@.subrange(0, v@.len() as int) =~= v@);
    }
    out
}

} // verus!
