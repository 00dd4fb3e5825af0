//! Cross-cutting properties of the library, stated and proved over the spec
//! functions that the public contracts use.

use vstd::prelude::*;

use crate::config::Config;
use crate::group::{first_fail, lookup_of, resolvable, slots_updated, thread_bumped, touches};
use crate::library::{count_occ, Library};
use crate::loading::Address;
use crate::stub_gen::emit::spec_generate;
use crate::stub_gen::{spec_adjusted_stubs, spec_target_arch, spec_target_os, TargetArch, TargetOs};

verus! {

/// Generator determinism, modulo the table-name suffix: two configurations
/// that agree on their settings, stub tables and groups produce byte-equal
/// source when the suffix is held constant.
pub proof fn lemma_generate_deterministic(
    a: &Config,
    b: &Config,
    arch: TargetArch,
    os: TargetOs,
    suffix: nat,
)
    requires
        Config::same_settings(a, b),
        a.stubs_v() == b.stubs_v(),
        a.groups_v() == b.groups_v(),
    ensures
        spec_generate(
            a.name_v(),
            a.dylib_names_v(),
            spec_adjusted_stubs(a.stubs_v(), a.target_v(), a.adjust_v()),
            a.groups_v(),
            arch,
            os,
            a.lazy_v(),
            suffix,
        ) == spec_generate(
            b.name_v(),
            b.dylib_names_v(),
            spec_adjusted_stubs(b.stubs_v(), b.target_v(), b.adjust_v()),
            b.groups_v(),
            arch,
            os,
            b.lazy_v(),
            suffix,
        ),
{
}

/// An index that occurs in a list is counted at least once.
pub proof fn lemma_count_occ_pos(s: Seq<u32>, k: int)
    requires
        0 <= k < s.len(),
    ensures
        count_occ(s, s[k]) > 0,
    decreases s.len(),
{
    if k < s.len() - 1 {
        lemma_count_occ_pos(s.drop_last(), k);
    }
}

/// Group caching: after a resolution pass succeeds (no member failed and
/// the slots were updated accordingly), every member's slot is warm, so no
/// later resolution of the group consults the platform loader.
pub proof fn lemma_group_caching(
    old_lib: &Library,
    new_lib: &Library,
    indices: Seq<u32>,
    lookups: Seq<(u32, Address)>,
)
    requires
        old_lib.wf(),
        forall|k: int| 0 <= k < indices.len() ==> #[trigger] indices[k] < old_lib.sym_count(),
        first_fail(indices, old_lib, lookups) is None,
        slots_updated(new_lib, old_lib, indices, lookups),
    ensures
        forall|k: int|
            0 <= k < indices.len() ==> new_lib.slot(#[trigger] indices[k] as int) != 0,
{
    crate::group::lemma_first_fail_props(indices, old_lib, lookups);
    assert forall|k: int| 0 <= k < indices.len() implies new_lib.slot(
        #[trigger] indices[k] as int,
    ) != 0 by {
        assert(resolvable(old_lib, lookups, indices[k]));
        if old_lib.slot(indices[k] as int) == 0 {
            assert(touches(indices, indices[k] as int));
            assert(lookup_of(lookups, indices[k]) != 0);
        }
    }
}

/// Scoped assertion, checked mode.  Inside the scope of a group token
/// (thread counters bumped for every member), calling a group symbol is
/// admissible.  When the token is released (counters restored), every
/// symbol is exactly as admissible as before the scope.  After a permanent
/// promotion (global bytes set for every member), a group symbol stays
/// admissible for the life of the process, whatever the thread counters.
pub proof fn lemma_scoped_assertion(
    before: &Library,
    during: &Library,
    after: &Library,
    permanent: &Library,
    indices: Seq<u32>,
    k: int,
)
    requires
        before.wf(),
        before.checked(),
        forall|t: int| 0 <= t < indices.len() ==> #[trigger] indices[t] < before.sym_count(),
        0 <= k < indices.len(),
        // inside the scope: counters bumped once per occurrence
        during.checked(),
        thread_bumped(during, before, indices),
        during.global_v() == before.global_v(),
        during.sym_count() == before.sym_count(),
        // after release: counters restored
        after.checked(),
        after.thread_v() == before.thread_v(),
        after.global_v() == before.global_v(),
        // after a permanent promotion: global bytes set for the members
        permanent.checked(),
        permanent.global_v().len() == before.global_v().len(),
        forall|j: int|
            0 <= j < before.global_v().len() ==> permanent.global_v()[j] == (if count_occ(
                indices,
                j as u32,
            ) > 0 {
                1u8
            } else {
                before.global_v()[j]
            }),
    ensures
        during.admissible(indices[k] as int),
        forall|j: int| 0 <= j < before.sym_count() ==> after.admissible(j) == before.admissible(j),
        permanent.admissible(indices[k] as int),
{
    lemma_count_occ_pos(indices, k);
    assert(during.thread_v()[indices[k] as int] >= count_occ(indices, indices[k]));
    assert(count_occ(indices, indices[k] as int as u32) == count_occ(indices, indices[k]));
}

} // verus!
