//! The runtime library object: the handle word, the synthetic symbol table,
//! and the checked-mode shadow state.
//!
//! This is a sequential model of the process-wide object that the generated
//! code constructs statically.  The platform loader's outcomes (`dlopen`,
//! `dlsym`) enter as arguments; the driver around the library performs the
//! calls and feeds the results back.

use vstd::prelude::*;

use crate::errors::LinkError;
use crate::loading::{Address, DylibHandle};

verus! {

/// Lazily-initialized checked-mode state: the shadow symbol table, the
/// process-wide "permanently asserted" bytes, and the per-thread scoped
/// assertion counters.
pub struct CheckedState {
    pub shadow_symbol_table: Vec<Address>,
    pub global_asserted: Vec<u8>,
    pub thread_asserted: Vec<u8>,
}

/// A weakly linked dynamic library: the handle word (zero while not
/// loaded), the load candidates, the lookup names, the synthetic symbol
/// table, and the optional checked-mode state.
pub struct Library {
    handle: usize,
    dylib_names: Vec<String>,
    symbol_names: Vec<String>,
    symbol_table: Vec<Address>,
    checked_state: Option<CheckedState>,
}

/// How many times `v` occurs in `s`.
pub open spec fn count_occ(s: Seq<u32>, v: u32) -> nat
    decreases s.len(),
{
    if s.len() == 0 {
        0
    } else {
        count_occ(s.drop_last(), v) + (if s.last() == v {
            1nat
        } else {
            0nat
        })
    }
}

impl Library {
    /// The handle word.
    pub closed spec fn handle_v(&self) -> usize {
        self.handle
    }

    /// Whether the library has been loaded.
    pub open spec fn loaded(&self) -> bool {
        self.handle_v() != 0
    }

    /// The candidate dylib names.
    pub closed spec fn dylibs_v(&self) -> Seq<Seq<char>> {
        self.dylib_names@.map_values(|s: String| s@)
    }

    /// The symbol names, in stub-table order.
    pub closed spec fn names_v(&self) -> Seq<Seq<char>> {
        self.symbol_names@.map_values(|s: String| s@)
    }

    /// Number of symbols.
    pub open spec fn sym_count(&self) -> nat {
        self.names_v().len()
    }

    /// The real synthetic symbol table.
    pub closed spec fn table_v(&self) -> Seq<Address> {
        self.symbol_table@
    }

    /// Whether checked mode has been initialized.
    pub closed spec fn checked(&self) -> bool {
        self.checked_state is Some
    }

    /// The shadow symbol table (empty while checked mode is off).
    pub closed spec fn shadow_v(&self) -> Seq<Address> {
        match self.checked_state {
            Some(cs) => cs.shadow_symbol_table@,
            None => Seq::<Address>::empty(),
        }
    }

    /// The process-wide assertion bytes (empty while checked mode is off).
    pub closed spec fn global_v(&self) -> Seq<u8> {
        match self.checked_state {
            Some(cs) => cs.global_asserted@,
            None => Seq::<u8>::empty(),
        }
    }

    /// The per-thread assertion counters (empty while checked mode is off).
    pub closed spec fn thread_v(&self) -> Seq<u8> {
        match self.checked_state {
            Some(cs) => cs.thread_asserted@,
            None => Seq::<u8>::empty(),
        }
    }

    /// The slot consulted and written during resolution: the shadow slot in
    /// checked mode, the real slot otherwise.
    pub open spec fn slot(&self, j: int) -> Address {
        if self.checked() {
            self.shadow_v()[j]
        } else {
            self.table_v()[j]
        }
    }

    /// Structural invariant: the table parallels the name list, and the
    /// checked-mode vectors parallel them too.
    pub open spec fn wf(&self) -> bool {
        &&& self.sym_count() <= 0xFFFF_FFFF
        &&& self.table_v().len() == self.sym_count()
        &&& self.checked() ==> self.shadow_v().len() == self.sym_count() && self.global_v().len()
            == self.sym_count() && self.thread_v().len() == self.sym_count()
    }

    /// Everything except the handle agrees between `a` and `b`.
    pub open spec fn same_but_handle(a: &Library, b: &Library) -> bool {
        &&& a.dylibs_v() == b.dylibs_v()
        &&& a.names_v() == b.names_v()
        &&& a.table_v() == b.table_v()
        &&& a.checked() == b.checked()
        &&& a.shadow_v() == b.shadow_v()
        &&& a.global_v() == b.global_v()
        &&& a.thread_v() == b.thread_v()
    }

    /// The identity of the library (names and candidates) agrees between
    /// `a` and `b`.
    pub open spec fn same_identity(a: &Library, b: &Library) -> bool {
        &&& a.handle_v() == b.handle_v()
        &&& a.dylibs_v() == b.dylibs_v()
        &&& a.names_v() == b.names_v()
    }

    /// A fresh, unloaded library over the given candidates and symbol
    /// names, with every table slot zero and checked mode off.
    pub fn new(dylib_names: Vec<String>, symbol_names: Vec<String>) -> (r: Library)
        requires
            symbol_names@.len() <= 0xFFFF_FFFF,
        ensures
            r.wf(),
            !r.loaded(),
            !r.checked(),
            r.dylibs_v() == dylib_names@.map_values(|s: String| s@),
            r.names_v() == symbol_names@.map_values(|s: String| s@),
            r.table_v().len() == r.sym_count(),
            forall|j: int| 0 <= j < r.table_v().len() ==> r.table_v()[j] == 0,
    {
        let n = symbol_names.len();
        let mut table: Vec<Address> = Vec::new();
        let mut i: usize = 0;
        while i < n
            invariant
                i <= n,
                table@.len() == i,
                forall|j: int| 0 <= j < i ==> table@[j] == 0,
            decreases n - i,
        {
            table.push(0);
            i += 1;
        }
        Library {
            handle: 0,
            dylib_names,
            symbol_names,
            symbol_table: table,
            checked_state: None,
        }
    }

    /// Number of load candidates.
    pub fn dylib_name_count(&self) -> (r: usize)
        ensures
            r == self.dylibs_v().len(),
    {
        self.dylib_names.len()
    }

    /// The `i`-th load candidate.
    pub fn dylib_name(&self, i: usize) -> (r: &String)
        requires
            i < self.dylibs_v().len(),
        ensures
            r@ == self.dylibs_v()[i as int],
    {
        &self.dylib_names[i]
    }

    /// Number of symbols in the table.
    pub fn symbol_count(&self) -> (r: usize)
        ensures
            r == self.sym_count(),
    {
        self.symbol_names.len()
    }

    /// The lookup name of symbol `i`.
    pub fn symbol_name(&self, i: u32) -> (r: &String)
        requires
            i < self.sym_count(),
        ensures
            r@ == self.names_v()[i as int],
    {
        &self.symbol_names[i as usize]
    }

    /// Whether checked mode has been initialized.
    pub fn is_checked(&self) -> (r: bool)
        ensures
            r == self.checked(),
    {
        self.checked_state.is_some()
    }

    /// The library handle, if already loaded.
    pub fn handle(&self) -> (r: Option<DylibHandle>)
        ensures
            r == if self.loaded() {
                Some(DylibHandle(self.handle_v()))
            } else {
                None::<DylibHandle>
            },
    {
        if self.handle != 0 {
            Some(DylibHandle(self.handle))
        } else {
            None
        }
    }

    /// Set the library handle, for a handle obtained out-of-band.
    pub fn set_handle(&mut self, handle: DylibHandle)
        ensures
            final(self).handle_v() == handle.0,
            Self::same_but_handle(final(self), old(self)),
            final(self).wf() == old(self).wf(),
    {
        self.handle = handle.0;
    }

    /// Record the outcome of one load attempt: fails if the library is
    /// already loaded; publishes the handle the platform loader returned,
    /// or reports that no candidate loaded.
    pub fn load_outcome(&mut self, outcome: Option<DylibHandle>) -> (r: Result<
        DylibHandle,
        LinkError,
    >)
        requires
            outcome matches Some(h) ==> h.0 != 0,
        ensures
            Self::same_but_handle(final(self), old(self)),
            final(self).wf() == old(self).wf(),
            old(self).loaded() ==> r == Err::<DylibHandle, LinkError>(LinkError::AlreadyLoaded)
                && final(self).handle_v() == old(self).handle_v(),
            !old(self).loaded() ==> match outcome {
                Some(h) => r == Ok::<DylibHandle, LinkError>(h) && final(self).handle_v() == h.0,
                None => r == Err::<DylibHandle, LinkError>(LinkError::LibraryNotFound)
                    && final(self).handle_v() == 0,
            },
    {
        if self.handle != 0 {
            Err(LinkError::AlreadyLoaded)
        } else {
            match outcome {
                Some(h) => {
                    self.handle = h.0;
                    Ok(h)
                },
                None => Err(LinkError::LibraryNotFound),
            }
        }
    }

    /// The cached address of symbol `i`: the consulted slot's value when it
    /// is non-zero.
    pub fn cached_symbol(&self, i: u32) -> (r: Option<Address>)
        requires
            self.wf(),
            i < self.sym_count(),
        ensures
            r == if self.slot(i as int) != 0 {
                Some(self.slot(i as int))
            } else {
                None::<Address>
            },
    {
        let v = if let Some(cs) = &self.checked_state {
            cs.shadow_symbol_table[i as usize]
        } else {
            self.symbol_table[i as usize]
        };
        if v != 0 {
            Some(v)
        } else {
            None
        }
    }

    /// Record the outcome of a platform symbol lookup for slot `i`: a zero
    /// address means the symbol is missing; otherwise the consulted slot is
    /// written.  In checked mode the real table is never updated, so every
    /// call through the stub re-enters the lazy resolver.
    pub fn commit_symbol(&mut self, i: u32, addr: Address) -> (r: Result<Address, LinkError>)
        requires
            old(self).wf(),
            i < old(self).sym_count(),
        ensures
            final(self).wf(),
            final(self).handle_v() == old(self).handle_v(),
            final(self).dylibs_v() == old(self).dylibs_v(),
            final(self).names_v() == old(self).names_v(),
            final(self).checked() == old(self).checked(),
            final(self).global_v() == old(self).global_v(),
            final(self).thread_v() == old(self).thread_v(),
            old(self).checked() ==> final(self).table_v() == old(self).table_v(),
            addr == 0 ==> (r matches Err(e) && e@ == crate::errors::LinkErrorV::SymbolMissing(
                old(self).names_v()[i as int],
            ) && final(self).table_v() == old(self).table_v() && final(self).shadow_v() == old(
                self,
            ).shadow_v()),
            addr != 0 ==> r == Ok::<Address, LinkError>(addr) && final(self).slot(i as int) == addr
                && (forall|j: int|
                0 <= j < old(self).sym_count() && j != i ==> final(self).slot(j) == old(self).slot(
                    j,
                )),
    {
        if addr == 0 {
            Err(LinkError::SymbolMissing(self.symbol_names[i as usize].clone()))
        } else {
            match &mut self.checked_state {
                Some(cs) => {
                    cs.shadow_symbol_table.set(i as usize, addr);
                },
                None => {
                    self.symbol_table.set(i as usize, addr);
                },
            }
            Ok(addr)
        }
    }

    /// Resolve symbol `i` given the outcome of a (possibly skipped)
    /// platform lookup: the cached slot wins; otherwise the lookup outcome
    /// is committed.
    pub fn resolve_symbol_with(&mut self, i: u32, lookup: Address) -> (r: Result<
        Address,
        LinkError,
    >)
        requires
            old(self).wf(),
            i < old(self).sym_count(),
        ensures
            final(self).wf(),
            final(self).handle_v() == old(self).handle_v(),
            final(self).names_v() == old(self).names_v(),
            final(self).dylibs_v() == old(self).dylibs_v(),
            final(self).checked() == old(self).checked(),
            final(self).global_v() == old(self).global_v(),
            final(self).thread_v() == old(self).thread_v(),
            old(self).checked() ==> final(self).table_v() == old(self).table_v(),
            old(self).slot(i as int) != 0 ==> r == Ok::<Address, LinkError>(
                old(self).slot(i as int),
            ) && final(self).table_v() == old(self).table_v() && final(self).shadow_v() == old(
                self,
            ).shadow_v(),
            old(self).slot(i as int) == 0 && lookup != 0 ==> r == Ok::<Address, LinkError>(lookup)
                && final(self).slot(i as int) == lookup && (forall|j: int|
                0 <= j < old(self).sym_count() && j != i ==> final(self).slot(j) == old(self).slot(
                    j,
                )),
            old(self).slot(i as int) == 0 && lookup == 0 ==> (r matches Err(e) && e@
                == crate::errors::LinkErrorV::SymbolMissing(old(self).names_v()[i as int]))
                && final(self).table_v() == old(self).table_v() && final(self).shadow_v() == old(
                self,
            ).shadow_v(),
    {
        match self.cached_symbol(i) {
            Some(addr) => Ok(addr),
            None => self.commit_symbol(i, lookup),
        }
    }

    /// Initialize the checked-mode state if it is absent: a zeroed shadow
    /// table and zeroed assertion bytes.
    pub fn init_checked_state(&mut self)
        requires
            old(self).wf(),
        ensures
            final(self).wf(),
            final(self).checked(),
            final(self).handle_v() == old(self).handle_v(),
            final(self).dylibs_v() == old(self).dylibs_v(),
            final(self).names_v() == old(self).names_v(),
            final(self).table_v() == old(self).table_v(),
            old(self).checked() ==> final(self).shadow_v() == old(self).shadow_v()
                && final(self).global_v() == old(self).global_v()
                && final(self).thread_v() == old(self).thread_v(),
            !old(self).checked() ==> (forall|j: int|
                0 <= j < final(self).sym_count() ==> final(self).slot(j) == 0
                    && final(self).global_v()[j] == 0 && final(self).thread_v()[j] == 0),
    {
        if self.checked_state.is_none() {
            let n = self.symbol_table.len();
            let mut shadow: Vec<Address> = Vec::new();
            let mut global: Vec<u8> = Vec::new();
            let mut thread: Vec<u8> = Vec::new();
            let mut i: usize = 0;
            while i < n
                invariant
                    i <= n,
                    shadow@.len() == i,
                    global@.len() == i,
                    thread@.len() == i,
                    forall|j: int| 0 <= j < i ==> shadow@[j] == 0,
                    forall|j: int| 0 <= j < i ==> global@[j] == 0,
                    forall|j: int| 0 <= j < i ==> thread@[j] == 0,
                decreases n - i,
            {
                shadow.push(0);
                global.push(0u8);
                thread.push(0u8);
                i += 1;
            }
            self.checked_state = Some(
                CheckedState {
                    shadow_symbol_table: shadow,
                    global_asserted: global,
                    thread_asserted: thread,
                },
            );
        }
    }

    /// Increment the per-thread assertion counter of every listed symbol,
    /// once per occurrence.
    #[verifier::loop_isolation(false)]
    pub fn assert_resolved(&mut self, sym_indices: &Vec<u32>)
        requires
            old(self).wf(),
            old(self).checked(),
            forall|k: int|
                0 <= k < sym_indices@.len() ==> #[trigger] sym_indices@[k] < old(self).sym_count(),
            forall|j: int|
                0 <= j < old(self).thread_v().len() ==> old(self).thread_v()[j] + count_occ(
                    sym_indices@,
                    j as u32,
                ) <= 255,
        ensures
            final(self).wf(),
            Self::same_identity(final(self), old(self)),
            final(self).table_v() == old(self).table_v(),
            final(self).checked(),
            final(self).shadow_v() == old(self).shadow_v(),
            final(self).global_v() == old(self).global_v(),
            final(self).thread_v().len() == old(self).thread_v().len(),
            forall|j: int|
                0 <= j < old(self).thread_v().len() ==> final(self).thread_v()[j] == old(
                    self,
                ).thread_v()[j] + count_occ(sym_indices@, j as u32),
    {
        let n = sym_indices.len();
        let mut k: usize = 0;
        while k < n
            invariant
                k <= n,
                self.wf(),
                self.checked(),
                Self::same_identity(self, old(self)),
                self.table_v() == old(self).table_v(),
                self.shadow_v() == old(self).shadow_v(),
                self.global_v() == old(self).global_v(),
                self.thread_v().len() == old(self).thread_v().len(),
                forall|j: int|
                    0 <= j < old(self).thread_v().len() ==> self.thread_v()[j] == old(
                        self,
                    ).thread_v()[j] + count_occ(sym_indices@.subrange(0, k as int), j as u32),
            decreases n - k,
        {
            proof {
                assert forall|j: int| 0 <= j < old(self).thread_v().len() implies #[trigger] count_occ(
                    sym_indices@.subrange(0, k + 1),
                    j as u32,
                ) == count_occ(sym_indices@.subrange(0, k as int), j as u32) + (if sym_indices@[k as int]
                    == j as u32 {
                    1nat
                } else {
                    0nat
                }) by {
                    assert(sym_indices@.subrange(0, k + 1).drop_last() =~= sym_indices@.subrange(
                        0,
                        k as int,
                    ));
                }
                lemma_count_occ_le(sym_indices@, k + 1, sym_indices@[k as int]);
            }
            let i = sym_indices[k] as usize;
            if let Some(cs) = &mut self.checked_state {
                let cur = cs.thread_asserted[i];
                cs.thread_asserted.set(i, cur + 1);
            }
            proof {
                assert forall|j: int| 0 <= j < old(self).thread_v().len() implies self.thread_v()[j]
                    == old(self).thread_v()[j] + count_occ(
                    sym_indices@.subrange(0, k + 1),
                    j as u32,
                ) by {
                    if j == i {
                        assert(sym_indices@[k as int] == j as u32);
                    } else {
                        assert(sym_indices@[k as int] != j as u32);
                    }
                }
            }
            k += 1;
        }
        proof {
            assert(sym_indices@.subrange(0, n as int) =~= sym_indices@);
        }
    }

    /// Decrement the per-thread assertion counter of every listed symbol,
    /// once per occurrence.
    #[verifier::loop_isolation(false)]
    pub fn deassert_resolved(&mut self, sym_indices: &Vec<u32>)
        requires
            old(self).wf(),
            old(self).checked(),
            forall|k: int|
                0 <= k < sym_indices@.len() ==> #[trigger] sym_indices@[k] < old(self).sym_count(),
            forall|j: int|
                0 <= j < old(self).thread_v().len() ==> old(self).thread_v()[j] >= count_occ(
                    sym_indices@,
                    j as u32,
                ),
        ensures
            final(self).wf(),
            Self::same_identity(final(self), old(self)),
            final(self).table_v() == old(self).table_v(),
            final(self).checked(),
            final(self).shadow_v() == old(self).shadow_v(),
            final(self).global_v() == old(self).global_v(),
            final(self).thread_v().len() == old(self).thread_v().len(),
            forall|j: int|
                0 <= j < old(self).thread_v().len() ==> final(self).thread_v()[j] == old(
                    self,
                ).thread_v()[j] - count_occ(sym_indices@, j as u32),
    {
        let n = sym_indices.len();
        let mut k: usize = 0;
        while k < n
            invariant
                k <= n,
                self.wf(),
                self.checked(),
                Self::same_identity(self, old(self)),
                self.table_v() == old(self).table_v(),
                self.shadow_v() == old(self).shadow_v(),
                self.global_v() == old(self).global_v(),
                self.thread_v().len() == old(self).thread_v().len(),
                forall|j: int|
                    0 <= j < old(self).thread_v().len() ==> self.thread_v()[j] == old(
                        self,
                    ).thread_v()[j] - count_occ(sym_indices@.subrange(0, k as int), j as u32),
            decreases n - k,
        {
            proof {
                assert forall|j: int| 0 <= j < old(self).thread_v().len() implies #[trigger] count_occ(
                    sym_indices@.subrange(0, k + 1),
                    j as u32,
                ) == count_occ(sym_indices@.subrange(0, k as int), j as u32) + (if sym_indices@[k as int]
                    == j as u32 {
                    1nat
                } else {
                    0nat
                }) by {
                    assert(sym_indices@.subrange(0, k + 1).drop_last() =~= sym_indices@.subrange(
                        0,
                        k as int,
                    ));
                }
                lemma_count_occ_le(sym_indices@, k + 1, sym_indices@[k as int]);
            }
            let i = sym_indices[k] as usize;
            if let Some(cs) = &mut self.checked_state {
                let cur = cs.thread_asserted[i];
                cs.thread_asserted.set(i, cur - 1);
            }
            proof {
                assert forall|j: int| 0 <= j < old(self).thread_v().len() implies self.thread_v()[j]
                    == old(self).thread_v()[j] - count_occ(
                    sym_indices@.subrange(0, k + 1),
                    j as u32,
                ) by {
                    if j == i {
                        assert(sym_indices@[k as int] == j as u32);
                    } else {
                        assert(sym_indices@[k as int] != j as u32);
                    }
                }
            }
            k += 1;
        }
        proof {
            assert(sym_indices@.subrange(0, n as int) =~= sym_indices@);
        }
    }

    /// Set the process-wide assertion byte of every listed symbol
    /// (monotonic).
    #[verifier::loop_isolation(false)]
    pub fn global_assert_resolved(&mut self, sym_indices: &Vec<u32>)
        requires
            old(self).wf(),
            old(self).checked(),
            forall|k: int|
                0 <= k < sym_indices@.len() ==> #[trigger] sym_indices@[k] < old(self).sym_count(),
        ensures
            final(self).wf(),
            Self::same_identity(final(self), old(self)),
            final(self).table_v() == old(self).table_v(),
            final(self).checked(),
            final(self).shadow_v() == old(self).shadow_v(),
            final(self).thread_v() == old(self).thread_v(),
            final(self).global_v().len() == old(self).global_v().len(),
            forall|j: int|
                0 <= j < old(self).global_v().len() ==> final(self).global_v()[j] == (
                if count_occ(sym_indices@, j as u32) > 0 {
                    1u8
                } else {
                    old(self).global_v()[j]
                }),
    {
        let n = sym_indices.len();
        let mut k: usize = 0;
        while k < n
            invariant
                k <= n,
                self.wf(),
                self.checked(),
                Self::same_identity(self, old(self)),
                self.table_v() == old(self).table_v(),
                self.shadow_v() == old(self).shadow_v(),
                self.thread_v() == old(self).thread_v(),
                self.global_v().len() == old(self).global_v().len(),
                forall|j: int|
                    0 <= j < old(self).global_v().len() ==> self.global_v()[j] == (if count_occ(
                        sym_indices@.subrange(0, k as int),
                        j as u32,
                    ) > 0 {
                        1u8
                    } else {
                        old(self).global_v()[j]
                    }),
            decreases n - k,
        {
            proof {
                assert forall|j: int| 0 <= j < old(self).global_v().len() implies #[trigger] count_occ(
                    sym_indices@.subrange(0, k + 1),
                    j as u32,
                ) == count_occ(sym_indices@.subrange(0, k as int), j as u32) + (if sym_indices@[k as int]
                    == j as u32 {
                    1nat
                } else {
                    0nat
                }) by {
                    assert(sym_indices@.subrange(0, k + 1).drop_last() =~= sym_indices@.subrange(
                        0,
                        k as int,
                    ));
                }
            }
            let i = sym_indices[k] as usize;
            if let Some(cs) = &mut self.checked_state {
                cs.global_asserted.set(i, 1u8);
            }
            proof {
                assert forall|j: int| 0 <= j < old(self).global_v().len() implies self.global_v()[j]
                    == (if count_occ(sym_indices@.subrange(0, k + 1), j as u32) > 0 {
                    1u8
                } else {
                    old(self).global_v()[j]
                }) by {
                    if j == i {
                        assert(sym_indices@[k as int] == j as u32);
                        assert(count_occ(sym_indices@.subrange(0, k + 1), j as u32) > 0);
                    } else {
                        assert(sym_indices@[k as int] != j as u32);
                    }
                }
            }
            k += 1;
        }
        proof {
            assert(sym_indices@.subrange(0, n as int) =~= sym_indices@);
        }
    }

    /// Calling symbol `i` is admissible: outside checked mode, always; in
    /// checked mode, when the symbol is permanently asserted or the
    /// thread's scoped counter is positive.
    pub open spec fn admissible(&self, i: int) -> bool {
        if self.checked() {
            self.global_v()[i] != 0 || self.thread_v()[i] != 0
        } else {
            true
        }
    }

    /// Whether calling symbol `i` is admissible.  The caller turns a
    /// `false` into the assertion-violation panic.
    pub fn check_asserted(&self, i: u32) -> (r: bool)
        requires
            self.wf(),
            i < self.sym_count(),
        ensures
            r == self.admissible(i as int),
    {
        match &self.checked_state {
            Some(cs) => cs.global_asserted[i as usize] != 0 || cs.thread_asserted[i as usize] != 0,
            None => true,
        }
    }
}

/// A value occurs in a prefix at most as often as in the whole sequence.
proof fn lemma_count_occ_le(s: Seq<u32>, k: int, v: u32)
    requires
        0 <= k <= s.len(),
    ensures
        count_occ(s.subrange(0, k), v) <= count_occ(s, v),
    decreases s.len() - k,
{
    if k < s.len() {
        assert(s.subrange(0, k + 1).drop_last() =~= s.subrange(0, k));
        lemma_count_occ_le(s, k + 1, v);
    } else {
        assert(s.subrange(0, s.len() as int) =~= s);
    }
}

} // verus!
