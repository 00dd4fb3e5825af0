//! Build-time stub configuration: the deduplicated stub table and the named
//! symbol groups.

use vstd::prelude::*;

use crate::errors::ConfigError;

verus! {

/// A single symbol stub: the name looked up in the wrapped library at run
/// time (`import_name`) and the name exported from the generated stub
/// translation unit (`export_name`).
pub struct SymbolStub {
    /// Symbol name exported by the wrapped library.
    pub import_name: String,
    /// Symbol name that will be exported from the stub library.
    pub export_name: String,
    /// If true, generate a function that returns the symbol address when called.
    pub is_data: bool,
}

/// The mathematical value of a [`SymbolStub`].
pub struct StubView {
    pub import_name: Seq<char>,
    pub export_name: Seq<char>,
    pub is_data: bool,
}

impl View for SymbolStub {
    type V = StubView;

    open spec fn view(&self) -> StubView {
        StubView {
            import_name: self.import_name@,
            export_name: self.export_name@,
            is_data: self.is_data,
        }
    }
}

impl SymbolStub {
    /// Create a stub for exported code symbol `name`.
    pub fn new(name: &str) -> (r: SymbolStub)
        ensures
            r@ == (StubView { import_name: name@, export_name: name@, is_data: false }),
    {
        SymbolStub {
            import_name: name.to_string(),
            export_name: name.to_string(),
            is_data: false,
        }
    }

    /// Create a stub for exported data symbol `exp_name`.
    /// The client-side accessor function will be named `imp_name`.
    pub fn new_data(exp_name: &str, imp_name: &str) -> (r: SymbolStub)
        ensures
            r@ == (StubView {
                import_name: imp_name@,
                export_name: exp_name@,
                is_data: true,
            }),
    {
        SymbolStub {
            export_name: exp_name.to_string(),
            import_name: imp_name.to_string(),
            is_data: true,
        }
    }

    /// An explicit copy (field-by-field, so that the contract can state that
    /// the value is preserved).
    pub fn duplicate(&self) -> (r: SymbolStub)
        ensures
            r@ == self@,
    {
        SymbolStub {
            import_name: self.import_name.clone(),
            export_name: self.export_name.clone(),
            is_data: self.is_data,
        }
    }
}

/// The values of a sequence of stubs.
pub open spec fn stub_views(stubs: Seq<SymbolStub>) -> Seq<StubView> {
    stubs.map_values(|s: SymbolStub| s@)
}

/// Position of the (unique) stub with export name `exp`, if any.
pub open spec fn find_export(stubs: Seq<StubView>, exp: Seq<char>) -> Option<int>
    decreases stubs.len(),
{
    if stubs.len() == 0 {
        None
    } else if stubs.first().export_name == exp {
        Some(0int)
    } else {
        match find_export(stubs.drop_first(), exp) {
            Some(i) => Some(i + 1),
            None => None,
        }
    }
}

/// What one `add_symbol_group` call does to the stub table: each incoming
/// stub either reuses the index of an existing stub with the same export
/// name (provided `import_name` and `is_data` agree) or is appended.
/// `None` means an incompatible redefinition was encountered.
pub open spec fn add_syms_spec(stubs: Seq<StubView>, syms: Seq<StubView>) -> Option<
    (Seq<StubView>, Seq<int>),
>
    decreases syms.len(),
{
    if syms.len() == 0 {
        Some((stubs, Seq::<int>::empty()))
    } else {
        let s = syms.first();
        match find_export(stubs, s.export_name) {
            Some(i) => {
                if stubs[i].is_data == s.is_data && stubs[i].import_name == s.import_name {
                    match add_syms_spec(stubs, syms.drop_first()) {
                        Some(r) => Some((r.0, seq![i] + r.1)),
                        None => None,
                    }
                } else {
                    None
                }
            },
            None => {
                match add_syms_spec(stubs.push(s), syms.drop_first()) {
                    Some(r) => Some((r.0, seq![stubs.len() as int] + r.1)),
                    None => None,
                }
            },
        }
    }
}

/// Build-time configuration: the management-object name, the target triple,
/// load candidates, flags, the deduplicated stub table and the named groups.
pub struct Config {
    /// Name of the static variable that exposes the management API in the
    /// generated stubs crate.
    pub name: String,
    /// Target triple to generate code for.  The build-script glue seeds this
    /// from the build environment.
    pub target: String,
    /// Dylib names to try when loading implicitly.
    pub dylib_names: Vec<String>,
    /// Whether to perform symbol name adjustment.
    ///
    /// This handles a quirk of the macOS linker, which automatically adds a
    /// leading underscore to all exports.
    pub adjust_symbol_names: bool,
    /// Whether to emit lazy-binding thunks, so that the first call through a
    /// stub resolves the symbol on the spot.
    pub lazy_binding: bool,
    // The list of symbol stubs created so far.
    stubs: Vec<SymbolStub>,
    // Group name => stub indices in `stubs`.
    groups: Vec<(String, Vec<usize>)>,
}

impl Config {
    /// The stub table as a mathematical sequence.
    pub closed spec fn stubs_v(&self) -> Seq<StubView> {
        stub_views(self.stubs@)
    }

    /// The groups as a sequence of (name, index list) pairs.
    pub closed spec fn groups_v(&self) -> Seq<(Seq<char>, Seq<int>)> {
        self.groups@.map_values(
            |g: (String, Vec<usize>)| (g.0@, g.1@.map_values(|i: usize| i as int)),
        )
    }

    /// Whether a group with the given name exists.
    pub open spec fn has_group(&self, name: Seq<char>) -> bool {
        exists|i: int| 0 <= i < self.groups_v().len() && self.groups_v()[i].0 == name
    }

    /// Structural invariant: export names are unique in the stub table,
    /// group names are unique, and group members index into the stub table.
    pub open spec fn wf(&self) -> bool {
        &&& forall|i: int, j: int|
            0 <= i < j < self.stubs_v().len() ==> self.stubs_v()[i].export_name
                != self.stubs_v()[j].export_name
        &&& forall|i: int, j: int|
            0 <= i < j < self.groups_v().len() ==> self.groups_v()[i].0 != self.groups_v()[j].0
        &&& forall|g: int, k: int|
            0 <= g < self.groups_v().len() && 0 <= k < self.groups_v()[g].1.len() ==> 0 <= #[trigger] self.groups_v()[g].1[k] < self.stubs_v().len()
    }

    /// The management-object name.
    pub closed spec fn name_v(&self) -> Seq<char> {
        self.name@
    }

    /// The target triple.
    pub closed spec fn target_v(&self) -> Seq<char> {
        self.target@
    }

    /// The candidate dylib names.
    pub closed spec fn dylib_names_v(&self) -> Seq<Seq<char>> {
        self.dylib_names@.map_values(|s: String| s@)
    }

    /// The name-adjustment flag.
    pub closed spec fn adjust_v(&self) -> bool {
        self.adjust_symbol_names
    }

    /// The lazy-binding flag.
    pub closed spec fn lazy_v(&self) -> bool {
        self.lazy_binding
    }

    /// The settings (everything but the stub table and the groups) of `a`
    /// and `b` agree.
    pub open spec fn same_settings(a: &Config, b: &Config) -> bool {
        &&& a.name_v() == b.name_v()
        &&& a.target_v() == b.target_v()
        &&& a.dylib_names_v() == b.dylib_names_v()
        &&& a.adjust_v() == b.adjust_v()
        &&& a.lazy_v() == b.lazy_v()
    }

    /// Create a new build configuration with an empty stub table, no groups,
    /// no dylib names, name adjustment on and lazy binding off.  The target
    /// triple starts empty; the build-script glue fills it in from the build
    /// environment.
    pub fn new(name: &str) -> (r: Config)
        ensures
            r.wf(),
            r.name_v() == name@,
            r.target_v() == Seq::<char>::empty(),
            r.dylib_names_v() == Seq::<Seq<char>>::empty(),
            r.adjust_v(),
            !r.lazy_v(),
            r.stubs_v() == Seq::<StubView>::empty(),
            r.groups_v() == Seq::<(Seq<char>, Seq<int>)>::empty(),
    {
        let r = Config {
            name: name.to_string(),
            target: String::new(),
            dylib_names: Vec::new(),
            adjust_symbol_names: true,
            lazy_binding: false,
            stubs: Vec::new(),
            groups: Vec::new(),
        };
        proof {
            assert(r.stubs_v() =~= Seq::<StubView>::empty());
            assert(r.groups_v() =~= Seq::<(Seq<char>, Seq<int>)>::empty());
        }
        r
    }

    /// The management-object name.
    pub fn name_str(&self) -> (r: &String)
        ensures
            r@ == self.name_v(),
    {
        &self.name
    }

    /// The target triple.
    pub fn target_str(&self) -> (r: &String)
        ensures
            r@ == self.target_v(),
    {
        &self.target
    }

    /// The candidate dylib names.
    pub fn dylib_names_vec(&self) -> (r: &Vec<String>)
        ensures
            r@.map_values(|s: String| s@) == self.dylib_names_v(),
    {
        &self.dylib_names
    }

    /// The name-adjustment flag.
    pub fn adjust_flag(&self) -> (r: bool)
        ensures
            r == self.adjust_v(),
    {
        self.adjust_symbol_names
    }

    /// The lazy-binding flag.
    pub fn lazy_flag(&self) -> (r: bool)
        ensures
            r == self.lazy_v(),
    {
        self.lazy_binding
    }

    /// The stub table.
    pub fn stubs_vec(&self) -> (r: &Vec<SymbolStub>)
        ensures
            stub_views(r@) == self.stubs_v(),
    {
        &self.stubs
    }

    /// Number of stubs in the stub table.
    pub fn stub_count(&self) -> (r: usize)
        ensures
            r == self.stubs_v().len(),
    {
        self.stubs.len()
    }

    /// The `i`-th stub of the stub table.
    pub fn stub(&self, i: usize) -> (r: &SymbolStub)
        requires
            i < self.stubs_v().len(),
        ensures
            r@ == self.stubs_v()[i as int],
    {
        &self.stubs[i]
    }

    /// Number of registered groups.
    pub fn group_count(&self) -> (r: usize)
        ensures
            r == self.groups_v().len(),
    {
        self.groups.len()
    }

    /// Name of the `i`-th group, in registration order.
    pub fn group_name(&self, i: usize) -> (r: &String)
        requires
            i < self.groups_v().len(),
        ensures
            r@ == self.groups_v()[i as int].0,
    {
        &self.groups[i].0
    }

    /// Stub-table indices of the `i`-th group, in registration order.
    pub fn group_indices(&self, i: usize) -> (r: &Vec<usize>)
        requires
            i < self.groups_v().len(),
        ensures
            r@.map_values(|x: usize| x as int) == self.groups_v()[i as int].1,
    {
        &self.groups[i].1
    }

    /// Add a group of symbols that may be resolved all at once using the
    /// given group name.  A symbol may appear in more than one group: a stub
    /// whose export name is already in the table is reused, provided its
    /// `import_name` and `is_data` agree; otherwise the call fails and the
    /// configuration is left unchanged.
    #[verifier::loop_isolation(false)]
    pub fn add_symbol_group(&mut self, group_name: &str, symbols: Vec<SymbolStub>) -> (r: Result<
        (),
        ConfigError,
    >)
        requires
            old(self).wf(),
            old(self).stubs_v().len() + symbols@.len() <= usize::MAX,
        ensures
            final(self).wf(),
            Self::same_settings(final(self), old(self)),
            r == Err::<(), ConfigError>(ConfigError::DuplicateGroup) <==> old(self).has_group(
                group_name@,
            ),
            r == Err::<(), ConfigError>(ConfigError::IncompatibleRedefinition) <==> {
                &&& !old(self).has_group(group_name@)
                &&& add_syms_spec(old(self).stubs_v(), stub_views(symbols@)) is None
            },
            r is Err ==> final(self).stubs_v() == old(self).stubs_v() && final(self).groups_v()
                == old(self).groups_v(),
            r is Ok <==> {
                &&& !old(self).has_group(group_name@)
                &&& add_syms_spec(old(self).stubs_v(), stub_views(symbols@)) is Some
            },
            r is Ok ==> (add_syms_spec(old(self).stubs_v(), stub_views(symbols@)) matches Some(res)
                && final(self).stubs_v() == res.0 && final(self).groups_v() == old(
                self,
            ).groups_v().push((group_name@, res.1))),
    {
        // Reject a duplicate group name first.
        let ghost gv = self.groups_v();
        let mut gi: usize = 0;
        while gi < self.groups.len()
            invariant
                *self == *old(self),
                gi <= self.groups.len(),
                gv == self.groups_v(),
                forall|j: int| 0 <= j < gi ==> gv[j].0 != group_name@,
            decreases self.groups.len() - gi,
        {
            assert(gv[gi as int].0 == self.groups@[gi as int].0@);
            if string_eq_str(&self.groups[gi].0, group_name) {
                assert(self.has_group(group_name@));
                return Err(ConfigError::DuplicateGroup);
            }
            gi += 1;
        }
        assert(!self.has_group(group_name@));

        // Validate and stage: new stubs go to `pending` so that a failure
        // leaves the configuration untouched.
        let ghost orig = self.stubs_v();
        let ghost sym_views = stub_views(symbols@);
        let mut pending: Vec<SymbolStub> = Vec::new();
        let mut group_syms: Vec<usize> = Vec::new();
        let base = self.stubs.len();
        let n = symbols.len();
        let mut k: usize = 0;
        proof {
            assert(stub_views(pending@) =~= Seq::<StubView>::empty());
            assert(orig + stub_views(pending@) =~= orig);
            assert(sym_views.skip(0) =~= sym_views);
            assert(group_syms@.map_values(|x: usize| x as int) =~= Seq::<int>::empty());
            if add_syms_spec(orig, sym_views) is Some {
                let r = add_syms_spec(orig, sym_views)->Some_0;
                assert(Seq::<int>::empty() + r.1 =~= r.1);
            }
        }
        while k < n
            invariant
                *self == *old(self),
                k <= n,
                n == symbols.len(),
                base == self.stubs@.len(),
                orig == self.stubs_v(),
                sym_views == stub_views(symbols@),
                pending@.len() <= k,
                base + n <= usize::MAX,
                group_syms@.len() == k,
                forall|j: int|
                    0 <= j < k ==> 0 <= #[trigger] group_syms@[j] < base + pending@.len(),
                add_syms_spec(orig, sym_views) == glue_indices(
                    group_syms@.map_values(|x: usize| x as int),
                    add_syms_spec(orig + stub_views(pending@), sym_views.skip(k as int)),
                ),
            decreases n - k,
        {
            let ghost cur = orig + stub_views(pending@);
            let ghost rest = sym_views.skip(k as int);
            let ghost done = group_syms@.map_values(|x: usize| x as int);
            proof {
                assert(stub_views(pending@).len() == pending@.len());
                assert(rest.len() == n - k);
                assert(rest.first() == sym_views[k as int]);
                assert(rest.drop_first() =~= sym_views.skip(k as int + 1));
                assert(sym_views[k as int] == symbols@[k as int]@);
            }
            let s = &symbols[k];
            assert(s@ == rest.first());
            let found = match find_export_in(&self.stubs, &s.export_name) {
                Some(i) => Some(i),
                None => {
                    match find_export_in(&pending, &s.export_name) {
                        Some(j) => {
                            proof {
                                lemma_find_export_props(stub_views(pending@), s.export_name@);
                            }
                            Some(base + j)
                        },
                        None => None,
                    }
                },
            };
            proof {
                lemma_find_export_concat(orig, stub_views(pending@), s.export_name@);
            }
            match found {
                Some(idx) => {
                    assert(find_export(cur, s.export_name@) == Some(idx as int));
                    proof {
                        lemma_find_export_props(cur, s.export_name@);
                    }
                    let existing = if idx < base {
                        let e = &self.stubs[idx];
                        assert(e@ == cur[idx as int]);
                        e
                    } else {
                        let e = &pending[idx - base];
                        assert(e@ == stub_views(pending@)[idx - base as int]);
                        assert(e@ == cur[idx as int]);
                        e
                    };
                    if existing.is_data != s.is_data {
                        proof {
                            assert(add_syms_spec(cur, rest) is None);
                            assert(add_syms_spec(orig, sym_views) is None);
                        }
                        return Err(ConfigError::IncompatibleRedefinition);
                    }
                    if !string_eq(&existing.import_name, &s.import_name) {
                        proof {
                            assert(cur[idx as int].import_name != rest.first().import_name);
                            assert(add_syms_spec(cur, rest) is None);
                            assert(add_syms_spec(orig, sym_views) is None);
                        }
                        return Err(ConfigError::IncompatibleRedefinition);
                    }
                    group_syms.push(idx);
                    proof {
                        assert(cur[idx as int].is_data == rest.first().is_data);
                        assert(cur[idx as int].import_name == rest.first().import_name);
                        assert(add_syms_spec(cur, rest) == glue_indices(
                            seq![idx as int],
                            add_syms_spec(cur, rest.drop_first()),
                        ));
                        assert(group_syms@.map_values(|x: usize| x as int) =~= done.push(
                            idx as int,
                        ));
                        lemma_glue_step(
                            done,
                            idx as int,
                            add_syms_spec(cur, sym_views.skip(k as int + 1)),
                        );
                    }
                },
                None => {
                    assert(find_export(cur, s.export_name@) is None);
                    let idx = base + pending.len();
                    assert(idx == cur.len());
                    pending.push(s.duplicate());
                    group_syms.push(idx);
                    proof {
                        assert(stub_views(pending@) =~= stub_views(pending@.drop_last()).push(
                            s@,
                        ));
                        assert(orig + stub_views(pending@) =~= cur.push(rest.first()));
                        assert(add_syms_spec(cur, rest) == glue_indices(
                            seq![idx as int],
                            add_syms_spec(cur.push(rest.first()), rest.drop_first()),
                        ));
                        assert(group_syms@.map_values(|x: usize| x as int) =~= done.push(
                            idx as int,
                        ));
                        lemma_glue_step(
                            done,
                            idx as int,
                            add_syms_spec(cur.push(rest.first()), sym_views.skip(k as int + 1)),
                        );
                    }
                },
            }
            k += 1;
        }
        let ghost idxs_int = group_syms@.map_values(|x: usize| x as int);
        let ghost pend = pending@;
        proof {
            assert(sym_views.skip(n as int) =~= Seq::<StubView>::empty());
            assert(add_syms_spec(orig + stub_views(pend), sym_views.skip(n as int)) == Some(
                (orig + stub_views(pend), Seq::<int>::empty()),
            ));
            assert(idxs_int + Seq::<int>::empty() =~= idxs_int);
            assert(add_syms_spec(orig, sym_views) == Some(((orig + stub_views(pend)), idxs_int)));
        }
        // Commit.
        self.stubs.append(&mut pending);
        proof {
            assert(self.stubs@ == old(self).stubs@ + pend);
            assert(self.stubs_v() =~= orig + stub_views(pend));
        }
        self.groups.push((group_name.to_string(), group_syms));
        proof {
            assert(self.groups_v() =~= gv.push((group_name@, idxs_int)));
            lemma_add_syms_wf(orig, sym_views, stub_views(pend), idxs_int);
            // Group-name uniqueness: the new name differs from every old one.
            assert forall|i: int, j: int|
                0 <= i < j < self.groups_v().len() implies self.groups_v()[i].0
                != self.groups_v()[j].0 by {
                if j < gv.len() {
                    assert(old(self).wf());
                } else {
                    assert(self.groups_v()[j].0 == group_name@);
                    assert(gv[i].0 != group_name@);
                }
            }
            // Old group indices still point into the (grown) stub table.
            assert forall|g: int, k2: int|
                0 <= g < self.groups_v().len() && 0 <= k2 < self.groups_v()[g].1.len() implies 0
                <= #[trigger] self.groups_v()[g].1[k2] < self.stubs_v().len() by {
                if g < gv.len() {
                    assert(old(self).wf());
                    assert(self.groups_v()[g] == gv[g]);
                } else {
                    assert(self.groups_v()[g].1 == idxs_int);
                }
            }
        }
        Ok(())
    }
}

/// Combine the indices already produced with the outcome of the remaining
/// symbols.
pub open spec fn glue_indices(done: Seq<int>, rest: Option<(Seq<StubView>, Seq<int>)>) -> Option<
    (Seq<StubView>, Seq<int>),
> {
    match rest {
        Some(r) => Some((r.0, done + r.1)),
        None => None,
    }
}

proof fn lemma_glue_step(done: Seq<int>, i: int, rest: Option<(Seq<StubView>, Seq<int>)>)
    ensures
        glue_indices(done, glue_indices(seq![i], rest)) == glue_indices(done.push(i), rest),
{
    match rest {
        Some(r) => {
            assert(done + (seq![i] + r.1) =~= done.push(i) + r.1);
        },
        None => {},
    }
}

/// `find_export` returns a correct and least witness.
pub proof fn lemma_find_export_props(stubs: Seq<StubView>, exp: Seq<char>)
    ensures
        match find_export(stubs, exp) {
            Some(i) => 0 <= i < stubs.len() && stubs[i].export_name == exp && forall|j: int|
                0 <= j < i ==> stubs[j].export_name != exp,
            None => forall|j: int| 0 <= j < stubs.len() ==> stubs[j].export_name != exp,
        },
    decreases stubs.len(),
{
    if stubs.len() > 0 {
        if stubs.first().export_name == exp {
        } else {
            lemma_find_export_props(stubs.drop_first(), exp);
            assert forall|j: int| 0 <= j < stubs.len() && stubs[j].export_name == exp implies
                find_export(stubs, exp) is Some by {
                assert(stubs.drop_first()[j - 1] == stubs[j]);
            }
            match find_export(stubs.drop_first(), exp) {
                Some(i) => {
                    assert(stubs[i + 1] == stubs.drop_first()[i]);
                    assert forall|j: int| 0 <= j < i + 1 implies stubs[j].export_name != exp by {
                        if j > 0 {
                            assert(stubs[j] == stubs.drop_first()[j - 1]);
                        }
                    }
                },
                None => {
                    assert forall|j: int| 0 <= j < stubs.len() implies stubs[j].export_name
                        != exp by {
                        if j > 0 {
                            assert(stubs[j] == stubs.drop_first()[j - 1]);
                        }
                    }
                },
            }
        }
    }
}

/// Searching a concatenation searches the left part first.
proof fn lemma_find_export_concat(a: Seq<StubView>, b: Seq<StubView>, exp: Seq<char>)
    ensures
        find_export(a + b, exp) == match find_export(a, exp) {
            Some(i) => Some(i),
            None => match find_export(b, exp) {
                Some(j) => Some(a.len() + j),
                None => None,
            },
        },
    decreases a.len(),
{
    if a.len() == 0 {
        assert(a + b =~= b);
    } else {
        assert((a + b).first() == a.first());
        assert((a + b).drop_first() =~= a.drop_first() + b);
        lemma_find_export_concat(a.drop_first(), b, exp);
    }
}

/// A successful `add_syms_spec` keeps export names unique and returns
/// indices into the grown table; the grown table extends the old one.
pub proof fn lemma_add_syms_wf(
    stubs: Seq<StubView>,
    syms: Seq<StubView>,
    added: Seq<StubView>,
    idxs: Seq<int>,
)
    requires
        forall|i: int, j: int|
            0 <= i < j < stubs.len() ==> stubs[i].export_name != stubs[j].export_name,
        add_syms_spec(stubs, syms) == Some((stubs + added, idxs)),
    ensures
        forall|i: int, j: int|
            0 <= i < j < (stubs + added).len() ==> (stubs + added)[i].export_name != (stubs
                + added)[j].export_name,
        idxs.len() == syms.len(),
        forall|k: int| 0 <= k < idxs.len() ==> 0 <= #[trigger] idxs[k] < (stubs + added).len(),
    decreases syms.len(),
{
    if syms.len() == 0 {
        assert(stubs + added =~= stubs);
    } else {
        let s = syms.first();
        match find_export(stubs, s.export_name) {
            Some(i) => {
                lemma_find_export_props(stubs, s.export_name);
                let r = add_syms_spec(stubs, syms.drop_first());
                match r {
                    Some(rr) => {
                        lemma_add_syms_extends(stubs, syms.drop_first());
                        assert(stubs + rr.0.skip(stubs.len() as int) =~= rr.0);
                        lemma_add_syms_wf(
                            stubs,
                            syms.drop_first(),
                            rr.0.skip(stubs.len() as int),
                            rr.1,
                        );
                        assert(rr.0 == stubs + added);
                        assert(idxs =~= seq![i] + rr.1);
                        assert forall|k: int| 0 <= k < idxs.len() implies 0 <= #[trigger] idxs[k]
                            < (stubs + added).len() by {
                            if k > 0 {
                                assert(idxs[k] == rr.1[k - 1]);
                            }
                        }
                    },
                    None => {},
                }
            },
            None => {
                lemma_find_export_props(stubs, s.export_name);
                let grown = stubs.push(s);
                assert forall|i2: int, j2: int|
                    0 <= i2 < j2 < grown.len() implies grown[i2].export_name
                    != grown[j2].export_name by {
                    if j2 == stubs.len() {
                        assert(grown[i2] == stubs[i2]);
                        assert(stubs[i2].export_name != s.export_name);
                    } else {
                        assert(grown[i2] == stubs[i2] && grown[j2] == stubs[j2]);
                    }
                }
                let r = add_syms_spec(grown, syms.drop_first());
                match r {
                    Some(rr) => {
                        lemma_add_syms_extends(grown, syms.drop_first());
                        assert(grown + rr.0.skip(stubs.len() as int + 1) =~= rr.0);
                        lemma_add_syms_wf(
                            grown,
                            syms.drop_first(),
                            rr.0.skip(stubs.len() as int + 1),
                            rr.1,
                        );
                        assert(rr.0 == stubs + added);
                        assert(idxs =~= seq![stubs.len() as int] + rr.1);
                        assert forall|k: int| 0 <= k < idxs.len() implies 0 <= #[trigger] idxs[k]
                            < (stubs + added).len() by {
                            if k > 0 {
                                assert(idxs[k] == rr.1[k - 1]);
                            }
                        }
                    },
                    None => {},
                }
            },
        }
    }
}

/// A successful `add_syms_spec` only appends to the stub table.
pub proof fn lemma_add_syms_extends(stubs: Seq<StubView>, syms: Seq<StubView>)
    ensures
        add_syms_spec(stubs, syms) matches Some(r) ==> r.0.len() >= stubs.len() && r.0.subrange(
            0,
            stubs.len() as int,
        ) == stubs,
    decreases syms.len(),
{
    if syms.len() > 0 {
        let s = syms.first();
        match find_export(stubs, s.export_name) {
            Some(i) => {
                lemma_add_syms_extends(stubs, syms.drop_first());
            },
            None => {
                lemma_add_syms_extends(stubs.push(s), syms.drop_first());
                match add_syms_spec(stubs.push(s), syms.drop_first()) {
                    Some(r) => {
                        assert(r.0.subrange(0, stubs.len() as int) =~= r.0.subrange(
                            0,
                            stubs.len() as int + 1,
                        ).subrange(0, stubs.len() as int));
                        assert(stubs.push(s).subrange(0, stubs.len() as int) =~= stubs);
                    },
                    None => {},
                }
            },
        }
    }
}

/// Exact string equality of two `String`s.
fn string_eq(a: &String, b: &String) -> (r: bool)
    ensures
        r == (a@ == b@),
{
    a.eq(b)
}

/// Exact string equality of a `String` and a `&str`.
fn string_eq_str(a: &String, b: &str) -> (r: bool)
    ensures
        r == (a@ == b@),
{
    let bs = b.to_string();
    a.eq(&bs)
}

/// First stub in `v` whose export name is `exp`.
#[verifier::loop_isolation(false)]
fn find_export_in(v: &Vec<SymbolStub>, exp: &String) -> (r: Option<usize>)
    ensures
        match r {
            Some(i) => find_export(stub_views(v@), exp@) == Some(i as int),
            None => find_export(stub_views(v@), exp@) is None,
        },
{
    let ghost sv = stub_views(v@);
    let mut i: usize = 0;
    while i < v.len()
        invariant
            i <= v.len(),
            sv == stub_views(v@),
            forall|j: int| 0 <= j < i ==> sv[j].export_name != exp@,
        decreases v.len() - i,
    {
        assert(sv[i as int] == v@[i as int]@);
        if string_eq(&v[i].export_name, exp) {
            assert(find_export(sv, exp@) matches Some(x) && x == i as int) by {
                lemma_find_export_props(sv, exp@);
                if find_export(sv, exp@) is None {
                    assert(false);
                }
                let x = find_export(sv, exp@)->Some_0;
                assert(sv[x].export_name == exp@);
                assert(!(x < i) && !(x > i));
            }
            return Some(i);
        }
        i += 1;
    }
    proof {
        lemma_find_export_props(sv, exp@);
        if find_export(sv, exp@) is Some {
            let x = find_export(sv, exp@)->Some_0;
            assert(sv[x].export_name != exp@);
            assert(false);
        }
    }
    None
}

} // verus!
