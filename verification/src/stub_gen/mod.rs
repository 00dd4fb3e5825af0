//! Per-architecture stub generation: target-triple dispatch, macOS symbol
//! name adjustment, and emission of the stub translation unit.

use vstd::prelude::*;

use crate::config::{stub_views, StubView, SymbolStub};
use crate::textfmt::{seq_contains_str, seq_starts_with, str_contains, str_starts_with};

pub mod emit;

verus! {

/// Operating-system family of a target triple.
#[derive(Clone, Copy, PartialEq, Eq, Debug, Structural)]
pub enum TargetOs {
    Linux,
    MacOS,
    Windows,
}

/// Architecture family of a target triple.
#[derive(Clone, Copy, PartialEq, Eq, Debug, Structural)]
pub enum TargetArch {
    X64,
    Aarch64,
    Arm,
    LoongArch,
}

/// OS family recognized in a target triple, by substring, `linux` first.
pub open spec fn spec_target_os(target: Seq<char>) -> Option<TargetOs> {
    if seq_contains_str(target, "linux"@) {
        Some(TargetOs::Linux)
    } else if seq_contains_str(target, "apple"@) {
        Some(TargetOs::MacOS)
    } else if seq_contains_str(target, "windows"@) {
        Some(TargetOs::Windows)
    } else {
        None
    }
}

/// Architecture recognized from the prefix of a target triple.
pub open spec fn spec_target_arch(target: Seq<char>) -> Option<TargetArch> {
    if seq_starts_with(target, "x86_64-"@) {
        Some(TargetArch::X64)
    } else if seq_starts_with(target, "aarch64-"@) {
        Some(TargetArch::Aarch64)
    } else if seq_starts_with(target, "arm"@) {
        Some(TargetArch::Arm)
    } else if seq_starts_with(target, "loongarch"@) {
        Some(TargetArch::LoongArch)
    } else {
        None
    }
}

/// Detect the OS family of a target triple.
pub fn detect_target_os(target: &str) -> (r: Option<TargetOs>)
    ensures
        r == spec_target_os(target@),
{
    if str_contains(target, "linux") {
        Some(TargetOs::Linux)
    } else if str_contains(target, "apple") {
        Some(TargetOs::MacOS)
    } else if str_contains(target, "windows") {
        Some(TargetOs::Windows)
    } else {
        None
    }
}

/// Detect the architecture of a target triple.
pub fn detect_target_arch(target: &str) -> (r: Option<TargetArch>)
    ensures
        r == spec_target_arch(target@),
{
    if str_starts_with(target, "x86_64-") {
        Some(TargetArch::X64)
    } else if str_starts_with(target, "aarch64-") {
        Some(TargetArch::Aarch64)
    } else if str_starts_with(target, "arm") {
        Some(TargetArch::Arm)
    } else if str_starts_with(target, "loongarch") {
        Some(TargetArch::LoongArch)
    } else {
        None
    }
}

/// The macOS linker automatically prepends an underscore to every exported
/// symbol.  For a code stub whose export and import names coincide, either
/// the lookup name loses its underscore (the loader adds it back) or the
/// emitted name gains one.
pub open spec fn spec_adjust_stub(s: StubView) -> StubView {
    if !s.is_data && s.export_name == s.import_name {
        if s.export_name.len() > 0 && s.export_name[0] == '_' {
            StubView {
                import_name: s.import_name.subrange(1, s.import_name.len() as int),
                export_name: s.export_name,
                is_data: s.is_data,
            }
        } else {
            StubView {
                import_name: s.import_name,
                export_name: "_"@ + s.export_name,
                is_data: s.is_data,
            }
        }
    } else {
        s
    }
}

/// The stub table after platform name adjustment: changed only when
/// adjustment is enabled and the target is a macOS triple.
pub open spec fn spec_adjusted_stubs(stubs: Seq<StubView>, target: Seq<char>, adjust: bool) -> Seq<
    StubView,
> {
    if adjust && seq_contains_str(target, "-apple-"@) {
        stubs.map_values(|s: StubView| spec_adjust_stub(s))
    } else {
        stubs
    }
}

/// Apply platform name adjustment to a copy of the stub table; the stored
/// stubs are unchanged.
#[verifier::loop_isolation(false)]
pub fn adjusted_stubs(stubs: &Vec<SymbolStub>, target: &str, adjust: bool) -> (r: Vec<SymbolStub>)
    ensures
        stub_views(r@) == spec_adjusted_stubs(stub_views(stubs@), target@, adjust),
{
    if !(adjust && str_contains(target, "-apple-")) {
        let mut r: Vec<SymbolStub> = Vec::new();
        let mut i: usize = 0;
        while i < stubs.len()
            invariant
                i <= stubs@.len(),
                stub_views(r@) =~= stub_views(stubs@).subrange(0, i as int),
            decreases stubs@.len() - i,
        {
            r.push(stubs[i].duplicate());
            proof {
                assert(stub_views(r@) =~= stub_views(stubs@).subrange(0, i + 1));
            }
            i += 1;
        }
        proof {
            assert(stub_views(stubs@).subrange(0, stubs@.len() as int) =~= stub_views(stubs@));
        }
        r
    } else {
        let mut r: Vec<SymbolStub> = Vec::new();
        let ghost target_views = stub_views(stubs@).map_values(|s: StubView| spec_adjust_stub(s));
        let mut i: usize = 0;
        while i < stubs.len()
            invariant
                i <= stubs@.len(),
                stub_views(r@) =~= target_views.subrange(0, i as int),
            decreases stubs@.len() - i,
        {
            let s = &stubs[i];
            let adjusted = if !s.is_data && string_eq(&s.export_name, &s.import_name) {
                let el = s.export_name.as_str().unicode_len();
                if el > 0 && s.export_name.as_str().get_char(0) == '_' {
                    let stripped = s.import_name.as_str().substring_char(1, el);
                    SymbolStub {
                        import_name: stripped.to_string(),
                        export_name: s.export_name.clone(),
                        is_data: s.is_data,
                    }
                } else {
                    let mut prefixed = "_".to_string();
                    prefixed.append(s.export_name.as_str());
                    SymbolStub {
                        import_name: s.import_name.clone(),
                        export_name: prefixed,
                        is_data: s.is_data,
                    }
                }
            } else {
                s.duplicate()
            };
            proof {
                assert(adjusted@ == spec_adjust_stub(s@));
                assert(target_views[i as int] == spec_adjust_stub(stub_views(stubs@)[i as int]));
            }
            r.push(adjusted);
            proof {
                assert(stub_views(r@) =~= target_views.subrange(0, i + 1));
            }
            i += 1;
        }
        proof {
            assert(target_views.subrange(0, stubs@.len() as int) =~= target_views);
        }
        r
    }
}

/// Exact string equality of two `String`s.
fn string_eq(a: &String, b: &String) -> (r: bool)
    ensures
        r == (a@ == b@),
{
    a.eq(b)
}

/// Ascending order on stub-table indices.
pub open spec fn usize_leq(a: usize, b: usize) -> bool {
    a <= b
}

/// The ascending rearrangement of `v`.
pub open spec fn spec_sorted(v: Seq<usize>) -> Seq<usize> {
    v.sort_by(|a: usize, b: usize| usize_leq(a, b))
}

/// Selection sort; the result is the unique ascending rearrangement.
#[verifier::loop_isolation(false)]
pub fn sort_indices(v: &Vec<usize>) -> (r: Vec<usize>)
    ensures
        r@ == spec_sorted(v@),
{
    broadcast use vstd::seq_lib::group_to_multiset_ensures;

    let ghost leq = |a: usize, b: usize| usize_leq(a, b);
    let mut src: Vec<usize> = Vec::new();
    let mut i: usize = 0;
    while i < v.len()
        invariant
            i <= v@.len(),
            src@ =~= v@.subrange(0, i as int),
        decreases v@.len() - i,
    {
        src.push(v[i]);
        proof {
            assert(src@ =~= v@.subrange(0, i + 1));
        }
        i += 1;
    }
    proof {
        assert(src@ =~= v@);
    }
    let mut out: Vec<usize> = Vec::new();
    while src.len() > 0
        invariant
            vstd::relations::sorted_by(out@, leq),
            out@.to_multiset().add(src@.to_multiset()) =~= v@.to_multiset(),
            forall|a: int, b: int|
                0 <= a < out@.len() && 0 <= b < src@.len() ==> usize_leq(out@[a], src@[b]),
        decreases src@.len(),
    {
        let mut mi: usize = 0;
        let mut j: usize = 1;
        while j < src.len()
            invariant
                mi < j <= src@.len(),
                forall|t: int| 0 <= t < j ==> usize_leq(src@[mi as int], src@[t]),
            decreases src@.len() - j,
        {
            if src[j] < src[mi] {
                mi = j;
            }
            j += 1;
        }
        let ghost old_src = src@;
        let ghost old_out = out@;
        let x = src.remove(mi);
        out.push(x);
        proof {
            assert(out@.to_multiset() =~= old_out.to_multiset().insert(x));
            assert(src@.to_multiset() =~= old_src.to_multiset().remove(x));
            assert(old_src.to_multiset().count(x) > 0);
            assert(out@.to_multiset().add(src@.to_multiset()) =~= v@.to_multiset());
            assert forall|a: int, b: int|
                0 <= a < out@.len() && 0 <= b < src@.len() implies usize_leq(
                out@[a],
                src@[b],
            ) by {
                assert(src@[b] == old_src[if b < mi {
                    b
                } else {
                    b + 1
                }]);
                if a < old_out.len() {
                    assert(out@[a] == old_out[a]);
                } else {
                    assert(out@[a] == x);
                }
            }
            assert(vstd::relations::sorted_by(out@, leq)) by {
                assert forall|a: int, b: int| 0 <= a < b < out@.len() implies leq(
                    out@[a],
                    out@[b],
                ) by {
                    if b < old_out.len() {
                        assert(leq(old_out[a], old_out[b]));
                    } else {
                        assert(out@[b] == x);
                        assert(usize_leq(old_out[a], old_src[mi as int]));
                    }
                }
            }
        }
    }
    proof {
        assert(src@.to_multiset() =~= Seq::<usize>::empty().to_multiset());
        assert(out@.to_multiset() =~= v@.to_multiset());
        v@.lemma_sort_by_ensures(leq);
        assert(vstd::relations::total_ordering(leq)) by {
            assert forall|a: usize, b: usize| #[trigger] leq(a, b) || #[trigger] leq(b, a) by {}
        }
        vstd::seq_lib::lemma_sorted_unique(out@, v@.sort_by(leq), leq);
    }
    out
}

/// The x86-64 back-end, as a capability record over the emitters.
pub struct X64StubGenerator {
    pub target_os: TargetOs,
}

impl X64StubGenerator {
    /// Emit code that loads the `index`-th entry of the symbol table and
    /// jumps to that address.
    pub fn write_fn_stub(&self, out: &mut String, symtab_base: &str, index: usize)
        requires
            index <= 0x1000_0000,
        ensures
            final(out)@ == old(out)@ + emit::spec_fn_stub(
                TargetArch::X64,
                self.target_os,
                symtab_base@,
                index as int,
            ),
    {
        emit::emit_fn_stub(out, TargetArch::X64, self.target_os, symtab_base, index)
    }

    /// The prefix prepended to emitted symbols when referenced from
    /// assembly.
    pub fn asm_symbol_prefix(&self) -> (r: &'static str)
        ensures
            r@ == emit::spec_asm_prefix(TargetArch::X64, self.target_os),
    {
        emit::asm_prefix(TargetArch::X64, self.target_os)
    }

    /// Declaration directive for pointer-sized data.
    pub fn data_ptr_directive(&self) -> (r: &'static str)
        ensures
            r@ == emit::spec_ptr_directive(TargetArch::X64),
    {
        emit::ptr_directive(TargetArch::X64)
    }
}

/// The AArch64 back-end.
pub struct Aarch64StubGenerator {
    pub target_os: TargetOs,
}

impl Aarch64StubGenerator {
    /// Emit code that loads the `index`-th entry of the symbol table and
    /// jumps to that address.
    pub fn write_fn_stub(&self, out: &mut String, symtab_base: &str, index: usize)
        requires
            index <= 0x1000_0000,
        ensures
            final(out)@ == old(out)@ + emit::spec_fn_stub(
                TargetArch::Aarch64,
                self.target_os,
                symtab_base@,
                index as int,
            ),
    {
        emit::emit_fn_stub(out, TargetArch::Aarch64, self.target_os, symtab_base, index)
    }

    /// The prefix prepended to emitted symbols when referenced from
    /// assembly.
    pub fn asm_symbol_prefix(&self) -> (r: &'static str)
        ensures
            r@ == emit::spec_asm_prefix(TargetArch::Aarch64, self.target_os),
    {
        emit::asm_prefix(TargetArch::Aarch64, self.target_os)
    }

    /// Declaration directive for pointer-sized data.
    pub fn data_ptr_directive(&self) -> (r: &'static str)
        ensures
            r@ == emit::spec_ptr_directive(TargetArch::Aarch64),
    {
        emit::ptr_directive(TargetArch::Aarch64)
    }
}

/// The 32-bit ARM back-end.
pub struct ArmStubGenerator {}

impl ArmStubGenerator {
    /// Emit code that loads the `index`-th entry of the symbol table and
    /// jumps to that address, with a literal pool.
    pub fn write_fn_stub(&self, out: &mut String, symtab_base: &str, index: usize)
        requires
            index <= 0x1000_0000,
        ensures
            final(out)@ == old(out)@ + emit::spec_fn_stub(
                TargetArch::Arm,
                TargetOs::Linux,
                symtab_base@,
                index as int,
            ),
    {
        emit::emit_fn_stub(out, TargetArch::Arm, TargetOs::Linux, symtab_base, index)
    }

    /// Declaration directive for pointer-sized data: 32-bit words.
    pub fn data_ptr_directive(&self) -> (r: &'static str)
        ensures
            r@ == emit::spec_ptr_directive(TargetArch::Arm),
    {
        emit::ptr_directive(TargetArch::Arm)
    }
}

/// The LoongArch back-end.
pub struct LoongArchStubGenerator {}

impl LoongArchStubGenerator {
    /// Emit code that loads the `index`-th entry of the symbol table and
    /// jumps to that address.
    pub fn write_fn_stub(&self, out: &mut String, symtab_base: &str, index: usize)
        requires
            index <= 0x1000_0000,
        ensures
            final(out)@ == old(out)@ + emit::spec_fn_stub(
                TargetArch::LoongArch,
                TargetOs::Linux,
                symtab_base@,
                index as int,
            ),
    {
        emit::emit_fn_stub(out, TargetArch::LoongArch, TargetOs::Linux, symtab_base, index)
    }

    /// The prefix prepended to emitted symbols when referenced from
    /// assembly: none.
    pub fn asm_symbol_prefix(&self) -> (r: &'static str)
        ensures
            r@ == emit::spec_asm_prefix(TargetArch::LoongArch, TargetOs::Linux),
    {
        emit::asm_prefix(TargetArch::LoongArch, TargetOs::Linux)
    }
}

} // verus!
