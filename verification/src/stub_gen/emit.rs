//! Emission of the stub translation unit: the text of every section, stated
//! as spec functions and produced by verified emitters.
//!
//! The emitted source depends only on the runtime crate (`Library`, `Group`,
//! `Address`, and a few declaration macros that expand to the extern table
//! declaration, the lazy-resolver entry point and the data accessors) and on
//! `core::arch::global_asm`.

use vstd::prelude::*;

use crate::config::StubView;
use crate::errors::GenError;
use crate::stub_gen::{
    adjusted_stubs, detect_target_arch, detect_target_os, spec_adjusted_stubs, spec_target_arch,
    spec_target_os, TargetArch, TargetOs,
};
use crate::textfmt::{push_dec, push_hex08, spec_dec, spec_hex08};

verus! {

/// The imports prelude of the emitted translation unit.
pub open spec fn spec_prelude() -> Seq<char> {
    "#[allow(unused_imports)]\nuse weaklink::{Library, Group, Address};\nuse core::arch::global_asm;\n"@
}

/// Append the imports prelude.
pub fn emit_prelude(out: &mut String)
    ensures
        final(out)@ == old(out)@ + spec_prelude(),
{
    out.append(
        "#[allow(unused_imports)]\nuse weaklink::{Library, Group, Address};\nuse core::arch::global_asm;\n",
    );
}

/// The dylib-name list: each candidate quoted and comma-terminated.
pub open spec fn spec_dylib_list(dylibs: Seq<Seq<char>>, i: int) -> Seq<char>
    decreases dylibs.len() - i,
{
    if !(0 <= i < dylibs.len()) {
        Seq::<char>::empty()
    } else {
        "\""@ + dylibs[i] + "\","@ + spec_dylib_list(dylibs, i + 1)
    }
}

/// The symbol-name list: one null-terminated byte literal per stub, in
/// stub-table order, annotated with its index.
pub open spec fn spec_symbol_name_list(stubs: Seq<StubView>, i: int) -> Seq<char>
    decreases stubs.len() - i,
{
    if !(0 <= i < stubs.len()) {
        Seq::<char>::empty()
    } else {
        "        b\""@ + stubs[i].import_name + "\\0\", // "@ + spec_dec(i as nat) + "\n"@
            + spec_symbol_name_list(stubs, i + 1)
    }
}

/// The library block: one declaration macro call naming the management
/// object, the synthetic symbol table (forward-declared by the expansion),
/// the load candidates and the null-terminated lookup names.
pub open spec fn spec_library_block(
    name: Seq<char>,
    table: Seq<char>,
    dylibs: Seq<Seq<char>>,
    stubs: Seq<StubView>,
) -> Seq<char> {
    "weaklink::declare_library! {\n    name: "@ + name + ",\n    symbol_table: "@ + table
        + ",\n    table_size: "@ + spec_dec(stubs.len()) + ",\n    dylib_names: ["@
        + spec_dylib_list(dylibs, 0) + "],\n    symbol_names: [\n"@ + spec_symbol_name_list(
        stubs,
        0,
    ) + "    ],\n}\n"@
}

/// Append the library block.
#[verifier::loop_isolation(false)]
pub fn emit_library_block(
    out: &mut String,
    name: &str,
    table: &str,
    dylibs: &Vec<String>,
    stubs: &Vec<crate::config::SymbolStub>,
)
    requires
        stubs@.len() <= 0x1000_0000,
    ensures
        final(out)@ == old(out)@ + spec_library_block(
            name@,
            table@,
            dylibs@.map_values(|s: String| s@),
            crate::config::stub_views(stubs@),
        ),
{
    let ghost dv = dylibs@.map_values(|s: String| s@);
    let ghost sv = crate::config::stub_views(stubs@);
    out.append("weaklink::declare_library! {\n    name: ");
    out.append(name);
    out.append(",\n    symbol_table: ");
    out.append(table);
    out.append(",\n    table_size: ");
    push_dec(out, stubs.len() as u64);
    out.append(",\n    dylib_names: [");
    let ghost mark = out@;
    let mut i: usize = 0;
    while i < dylibs.len()
        invariant
            i <= dylibs@.len(),
            mark + spec_dylib_list(dv, 0) == out@ + spec_dylib_list(dv, i as int),
        decreases dylibs@.len() - i,
    {
        let ghost before = out@;
        out.append("\"");
        out.append(dylibs[i].as_str());
        out.append("\",");
        proof {
            assert(dv[i as int] == dylibs@[i as int]@);
            assert(out@ =~= before + ("\""@ + dv[i as int] + "\","@));
            assert(before + (("\""@ + dv[i as int] + "\","@) + spec_dylib_list(dv, i + 1)) =~= (
            before + ("\""@ + dv[i as int] + "\","@)) + spec_dylib_list(dv, i + 1));
        }
        i += 1;
    }
    proof {
        assert(spec_dylib_list(dv, dylibs@.len() as int) == Seq::<char>::empty());
        assert(out@ + Seq::<char>::empty() =~= out@);
    }
    out.append("],\n    symbol_names: [\n");
    let ghost mark2 = out@;
    let mut j: usize = 0;
    while j < stubs.len()
        invariant
            j <= stubs@.len(),
            mark2 + spec_symbol_name_list(sv, 0) == out@ + spec_symbol_name_list(sv, j as int),
        decreases stubs@.len() - j,
    {
        let ghost before = out@;
        out.append("        b\"");
        out.append(stubs[j].import_name.as_str());
        out.append("\\0\", // ");
        push_dec(out, j as u64);
        out.append("\n");
        proof {
            assert(sv[j as int] == stubs@[j as int]@);
            let chunk = "        b\""@ + sv[j as int].import_name + "\\0\", // "@ + spec_dec(
                j as nat,
            ) + "\n"@;
            assert(out@ =~= before + chunk);
            assert(before + (chunk + spec_symbol_name_list(sv, j + 1)) =~= (before + chunk)
                + spec_symbol_name_list(sv, j + 1));
        }
        j += 1;
    }
    proof {
        assert(spec_symbol_name_list(sv, stubs@.len() as int) == Seq::<char>::empty());
        assert(out@ + Seq::<char>::empty() =~= out@);
    }
    out.append("    ],\n}\n");
    proof {
        assert(final(out)@ =~= old(out)@ + spec_library_block(name@, table@, dv, sv));
    }
}

/// The comma-separated decimal index list of one group.
pub open spec fn spec_index_list(idxs: Seq<int>, i: int) -> Seq<char>
    decreases idxs.len() - i,
{
    if !(0 <= i < idxs.len()) {
        Seq::<char>::empty()
    } else {
        spec_dec(idxs[i] as nat) + ","@ + spec_index_list(idxs, i + 1)
    }
}

/// One group constant: its name, a reference to the library, and its sorted
/// index slice.
pub open spec fn spec_group_block(lib_name: Seq<char>, group_name: Seq<char>, idxs: Seq<int>) -> Seq<
    char,
> {
    "#[no_mangle]\n#[allow(non_upper_case_globals)]\npub static "@ + group_name
        + ": Group = Group::new(\n    \""@ + group_name + "\",\n    &"@ + lib_name + ",\n    &["@
        + spec_index_list(idxs, 0) + "],\n);\n"@
}

/// Append one group constant.  `idxs` must already be sorted.
#[verifier::loop_isolation(false)]
pub fn emit_group_block(out: &mut String, lib_name: &str, group_name: &str, idxs: &Vec<usize>)
    ensures
        final(out)@ == old(out)@ + spec_group_block(
            lib_name@,
            group_name@,
            idxs@.map_values(|x: usize| x as int),
        ),
{
    let ghost iv = idxs@.map_values(|x: usize| x as int);
    out.append("#[no_mangle]\n#[allow(non_upper_case_globals)]\npub static ");
    out.append(group_name);
    out.append(": Group = Group::new(\n    \"");
    out.append(group_name);
    out.append("\",\n    &");
    out.append(lib_name);
    out.append(",\n    &[");
    let ghost mark = out@;
    let mut i: usize = 0;
    while i < idxs.len()
        invariant
            i <= idxs@.len(),
            mark + spec_index_list(iv, 0) == out@ + spec_index_list(iv, i as int),
        decreases idxs@.len() - i,
    {
        let ghost before = out@;
        push_dec(out, idxs[i] as u64);
        out.append(",");
        proof {
            assert(iv[i as int] == idxs@[i as int] as int);
            let chunk = spec_dec(iv[i as int] as nat) + ","@;
            assert(out@ =~= before + chunk);
            assert(before + (chunk + spec_index_list(iv, i + 1)) =~= (before + chunk)
                + spec_index_list(iv, i + 1));
        }
        i += 1;
    }
    proof {
        assert(spec_index_list(iv, idxs@.len() as int) == Seq::<char>::empty());
        assert(out@ + Seq::<char>::empty() =~= out@);
    }
    out.append("],\n);\n");
    proof {
        assert(final(out)@ =~= old(out)@ + spec_group_block(lib_name@, group_name@, iv));
    }
}

/// The assembly prefix needed to reference an emitted symbol: `_` on macOS
/// for the x86-64 and AArch64 back-ends, empty elsewhere.
pub open spec fn spec_asm_prefix(arch: TargetArch, os: TargetOs) -> Seq<char> {
    if os == TargetOs::MacOS && (arch == TargetArch::X64 || arch == TargetArch::Aarch64) {
        "_"@
    } else {
        Seq::<char>::empty()
    }
}

/// The directive declaring one pointer-sized datum: `.long` on 32-bit ARM,
/// `.quad` elsewhere.
pub open spec fn spec_ptr_directive(arch: TargetArch) -> Seq<char> {
    if arch == TargetArch::Arm {
        ".long"@
    } else {
        ".quad"@
    }
}

/// The assembly prefix as a string slice.
pub fn asm_prefix(arch: TargetArch, os: TargetOs) -> (r: &'static str)
    ensures
        r@ == spec_asm_prefix(arch, os),
{
    proof {
        reveal_strlit("");
        assert(""@ =~= Seq::<char>::empty());
    }
    if os == TargetOs::MacOS && (arch == TargetArch::X64 || arch == TargetArch::Aarch64) {
        "_"
    } else {
        ""
    }
}

/// The pointer directive as a string slice.
pub fn ptr_directive(arch: TargetArch) -> (r: &'static str)
    ensures
        r@ == spec_ptr_directive(arch),
{
    if let TargetArch::Arm = arch {
        ".long"
    } else {
        ".quad"
    }
}

/// One synthetic-table entry: a pointer-sized zero, or, for a code symbol
/// under lazy binding, the address of its first-call thunk.  Data slots
/// stay zero in either mode; their accessors read the slot directly.
pub open spec fn spec_table_entries(
    dir: Seq<char>,
    pfx: Seq<char>,
    thunk_base: Seq<char>,
    stubs: Seq<StubView>,
    lazy: bool,
    i: int,
) -> Seq<char>
    decreases stubs.len() - i,
{
    if !(0 <= i < stubs.len()) {
        Seq::<char>::empty()
    } else {
        (if lazy && !stubs[i].is_data {
            "    "@ + dir + " "@ + pfx + thunk_base + spec_dec(i as nat) + "\n"@
        } else {
            "    "@ + dir + " 0\n"@
        }) + spec_table_entries(dir, pfx, thunk_base, stubs, lazy, i + 1)
    }
}

/// The assembly block that defines the synthetic symbol table.
pub open spec fn spec_asm_table(
    arch: TargetArch,
    os: TargetOs,
    table: Seq<char>,
    thunk_base: Seq<char>,
    stubs: Seq<StubView>,
    lazy: bool,
) -> Seq<char> {
    "global_asm!{\"\n.data\n.p2align 2, 0x0\n"@ + spec_asm_prefix(arch, os) + table + ":\n"@
        + spec_table_entries(
        spec_ptr_directive(arch),
        spec_asm_prefix(arch, os),
        thunk_base,
        stubs,
        lazy,
        0,
    ) + "\"}\n"@
}

/// Append the synthetic-table assembly block.
#[verifier::loop_isolation(false)]
pub fn emit_asm_table(
    out: &mut String,
    arch: TargetArch,
    os: TargetOs,
    table: &str,
    thunk_base: &str,
    stubs: &Vec<crate::config::SymbolStub>,
    lazy: bool,
)
    requires
        stubs@.len() <= 0x1000_0000,
    ensures
        final(out)@ == old(out)@ + spec_asm_table(
            arch,
            os,
            table@,
            thunk_base@,
            crate::config::stub_views(stubs@),
            lazy,
        ),
{
    let ghost sv = crate::config::stub_views(stubs@);
    let pfx = asm_prefix(arch, os);
    let dir = ptr_directive(arch);
    out.append("global_asm!{\"\n.data\n.p2align 2, 0x0\n");
    out.append(pfx);
    out.append(table);
    out.append(":\n");
    let ghost mark = out@;
    let n = stubs.len();
    let mut i: usize = 0;
    while i < n
        invariant
            i <= n,
            mark + spec_table_entries(dir@, pfx@, thunk_base@, sv, lazy, 0) == out@
                + spec_table_entries(dir@, pfx@, thunk_base@, sv, lazy, i as int),
        decreases n - i,
    {
        let ghost before = out@;
        proof {
            assert(sv[i as int] == stubs@[i as int]@);
        }
        if lazy && !stubs[i].is_data {
            out.append("    ");
            out.append(dir);
            out.append(" ");
            out.append(pfx);
            out.append(thunk_base);
            push_dec(out, i as u64);
            out.append("\n");
        } else {
            out.append("    ");
            out.append(dir);
            out.append(" 0\n");
        }
        proof {
            let chunk = if lazy && !sv[i as int].is_data {
                "    "@ + dir@ + " "@ + pfx@ + thunk_base@ + spec_dec(i as nat) + "\n"@
            } else {
                "    "@ + dir@ + " 0\n"@
            };
            assert(out@ =~= before + chunk);
            assert(before + (chunk + spec_table_entries(dir@, pfx@, thunk_base@, sv, lazy, i + 1))
                =~= (before + chunk) + spec_table_entries(
                dir@,
                pfx@,
                thunk_base@,
                sv,
                lazy,
                i + 1,
            ));
        }
        i += 1;
    }
    proof {
        assert(spec_table_entries(dir@, pfx@, thunk_base@, sv, lazy, sv.len() as int)
            == Seq::<char>::empty());
        assert(out@ + Seq::<char>::empty() =~= out@);
    }
    out.append("\"}\n");
    proof {
        assert(final(out)@ =~= old(out)@ + spec_asm_table(arch, os, table@, thunk_base@, sv, lazy));
    }
}

/// The per-symbol trampoline body: load slot `i` of the synthetic table and
/// jump to it (§ per-architecture templates).
pub open spec fn spec_fn_stub(arch: TargetArch, os: TargetOs, table: Seq<char>, i: int) -> Seq<
    char,
> {
    let pfx = spec_asm_prefix(arch, os);
    match arch {
        TargetArch::X64 => {
            if os == TargetOs::Windows {
                "   jmp qword ptr [rip + "@ + table + " + "@ + spec_dec((8 * i) as nat) + "]\n"@
            } else {
                "    mov r11, [rip + "@ + pfx + table + "@GOTPCREL]\n    jmp [r11 + "@ + spec_dec(
                    (8 * i) as nat,
                ) + "]\n"@
            }
        },
        TargetArch::Aarch64 => {
            if os == TargetOs::MacOS {
                "    adrp x16, "@ + pfx + table + " + "@ + spec_dec((8 * i) as nat)
                    + " @PAGE\n    ldr x16, [x16, "@ + pfx + table + " + "@ + spec_dec(
                    (8 * i) as nat,
                ) + " @PAGEOFF]\n    br x16\n"@
            } else {
                "    adrp x16, "@ + table + " + "@ + spec_dec((8 * i) as nat)
                    + "\n    ldr x16, [x16, :lo12:"@ + pfx + table + " + "@ + spec_dec(
                    (8 * i) as nat,
                ) + "]\n    br x16\n"@
            }
        },
        TargetArch::Arm => {
            "    ldr r12, ="@ + table + " - 1f + "@ + spec_dec((4 * i) as nat)
                + "\n    add r12, pc, r12\n    ldr r12, [r12]\n1:\n    bx r12\n    .ltorg\n"@
        },
        TargetArch::LoongArch => {
            "    pcalau12i $r12, %pc_hi20("@ + table + " + "@ + spec_dec((8 * i) as nat)
                + ")\n    ld.d $r12, $r12, %pc_lo12("@ + pfx + table + " + "@ + spec_dec(
                (8 * i) as nat,
            ) + ")\n    jr $r12\n"@
        },
    }
}

/// Append the per-symbol trampoline body for slot `i`.
#[verifier::rlimit(60)]
pub fn emit_fn_stub(out: &mut String, arch: TargetArch, os: TargetOs, table: &str, i: usize)
    requires
        i <= 0x1000_0000,
    ensures
        final(out)@ == old(out)@ + spec_fn_stub(arch, os, table@, i as int),
{
    let pfx = asm_prefix(arch, os);
    let off8: u64 = (i as u64) * 8;
    let off4: u64 = (i as u64) * 4;
    match arch {
        TargetArch::X64 => {
            if let TargetOs::Windows = os {
                out.append("   jmp qword ptr [rip + ");
                out.append(table);
                out.append(" + ");
                push_dec(out, off8);
                out.append("]\n");
            } else {
                out.append("    mov r11, [rip + ");
                out.append(pfx);
                out.append(table);
                out.append("@GOTPCREL]\n    jmp [r11 + ");
                push_dec(out, off8);
                out.append("]\n");
            }
        },
        TargetArch::Aarch64 => {
            if let TargetOs::MacOS = os {
                out.append("    adrp x16, ");
                out.append(pfx);
                out.append(table);
                out.append(" + ");
                push_dec(out, off8);
                out.append(" @PAGE\n    ldr x16, [x16, ");
                out.append(pfx);
                out.append(table);
                out.append(" + ");
                push_dec(out, off8);
                out.append(" @PAGEOFF]\n    br x16\n");
            } else {
                out.append("    adrp x16, ");
                out.append(table);
                out.append(" + ");
                push_dec(out, off8);
                out.append("\n    ldr x16, [x16, :lo12:");
                out.append(pfx);
                out.append(table);
                out.append(" + ");
                push_dec(out, off8);
                out.append("]\n    br x16\n");
            }
        },
        TargetArch::Arm => {
            out.append("    ldr r12, =");
            out.append(table);
            out.append(" - 1f + ");
            push_dec(out, off4);
            out.append("\n    add r12, pc, r12\n    ldr r12, [r12]\n1:\n    bx r12\n    .ltorg\n");
        },
        TargetArch::LoongArch => {
            out.append("    pcalau12i $r12, %pc_hi20(");
            out.append(table);
            out.append(" + ");
            push_dec(out, off8);
            out.append(")\n    ld.d $r12, $r12, %pc_lo12(");
            out.append(pfx);
            out.append(table);
            out.append(" + ");
            push_dec(out, off8);
            out.append(")\n    jr $r12\n");
        },
    }
    proof {
        assert(final(out)@ =~= old(out)@ + spec_fn_stub(arch, os, table@, i as int));
    }
}

/// One per-symbol trampoline, wrapped in its assembly block: a global with
/// the (possibly quoted) export name whose body loads slot `i` and jumps.
pub open spec fn spec_code_stub_block(
    arch: TargetArch,
    os: TargetOs,
    table: Seq<char>,
    export: Seq<char>,
    i: int,
) -> Seq<char> {
    "global_asm!{\"\n.text\n.p2align 2, 0x0\n.global \\\""@ + export + "\\\"\n\\\""@ + export
        + "\\\":\n"@ + spec_fn_stub(arch, os, table, i) + "\"}\n"@
}

/// Append one per-symbol trampoline block.
pub fn emit_code_stub_block(
    out: &mut String,
    arch: TargetArch,
    os: TargetOs,
    table: &str,
    export: &str,
    i: usize,
)
    requires
        i <= 0x1000_0000,
    ensures
        final(out)@ == old(out)@ + spec_code_stub_block(arch, os, table@, export@, i as int),
{
    out.append("global_asm!{\"\n.text\n.p2align 2, 0x0\n.global \\\"");
    out.append(export);
    out.append("\\\"\n\\\"");
    out.append(export);
    out.append("\\\":\n");
    emit_fn_stub(out, arch, os, table, i);
    out.append("\"}\n");
    proof {
        assert(final(out)@ =~= old(out)@ + spec_code_stub_block(
            arch,
            os,
            table@,
            export@,
            i as int,
        ));
    }
}

/// The first-call thunk body: pass the slot index in the architecture's
/// scratch register and tail-jump to the resolver trampoline.
pub open spec fn spec_thunk_lines(
    arch: TargetArch,
    os: TargetOs,
    binder: Seq<char>,
    i: int,
) -> Seq<char> {
    let pfx = spec_asm_prefix(arch, os);
    match arch {
        TargetArch::X64 => "    push "@ + spec_dec(i as nat) + "\n    jmp "@ + pfx + binder
            + "\n"@,
        TargetArch::Aarch64 => "    mov x16, "@ + spec_dec(i as nat) + "\n    b "@ + pfx + binder
            + "\n"@,
        TargetArch::Arm => "    ldr r12, ="@ + spec_dec(i as nat) + "\n    b "@ + pfx + binder
            + "\n    .ltorg\n"@,
        TargetArch::LoongArch => "    li.d $r12, "@ + spec_dec(i as nat) + "\n    b "@ + pfx
            + binder + "\n"@,
    }
}

/// One first-call thunk, wrapped in its assembly block.
pub open spec fn spec_thunk_block(
    arch: TargetArch,
    os: TargetOs,
    thunk_base: Seq<char>,
    binder: Seq<char>,
    i: int,
) -> Seq<char> {
    "global_asm!{\"\n.text\n.p2align 2, 0x0\n"@ + spec_asm_prefix(arch, os) + thunk_base
        + spec_dec(i as nat) + ":\n"@ + spec_thunk_lines(arch, os, binder, i) + "\"}\n"@
}

/// Append one first-call thunk block.
#[verifier::rlimit(60)]
pub fn emit_thunk_block(
    out: &mut String,
    arch: TargetArch,
    os: TargetOs,
    thunk_base: &str,
    binder: &str,
    i: usize,
)
    requires
        i <= 0x1000_0000,
    ensures
        final(out)@ == old(out)@ + spec_thunk_block(arch, os, thunk_base@, binder@, i as int),
{
    let pfx = asm_prefix(arch, os);
    out.append("global_asm!{\"\n.text\n.p2align 2, 0x0\n");
    out.append(pfx);
    out.append(thunk_base);
    push_dec(out, i as u64);
    out.append(":\n");
    match arch {
        TargetArch::X64 => {
            out.append("    push ");
            push_dec(out, i as u64);
            out.append("\n    jmp ");
            out.append(pfx);
            out.append(binder);
            out.append("\n");
        },
        TargetArch::Aarch64 => {
            out.append("    mov x16, ");
            push_dec(out, i as u64);
            out.append("\n    b ");
            out.append(pfx);
            out.append(binder);
            out.append("\n");
        },
        TargetArch::Arm => {
            out.append("    ldr r12, =");
            push_dec(out, i as u64);
            out.append("\n    b ");
            out.append(pfx);
            out.append(binder);
            out.append("\n    .ltorg\n");
        },
        TargetArch::LoongArch => {
            out.append("    li.d $r12, ");
            push_dec(out, i as u64);
            out.append("\n    b ");
            out.append(pfx);
            out.append(binder);
            out.append("\n");
        },
    }
    out.append("\"}\n");
    proof {
        assert(final(out)@ =~= old(out)@ + spec_thunk_block(
            arch,
            os,
            thunk_base@,
            binder@,
            i as int,
        ));
    }
}

/// One data accessor: a macro call that expands to a function returning the
/// value of slot `i` of the synthetic table.
pub open spec fn spec_data_accessor(export: Seq<char>, table: Seq<char>, i: int) -> Seq<char> {
    "weaklink::data_accessor!("@ + export + ", "@ + table + ", "@ + spec_dec(i as nat) + ");\n"@
}

/// Append one data accessor.
pub fn emit_data_accessor(out: &mut String, export: &str, table: &str, i: usize)
    requires
        i <= 0x1000_0000,
    ensures
        final(out)@ == old(out)@ + spec_data_accessor(export@, table@, i as int),
{
    out.append("weaklink::data_accessor!(");
    out.append(export);
    out.append(", ");
    out.append(table);
    out.append(", ");
    push_dec(out, i as u64);
    out.append(");\n");
    proof {
        assert(final(out)@ =~= old(out)@ + spec_data_accessor(export@, table@, i as int));
    }
}

/// The high-level resolver entry point used by the resolver trampoline: a
/// macro call expanding to a C-ABI function that forwards to the library's
/// lazy-resolve operation.
pub open spec fn spec_lazy_resolver_decl(resolver: Seq<char>, lib_name: Seq<char>) -> Seq<char> {
    "weaklink::lazy_resolver!("@ + resolver + ", "@ + lib_name + ");\n"@
}

/// Append the lazy-resolver declaration.
pub fn emit_lazy_resolver_decl(out: &mut String, resolver: &str, lib_name: &str)
    ensures
        final(out)@ == old(out)@ + spec_lazy_resolver_decl(resolver@, lib_name@),
{
    out.append("weaklink::lazy_resolver!(");
    out.append(resolver);
    out.append(", ");
    out.append(lib_name);
    out.append(");\n");
    proof {
        assert(final(out)@ =~= old(out)@ + spec_lazy_resolver_decl(resolver@, lib_name@));
    }
}

/// The resolver trampoline body: saves the union of the volatile registers
/// of the ABIs in play, re-aligns the stack, passes the scratch-saved slot
/// index to the high-level resolver, patches the saved slot with the
/// returned address, restores and returns through it.
pub open spec fn spec_binder_lines(
    arch: TargetArch,
    os: TargetOs,
    resolver: Seq<char>,
) -> Seq<char> {
    let pfx = spec_asm_prefix(arch, os);
    match arch {
        TargetArch::X64 => "    .cfi_startproc\n    push rax\n    push rcx\n    push rdx\n    push rsi\n    push rdi\n    push r8\n    push r9\n    push r10\n    push r11\n    .cfi_adjust_cfa_offset 72\n    sub rsp, 40\n    .cfi_adjust_cfa_offset 40\n    mov rcx, [rsp + 112]\n    mov rdi, [rsp + 112]\n    call "@
            + pfx + resolver
            + "\n    mov [rsp + 112], rax\n    add rsp, 40\n    .cfi_adjust_cfa_offset -40\n    pop r11\n    pop r10\n    pop r9\n    pop r8\n    pop rdi\n    pop rsi\n    pop rdx\n    pop rcx\n    pop rax\n    .cfi_adjust_cfa_offset -72\n    ret\n    .cfi_endproc\n"@,
        TargetArch::Aarch64 => "    .cfi_startproc\n    stp x29, x30, [sp, #-16]!\n    .cfi_adjust_cfa_offset 16\n    stp x0, x1, [sp, #-16]!\n    stp x2, x3, [sp, #-16]!\n    stp x4, x5, [sp, #-16]!\n    stp x6, x7, [sp, #-16]!\n    stp x8, x9, [sp, #-16]!\n    stp x10, x11, [sp, #-16]!\n    stp x12, x13, [sp, #-16]!\n    stp x14, x15, [sp, #-16]!\n    .cfi_adjust_cfa_offset 128\n    mov x0, x16\n    bl "@
            + pfx + resolver
            + "\n    mov x16, x0\n    ldp x14, x15, [sp], #16\n    ldp x12, x13, [sp], #16\n    ldp x10, x11, [sp], #16\n    ldp x8, x9, [sp], #16\n    ldp x6, x7, [sp], #16\n    ldp x4, x5, [sp], #16\n    ldp x2, x3, [sp], #16\n    ldp x0, x1, [sp], #16\n    ldp x29, x30, [sp], #16\n    .cfi_adjust_cfa_offset -144\n    br x16\n    .cfi_endproc\n"@,
        TargetArch::Arm => "    .cfi_startproc\n    push {r0-r3, lr}\n    mov r0, r12\n    bl "@
            + pfx + resolver
            + "\n    mov r12, r0\n    pop {r0-r3, lr}\n    bx r12\n    .cfi_endproc\n"@,
        TargetArch::LoongArch => "    .cfi_startproc\n    addi.d $sp, $sp, -80\n    st.d $ra, $sp, 72\n    st.d $a0, $sp, 0\n    st.d $a1, $sp, 8\n    st.d $a2, $sp, 16\n    st.d $a3, $sp, 24\n    st.d $a4, $sp, 32\n    st.d $a5, $sp, 40\n    st.d $a6, $sp, 48\n    st.d $a7, $sp, 56\n    move $a0, $r12\n    bl "@
            + pfx + resolver
            + "\n    move $r12, $a0\n    ld.d $a7, $sp, 56\n    ld.d $a6, $sp, 48\n    ld.d $a5, $sp, 40\n    ld.d $a4, $sp, 32\n    ld.d $a3, $sp, 24\n    ld.d $a2, $sp, 16\n    ld.d $a1, $sp, 8\n    ld.d $a0, $sp, 0\n    ld.d $ra, $sp, 72\n    addi.d $sp, $sp, 80\n    jr $r12\n    .cfi_endproc\n"@,
    }
}

/// The resolver trampoline, wrapped in its assembly block.
pub open spec fn spec_binder_block(
    arch: TargetArch,
    os: TargetOs,
    binder: Seq<char>,
    resolver: Seq<char>,
) -> Seq<char> {
    "global_asm!{\"\n.text\n.p2align 2, 0x0\n"@ + spec_asm_prefix(arch, os) + binder + ":\n"@
        + spec_binder_lines(arch, os, resolver) + "\"}\n"@
}

/// Append the resolver trampoline block.
#[verifier::rlimit(100)]
pub fn emit_binder_block(
    out: &mut String,
    arch: TargetArch,
    os: TargetOs,
    binder: &str,
    resolver: &str,
)
    ensures
        final(out)@ == old(out)@ + spec_binder_block(arch, os, binder@, resolver@),
{
    let pfx = asm_prefix(arch, os);
    out.append("global_asm!{\"\n.text\n.p2align 2, 0x0\n");
    out.append(pfx);
    out.append(binder);
    out.append(":\n");
    match arch {
        TargetArch::X64 => {
            out.append("    .cfi_startproc\n    push rax\n    push rcx\n    push rdx\n    push rsi\n    push rdi\n    push r8\n    push r9\n    push r10\n    push r11\n    .cfi_adjust_cfa_offset 72\n    sub rsp, 40\n    .cfi_adjust_cfa_offset 40\n    mov rcx, [rsp + 112]\n    mov rdi, [rsp + 112]\n    call ");
            out.append(pfx);
            out.append(resolver);
            out.append("\n    mov [rsp + 112], rax\n    add rsp, 40\n    .cfi_adjust_cfa_offset -40\n    pop r11\n    pop r10\n    pop r9\n    pop r8\n    pop rdi\n    pop rsi\n    pop rdx\n    pop rcx\n    pop rax\n    .cfi_adjust_cfa_offset -72\n    ret\n    .cfi_endproc\n");
        },
        TargetArch::Aarch64 => {
            out.append("    .cfi_startproc\n    stp x29, x30, [sp, #-16]!\n    .cfi_adjust_cfa_offset 16\n    stp x0, x1, [sp, #-16]!\n    stp x2, x3, [sp, #-16]!\n    stp x4, x5, [sp, #-16]!\n    stp x6, x7, [sp, #-16]!\n    stp x8, x9, [sp, #-16]!\n    stp x10, x11, [sp, #-16]!\n    stp x12, x13, [sp, #-16]!\n    stp x14, x15, [sp, #-16]!\n    .cfi_adjust_cfa_offset 128\n    mov x0, x16\n    bl ");
            out.append(pfx);
            out.append(resolver);
            out.append("\n    mov x16, x0\n    ldp x14, x15, [sp], #16\n    ldp x12, x13, [sp], #16\n    ldp x10, x11, [sp], #16\n    ldp x8, x9, [sp], #16\n    ldp x6, x7, [sp], #16\n    ldp x4, x5, [sp], #16\n    ldp x2, x3, [sp], #16\n    ldp x0, x1, [sp], #16\n    ldp x29, x30, [sp], #16\n    .cfi_adjust_cfa_offset -144\n    br x16\n    .cfi_endproc\n");
        },
        TargetArch::Arm => {
            out.append("    .cfi_startproc\n    push {r0-r3, lr}\n    mov r0, r12\n    bl ");
            out.append(pfx);
            out.append(resolver);
            out.append("\n    mov r12, r0\n    pop {r0-r3, lr}\n    bx r12\n    .cfi_endproc\n");
        },
        TargetArch::LoongArch => {
            out.append("    .cfi_startproc\n    addi.d $sp, $sp, -80\n    st.d $ra, $sp, 72\n    st.d $a0, $sp, 0\n    st.d $a1, $sp, 8\n    st.d $a2, $sp, 16\n    st.d $a3, $sp, 24\n    st.d $a4, $sp, 32\n    st.d $a5, $sp, 40\n    st.d $a6, $sp, 48\n    st.d $a7, $sp, 56\n    move $a0, $r12\n    bl ");
            out.append(pfx);
            out.append(resolver);
            out.append("\n    move $r12, $a0\n    ld.d $a7, $sp, 56\n    ld.d $a6, $sp, 48\n    ld.d $a5, $sp, 40\n    ld.d $a4, $sp, 32\n    ld.d $a3, $sp, 24\n    ld.d $a2, $sp, 16\n    ld.d $a1, $sp, 8\n    ld.d $a0, $sp, 0\n    ld.d $ra, $sp, 72\n    addi.d $sp, $sp, 80\n    jr $r12\n    .cfi_endproc\n");
        },
    }
    out.append("\"}\n");
    proof {
        assert(final(out)@ =~= old(out)@ + spec_binder_block(arch, os, binder@, resolver@));
    }
}

/// The per-symbol section: for each code stub its trampoline (and, under
/// lazy binding, its first-call thunk); for each data stub its accessor.
pub open spec fn spec_symbol_blocks(
    arch: TargetArch,
    os: TargetOs,
    table: Seq<char>,
    thunk_base: Seq<char>,
    binder: Seq<char>,
    stubs: Seq<StubView>,
    lazy: bool,
    i: int,
) -> Seq<char>
    decreases stubs.len() - i,
{
    if !(0 <= i < stubs.len()) {
        Seq::<char>::empty()
    } else {
        (if stubs[i].is_data {
            spec_data_accessor(stubs[i].export_name, table, i)
        } else {
            spec_code_stub_block(arch, os, table, stubs[i].export_name, i) + (if lazy {
                spec_thunk_block(arch, os, thunk_base, binder, i)
            } else {
                Seq::<char>::empty()
            })
        }) + spec_symbol_blocks(arch, os, table, thunk_base, binder, stubs, lazy, i + 1)
    }
}

/// Append the per-symbol sections for the whole (adjusted) stub table.
#[verifier::loop_isolation(false)]
#[verifier::rlimit(100)]
pub fn emit_symbol_blocks(
    out: &mut String,
    arch: TargetArch,
    os: TargetOs,
    table: &str,
    thunk_base: &str,
    binder: &str,
    stubs: &Vec<crate::config::SymbolStub>,
    lazy: bool,
)
    requires
        stubs@.len() <= 0x1000_0000,
    ensures
        final(out)@ == old(out)@ + spec_symbol_blocks(
            arch,
            os,
            table@,
            thunk_base@,
            binder@,
            crate::config::stub_views(stubs@),
            lazy,
            0,
        ),
{
    let ghost sv = crate::config::stub_views(stubs@);
    let ghost start = out@;
    let mut i: usize = 0;
    while i < stubs.len()
        invariant
            i <= stubs@.len(),
            start + spec_symbol_blocks(arch, os, table@, thunk_base@, binder@, sv, lazy, 0)
                == out@ + spec_symbol_blocks(
                arch,
                os,
                table@,
                thunk_base@,
                binder@,
                sv,
                lazy,
                i as int,
            ),
        decreases stubs@.len() - i,
    {
        let ghost before = out@;
        proof {
            assert(sv[i as int] == stubs@[i as int]@);
        }
        if stubs[i].is_data {
            emit_data_accessor(out, stubs[i].export_name.as_str(), table, i);
            proof {
                let chunk = spec_data_accessor(sv[i as int].export_name, table@, i as int);
                assert(out@ =~= before + chunk);
                assert(before + (chunk + spec_symbol_blocks(
                    arch,
                    os,
                    table@,
                    thunk_base@,
                    binder@,
                    sv,
                    lazy,
                    i + 1,
                )) =~= (before + chunk) + spec_symbol_blocks(
                    arch,
                    os,
                    table@,
                    thunk_base@,
                    binder@,
                    sv,
                    lazy,
                    i + 1,
                ));
            }
        } else {
            emit_code_stub_block(out, arch, os, table, stubs[i].export_name.as_str(), i);
            if lazy {
                emit_thunk_block(out, arch, os, thunk_base, binder, i);
            }
            proof {
                let chunk = spec_code_stub_block(arch, os, table@, sv[i as int].export_name, i as int)
                    + (if lazy {
                    spec_thunk_block(arch, os, thunk_base@, binder@, i as int)
                } else {
                    Seq::<char>::empty()
                });
                assert(out@ =~= before + chunk);
                assert(before + (chunk + spec_symbol_blocks(
                    arch,
                    os,
                    table@,
                    thunk_base@,
                    binder@,
                    sv,
                    lazy,
                    i + 1,
                )) =~= (before + chunk) + spec_symbol_blocks(
                    arch,
                    os,
                    table@,
                    thunk_base@,
                    binder@,
                    sv,
                    lazy,
                    i + 1,
                ));
            }
        }
        i += 1;
    }
    proof {
        assert(spec_symbol_blocks(arch, os, table@, thunk_base@, binder@, sv, lazy, sv.len() as int)
            == Seq::<char>::empty());
        assert(out@ + Seq::<char>::empty() =~= out@);
    }
}

/// Ascending order on mathematical integers.
pub open spec fn int_leq(a: int, b: int) -> bool {
    a <= b
}

/// The ascending rearrangement of a sequence of integers.
pub open spec fn spec_sorted_ints(v: Seq<int>) -> Seq<int> {
    v.sort_by(|a: int, b: int| int_leq(a, b))
}

/// Two sequences with equal multisets keep equal multisets after a
/// value-preserving cast of every element.
proof fn lemma_map_int_multiset(a: Seq<usize>, b: Seq<usize>)
    requires
        a.to_multiset() == b.to_multiset(),
    ensures
        a.map_values(|x: usize| x as int).to_multiset() == b.map_values(
            |x: usize| x as int,
        ).to_multiset(),
    decreases a.len(),
{
    broadcast use vstd::seq_lib::group_to_multiset_ensures;
    broadcast use vstd::multiset::group_multiset_axioms;

    let f = |x: usize| x as int;
    if a.len() == 0 {
        assert(a.to_multiset().len() == a.len());
        assert(b.to_multiset().len() == b.len());
        assert(b.len() == 0);
        assert(a.map_values(f) =~= b.map_values(f));
    } else {
        let x = a[0];
        assert(a.contains(x));
        assert(a.to_multiset().count(x) > 0);
        assert(b.to_multiset().count(x) > 0);
        assert(b.contains(x));
        let j = choose|j: int| 0 <= j < b.len() && b[j] == x;
        assert(a.remove(0).to_multiset() =~= a.to_multiset().remove(x));
        assert(b.remove(j).to_multiset() =~= b.to_multiset().remove(x));
        lemma_map_int_multiset(a.remove(0), b.remove(j));
        assert(a.remove(0).map_values(f) =~= a.map_values(f).remove(0));
        assert(b.remove(j).map_values(f) =~= b.map_values(f).remove(j));
        assert(a.map_values(f).remove(0).to_multiset() =~= a.map_values(f).to_multiset().remove(
            x as int,
        ));
        assert(b.map_values(f).remove(j).to_multiset() =~= b.map_values(f).to_multiset().remove(
            x as int,
        ));
        assert(a.map_values(f).contains(x as int));
        assert(a.map_values(f).to_multiset().count(x as int) > 0);
        assert(b.map_values(f).contains(x as int));
        assert(b.map_values(f).to_multiset().count(x as int) > 0);
        assert(a.map_values(f).to_multiset() =~= a.map_values(f).to_multiset().remove(
            x as int,
        ).insert(x as int));
        assert(b.map_values(f).to_multiset() =~= b.map_values(f).to_multiset().remove(
            x as int,
        ).insert(x as int));
    }
}

/// Sort a group's stub-table indices; the result is the unique ascending
/// rearrangement, stated over mathematical integers.
pub fn sort_indices_ints(v: &Vec<usize>) -> (r: Vec<usize>)
    ensures
        r@.map_values(|x: usize| x as int) == spec_sorted_ints(
            v@.map_values(|x: usize| x as int),
        ),
{
    let r = crate::stub_gen::sort_indices(v);
    proof {
        let f = |x: usize| x as int;
        let leq_u = |a: usize, b: usize| crate::stub_gen::usize_leq(a, b);
        let leq_i = |a: int, b: int| int_leq(a, b);
        v@.lemma_sort_by_ensures(leq_u);
        assert(r@.to_multiset() == v@.to_multiset());
        lemma_map_int_multiset(r@, v@);
        v@.map_values(f).lemma_sort_by_ensures(leq_i);
        assert(vstd::relations::sorted_by(r@.map_values(f), leq_i)) by {
            assert forall|i: int, j: int| 0 <= i < j < r@.map_values(f).len() implies leq_i(
                r@.map_values(f)[i],
                r@.map_values(f)[j],
            ) by {
                assert(leq_u(r@[i], r@[j]));
            }
        }
        assert(vstd::relations::total_ordering(leq_i)) by {
            assert forall|a: int, b: int| #[trigger] leq_i(a, b) || #[trigger] leq_i(b, a) by {}
        }
        vstd::seq_lib::lemma_sorted_unique(
            r@.map_values(f),
            v@.map_values(f).sort_by(leq_i),
            leq_i,
        );
    }
    r
}

/// The group constants, in registration order, each with its indices in
/// ascending order.
pub open spec fn spec_group_blocks(
    lib_name: Seq<char>,
    groups: Seq<(Seq<char>, Seq<int>)>,
    i: int,
) -> Seq<char>
    decreases groups.len() - i,
{
    if !(0 <= i < groups.len()) {
        Seq::<char>::empty()
    } else {
        spec_group_block(lib_name, groups[i].0, spec_sorted_ints(groups[i].1))
            + spec_group_blocks(lib_name, groups, i + 1)
    }
}

/// Name of the synthetic symbol table, with the per-run suffix.
pub open spec fn spec_table_name(suffix: nat) -> Seq<char> {
    "symbol_table_"@ + spec_hex08(suffix)
}

/// Prefix of the per-symbol first-call thunk names.
pub open spec fn spec_thunk_base_name(suffix: nat) -> Seq<char> {
    "resolve_"@ + spec_hex08(suffix) + "_"@
}

/// Name of the resolver trampoline.
pub open spec fn spec_binder_name(suffix: nat) -> Seq<char> {
    "resolve_binder_"@ + spec_hex08(suffix)
}

/// Name of the high-level resolver entry point.
pub open spec fn spec_resolver_name(suffix: nat) -> Seq<char> {
    "sym_resolver_"@ + spec_hex08(suffix)
}

/// The complete emitted translation unit, section by section: imports
/// prelude; library declaration (with the forward-declared table); group
/// constants; under lazy binding the resolver entry point; the synthetic
/// table in assembly; under lazy binding the resolver trampoline; and the
/// per-symbol trampolines, thunks and accessors.
pub open spec fn spec_generate(
    name: Seq<char>,
    dylibs: Seq<Seq<char>>,
    stubs: Seq<StubView>,
    groups: Seq<(Seq<char>, Seq<int>)>,
    arch: TargetArch,
    os: TargetOs,
    lazy: bool,
    suffix: nat,
) -> Seq<char> {
    let table = spec_table_name(suffix);
    let thunk_base = spec_thunk_base_name(suffix);
    let binder = spec_binder_name(suffix);
    let resolver = spec_resolver_name(suffix);
    spec_prelude() + spec_library_block(name, table, dylibs, stubs) + spec_group_blocks(
        name,
        groups,
        0,
    ) + (if lazy {
        spec_lazy_resolver_decl(resolver, name)
    } else {
        Seq::<char>::empty()
    }) + spec_asm_table(arch, os, table, thunk_base, stubs, lazy) + (if lazy {
        spec_binder_block(arch, os, binder, resolver)
    } else {
        Seq::<char>::empty()
    }) + spec_symbol_blocks(arch, os, table, thunk_base, binder, stubs, lazy, 0)
}

impl crate::config::Config {
    /// Generate the source of the stub translation unit with the given
    /// table-name suffix.  The output is a deterministic function of the
    /// configuration and the suffix.
    #[verifier::loop_isolation(false)]
    #[verifier::rlimit(100)]
    pub fn generate_source_with_suffix(&self, suffix: u64) -> (r: Result<String, GenError>)
        requires
            self.wf(),
            self.stubs_v().len() <= 0x1000_0000,
        ensures
            r is Ok <==> (spec_target_os(self.target_v()) is Some && spec_target_arch(
                self.target_v(),
            ) is Some),
            r == Err::<String, GenError>(GenError::UnsupportedOs) <==> spec_target_os(
                self.target_v(),
            ) is None,
            r == Err::<String, GenError>(GenError::UnsupportedArch) <==> (spec_target_os(
                self.target_v(),
            ) is Some && spec_target_arch(self.target_v()) is None),
            r matches Ok(text) ==> text@ == spec_generate(
                self.name_v(),
                self.dylib_names_v(),
                spec_adjusted_stubs(self.stubs_v(), self.target_v(), self.adjust_v()),
                self.groups_v(),
                spec_target_arch(self.target_v())->Some_0,
                spec_target_os(self.target_v())->Some_0,
                self.lazy_v(),
                suffix as nat,
            ),
    {
        let os = match detect_target_os(self.target_str().as_str()) {
            Some(o) => o,
            None => {
                return Err(GenError::UnsupportedOs);
            },
        };
        let arch = match detect_target_arch(self.target_str().as_str()) {
            Some(a) => a,
            None => {
                return Err(GenError::UnsupportedArch);
            },
        };
        let stubs = adjusted_stubs(
            self.stubs_vec(),
            self.target_str().as_str(),
            self.adjust_flag(),
        );
        let ghost sv = crate::config::stub_views(stubs@);
        proof {
            assert(sv.len() == stubs@.len());
            assert(sv.len() == self.stubs_v().len());
        }
        let lazy = self.lazy_flag();

        let mut hex = String::new();
        push_hex08(&mut hex, suffix);
        let mut table = String::new();
        table.append("symbol_table_");
        table.append(hex.as_str());
        let mut thunk_base = String::new();
        thunk_base.append("resolve_");
        thunk_base.append(hex.as_str());
        thunk_base.append("_");
        let mut binder = String::new();
        binder.append("resolve_binder_");
        binder.append(hex.as_str());
        let mut resolver = String::new();
        resolver.append("sym_resolver_");
        resolver.append(hex.as_str());
        proof {
            assert(table@ =~= spec_table_name(suffix as nat));
            assert(thunk_base@ =~= spec_thunk_base_name(suffix as nat));
            assert(binder@ =~= spec_binder_name(suffix as nat));
            assert(resolver@ =~= spec_resolver_name(suffix as nat));
        }

        let mut out = String::new();
        emit_prelude(&mut out);
        let ghost t1 = spec_prelude();
        proof {
            assert(out@ =~= t1);
        }
        emit_library_block(
            &mut out,
            self.name_str().as_str(),
            table.as_str(),
            self.dylib_names_vec(),
            &stubs,
        );
        let ghost t2 = spec_library_block(
            self.name_v(),
            spec_table_name(suffix as nat),
            self.dylib_names_v(),
            sv,
        );
        proof {
            assert(out@ =~= t1 + t2);
        }

        let ghost gv = self.groups_v();
        let ghost pre_groups = out@;
        let mut g: usize = 0;
        let n_groups = self.group_count();
        while g < n_groups
            invariant
                g <= n_groups,
                n_groups == gv.len(),
                pre_groups + spec_group_blocks(self.name_v(), gv, 0) == out@ + spec_group_blocks(
                    self.name_v(),
                    gv,
                    g as int,
                ),
            decreases n_groups - g,
        {
            let ghost before = out@;
            let idxs = sort_indices_ints(self.group_indices(g));
            emit_group_block(
                &mut out,
                self.name_str().as_str(),
                self.group_name(g).as_str(),
                &idxs,
            );
            proof {
                let chunk = spec_group_block(
                    self.name_v(),
                    gv[g as int].0,
                    spec_sorted_ints(gv[g as int].1),
                );
                assert(out@ =~= before + chunk);
                assert(before + (chunk + spec_group_blocks(self.name_v(), gv, g + 1)) =~= (before
                    + chunk) + spec_group_blocks(self.name_v(), gv, g + 1));
            }
            g += 1;
        }
        let ghost t3 = spec_group_blocks(self.name_v(), gv, 0);
        proof {
            assert(spec_group_blocks(self.name_v(), gv, gv.len() as int) == Seq::<char>::empty());
            assert(out@ + Seq::<char>::empty() =~= out@);
            assert(out@ =~= (t1 + t2) + t3);
        }

        if lazy {
            emit_lazy_resolver_decl(&mut out, resolver.as_str(), self.name_str().as_str());
        }
        let ghost t4 = if lazy {
            spec_lazy_resolver_decl(spec_resolver_name(suffix as nat), self.name_v())
        } else {
            Seq::<char>::empty()
        };
        proof {
            assert(out@ =~= ((t1 + t2) + t3) + t4);
        }

        emit_asm_table(&mut out, arch, os, table.as_str(), thunk_base.as_str(), &stubs, lazy);
        let ghost t5 = spec_asm_table(
            arch,
            os,
            spec_table_name(suffix as nat),
            spec_thunk_base_name(suffix as nat),
            sv,
            lazy,
        );
        proof {
            assert(out@ =~= (((t1 + t2) + t3) + t4) + t5);
        }

        if lazy {
            emit_binder_block(&mut out, arch, os, binder.as_str(), resolver.as_str());
        }
        let ghost t6 = if lazy {
            spec_binder_block(
                arch,
                os,
                spec_binder_name(suffix as nat),
                spec_resolver_name(suffix as nat),
            )
        } else {
            Seq::<char>::empty()
        };
        proof {
            assert(out@ =~= ((((t1 + t2) + t3) + t4) + t5) + t6);
        }

        emit_symbol_blocks(
            &mut out,
            arch,
            os,
            table.as_str(),
            thunk_base.as_str(),
            binder.as_str(),
            &stubs,
            lazy,
        );
        let ghost t7 = spec_symbol_blocks(
            arch,
            os,
            spec_table_name(suffix as nat),
            spec_thunk_base_name(suffix as nat),
            spec_binder_name(suffix as nat),
            sv,
            lazy,
            0,
        );
        proof {
            assert(out@ =~= (((((t1 + t2) + t3) + t4) + t5) + t6) + t7);
            assert(out@ =~= spec_generate(
                self.name_v(),
                self.dylib_names_v(),
                sv,
                gv,
                arch,
                os,
                lazy,
                suffix as nat,
            ));
        }
        Ok(out)
    }

    /// Generate the source of the stub crate, with a fresh random suffix on
    /// the synthetic-table name so that several stub crates can coexist in
    /// one program.
    pub fn generate_source(&self) -> (r: Result<String, GenError>)
        requires
            self.wf(),
            self.stubs_v().len() <= 0x1000_0000,
        ensures
            r is Ok <==> (spec_target_os(self.target_v()) is Some && spec_target_arch(
                self.target_v(),
            ) is Some),
            r == Err::<String, GenError>(GenError::UnsupportedOs) <==> spec_target_os(
                self.target_v(),
            ) is None,
            r == Err::<String, GenError>(GenError::UnsupportedArch) <==> (spec_target_os(
                self.target_v(),
            ) is Some && spec_target_arch(self.target_v()) is None),
            r matches Ok(text) ==> exists|suffix: nat|
                text@ == spec_generate(
                    self.name_v(),
                    self.dylib_names_v(),
                    spec_adjusted_stubs(self.stubs_v(), self.target_v(), self.adjust_v()),
                    self.groups_v(),
                    spec_target_arch(self.target_v())->Some_0,
                    spec_target_os(self.target_v())->Some_0,
                    self.lazy_v(),
                    suffix,
                ),
    {
        let suffix = random_u64();
        let r = self.generate_source_with_suffix(suffix);
        proof {
            if r is Ok {
                let text = r->Ok_0;
                assert(text@ == spec_generate(
                    self.name_v(),
                    self.dylib_names_v(),
                    spec_adjusted_stubs(self.stubs_v(), self.target_v(), self.adjust_v()),
                    self.groups_v(),
                    spec_target_arch(self.target_v())->Some_0,
                    spec_target_os(self.target_v())->Some_0,
                    self.lazy_v(),
                    suffix as nat,
                ));
            }
        }
        r
    }
}

/// Relies on `rand::random`: a fresh pseudo-random `u64`.  Nothing is
/// promised of the value; it only decorates the synthetic-table name.
#[verifier::external_body]
fn random_u64() -> u64 {
    rand::random::<u64>()
}

} // verus!
