//! Build-time behavior: stub-table dedup, group registration, name
//! adjustment and source generation.

use weaklink::config::{Config, SymbolStub};
use weaklink::errors::{ConfigError, GenError};

fn base_config(target: &str) -> Config {
    let mut cfg = Config::new("exporter_stub");
    cfg.target = target.to_string();
    cfg
}

#[test]
fn stub_new_sets_both_names() {
    let s = SymbolStub::new("add_0");
    assert_eq!(s.import_name, "add_0");
    assert_eq!(s.export_name, "add_0");
    assert!(!s.is_data);
}

#[test]
fn stub_new_data_swaps_names() {
    let s = SymbolStub::new_data("get_bar", "bar");
    assert_eq!(s.export_name, "get_bar");
    assert_eq!(s.import_name, "bar");
    assert!(s.is_data);
}

#[test]
fn config_defaults() {
    let cfg = Config::new("stub");
    assert_eq!(cfg.name, "stub");
    assert_eq!(cfg.target, "");
    assert!(cfg.dylib_names.is_empty());
    assert!(cfg.adjust_symbol_names);
    assert!(!cfg.lazy_binding);
    assert_eq!(cfg.stub_count(), 0);
    assert_eq!(cfg.group_count(), 0);
}

#[test]
fn symbol_groups_share_stubs() {
    // Configuration dedup: groups A = [s1, s2] and B = [s2, s3] give a
    // three-entry stub table, and B's first index is A's second.
    let mut cfg = base_config("x86_64-unknown-linux-gnu");
    let s1 = SymbolStub::new("sym_one");
    let s2 = SymbolStub::new("sym_two");
    let s3 = SymbolStub::new("sym_three");
    cfg.add_symbol_group("A", vec![s1, SymbolStub::new("sym_two")]).unwrap();
    cfg.add_symbol_group("B", vec![s2, s3]).unwrap();
    assert_eq!(cfg.stub_count(), 3);
    assert_eq!(cfg.group_count(), 2);
    assert_eq!(cfg.group_name(0), "A");
    assert_eq!(cfg.group_name(1), "B");
    let a = cfg.group_indices(0).clone();
    let b = cfg.group_indices(1).clone();
    assert_eq!(a, vec![0, 1]);
    assert_eq!(b, vec![1, 2]);
    assert_eq!(a[1], b[0]);
}

#[test]
fn duplicate_group_rejected() {
    let mut cfg = base_config("x86_64-unknown-linux-gnu");
    cfg.add_symbol_group("base", vec![SymbolStub::new("f")]).unwrap();
    let r = cfg.add_symbol_group("base", vec![SymbolStub::new("g")]);
    assert_eq!(r, Err(ConfigError::DuplicateGroup));
    assert_eq!(cfg.stub_count(), 1);
    assert_eq!(cfg.group_count(), 1);
}

#[test]
fn incompatible_redefinition_leaves_state_unchanged() {
    // Same export name with a different `is_data` or `import_name` fails
    // and the configuration is untouched.
    let mut cfg = base_config("x86_64-unknown-linux-gnu");
    cfg.add_symbol_group("A", vec![SymbolStub::new("f"), SymbolStub::new("g")]).unwrap();

    let r = cfg.add_symbol_group("B", vec![SymbolStub::new_data("f", "f")]);
    assert_eq!(r, Err(ConfigError::IncompatibleRedefinition));
    assert_eq!(cfg.stub_count(), 2);
    assert_eq!(cfg.group_count(), 1);

    let r = cfg.add_symbol_group("B", vec![SymbolStub::new("h"), {
        let mut s = SymbolStub::new("f");
        s.import_name = "renamed".to_string();
        s
    }]);
    assert_eq!(r, Err(ConfigError::IncompatibleRedefinition));
    assert_eq!(cfg.stub_count(), 2);
    assert_eq!(cfg.group_count(), 1);

    // The same symbol twice in one group is fine when compatible.
    cfg.add_symbol_group("B", vec![SymbolStub::new("f"), SymbolStub::new("f")]).unwrap();
    assert_eq!(cfg.stub_count(), 2);
    assert_eq!(cfg.group_indices(1).clone(), vec![0, 0]);
}

#[test]
fn generation_is_deterministic_for_fixed_suffix() {
    // Generator determinism, modulo the table-name suffix.
    let mut cfg = base_config("x86_64-unknown-linux-gnu");
    cfg.dylib_names.push("libexporter.so".to_string());
    cfg.add_symbol_group("base", vec![SymbolStub::new("add_0"), SymbolStub::new("add_1")])
        .unwrap();
    let a = cfg.generate_source_with_suffix(0xDEAD_BEEF).unwrap();
    let b = cfg.generate_source_with_suffix(0xDEAD_BEEF).unwrap();
    assert_eq!(a, b);
    let c = cfg.generate_source_with_suffix(0x0000_0001).unwrap();
    assert_ne!(a, c);
}

#[test]
fn generated_source_structure_linux_x64() {
    let mut cfg = base_config("x86_64-unknown-linux-gnu");
    cfg.dylib_names.push("libexporter.so".to_string());
    cfg.add_symbol_group("base", vec![SymbolStub::new("add_0"), SymbolStub::new("add_1")])
        .unwrap();
    cfg.add_symbol_group("data", vec![SymbolStub::new_data("get_bar", "bar")]).unwrap();
    let text = cfg.generate_source_with_suffix(7).unwrap();

    // Suffixed table name, zero-padded to eight hex digits.
    assert!(text.contains("symbol_table_00000007"));
    // Library block with the candidates and the null-terminated names.
    assert!(text.contains("name: exporter_stub,"));
    assert!(text.contains("\"libexporter.so\","));
    assert!(text.contains("b\"add_0\\0\", // 0"));
    assert!(text.contains("b\"add_1\\0\", // 1"));
    assert!(text.contains("b\"bar\\0\", // 2"));
    assert!(text.contains("table_size: 3,"));
    // Group constants with sorted indices.
    assert!(text.contains("pub static base: Group = Group::new(\n    \"base\",\n    &exporter_stub,\n    &[0,1,],\n);"));
    assert!(text.contains("pub static data: Group = Group::new(\n    \"data\",\n    &exporter_stub,\n    &[2,],\n);"));
    // The System V x86-64 trampoline for slot 1 (offset 8).
    assert!(text.contains("mov r11, [rip + symbol_table_00000007@GOTPCREL]"));
    assert!(text.contains("jmp [r11 + 8]"));
    // The table is pointer-sized zeros in eager mode.
    assert!(text.contains(".quad 0"));
    // The data accessor for slot 2.
    assert!(text.contains("weaklink::data_accessor!(get_bar, symbol_table_00000007, 2);"));
    // No lazy-binding artifacts in eager mode.
    assert!(!text.contains("resolve_binder_"));
    assert!(!text.contains("sym_resolver_"));
}

#[test]
fn generated_source_per_arch_trampolines() {
    let mk = |target: &str| {
        let mut cfg = base_config(target);
        cfg.add_symbol_group("base", vec![SymbolStub::new("f")]).unwrap();
        cfg.generate_source_with_suffix(1).unwrap()
    };
    let windows = mk("x86_64-pc-windows-msvc");
    assert!(windows.contains("jmp qword ptr [rip + symbol_table_00000001 + 0]"));

    let aarch64_linux = mk("aarch64-unknown-linux-gnu");
    assert!(aarch64_linux.contains("adrp x16, symbol_table_00000001 + 0"));
    assert!(aarch64_linux.contains("ldr x16, [x16, :lo12:symbol_table_00000001 + 0]"));
    assert!(aarch64_linux.contains("br x16"));

    let aarch64_mac = mk("aarch64-apple-darwin");
    assert!(aarch64_mac.contains("adrp x16, _symbol_table_00000001 + 0 @PAGE"));
    assert!(aarch64_mac.contains("@PAGEOFF]"));

    let arm = mk("arm-unknown-linux-gnueabihf");
    assert!(arm.contains("ldr r12, =symbol_table_00000001 - 1f + 0"));
    assert!(arm.contains(".ltorg"));
    assert!(arm.contains(".long 0"));

    let loong = mk("loongarch64-unknown-linux-gnu");
    assert!(loong.contains("pcalau12i $r12, %pc_hi20(symbol_table_00000001 + 0)"));
    assert!(loong.contains("jr $r12"));
}

#[test]
fn macos_name_adjustment() {
    // Name adjustment on macOS: the emitted assembly global gains an
    // underscore while the runtime lookup keeps the plain name.
    let mut cfg = base_config("x86_64-apple-darwin");
    cfg.add_symbol_group("base", vec![SymbolStub::new("foo")]).unwrap();
    let text = cfg.generate_source_with_suffix(2).unwrap();
    assert!(text.contains(".global \\\"_foo\\\""));
    assert!(text.contains("b\"foo\\0\", // 0"));

    // A name that already starts with an underscore instead loses it from
    // the lookup name.
    let mut cfg = base_config("x86_64-apple-darwin");
    cfg.add_symbol_group("base", vec![SymbolStub::new("_bar")]).unwrap();
    let text = cfg.generate_source_with_suffix(2).unwrap();
    assert!(text.contains(".global \\\"_bar\\\""));
    assert!(text.contains("b\"bar\\0\", // 0"));

    // With adjustment off, nothing changes.
    let mut cfg = base_config("x86_64-apple-darwin");
    cfg.adjust_symbol_names = false;
    cfg.add_symbol_group("base", vec![SymbolStub::new("foo")]).unwrap();
    let text = cfg.generate_source_with_suffix(2).unwrap();
    assert!(text.contains(".global \\\"foo\\\""));

    // Data stubs are never adjusted.
    let mut cfg = base_config("x86_64-apple-darwin");
    cfg.add_symbol_group("base", vec![SymbolStub::new_data("get_bar", "get_bar")]).unwrap();
    let text = cfg.generate_source_with_suffix(2).unwrap();
    assert!(text.contains("b\"get_bar\\0\", // 0"));
}

#[test]
fn lazy_binding_emission() {
    let mut cfg = base_config("x86_64-unknown-linux-gnu");
    cfg.lazy_binding = true;
    cfg.add_symbol_group("base", vec![SymbolStub::new("add_0"), SymbolStub::new("add_1")])
        .unwrap();
    let text = cfg.generate_source_with_suffix(0xAB).unwrap();
    // The resolver entry point and trampoline.
    assert!(text.contains("weaklink::lazy_resolver!(sym_resolver_000000ab, exporter_stub);"));
    assert!(text.contains("resolve_binder_000000ab:"));
    assert!(text.contains("call sym_resolver_000000ab"));
    // Table slots point at the first-call thunks.
    assert!(text.contains(".quad resolve_000000ab_0"));
    assert!(text.contains(".quad resolve_000000ab_1"));
    // The thunks pass the slot index and tail-jump to the binder.
    assert!(text.contains("resolve_000000ab_1:\n    push 1\n    jmp resolve_binder_000000ab"));
}

#[test]
fn lazy_binding_keeps_data_slots_zero() {
    // A data slot has no first-call thunk: its accessor reads the slot, so
    // the slot starts zero even under lazy binding.
    let mut cfg = base_config("x86_64-unknown-linux-gnu");
    cfg.lazy_binding = true;
    cfg.add_symbol_group("base", vec![SymbolStub::new("f"), SymbolStub::new_data("get_bar", "bar")])
        .unwrap();
    let text = cfg.generate_source_with_suffix(0xCD).unwrap();
    assert!(text.contains(".quad resolve_000000cd_0"));
    assert!(text.contains(".quad 0"));
    assert!(!text.contains("resolve_000000cd_1"));
    assert!(text.contains("weaklink::data_accessor!(get_bar, symbol_table_000000cd, 1);"));
}

#[test]
fn unsupported_triples_fail_fast() {
    let mut cfg = base_config("x86_64-unknown-freebsd");
    cfg.add_symbol_group("base", vec![SymbolStub::new("f")]).unwrap();
    assert_eq!(cfg.generate_source_with_suffix(0), Err(GenError::UnsupportedOs));

    let mut cfg = base_config("riscv64gc-unknown-linux-gnu");
    cfg.add_symbol_group("base", vec![SymbolStub::new("f")]).unwrap();
    assert_eq!(cfg.generate_source_with_suffix(0), Err(GenError::UnsupportedArch));
}

#[test]
fn random_suffix_generation_succeeds() {
    let mut cfg = base_config("x86_64-unknown-linux-gnu");
    cfg.add_symbol_group("base", vec![SymbolStub::new("f")]).unwrap();
    let text = cfg.generate_source().unwrap();
    assert!(text.contains("symbol_table_"));
    assert!(text.contains("b\"f\\0\", // 0"));
}
