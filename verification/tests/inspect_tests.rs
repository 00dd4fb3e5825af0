//! Object-inspector behavior on hand-assembled binaries: ELF exports and
//! imports, COFF imports, archive recursion, and the section range index.

use weaklink::errors::InspectError;
use weaklink::exports::{dylib_exports, SectionRanges};
use weaklink::imports::archive_imports;

fn push_u16(v: &mut Vec<u8>, x: u16) {
    v.extend_from_slice(&x.to_le_bytes());
}

fn push_u32(v: &mut Vec<u8>, x: u32) {
    v.extend_from_slice(&x.to_le_bytes());
}

fn push_u64(v: &mut Vec<u8>, x: u64) {
    v.extend_from_slice(&x.to_le_bytes());
}

/// A minimal 64-bit little-endian ELF shared object whose dynamic symbol
/// table holds a null entry plus `add_0` and `add_1`, both defined.
fn elf_dylib() -> Vec<u8> {
    // Layout: ehdr (64) | 2 phdrs (112) | dynamic (7*16) | hash (6*4)
    //         | dynstr (13) | dynsym (3*24)
    let dyn_off = 64 + 112;
    let hash_off = dyn_off + 7 * 16;
    let str_off = hash_off + 6 * 4;
    let sym_off = str_off + 13;
    let total = sym_off + 3 * 24;

    let mut v = Vec::new();
    // e_ident
    v.extend_from_slice(&[0x7f, b'E', b'L', b'F', 2, 1, 1, 0, 0, 0, 0, 0, 0, 0, 0, 0]);
    push_u16(&mut v, 3); // e_type = ET_DYN
    push_u16(&mut v, 0x3e); // e_machine = x86-64
    push_u32(&mut v, 1); // e_version
    push_u64(&mut v, 0); // e_entry
    push_u64(&mut v, 64); // e_phoff
    push_u64(&mut v, 0); // e_shoff
    push_u32(&mut v, 0); // e_flags
    push_u16(&mut v, 64); // e_ehsize
    push_u16(&mut v, 56); // e_phentsize
    push_u16(&mut v, 2); // e_phnum
    push_u16(&mut v, 64); // e_shentsize
    push_u16(&mut v, 0); // e_shnum
    push_u16(&mut v, 0); // e_shstrndx

    // PT_LOAD covering the file, identity-mapped.
    push_u32(&mut v, 1); // p_type
    push_u32(&mut v, 5); // p_flags
    push_u64(&mut v, 0); // p_offset
    push_u64(&mut v, 0); // p_vaddr
    push_u64(&mut v, 0); // p_paddr
    push_u64(&mut v, total as u64); // p_filesz
    push_u64(&mut v, total as u64); // p_memsz
    push_u64(&mut v, 0x1000); // p_align

    // PT_DYNAMIC
    push_u32(&mut v, 2); // p_type
    push_u32(&mut v, 4); // p_flags
    push_u64(&mut v, dyn_off as u64);
    push_u64(&mut v, dyn_off as u64);
    push_u64(&mut v, dyn_off as u64);
    push_u64(&mut v, (7 * 16) as u64);
    push_u64(&mut v, (7 * 16) as u64);
    push_u64(&mut v, 8);

    // Dynamic entries: HASH, STRTAB, SYMTAB, STRSZ, SYMENT, SONAME-free, NULL.
    let dyns: [(u64, u64); 7] = [
        (4, hash_off as u64), // DT_HASH
        (5, str_off as u64), // DT_STRTAB
        (6, sym_off as u64), // DT_SYMTAB
        (10, 13), // DT_STRSZ
        (11, 24), // DT_SYMENT
        (0, 0), // DT_NULL
        (0, 0),
    ];
    for (tag, val) in dyns {
        push_u64(&mut v, tag);
        push_u64(&mut v, val);
    }

    // Hash table: nbucket = 1, nchain = 3.
    for x in [1u32, 3, 0, 0, 0, 0] {
        push_u32(&mut v, x);
    }

    // dynstr: "\0add_0\0add_1\0"
    v.push(0);
    v.extend_from_slice(b"add_0\0");
    v.extend_from_slice(b"add_1\0");

    // dynsym: null entry, then two defined global functions.
    for _ in 0..24 {
        v.push(0);
    }
    for (name_off, value) in [(1u32, 0x100u64), (7, 0x200)] {
        push_u32(&mut v, name_off);
        v.push(0x12); // st_info: GLOBAL | FUNC
        v.push(0); // st_other
        push_u16(&mut v, 1); // st_shndx: defined
        push_u64(&mut v, value);
        push_u64(&mut v, 0); // st_size
    }
    assert_eq!(v.len(), total);
    v
}

/// A minimal 64-bit little-endian relocatable ELF object whose relocations
/// reference the undefined `ext_fn` (twice) and the defined `local_fn`.
fn elf_object() -> Vec<u8> {
    // Layout: ehdr (64) | shdrs (6*64) | rela (3*24) | symtab (3*24)
    //         | strtab (17) | shstrtab (45)
    let sh_off = 64;
    let rela_off = sh_off + 6 * 64;
    let sym_off = rela_off + 3 * 24;
    let str_off = sym_off + 3 * 24;
    let strtab: &[u8] = b"\0ext_fn\0local_fn\0";
    let shstr_off = str_off + strtab.len();
    let shstrtab: &[u8] = b"\0.text\0.rela.text\0.symtab\0.strtab\0.shstrtab\0";
    let total = shstr_off + shstrtab.len();

    let mut v = Vec::new();
    v.extend_from_slice(&[0x7f, b'E', b'L', b'F', 2, 1, 1, 0, 0, 0, 0, 0, 0, 0, 0, 0]);
    push_u16(&mut v, 1); // e_type = ET_REL
    push_u16(&mut v, 0x3e);
    push_u32(&mut v, 1);
    push_u64(&mut v, 0);
    push_u64(&mut v, 0); // e_phoff
    push_u64(&mut v, sh_off as u64); // e_shoff
    push_u32(&mut v, 0);
    push_u16(&mut v, 64);
    push_u16(&mut v, 0); // e_phentsize
    push_u16(&mut v, 0); // e_phnum
    push_u16(&mut v, 64); // e_shentsize
    push_u16(&mut v, 6); // e_shnum
    push_u16(&mut v, 5); // e_shstrndx

    let mut shdr = |v: &mut Vec<u8>,
                    name: u32,
                    typ: u32,
                    off: usize,
                    size: usize,
                    link: u32,
                    info: u32,
                    entsize: u64| {
        push_u32(v, name);
        push_u32(v, typ);
        push_u64(v, 0); // sh_flags
        push_u64(v, 0); // sh_addr
        push_u64(v, off as u64);
        push_u64(v, size as u64);
        push_u32(v, link);
        push_u32(v, info);
        push_u64(v, 1); // sh_addralign
        push_u64(v, entsize);
    };
    shdr(&mut v, 0, 0, 0, 0, 0, 0, 0); // NULL
    shdr(&mut v, 1, 1, 0, 0, 0, 0, 0); // .text (PROGBITS, empty)
    shdr(&mut v, 7, 4, rela_off, 3 * 24, 3, 1, 24); // .rela.text (RELA)
    shdr(&mut v, 18, 2, sym_off, 3 * 24, 4, 1, 24); // .symtab
    shdr(&mut v, 26, 3, str_off, strtab.len(), 0, 0, 0); // .strtab
    shdr(&mut v, 34, 3, shstr_off, shstrtab.len(), 0, 0, 0); // .shstrtab

    // Relocations: two against symbol 1 (ext_fn), one against symbol 2.
    for (offset, sym) in [(0u64, 1u64), (8, 1), (16, 2)] {
        push_u64(&mut v, offset);
        push_u64(&mut v, (sym << 32) | 4); // R_X86_64_PLT32
        push_u64(&mut v, 0); // addend
    }

    // Symbols: null, undefined global ext_fn, defined global local_fn.
    for _ in 0..24 {
        v.push(0);
    }
    push_u32(&mut v, 1); // ext_fn
    v.push(0x12);
    v.push(0);
    push_u16(&mut v, 0); // st_shndx: UNDEF
    push_u64(&mut v, 0); // st_value = 0 (import)
    push_u64(&mut v, 0);
    push_u32(&mut v, 8); // local_fn
    v.push(0x12);
    v.push(0);
    push_u16(&mut v, 1); // defined in .text
    push_u64(&mut v, 0x10);
    push_u64(&mut v, 0);

    v.extend_from_slice(strtab);
    v.extend_from_slice(shstrtab);
    assert_eq!(v.len(), total);
    v
}

/// A minimal x86-64 COFF object with two undefined symbols (`foo`,
/// `get_bar`) and one defined symbol.
fn coff_object() -> Vec<u8> {
    let mut v = Vec::new();
    push_u16(&mut v, 0x8664); // machine
    push_u16(&mut v, 0); // number of sections
    push_u32(&mut v, 0); // timestamp
    push_u32(&mut v, 20); // pointer to symbol table
    push_u32(&mut v, 3); // number of symbols
    push_u16(&mut v, 0); // optional header size
    push_u16(&mut v, 0); // characteristics

    let mut sym = |v: &mut Vec<u8>, name: &[u8; 8], secnum: i16| {
        v.extend_from_slice(name);
        push_u32(v, 0); // value
        v.extend_from_slice(&secnum.to_le_bytes());
        push_u16(v, 0x20); // type: function
        v.push(2); // storage class: external
        v.push(0); // aux count
    };
    sym(&mut v, b"foo\0\0\0\0\0", 0);
    sym(&mut v, b"get_bar\0", 0);
    sym(&mut v, b"defined\0", 1);

    // Minimal string table: just its own length field.
    push_u32(&mut v, 4);
    v
}

/// An ar archive holding one member.
fn archive_of(member_name: &str, data: &[u8]) -> Vec<u8> {
    let mut v = Vec::new();
    v.extend_from_slice(b"!<arch>\n");
    let mut header = Vec::new();
    header.extend_from_slice(format!("{:<16}", member_name).as_bytes());
    header.extend_from_slice(format!("{:<12}", 0).as_bytes());
    header.extend_from_slice(format!("{:<6}", 0).as_bytes());
    header.extend_from_slice(format!("{:<6}", 0).as_bytes());
    header.extend_from_slice(format!("{:<8}", "100644").as_bytes());
    header.extend_from_slice(format!("{:<10}", data.len()).as_bytes());
    header.extend_from_slice(b"`\n");
    assert_eq!(header.len(), 60);
    v.extend_from_slice(&header);
    v.extend_from_slice(data);
    if data.len() % 2 == 1 {
        v.push(b'\n');
    }
    v
}

#[test]
fn elf_exports_round_trip() {
    // A library whose exports are compiled from a known template naming two
    // symbols: each comes back exactly once.
    let exports = dylib_exports(&elf_dylib()).unwrap();
    let mut got: Vec<&str> = exports.iter().map(|e| e.name.as_str()).collect();
    got.sort();
    assert_eq!(got, vec!["add_0", "add_1"]);
    assert_eq!(exports.len(), 2);
}

#[test]
fn elf_imports_deduplicated() {
    // A consumer referencing `ext_fn` through two relocations reports it
    // exactly once; the defined symbol is not an import.
    let imports = archive_imports(&elf_object()).unwrap();
    let got: Vec<&str> = imports.iter().map(|i| i.name.as_str()).collect();
    assert_eq!(got, vec!["ext_fn"]);
}

#[test]
fn coff_imports_undefined_symbols() {
    let imports = archive_imports(&coff_object()).unwrap();
    let mut got: Vec<&str> = imports.iter().map(|i| i.name.as_str()).collect();
    got.sort();
    assert_eq!(got, vec!["foo", "get_bar"]);
}

#[test]
fn archive_members_inspected_recursively() {
    let ar = archive_of("member.obj/", &coff_object());
    let imports = archive_imports(&ar).unwrap();
    let mut got: Vec<&str> = imports.iter().map(|i| i.name.as_str()).collect();
    got.sort();
    assert_eq!(got, vec!["foo", "get_bar"]);
}

#[test]
fn unrecognized_buffers_are_rejected() {
    // Too small to hint at any container.
    let r = dylib_exports(&vec![0u8; 4]);
    assert!(matches!(r, Err(InspectError::Format(_))));
    // A PE cannot serve as an archive input.
    let r = archive_imports(&elf_dylib());
    // An ELF dylib has no relocation sections; the import list is empty.
    assert!(r.unwrap().is_empty());
}

#[test]
fn exports_reject_archives() {
    let ar = archive_of("member.obj/", &coff_object());
    let r = dylib_exports(&ar);
    assert!(matches!(r, Err(InspectError::Unsupported(_))));
}

#[test]
fn section_ranges_tie_break() {
    // For a target offset, the span with the greatest start at most the
    // offset wins, and only if its size reaches strictly past the offset.
    let mut idx = SectionRanges::new();
    idx.insert(100, 50, ".text".to_string());
    idx.insert(0, 100, ".header".to_string());
    idx.insert(150, 10, ".data".to_string());

    assert_eq!(idx.lookup(0).map(|s| s.as_str()), Some(".header"));
    assert_eq!(idx.lookup(99).map(|s| s.as_str()), Some(".header"));
    assert_eq!(idx.lookup(100).map(|s| s.as_str()), Some(".text"));
    assert_eq!(idx.lookup(149).map(|s| s.as_str()), Some(".text"));
    assert_eq!(idx.lookup(150).map(|s| s.as_str()), Some(".data"));
    assert_eq!(idx.lookup(159).map(|s| s.as_str()), Some(".data"));
    assert_eq!(idx.lookup(160), None);
    assert_eq!(idx.lookup(1000), None);
}

#[test]
fn section_ranges_gap_returns_none() {
    let mut idx = SectionRanges::new();
    idx.insert(10, 5, "a".to_string());
    idx.insert(100, 5, "b".to_string());
    assert_eq!(idx.lookup(5), None);
    assert_eq!(idx.lookup(50), None);
    assert_eq!(idx.lookup(12).map(|s| s.as_str()), Some("a"));
}
