//! Inspector behavior on hand-assembled Mach-O and PE images: external
//! relocations of an object file, the first slice of a fat binary, and the
//! PE parse path.

use weaklink::exports::dylib_exports;
use weaklink::imports::archive_imports;

fn push_u16(v: &mut Vec<u8>, x: u16) {
    v.extend_from_slice(&x.to_le_bytes());
}

fn push_u32(v: &mut Vec<u8>, x: u32) {
    v.extend_from_slice(&x.to_le_bytes());
}

fn push_u64(v: &mut Vec<u8>, x: u64) {
    v.extend_from_slice(&x.to_le_bytes());
}

fn push_u32_be(v: &mut Vec<u8>, x: u32) {
    v.extend_from_slice(&x.to_be_bytes());
}

fn name16(name: &str) -> [u8; 16] {
    let mut out = [0u8; 16];
    out[..name.len()].copy_from_slice(name.as_bytes());
    out
}

/// A minimal x86-64 Mach-O object file with one section, two relocations
/// (one external against `_printf`, one local), and a two-entry symbol
/// table.
fn macho_object() -> Vec<u8> {
    // Layout: header (32) | LC_SEGMENT_64 (72 + 80) | LC_SYMTAB (24)
    //         | relocs (2*8) | nlist (2*16) | strtab (16)
    let reloc_off = 32 + 152 + 24;
    let sym_off = reloc_off + 16;
    let str_off = sym_off + 32;
    let strtab: &[u8] = b"\0_printf\0_local\0";
    let total = str_off + strtab.len();

    let mut v = Vec::new();
    push_u32(&mut v, 0xfeedfacf); // MH_MAGIC_64
    push_u32(&mut v, 0x0100_0007); // CPU_TYPE_X86_64
    push_u32(&mut v, 3); // cpusubtype
    push_u32(&mut v, 1); // MH_OBJECT
    push_u32(&mut v, 2); // ncmds
    push_u32(&mut v, 152 + 24); // sizeofcmds
    push_u32(&mut v, 0); // flags
    push_u32(&mut v, 0); // reserved

    // LC_SEGMENT_64 with one section.
    push_u32(&mut v, 0x19);
    push_u32(&mut v, 152);
    v.extend_from_slice(&name16(""));
    push_u64(&mut v, 0); // vmaddr
    push_u64(&mut v, 0); // vmsize
    push_u64(&mut v, 0); // fileoff
    push_u64(&mut v, 0); // filesize
    push_u32(&mut v, 7); // maxprot
    push_u32(&mut v, 5); // initprot
    push_u32(&mut v, 1); // nsects
    push_u32(&mut v, 0); // flags
    // section_64 __text
    v.extend_from_slice(&name16("__text"));
    v.extend_from_slice(&name16("__TEXT"));
    push_u64(&mut v, 0); // addr
    push_u64(&mut v, 0); // size
    push_u32(&mut v, 0); // offset
    push_u32(&mut v, 0); // align
    push_u32(&mut v, reloc_off as u32); // reloff
    push_u32(&mut v, 2); // nreloc
    push_u32(&mut v, 0); // flags
    push_u32(&mut v, 0);
    push_u32(&mut v, 0);
    push_u32(&mut v, 0);

    // LC_SYMTAB
    push_u32(&mut v, 0x2);
    push_u32(&mut v, 24);
    push_u32(&mut v, sym_off as u32);
    push_u32(&mut v, 2); // nsyms
    push_u32(&mut v, str_off as u32);
    push_u32(&mut v, strtab.len() as u32);

    // Relocations: r_address, then r_info
    // (symbolnum | pcrel<<24 | length<<25 | extern<<27 | type<<28).
    push_u32(&mut v, 4);
    push_u32(&mut v, 0 | (1 << 24) | (2 << 25) | (1 << 27)); // external, sym 0
    push_u32(&mut v, 12);
    push_u32(&mut v, 1 | (1 << 24) | (2 << 25)); // local, section 1

    // nlist_64: _printf undefined external; _local defined in section 1.
    push_u32(&mut v, 1); // n_strx
    v.push(0x01); // n_type: N_UNDF | N_EXT
    v.push(0); // n_sect
    push_u16(&mut v, 0); // n_desc
    push_u64(&mut v, 0); // n_value
    push_u32(&mut v, 9);
    v.push(0x0f); // n_type: N_SECT | N_EXT
    v.push(1);
    push_u16(&mut v, 0);
    push_u64(&mut v, 0x10);

    v.extend_from_slice(strtab);
    assert_eq!(v.len(), total);
    v
}

/// A fat (multi-architecture) container holding one x86-64 slice.
fn fat_of(macho: &[u8]) -> Vec<u8> {
    let mut v = Vec::new();
    push_u32_be(&mut v, 0xcafebabe); // FAT_MAGIC
    push_u32_be(&mut v, 1); // nfat_arch
    push_u32_be(&mut v, 0x0100_0007); // cputype x86-64
    push_u32_be(&mut v, 3); // cpusubtype
    push_u32_be(&mut v, 64); // offset
    push_u32_be(&mut v, macho.len() as u32); // size
    push_u32_be(&mut v, 2); // align
    while v.len() < 64 {
        v.push(0);
    }
    v.extend_from_slice(macho);
    v
}

/// A minimal PE32+ DLL with one section and no export directory.
fn pe_dylib() -> Vec<u8> {
    let mut v = Vec::new();
    // DOS header: magic and e_lfanew = 0x40.
    v.extend_from_slice(b"MZ");
    while v.len() < 0x3c {
        v.push(0);
    }
    push_u32(&mut v, 0x40);
    // PE signature.
    v.extend_from_slice(b"PE\0\0");
    // COFF header.
    push_u16(&mut v, 0x8664); // machine
    push_u16(&mut v, 1); // number of sections
    push_u32(&mut v, 0); // timestamp
    push_u32(&mut v, 0); // symbol table
    push_u32(&mut v, 0); // symbol count
    push_u16(&mut v, 240); // optional header size
    push_u16(&mut v, 0x2022); // characteristics: EXECUTABLE | DLL
    // Optional header, PE32+.
    push_u16(&mut v, 0x20b); // magic
    v.push(2); // linker major
    v.push(0); // linker minor
    push_u32(&mut v, 0x200); // size of code
    push_u32(&mut v, 0); // size of initialized data
    push_u32(&mut v, 0); // size of uninitialized data
    push_u32(&mut v, 0x1000); // entry point
    push_u32(&mut v, 0x1000); // base of code
    push_u64(&mut v, 0x1_8000_0000); // image base
    push_u32(&mut v, 0x1000); // section alignment
    push_u32(&mut v, 0x200); // file alignment
    push_u16(&mut v, 6); // OS major
    push_u16(&mut v, 0); // OS minor
    push_u16(&mut v, 0); // image major
    push_u16(&mut v, 0); // image minor
    push_u16(&mut v, 6); // subsystem major
    push_u16(&mut v, 0); // subsystem minor
    push_u32(&mut v, 0); // win32 version
    push_u32(&mut v, 0x2000); // size of image
    push_u32(&mut v, 0x200); // size of headers
    push_u32(&mut v, 0); // checksum
    push_u16(&mut v, 2); // subsystem: GUI
    push_u16(&mut v, 0); // dll characteristics
    push_u64(&mut v, 0x100000); // stack reserve
    push_u64(&mut v, 0x1000); // stack commit
    push_u64(&mut v, 0x100000); // heap reserve
    push_u64(&mut v, 0x1000); // heap commit
    push_u32(&mut v, 0); // loader flags
    push_u32(&mut v, 16); // number of data directories
    for _ in 0..16 {
        push_u64(&mut v, 0); // empty data directories
    }
    // Section table: .text
    v.extend_from_slice(b".text\0\0\0");
    push_u32(&mut v, 0x100); // virtual size
    push_u32(&mut v, 0x1000); // virtual address
    push_u32(&mut v, 0x200); // size of raw data
    push_u32(&mut v, 0x200); // pointer to raw data
    push_u32(&mut v, 0); // relocations
    push_u32(&mut v, 0); // line numbers
    push_u16(&mut v, 0); // nreloc
    push_u16(&mut v, 0); // nlinenum
    push_u32(&mut v, 0x6000_0020); // characteristics: CODE | R | X
    // Raw section data.
    while v.len() < 0x400 {
        v.push(0);
    }
    v
}

#[test]
fn macho_external_relocations_are_imports() {
    let imports = archive_imports(&macho_object()).unwrap();
    let got: Vec<&str> = imports.iter().map(|i| i.name.as_str()).collect();
    assert_eq!(got, vec!["_printf"]);
}

#[test]
fn fat_binary_first_slice_is_inspected() {
    let imports = archive_imports(&fat_of(&macho_object())).unwrap();
    let got: Vec<&str> = imports.iter().map(|i| i.name.as_str()).collect();
    assert_eq!(got, vec!["_printf"]);
}

#[test]
fn macho_object_has_no_exports() {
    // An object file has no export trie; the export list is empty.
    let exports = dylib_exports(&macho_object()).unwrap();
    assert!(exports.is_empty());
}

#[test]
fn pe_without_export_directory_has_no_exports() {
    let exports = dylib_exports(&pe_dylib()).unwrap();
    assert!(exports.is_empty());
}
