//! The trusted boundary around the object-file parser.
//!
//! Every function here converts what the `goblin` crate parsed out of a byte
//! buffer into plain records; the verified inspector logic in
//! [`crate::exports`] and [`crate::imports`] works on those records alone.
//! Parsing is a function of the bytes, so the byte-level scans are named by
//! uninterpreted spec functions that the wrappers' contracts apply.

use vstd::prelude::*;

verus! {

/// Container format detected in a byte buffer.
pub enum ObjKind {
    Elf,
    Mach,
    Pe,
    Coff,
    Archive,
    /// A recognized container this crate does not inspect, with its
    /// description.
    Other(String),
    /// The buffer could not be parsed, with the parser's message.
    ParseError(String),
}

/// The mathematical value of [`ObjKind`].
pub enum ObjKindV {
    Elf,
    Mach,
    Pe,
    Coff,
    Archive,
    Other(Seq<char>),
    ParseError(Seq<char>),
}

impl View for ObjKind {
    type V = ObjKindV;

    open spec fn view(&self) -> ObjKindV {
        match self {
            ObjKind::Elf => ObjKindV::Elf,
            ObjKind::Mach => ObjKindV::Mach,
            ObjKind::Pe => ObjKindV::Pe,
            ObjKind::Coff => ObjKindV::Coff,
            ObjKind::Archive => ObjKindV::Archive,
            ObjKind::Other(s) => ObjKindV::Other(s@),
            ObjKind::ParseError(s) => ObjKindV::ParseError(s@),
        }
    }
}

/// One entry of an ELF dynamic-symbol table, as plain values: its name (when
/// the string table resolves it), whether it is defined (not an undefined
/// import), and the name of its section (when the section index resolves).
pub struct ElfDynSym {
    pub name: Option<String>,
    pub defined: bool,
    pub section_name: Option<String>,
}

impl View for ElfDynSym {
    type V = (Option<Seq<char>>, bool, Option<Seq<char>>);

    open spec fn view(&self) -> (Option<Seq<char>>, bool, Option<Seq<char>>) {
        (
            match &self.name {
                Some(s) => Some(s@),
                None => None,
            },
            self.defined,
            match &self.section_name {
                Some(s) => Some(s@),
                None => None,
            },
        )
    }
}

/// One symbol referenced by an ELF relocation: its name, goblin's import
/// flag, and its section index.
pub struct ElfRelocSym {
    pub name: Option<String>,
    pub is_import: bool,
    pub section_index: u64,
}

impl View for ElfRelocSym {
    type V = (Option<Seq<char>>, bool, u64);

    open spec fn view(&self) -> (Option<Seq<char>>, bool, u64) {
        (
            match &self.name {
                Some(s) => Some(s@),
                None => None,
            },
            self.is_import,
            self.section_index,
        )
    }
}

/// One COFF symbol-table entry: its section number and its resolved name.
pub struct CoffSym {
    pub section_number: i16,
    pub name: Option<String>,
}

impl View for CoffSym {
    type V = (i16, Option<Seq<char>>);

    open spec fn view(&self) -> (i16, Option<Seq<char>>) {
        (
            self.section_number,
            match &self.name {
                Some(s) => Some(s@),
                None => None,
            },
        )
    }
}

/// One section span: starting offset (file offset or RVA), size, and display
/// name.
pub struct SectionSpan {
    pub offset: u64,
    pub size: u64,
    pub name: String,
}

impl View for SectionSpan {
    type V = (u64, u64, Seq<char>);

    open spec fn view(&self) -> (u64, u64, Seq<char>) {
        (self.offset, self.size, self.name@)
    }
}

/// One Mach-O export-trie entry: its name and file offset.
pub struct MachExport {
    pub name: String,
    pub offset: u64,
}

impl View for MachExport {
    type V = (Seq<char>, u64);

    open spec fn view(&self) -> (Seq<char>, u64) {
        (self.name@, self.offset)
    }
}

/// One Mach-O relocation record: whether it is external, and the referenced
/// symbol's name (fetched only for external relocations).
pub struct MachRelocSym {
    pub is_external: bool,
    pub name: Option<String>,
}

impl View for MachRelocSym {
    type V = (bool, Option<Seq<char>>);

    open spec fn view(&self) -> (bool, Option<Seq<char>>) {
        (
            self.is_external,
            match &self.name {
                Some(s) => Some(s@),
                None => None,
            },
        )
    }
}

/// One PE export-directory entry: its name (absent for ordinal exports) and
/// its RVA.
pub struct PeExport {
    pub name: Option<String>,
    pub rva: u64,
}

impl View for PeExport {
    type V = (Option<Seq<char>>, u64);

    open spec fn view(&self) -> (Option<Seq<char>>, u64) {
        (
            match &self.name {
                Some(s) => Some(s@),
                None => None,
            },
            self.rva,
        )
    }
}

/// The values of a sequence of records.
pub open spec fn rec_views<T: View>(v: Seq<T>) -> Seq<T::V> {
    v.map_values(|r: T| r@)
}

/// The values of an optional vector of records.
pub open spec fn opt_rec_views<T: View>(v: Option<Vec<T>>) -> Option<Seq<T::V>> {
    match v {
        Some(v) => Some(rec_views(v@)),
        None => None,
    }
}

/// Container format that `goblin::Object::parse` detects in `b`.
pub uninterp spec fn obj_kind_of(b: Seq<u8>) -> ObjKindV;

/// The ELF dynamic-symbol table of `b`, with names and section names
/// resolved; `None` when `b` is not parseable as ELF.
pub uninterp spec fn elf_dynsyms_of(b: Seq<u8>) -> Option<
    Seq<(Option<Seq<char>>, bool, Option<Seq<char>>)>,
>;

/// The symbols referenced by the ELF relocation sections of `b`, in section
/// then relocation order; `None` when `b` is not parseable as ELF.
pub uninterp spec fn elf_reloc_syms_of(b: Seq<u8>) -> Option<Seq<(Option<Seq<char>>, bool, u64)>>;

/// The COFF symbol table of `b`; `None` when `b` is not parseable as COFF.
pub uninterp spec fn coff_syms_of(b: Seq<u8>) -> Option<Seq<(i16, Option<Seq<char>>)>>;

/// The PE section spans and export directory of `b`: `None` when `b` is not
/// parseable as PE; otherwise the parser's error message or the two lists.
pub uninterp spec fn pe_scan_of(b: Seq<u8>) -> Option<
    Result<(Seq<(u64, u64, Seq<char>)>, Seq<(Option<Seq<char>>, u64)>), Seq<char>>,
>;

/// The extractable members of the archive `b`, as byte buffers; `None` when
/// `b` is not parseable as an archive.
pub uninterp spec fn ar_members_of(b: Seq<u8>) -> Option<Seq<Seq<u8>>>;

/// Relies on `goblin::Object::parse`: the container format of the buffer,
/// one tag per variant, with the parser's message on failure and the debug
/// description of containers this crate does not inspect.
#[verifier::external_body]
pub fn object_tag(data: &Vec<u8>) -> (r: ObjKind)
    ensures
        r@ == obj_kind_of(data@),
{
    match goblin::Object::parse(data) {
        Ok(goblin::Object::Elf(_)) => ObjKind::Elf,
        Ok(goblin::Object::Mach(_)) => ObjKind::Mach,
        Ok(goblin::Object::PE(_)) => ObjKind::Pe,
        Ok(goblin::Object::COFF(_)) => ObjKind::Coff,
        Ok(goblin::Object::Archive(_)) => ObjKind::Archive,
        Ok(o) => ObjKind::Other(format!("{:?}", o)),
        Err(e) => ObjKind::ParseError(e.to_string()),
    }
}

/// Relies on `goblin::elf::Elf`: each dynamic symbol with its name from the
/// dynamic string table, goblin's import flag, and its section-header name.
#[verifier::external_body]
pub fn elf_dynsym_records(data: &Vec<u8>) -> (r: Option<Vec<ElfDynSym>>)
    ensures
        opt_rec_views(r) == elf_dynsyms_of(data@),
{
    let elf = match goblin::Object::parse(data) {
        Ok(goblin::Object::Elf(elf)) => elf,
        _ => return None,
    };
    Some(elf.dynsyms.iter().map(|sym| ElfDynSym {
        name: elf.dynstrtab.get_at(sym.st_name).map(|s| s.to_string()),
        defined: !sym.is_import(),
        section_name: elf.section_headers.get(sym.st_shndx)
            .and_then(|sh| elf.shdr_strtab.get_at(sh.sh_name)).map(|s| s.to_string()),
    }).collect())
}

/// Relies on `goblin::elf::Elf`: for each relocation of every relocation
/// section, the referenced symbol with its name from the string table,
/// goblin's import flag, and its section index.
#[verifier::external_body]
pub fn elf_reloc_records(data: &Vec<u8>) -> (r: Option<Vec<ElfRelocSym>>)
    ensures
        opt_rec_views(r) == elf_reloc_syms_of(data@),
{
    let elf = match goblin::Object::parse(data) {
        Ok(goblin::Object::Elf(elf)) => elf,
        _ => return None,
    };
    let mut out = Vec::new();
    for (_, rsection) in &elf.shdr_relocs {
        for reloc in rsection {
            if let Some(sym) = elf.syms.get(reloc.r_sym) {
                let name = elf.strtab.get_at(sym.st_name).map(|s| s.to_string());
                out.push(ElfRelocSym { name, is_import: sym.is_import(), section_index: sym.st_shndx as u64 });
            }
        }
    }
    Some(out)
}

/// Relies on `goblin::pe::Coff`: every symbol-table entry with its section
/// number and its name resolved through the string table.  Without a string
/// table or symbol table the list is empty, as the walk would find nothing.
#[verifier::external_body]
pub fn coff_sym_records(data: &Vec<u8>) -> (r: Option<Vec<CoffSym>>)
    ensures
        opt_rec_views(r) == coff_syms_of(data@),
{
    let coff = match goblin::Object::parse(data) {
        Ok(goblin::Object::COFF(coff)) => coff,
        _ => return None,
    };
    let strtab = match coff.header.strings(data) { Ok(Some(s)) => s, _ => return Some(Vec::new()) };
    let symtab = match coff.header.symbols(data) { Ok(Some(s)) => s, _ => return Some(Vec::new()) };
    Some(symtab.iter().map(|(_, _, sym)| CoffSym {
        section_number: sym.section_number,
        name: sym.name(&strtab).ok().map(|s| s.to_string()),
    }).collect())
}

/// The outcome of scanning a PE image.
pub struct PeScan {
    pub sections: Vec<SectionSpan>,
    pub exports: Vec<PeExport>,
}

/// The values of an optional PE scan result.
pub open spec fn opt_pe_scan_views(v: &Option<Result<PeScan, String>>) -> Option<
    Result<(Seq<(u64, u64, Seq<char>)>, Seq<(Option<Seq<char>>, u64)>), Seq<char>>,
> {
    match v {
        Some(Ok(scan)) => Some(Ok((rec_views(scan.sections@), rec_views(scan.exports@)))),
        Some(Err(msg)) => Some(Err(msg@)),
        None => None,
    }
}

/// Relies on `goblin::pe::PE`: the section table (virtual address, virtual
/// size, name) and the export directory (name, RVA); a section-name error
/// surfaces as the parser's message.
#[verifier::external_body]
pub fn pe_scan_records(data: &Vec<u8>) -> (r: Option<Result<PeScan, String>>)
    ensures
        opt_pe_scan_views(&r) == pe_scan_of(data@),
{
    let pe = match goblin::Object::parse(data) {
        Ok(goblin::Object::PE(pe)) => pe,
        _ => return None,
    };
    let mut sections = Vec::new();
    for sec in &pe.sections {
        match sec.name() {
            Ok(n) => sections.push(SectionSpan { offset: sec.virtual_address as u64, size: sec.virtual_size as u64, name: n.to_string() }),
            Err(e) => return Some(Err(e.to_string())),
        }
    }
    let exports = pe.exports.iter().map(|e| PeExport { name: e.name.map(|s| s.to_string()), rva: e.rva as u64 }).collect();
    Some(Ok(PeScan { sections, exports }))
}

/// The values of an optional list of member buffers.
pub open spec fn opt_member_views(v: &Option<Vec<Vec<u8>>>) -> Option<Seq<Seq<u8>>> {
    match v {
        Some(ms) => Some(ms@.map_values(|m: Vec<u8>| m@)),
        None => None,
    }
}

/// Relies on `goblin::archive::Archive`: each extractable member of the
/// archive as its own buffer.  A member is a strict sub-range of the buffer
/// past the archive magic, so it is strictly shorter than the input.
#[verifier::external_body]
pub fn archive_member_buffers(data: &Vec<u8>) -> (r: Option<Vec<Vec<u8>>>)
    ensures
        opt_member_views(&r) == ar_members_of(data@),
        r matches Some(ms) ==> forall|i: int|
            0 <= i < ms@.len() ==> #[trigger] ms@[i]@.len() < data@.len(),
{
    let archive = match goblin::Object::parse(data) {
        Ok(goblin::Object::Archive(a)) => a,
        _ => return None,
    };
    let mut out = Vec::new();
    for name in archive.members() {
        if let Ok(slice) = archive.extract(name, data) {
            out.push(slice.to_vec());
        }
    }
    Some(out)
}

#[verifier::external_type_specification]
#[verifier::external_body]
pub struct ExMachO<'a>(goblin::mach::MachO<'a>);

/// Relies on `goblin::mach::Mach::parse` and `MultiArch::get`: the Mach-O
/// binary, or the first slice of a fat binary; a first slice that is not a
/// Mach-O, and any parse failure, surface as a message.
#[verifier::external_body]
pub fn mach_object<'a>(data: &'a Vec<u8>) -> (r: Result<goblin::mach::MachO<'a>, String>) {
    match goblin::mach::Mach::parse(data) {
        Ok(goblin::mach::Mach::Binary(m)) => Ok(m),
        Ok(goblin::mach::Mach::Fat(multi)) => match multi.get(0) {
            Ok(goblin::mach::SingleArch::MachO(m)) => Ok(m),
            Ok(goblin::mach::SingleArch::Archive(_)) => Err(
                "The first object in a multiarch binary is not MachO".to_string(),
            ),
            Err(e) => Err(e.to_string()),
        },
        Err(e) => Err(e.to_string()),
    }
}

/// Relies on `goblin::mach::segment::Sections` and `Section::{segname,
/// name}`: every section of every segment as a span over file offsets, named
/// `segment.section`; a name error surfaces as the parser's message.
#[verifier::external_body]
pub fn macho_section_spans(m: &goblin::mach::MachO<'_>) -> (r: Result<Vec<SectionSpan>, String>) {
    let mut out = Vec::new();
    for sec in m.segments.sections().flatten() {
        if let Ok((sec, _)) = sec {
            let seg = sec.segname().map_err(|e| e.to_string())?;
            let name = sec.name().map_err(|e| e.to_string())?;
            out.push(SectionSpan { offset: sec.offset as u64, size: sec.size, name: format!("{}.{}", seg, name) });
        }
    }
    Ok(out)
}

/// Relies on `goblin::mach::MachO::exports`: the export-trie entries, each
/// with its name and file offset.
#[verifier::external_body]
pub fn macho_export_records(m: &goblin::mach::MachO<'_>) -> (r: Result<Vec<MachExport>, String>) {
    match m.exports() {
        Ok(exports) => Ok(exports.into_iter().map(|e| MachExport {
            name: e.name,
            offset: e.offset,
        }).collect()),
        Err(e) => Err(e.to_string()),
    }
}

/// Relies on `goblin::mach::MachO::relocations` and `Symbols::get`: every
/// relocation with its external flag; for an external relocation the
/// referenced symbol's name is resolved (a lookup error surfaces as the
/// parser's message, as the walk would stop there).  Without a symbol table
/// the list is empty.
#[verifier::external_body]
pub fn macho_reloc_records(m: &goblin::mach::MachO<'_>) -> (r: Result<Vec<MachRelocSym>, String>) {
    let symbols = match m.symbols.as_ref() { Some(s) => s, None => return Ok(Vec::new()) };
    let mut out = Vec::new();
    for (_, riter, _) in m.relocations().map_err(|e| e.to_string())? {
        for reloc in riter {
            let r = reloc.map_err(|e| e.to_string())?;
            let name = if r.is_extern() {
                Some(symbols.get(r.r_symbolnum()).map_err(|e| e.to_string())?.0.to_string())
            } else { None };
            out.push(MachRelocSym { is_external: r.is_extern(), name });
        }
    }
    Ok(out)
}

} // verus!
