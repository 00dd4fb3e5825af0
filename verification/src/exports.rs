//! Extraction of exported symbols from dynamic libraries: ELF dynamic
//! symbols, the Mach-O export trie (including the first slice of a fat
//! binary), and the PE export directory, each annotated with the containing
//! section through the section range index.

use vstd::prelude::*;

use crate::errors::{InspectError, InspectErrorV};
use crate::object::{
    elf_dynsym_records, elf_dynsyms_of, mach_object, macho_export_records, macho_section_spans,
    obj_kind_of, object_tag, pe_scan_of, pe_scan_records, rec_views, ElfDynSym, MachExport,
    ObjKind, ObjKindV, PeScan, SectionSpan,
};

verus! {

/// One exported symbol.
pub struct Export {
    /// Name of the exported symbol.
    ///
    /// Name-less symbols (including ordinal exports on Windows) are skipped.
    pub name: String,
    /// Image section name, or `None` if the export could not be mapped to
    /// any image section (unusual).
    ///
    /// On macOS this holds a combination of segment and section names,
    /// e.g. `__TEXT.__text`.
    pub section: Option<String>,
}

impl View for Export {
    type V = (Seq<char>, Option<Seq<char>>);

    open spec fn view(&self) -> (Seq<char>, Option<Seq<char>>) {
        (
            self.name@,
            match &self.section {
                Some(s) => Some(s@),
                None => None,
            },
        )
    }
}

/// Whether some export in `s` already bears `name`.
pub open spec fn contains_export_name(s: Seq<(Seq<char>, Option<Seq<char>>)>, name: Seq<char>) -> bool {
    exists|k: int| 0 <= k < s.len() && s[k].0 == name
}

/// The index is sorted by starting offset.
pub open spec fn ranges_sorted(rs: Seq<(u64, u64, Seq<char>)>) -> bool {
    forall|i: int, j: int| 0 <= i < j < rs.len() ==> rs[i].0 <= rs[j].0
}

/// First position whose starting offset is at least `off`.
pub open spec fn spec_first_ge(rs: Seq<(u64, u64, Seq<char>)>, off: u64) -> int
    decreases rs.len(),
{
    if rs.len() == 0 {
        0
    } else if rs.first().0 >= off {
        0
    } else {
        1 + spec_first_ge(rs.drop_first(), off)
    }
}

/// Last position whose starting offset is at most `off`.
pub open spec fn spec_last_le(rs: Seq<(u64, u64, Seq<char>)>, off: u64) -> Option<int>
    decreases rs.len(),
{
    if rs.len() == 0 {
        None
    } else if rs.last().0 <= off {
        Some(rs.len() - 1)
    } else {
        spec_last_le(rs.drop_last(), off)
    }
}

/// What one insertion does: the entry lands at its lower bound.
pub open spec fn spec_insert_range(
    rs: Seq<(u64, u64, Seq<char>)>,
    entry: (u64, u64, Seq<char>),
) -> Seq<(u64, u64, Seq<char>)> {
    rs.insert(spec_first_ge(rs, entry.0), entry)
}

/// What a lookup returns: the name of the section whose starting offset is
/// the greatest value at most `off`, provided its size reaches past `off`.
pub open spec fn spec_lookup_range(rs: Seq<(u64, u64, Seq<char>)>, off: u64) -> Option<Seq<char>> {
    match spec_last_le(rs, off) {
        Some(j) => if off - rs[j].0 < rs[j].1 {
            Some(rs[j].2)
        } else {
            None
        },
        None => None,
    }
}

proof fn lemma_first_ge_props(rs: Seq<(u64, u64, Seq<char>)>, off: u64)
    ensures
        0 <= spec_first_ge(rs, off) <= rs.len(),
        forall|k: int| 0 <= k < spec_first_ge(rs, off) ==> rs[k].0 < off,
        ranges_sorted(rs) ==> forall|k: int|
            spec_first_ge(rs, off) <= k < rs.len() ==> rs[k].0 >= off,
    decreases rs.len(),
{
    if rs.len() > 0 && rs.first().0 < off {
        lemma_first_ge_props(rs.drop_first(), off);
        assert forall|k: int| 0 <= k < spec_first_ge(rs, off) implies rs[k].0 < off by {
            if k > 0 {
                assert(rs[k] == rs.drop_first()[k - 1]);
            }
        }
        if ranges_sorted(rs) {
            assert forall|k: int| spec_first_ge(rs, off) <= k < rs.len() implies rs[k].0 >= off by {
                assert(ranges_sorted(rs.drop_first())) by {
                    assert(forall|a: int, b: int|
                        0 <= a < b < rs.drop_first().len() ==> rs.drop_first()[a]
                            == rs[a + 1] && rs.drop_first()[b] == rs[b + 1]);
                }
                assert(rs[k] == rs.drop_first()[k - 1]);
            }
        }
    }
}

proof fn lemma_last_le_props(rs: Seq<(u64, u64, Seq<char>)>, off: u64)
    requires
        ranges_sorted(rs),
    ensures
        match spec_last_le(rs, off) {
            Some(j) => 0 <= j < rs.len() && rs[j].0 <= off && forall|k: int|
                j < k < rs.len() ==> rs[k].0 > off,
            None => forall|k: int| 0 <= k < rs.len() ==> rs[k].0 > off,
        },
    decreases rs.len(),
{
    if rs.len() > 0 && !(rs.last().0 <= off) {
        assert(ranges_sorted(rs.drop_last())) by {
            assert(forall|a: int, b: int|
                0 <= a < b < rs.drop_last().len() ==> rs.drop_last()[a] == rs[a]
                    && rs.drop_last()[b] == rs[b]);
        }
        lemma_last_le_props(rs.drop_last(), off);
        match spec_last_le(rs.drop_last(), off) {
            Some(j) => {
                assert(rs[j] == rs.drop_last()[j]);
                assert forall|k: int| j < k < rs.len() implies rs[k].0 > off by {
                    if k < rs.len() - 1 {
                        assert(rs[k] == rs.drop_last()[k]);
                    }
                }
            },
            None => {
                assert forall|k: int| 0 <= k < rs.len() implies rs[k].0 > off by {
                    if k < rs.len() - 1 {
                        assert(rs[k] == rs.drop_last()[k]);
                    }
                }
            },
        }
    }
}

/// The section range index: `(offset, size, name)` spans kept sorted by
/// offset; insertion and lookup are binary searches.  Overlapping ranges are
/// not intended; on overlap the lookup picks the latest-starting candidate.
pub struct SectionRanges {
    ranges: Vec<SectionSpan>,
}

impl SectionRanges {
    /// The spans as a mathematical sequence.
    pub closed spec fn view(&self) -> Seq<(u64, u64, Seq<char>)> {
        rec_views(self.ranges@)
    }

    /// The index is sorted by starting offset.
    pub open spec fn wf(&self) -> bool {
        ranges_sorted(self.view())
    }

    /// An empty index.
    pub fn new() -> (r: SectionRanges)
        ensures
            r.wf(),
            r.view() == Seq::<(u64, u64, Seq<char>)>::empty(),
    {
        let r = SectionRanges { ranges: Vec::new() };
        proof {
            assert(r.view() =~= Seq::<(u64, u64, Seq<char>)>::empty());
        }
        r
    }

    /// Insert a span at its lower bound, keeping the index sorted.
    #[verifier::loop_isolation(false)]
    pub fn insert(&mut self, offset: u64, size: u64, name: String)
        requires
            old(self).wf(),
        ensures
            final(self).wf(),
            final(self).view() == spec_insert_range(old(self).view(), (offset, size, name@)),
    {
        let ghost rs = self.view();
        let mut lo: usize = 0;
        let mut hi: usize = self.ranges.len();
        while lo < hi
            invariant
                lo <= hi <= rs.len(),
                forall|k: int| 0 <= k < lo ==> rs[k].0 < offset,
                forall|k: int| hi <= k < rs.len() ==> rs[k].0 >= offset,
            decreases hi - lo,
        {
            let mid = lo + (hi - lo) / 2;
            proof {
                assert(rs[mid as int] == self.ranges@[mid as int]@);
            }
            if self.ranges[mid].offset < offset {
                lo = mid + 1;
            } else {
                hi = mid;
            }
        }
        proof {
            lemma_first_ge_props(rs, offset);
            let p = spec_first_ge(rs, offset);
            // `lo` and `p` both split the sorted sequence at `offset`.
            if p < lo {
                assert(rs[p].0 < offset);
                assert(false);
            }
            if lo < p {
                assert(rs[lo as int].0 < offset);
                assert(false);
            }
        }
        self.ranges.insert(lo, SectionSpan { offset, size, name });
        proof {
            assert(self.view() =~= spec_insert_range(rs, (offset, size, name@)));
            let nv = self.view();
            lemma_first_ge_props(rs, offset);
            assert forall|i: int, j: int| 0 <= i < j < nv.len() implies nv[i].0 <= nv[j].0 by {
                let p = lo as int;
                if i < p && j > p {
                    assert(nv[i] == rs[i] && nv[j] == rs[j - 1]);
                } else if i < p && j == p {
                    assert(nv[i] == rs[i]);
                } else if i == p && j > p {
                    assert(nv[j] == rs[j - 1]);
                } else if i < p && j < p {
                    assert(nv[i] == rs[i] && nv[j] == rs[j]);
                } else if i > p && j > p {
                    assert(nv[i] == rs[i - 1] && nv[j] == rs[j - 1]);
                }
            }
        }
    }

    /// Look up the section containing `offset`, per the tie-break rule: the
    /// candidate is the last span starting at or before `offset`, and it
    /// must reach strictly past `offset`.
    #[verifier::loop_isolation(false)]
    pub fn lookup(&self, offset: u64) -> (r: Option<&String>)
        requires
            self.wf(),
        ensures
            match r {
                Some(name) => spec_lookup_range(self.view(), offset) == Some(name@),
                None => spec_lookup_range(self.view(), offset) is None,
            },
    {
        let ghost rs = self.view();
        let mut lo: usize = 0;
        let mut hi: usize = self.ranges.len();
        while lo < hi
            invariant
                lo <= hi <= rs.len(),
                forall|k: int| 0 <= k < lo ==> rs[k].0 <= offset,
                forall|k: int| hi <= k < rs.len() ==> rs[k].0 > offset,
            decreases hi - lo,
        {
            let mid = lo + (hi - lo) / 2;
            proof {
                assert(rs[mid as int] == self.ranges@[mid as int]@);
            }
            if self.ranges[mid].offset <= offset {
                lo = mid + 1;
            } else {
                hi = mid;
            }
        }
        proof {
            lemma_last_le_props(rs, offset);
        }
        if lo > 0 {
            proof {
                match spec_last_le(rs, offset) {
                    Some(j) => {
                        if j < lo - 1 {
                            assert(rs[lo as int - 1].0 > offset);
                            assert(false);
                        }
                        if j > lo - 1 {
                            assert(rs[j].0 <= offset);
                            assert(false);
                        }
                    },
                    None => {
                        assert(rs[lo as int - 1].0 > offset);
                        assert(false);
                    },
                }
            }
            let entry = &self.ranges[lo - 1];
            proof {
                assert(entry@ == rs[lo as int - 1]);
            }
            if offset - entry.offset < entry.size {
                Some(&entry.name)
            } else {
                None
            }
        } else {
            proof {
                if spec_last_le(rs, offset) is Some {
                    let j = spec_last_le(rs, offset)->Some_0;
                    assert(rs[j].0 > offset);
                    assert(false);
                }
            }
            None
        }
    }
}

/// The section range index built by inserting every span in order.
pub open spec fn spec_build_ranges(sections: Seq<(u64, u64, Seq<char>)>) -> Seq<
    (u64, u64, Seq<char>),
>
    decreases sections.len(),
{
    if sections.len() == 0 {
        Seq::<(u64, u64, Seq<char>)>::empty()
    } else {
        spec_insert_range(spec_build_ranges(sections.drop_last()), sections.last())
    }
}

/// The exports extracted from an ELF dynamic-symbol table: every defined
/// symbol with a non-empty resolved name, first occurrence of each name
/// kept, annotated with its section-header name.
pub open spec fn spec_elf_exports(recs: Seq<(Option<Seq<char>>, bool, Option<Seq<char>>)>) -> Seq<
    (Seq<char>, Option<Seq<char>>),
>
    decreases recs.len(),
{
    if recs.len() == 0 {
        Seq::<(Seq<char>, Option<Seq<char>>)>::empty()
    } else {
        let prev = spec_elf_exports(recs.drop_last());
        let r = recs.last();
        if r.1 && r.0 is Some && r.0->0.len() > 0 && !contains_export_name(prev, r.0->0) {
            prev.push((r.0->0, r.2))
        } else {
            prev
        }
    }
}

/// The exports extracted from a Mach-O export trie: each entry annotated by
/// mapping its file offset through the section range index, first
/// occurrence of each name kept.
pub open spec fn spec_mach_exports(
    sections: Seq<(u64, u64, Seq<char>)>,
    exports: Seq<(Seq<char>, u64)>,
) -> Seq<(Seq<char>, Option<Seq<char>>)>
    decreases exports.len(),
{
    if exports.len() == 0 {
        Seq::<(Seq<char>, Option<Seq<char>>)>::empty()
    } else {
        let prev = spec_mach_exports(sections, exports.drop_last());
        let e = exports.last();
        if !contains_export_name(prev, e.0) {
            prev.push((e.0, spec_lookup_range(spec_build_ranges(sections), e.1)))
        } else {
            prev
        }
    }
}

/// The exports extracted from a PE export directory: every named export,
/// first occurrence of each name kept, annotated by mapping its RVA through
/// the section range index over virtual addresses.
pub open spec fn spec_pe_exports(
    sections: Seq<(u64, u64, Seq<char>)>,
    exports: Seq<(Option<Seq<char>>, u64)>,
) -> Seq<(Seq<char>, Option<Seq<char>>)>
    decreases exports.len(),
{
    if exports.len() == 0 {
        Seq::<(Seq<char>, Option<Seq<char>>)>::empty()
    } else {
        let prev = spec_pe_exports(sections, exports.drop_last());
        let e = exports.last();
        if e.0 is Some && !contains_export_name(prev, e.0->0) {
            prev.push((e.0->0, spec_lookup_range(spec_build_ranges(sections), e.1)))
        } else {
            prev
        }
    }
}

/// Every export name occurs once.
pub open spec fn exports_unique(s: Seq<(Seq<char>, Option<Seq<char>>)>) -> bool {
    forall|i: int, j: int| 0 <= i < j < s.len() ==> s[i].0 != s[j].0
}

/// Whether some export in `v` already bears `name`.
fn contains_name_exec(v: &Vec<Export>, name: &String) -> (r: bool)
    ensures
        r == contains_export_name(rec_views(v@), name@),
{
    let ghost sv = rec_views(v@);
    let mut i: usize = 0;
    while i < v.len()
        invariant
            i <= v@.len(),
            sv == rec_views(v@),
            forall|k: int| 0 <= k < i ==> sv[k].0 != name@,
        decreases v@.len() - i,
    {
        proof {
            assert(sv[i as int] == v@[i as int]@);
        }
        if v[i].name.eq(name) {
            return true;
        }
        i += 1;
    }
    proof {
        if contains_export_name(sv, name@) {
            let k = choose|k: int| 0 <= k < sv.len() && sv[k].0 == name@;
            assert(false);
        }
    }
    false
}

/// Build [`Export`] records from an ELF dynamic-symbol scan.
#[verifier::loop_isolation(false)]
pub fn elf_exports_from_records(recs: &Vec<ElfDynSym>) -> (r: Vec<Export>)
    ensures
        rec_views(r@) == spec_elf_exports(rec_views(recs@)),
        exports_unique(rec_views(r@)),
{
    let ghost rv = rec_views(recs@);
    let mut out: Vec<Export> = Vec::new();
    let mut i: usize = 0;
    proof {
        assert(rv.subrange(0, 0) =~= Seq::<(Option<Seq<char>>, bool, Option<Seq<char>>)>::empty());
        assert(rec_views(out@) =~= spec_elf_exports(rv.subrange(0, 0)));
    }
    while i < recs.len()
        invariant
            i <= recs@.len(),
            rec_views(out@) == spec_elf_exports(rv.subrange(0, i as int)),
            exports_unique(rec_views(out@)),
        decreases recs@.len() - i,
    {
        let ghost prev = rec_views(out@);
        proof {
            assert(rv.subrange(0, i + 1).drop_last() =~= rv.subrange(0, i as int));
            assert(rv.subrange(0, i + 1).last() == rv[i as int]);
            assert(rv[i as int] == recs@[i as int]@);
        }
        let rec = &recs[i];
        if rec.defined {
            if let Some(name) = &rec.name {
                if name.as_str().unicode_len() > 0 {
                    if !contains_name_exec(&out, name) {
                        let section = match &rec.section_name {
                            Some(s) => Some(s.clone()),
                            None => None,
                        };
                        out.push(Export { name: name.clone(), section });
                        proof {
                            assert(rec_views(out@) =~= prev.push((name@, rec@.2)));
                        }
                    }
                }
            }
        }
        i += 1;
    }
    proof {
        assert(rv.subrange(0, recs@.len() as int) =~= rv);
    }
    out
}

/// Build the section range index from a list of spans, in order.
#[verifier::loop_isolation(false)]
fn build_ranges(sections: &Vec<SectionSpan>) -> (r: SectionRanges)
    ensures
        r.wf(),
        r.view() == spec_build_ranges(rec_views(sections@)),
{
    let ghost sv = rec_views(sections@);
    let mut ranges = SectionRanges::new();
    let mut i: usize = 0;
    proof {
        assert(sv.subrange(0, 0) =~= Seq::<(u64, u64, Seq<char>)>::empty());
    }
    while i < sections.len()
        invariant
            i <= sections@.len(),
            ranges.wf(),
            ranges.view() == spec_build_ranges(sv.subrange(0, i as int)),
        decreases sections@.len() - i,
    {
        proof {
            assert(sv.subrange(0, i + 1).drop_last() =~= sv.subrange(0, i as int));
            assert(sv.subrange(0, i + 1).last() == sv[i as int]);
            assert(sv[i as int] == sections@[i as int]@);
        }
        let s = &sections[i];
        ranges.insert(s.offset, s.size, s.name.clone());
        i += 1;
    }
    proof {
        assert(sv.subrange(0, sections@.len() as int) =~= sv);
    }
    ranges
}

/// Build [`Export`] records from a Mach-O scan: the export-trie entries
/// annotated through the section range index.
#[verifier::loop_isolation(false)]
pub fn exports_from_mach_scan(sections: &Vec<SectionSpan>, exports: &Vec<MachExport>) -> (r: Vec<
    Export,
>)
    ensures
        rec_views(r@) == spec_mach_exports(rec_views(sections@), rec_views(exports@)),
        exports_unique(rec_views(r@)),
{
    let ghost sv = rec_views(sections@);
    let ghost ev = rec_views(exports@);
    let ranges = build_ranges(sections);
    let mut out: Vec<Export> = Vec::new();
    let mut i: usize = 0;
    proof {
        assert(ev.subrange(0, 0) =~= Seq::<(Seq<char>, u64)>::empty());
        assert(rec_views(out@) =~= spec_mach_exports(sv, ev.subrange(0, 0)));
    }
    while i < exports.len()
        invariant
            i <= exports@.len(),
            rec_views(out@) == spec_mach_exports(sv, ev.subrange(0, i as int)),
            exports_unique(rec_views(out@)),
        decreases exports@.len() - i,
    {
        let ghost prev = rec_views(out@);
        proof {
            assert(ev.subrange(0, i + 1).drop_last() =~= ev.subrange(0, i as int));
            assert(ev.subrange(0, i + 1).last() == ev[i as int]);
            assert(ev[i as int] == exports@[i as int]@);
        }
        let e = &exports[i];
        if !contains_name_exec(&out, &e.name) {
            let section = match ranges.lookup(e.offset) {
                Some(name) => Some(name.clone()),
                None => None,
            };
            out.push(Export { name: e.name.clone(), section });
            proof {
                assert(rec_views(out@) =~= prev.push(
                    (e.name@, spec_lookup_range(spec_build_ranges(sv), e.offset)),
                ));
            }
        }
        i += 1;
    }
    proof {
        assert(ev.subrange(0, exports@.len() as int) =~= ev);
    }
    out
}

/// Build [`Export`] records from a PE scan: the named export-directory
/// entries annotated through the section range index over virtual
/// addresses.
#[verifier::loop_isolation(false)]
pub fn exports_from_pe_scan(scan: &PeScan) -> (r: Vec<Export>)
    ensures
        rec_views(r@) == spec_pe_exports(rec_views(scan.sections@), rec_views(scan.exports@)),
        exports_unique(rec_views(r@)),
{
    let ghost sv = rec_views(scan.sections@);
    let ghost ev = rec_views(scan.exports@);
    let ranges = build_ranges(&scan.sections);
    let mut out: Vec<Export> = Vec::new();
    let mut i: usize = 0;
    proof {
        assert(ev.subrange(0, 0) =~= Seq::<(Option<Seq<char>>, u64)>::empty());
        assert(rec_views(out@) =~= spec_pe_exports(sv, ev.subrange(0, 0)));
    }
    while i < scan.exports.len()
        invariant
            i <= scan.exports@.len(),
            rec_views(out@) == spec_pe_exports(sv, ev.subrange(0, i as int)),
            exports_unique(rec_views(out@)),
        decreases scan.exports@.len() - i,
    {
        let ghost prev = rec_views(out@);
        proof {
            assert(ev.subrange(0, i + 1).drop_last() =~= ev.subrange(0, i as int));
            assert(ev.subrange(0, i + 1).last() == ev[i as int]);
            assert(ev[i as int] == scan.exports@[i as int]@);
        }
        let e = &scan.exports[i];
        if let Some(name) = &e.name {
            if !contains_name_exec(&out, name) {
                let section = match ranges.lookup(e.rva) {
                    Some(n) => Some(n.clone()),
                    None => None,
                };
                out.push(Export { name: name.clone(), section });
                proof {
                    assert(rec_views(out@) =~= prev.push(
                        (name@, spec_lookup_range(spec_build_ranges(sv), e.rva)),
                    ));
                }
            }
        }
        i += 1;
    }
    proof {
        assert(ev.subrange(0, scan.exports@.len() as int) =~= ev);
    }
    out
}

/// The list of symbols exported from a dynamic library image, deduplicated
/// by name: ELF dynamic symbols, the Mach-O export trie (of the binary, or
/// of the first slice of a fat binary), or the PE export directory.
pub fn dylib_exports(data: &Vec<u8>) -> (r: Result<Vec<Export>, InspectError>)
    ensures
        ({
            let kind = obj_kind_of(data@);
            match kind {
                ObjKindV::Elf => match elf_dynsyms_of(data@) {
                    Some(recs) => r matches Ok(v) && rec_views(v@) == spec_elf_exports(recs),
                    None => r matches Err(e) && e@ matches InspectErrorV::Format(_),
                },
                ObjKindV::Pe => match pe_scan_of(data@) {
                    Some(Ok(scan)) => r matches Ok(v) && rec_views(v@) == spec_pe_exports(
                        scan.0,
                        scan.1,
                    ),
                    Some(Err(m)) => r matches Err(e) && e@ == InspectErrorV::Format(m),
                    None => r matches Err(e) && e@ matches InspectErrorV::Format(_),
                },
                ObjKindV::Mach => r matches Ok(v) ==> exists|
                    sections: Seq<(u64, u64, Seq<char>)>,
                    exports: Seq<(Seq<char>, u64)>,
                |
                    rec_views(v@) == spec_mach_exports(sections, exports),
                ObjKindV::Coff => r matches Err(e) && e@ matches InspectErrorV::Unsupported(_),
                ObjKindV::Archive => r matches Err(e) && e@ matches InspectErrorV::Unsupported(_),
                ObjKindV::Other(d) => r matches Err(e) && e@ == InspectErrorV::Unsupported(
                    "Unsupported object type: "@ + d,
                ),
                ObjKindV::ParseError(m) => r matches Err(e) && e@ == InspectErrorV::Format(m),
            }
        }),
        r matches Ok(v) ==> exports_unique(rec_views(v@)),
{
    match object_tag(data) {
        ObjKind::Elf => match elf_dynsym_records(data) {
            Some(recs) => Ok(elf_exports_from_records(&recs)),
            None => Err(InspectError::Format("the buffer is not an ELF image".to_string())),
        },
        ObjKind::Mach => {
            let m = match mach_object(data) {
                Ok(m) => m,
                Err(msg) => {
                    return Err(InspectError::Format(msg));
                },
            };
            let sections = match macho_section_spans(&m) {
                Ok(s) => s,
                Err(msg) => {
                    return Err(InspectError::Format(msg));
                },
            };
            let exports = match macho_export_records(&m) {
                Ok(e) => e,
                Err(msg) => {
                    return Err(InspectError::Format(msg));
                },
            };
            let out = exports_from_mach_scan(&sections, &exports);
            proof {
                assert(rec_views(out@) == spec_mach_exports(
                    rec_views(sections@),
                    rec_views(exports@),
                ));
            }
            Ok(out)
        },
        ObjKind::Pe => match pe_scan_records(data) {
            Some(Ok(scan)) => Ok(exports_from_pe_scan(&scan)),
            Some(Err(msg)) => Err(InspectError::Format(msg)),
            None => Err(InspectError::Format("the buffer is not a PE image".to_string())),
        },
        ObjKind::Coff => Err(
            InspectError::Unsupported("Unsupported object type: COFF".to_string()),
        ),
        ObjKind::Archive => Err(
            InspectError::Unsupported("Unsupported object type: archive".to_string()),
        ),
        ObjKind::Other(d) => {
            let mut msg = String::new();
            msg.append("Unsupported object type: ");
            msg.append(d.as_str());
            Err(InspectError::Unsupported(msg))
        },
        ObjKind::ParseError(m) => Err(InspectError::Format(m)),
    }
}

} // verus!
