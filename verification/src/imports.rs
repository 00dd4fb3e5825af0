//! Extraction of undefined (imported) symbols from static libraries and
//! object files: ELF relocations, Mach-O external relocations, COFF
//! undefined symbols, and archives whose members are inspected recursively.

use vstd::prelude::*;

use crate::errors::{InspectError, InspectErrorV};
use crate::object::{
    archive_member_buffers, coff_sym_records, coff_syms_of, elf_reloc_records, elf_reloc_syms_of,
    mach_object, macho_reloc_records, obj_kind_of, object_tag, rec_views, CoffSym, ElfRelocSym,
    MachRelocSym, ObjKind, ObjKindV,
};

verus! {

/// One imported symbol.
pub struct Import {
    pub name: String,
}

impl View for Import {
    type V = Seq<char>;

    open spec fn view(&self) -> Seq<char> {
        self.name@
    }
}

/// The values of a sequence of names.
pub open spec fn name_views(v: Seq<String>) -> Seq<Seq<char>> {
    v.map_values(|s: String| s@)
}

/// Whether `name` occurs in `s`.
pub open spec fn contains_name(s: Seq<Seq<char>>, name: Seq<char>) -> bool {
    exists|k: int| 0 <= k < s.len() && s[k] == name
}

/// Every name occurs once.
pub open spec fn names_unique(s: Seq<Seq<char>>) -> bool {
    forall|i: int, j: int| 0 <= i < j < s.len() ==> s[i] != s[j]
}

/// Appending a name unless it is already present.
pub open spec fn spec_insert_name(s: Seq<Seq<char>>, name: Seq<char>) -> Seq<Seq<char>> {
    if contains_name(s, name) {
        s
    } else {
        s.push(name)
    }
}

/// The names accumulated from an ELF relocation scan: each referenced
/// symbol that goblin marks as an import and whose section index is zero
/// (both are required, guarding against defined thread-local symbols that
/// share the import predicate), when its name resolves.
pub open spec fn spec_add_elf_imports(
    recs: Seq<(Option<Seq<char>>, bool, u64)>,
    acc: Seq<Seq<char>>,
) -> Seq<Seq<char>>
    decreases recs.len(),
{
    if recs.len() == 0 {
        acc
    } else {
        let prev = spec_add_elf_imports(recs.drop_last(), acc);
        let r = recs.last();
        if r.1 && r.2 == 0 && r.0 is Some {
            spec_insert_name(prev, r.0->0)
        } else {
            prev
        }
    }
}

/// The names accumulated from a Mach-O relocation scan: each external
/// relocation's symbol name.
pub open spec fn spec_add_mach_imports(
    recs: Seq<(bool, Option<Seq<char>>)>,
    acc: Seq<Seq<char>>,
) -> Seq<Seq<char>>
    decreases recs.len(),
{
    if recs.len() == 0 {
        acc
    } else {
        let prev = spec_add_mach_imports(recs.drop_last(), acc);
        let r = recs.last();
        if r.0 && r.1 is Some {
            spec_insert_name(prev, r.1->0)
        } else {
            prev
        }
    }
}

/// The names accumulated from a COFF symbol table: every symbol whose
/// section number is zero (`IMAGE_SYM_UNDEFINED`).  An undefined symbol
/// whose name did not resolve stops the scan.
pub open spec fn spec_add_coff_imports(
    recs: Seq<(i16, Option<Seq<char>>)>,
    acc: Seq<Seq<char>>,
) -> Result<Seq<Seq<char>>, ()>
    decreases recs.len(),
{
    if recs.len() == 0 {
        Ok(acc)
    } else {
        match spec_add_coff_imports(recs.drop_last(), acc) {
            Ok(prev) => {
                let r = recs.last();
                if r.0 == 0 {
                    match r.1 {
                        Some(name) => Ok(spec_insert_name(prev, name)),
                        None => Err(()),
                    }
                } else {
                    Ok(prev)
                }
            },
            Err(()) => Err(()),
        }
    }
}

/// Whether `name` occurs in `v`.
fn contains_name_exec(v: &Vec<String>, name: &String) -> (r: bool)
    ensures
        r == contains_name(name_views(v@), name@),
{
    let ghost sv = name_views(v@);
    let mut i: usize = 0;
    while i < v.len()
        invariant
            i <= v@.len(),
            sv == name_views(v@),
            forall|k: int| 0 <= k < i ==> sv[k] != name@,
        decreases v@.len() - i,
    {
        proof {
            assert(sv[i as int] == v@[i as int]@);
        }
        if v[i].eq(name) {
            return true;
        }
        i += 1;
    }
    proof {
        if contains_name(sv, name@) {
            let k = choose|k: int| 0 <= k < sv.len() && sv[k] == name@;
            assert(false);
        }
    }
    false
}

/// Append `name` to `names` unless it is already present.
fn insert_name(names: &mut Vec<String>, name: &String)
    ensures
        name_views(final(names)@) == spec_insert_name(name_views(old(names)@), name@),
        names_unique(name_views(old(names)@)) ==> names_unique(name_views(final(names)@)),
        name_views(old(names)@).is_prefix_of(name_views(final(names)@)),
{
    let ghost before = name_views(names@);
    if !contains_name_exec(names, name) {
        names.push(name.clone());
        proof {
            assert(name_views(names@) =~= before.push(name@));
            assert(before.is_prefix_of(name_views(names@)));
        }
    } else {
        proof {
            assert(before.is_prefix_of(before));
        }
    }
}

/// Accumulate the imports of an ELF relocation scan into `names`.
#[verifier::loop_isolation(false)]
pub fn elf_imports_into(names: &mut Vec<String>, recs: &Vec<ElfRelocSym>)
    ensures
        name_views(final(names)@) == spec_add_elf_imports(
            rec_views(recs@),
            name_views(old(names)@),
        ),
        names_unique(name_views(old(names)@)) ==> names_unique(name_views(final(names)@)),
        name_views(old(names)@).is_prefix_of(name_views(final(names)@)),
{
    let ghost rv = rec_views(recs@);
    let ghost acc0 = name_views(names@);
    let mut i: usize = 0;
    proof {
        assert(rv.subrange(0, 0) =~= Seq::<(Option<Seq<char>>, bool, u64)>::empty());
    }
    while i < recs.len()
        invariant
            i <= recs@.len(),
            name_views(names@) == spec_add_elf_imports(rv.subrange(0, i as int), acc0),
            names_unique(acc0) ==> names_unique(name_views(names@)),
            acc0.is_prefix_of(name_views(names@)),
        decreases recs@.len() - i,
    {
        proof {
            assert(rv.subrange(0, i + 1).drop_last() =~= rv.subrange(0, i as int));
            assert(rv.subrange(0, i + 1).last() == rv[i as int]);
            assert(rv[i as int] == recs@[i as int]@);
        }
        let ghost mid = name_views(names@);
        let rec = &recs[i];
        if rec.is_import && rec.section_index == 0 {
            if let Some(name) = &rec.name {
                insert_name(names, name);
            }
        }
        proof {
            lemma_prefix_transitive(acc0, mid, name_views(names@));
        }
        i += 1;
    }
    proof {
        assert(rv.subrange(0, recs@.len() as int) =~= rv);
    }
}

/// Accumulate the imports of a Mach-O relocation scan into `names`.
#[verifier::loop_isolation(false)]
pub fn mach_imports_into(names: &mut Vec<String>, recs: &Vec<MachRelocSym>)
    ensures
        name_views(final(names)@) == spec_add_mach_imports(
            rec_views(recs@),
            name_views(old(names)@),
        ),
        names_unique(name_views(old(names)@)) ==> names_unique(name_views(final(names)@)),
        name_views(old(names)@).is_prefix_of(name_views(final(names)@)),
{
    let ghost rv = rec_views(recs@);
    let ghost acc0 = name_views(names@);
    let mut i: usize = 0;
    proof {
        assert(rv.subrange(0, 0) =~= Seq::<(bool, Option<Seq<char>>)>::empty());
    }
    while i < recs.len()
        invariant
            i <= recs@.len(),
            name_views(names@) == spec_add_mach_imports(rv.subrange(0, i as int), acc0),
            names_unique(acc0) ==> names_unique(name_views(names@)),
            acc0.is_prefix_of(name_views(names@)),
        decreases recs@.len() - i,
    {
        proof {
            assert(rv.subrange(0, i + 1).drop_last() =~= rv.subrange(0, i as int));
            assert(rv.subrange(0, i + 1).last() == rv[i as int]);
            assert(rv[i as int] == recs@[i as int]@);
        }
        let ghost mid = name_views(names@);
        let rec = &recs[i];
        if rec.is_external {
            if let Some(name) = &rec.name {
                insert_name(names, name);
            }
        }
        proof {
            lemma_prefix_transitive(acc0, mid, name_views(names@));
        }
        i += 1;
    }
    proof {
        assert(rv.subrange(0, recs@.len() as int) =~= rv);
    }
}

/// Accumulate the imports of a COFF symbol table into `names`.
#[verifier::loop_isolation(false)]
pub fn coff_imports_into(names: &mut Vec<String>, recs: &Vec<CoffSym>) -> (r: Result<
    (),
    InspectError,
>)
    ensures
        ({
            let outcome = spec_add_coff_imports(rec_views(recs@), name_views(old(names)@));
            match r {
                Ok(()) => outcome matches Ok(ns) && name_views(final(names)@) == ns,
                Err(e) => outcome is Err && e@ matches InspectErrorV::Format(_),
            }
        }),
        names_unique(name_views(old(names)@)) ==> names_unique(name_views(final(names)@)),
        name_views(old(names)@).is_prefix_of(name_views(final(names)@)),
{
    let ghost rv = rec_views(recs@);
    let ghost acc0 = name_views(names@);
    let mut i: usize = 0;
    proof {
        assert(rv.subrange(0, 0) =~= Seq::<(i16, Option<Seq<char>>)>::empty());
    }
    while i < recs.len()
        invariant
            i <= recs@.len(),
            spec_add_coff_imports(rv.subrange(0, i as int), acc0) == Ok::<_, ()>(name_views(
                names@,
            )),
            names_unique(acc0) ==> names_unique(name_views(names@)),
            acc0.is_prefix_of(name_views(names@)),
        decreases recs@.len() - i,
    {
        proof {
            assert(rv.subrange(0, i + 1).drop_last() =~= rv.subrange(0, i as int));
            assert(rv.subrange(0, i + 1).last() == rv[i as int]);
            assert(rv[i as int] == recs@[i as int]@);
        }
        let ghost mid = name_views(names@);
        let rec = &recs[i];
        if rec.section_number == 0 {
            match &rec.name {
                Some(name) => insert_name(names, name),
                None => {
                    proof {
                        assert(spec_add_coff_imports(rv.subrange(0, i + 1), acc0) is Err);
                        lemma_coff_err_persists(rv, acc0, i + 1);
                    }
                    return Err(
                        InspectError::Format(
                            "could not resolve the name of an undefined COFF symbol".to_string(),
                        ),
                    );
                },
            }
        }
        proof {
            lemma_prefix_transitive(acc0, mid, name_views(names@));
        }
        i += 1;
    }
    proof {
        assert(rv.subrange(0, recs@.len() as int) =~= rv);
    }
    Ok(())
}

/// Prefix order on name sequences is transitive.
proof fn lemma_prefix_transitive(a: Seq<Seq<char>>, b: Seq<Seq<char>>, c: Seq<Seq<char>>)
    requires
        a.is_prefix_of(b),
        b.is_prefix_of(c),
    ensures
        a.is_prefix_of(c),
{
    assert(a =~= c.subrange(0, a.len() as int));
}

/// Once a prefix of the scan fails, the whole scan fails.
proof fn lemma_coff_err_persists(rv: Seq<(i16, Option<Seq<char>>)>, acc: Seq<Seq<char>>, i: int)
    requires
        0 <= i <= rv.len(),
        spec_add_coff_imports(rv.subrange(0, i), acc) is Err,
    ensures
        spec_add_coff_imports(rv, acc) is Err,
    decreases rv.len() - i,
{
    if i < rv.len() {
        assert(rv.subrange(0, i + 1).drop_last() =~= rv.subrange(0, i));
        lemma_coff_err_persists(rv, acc, i + 1);
    } else {
        assert(rv.subrange(0, rv.len() as int) =~= rv);
    }
}

/// Collect the unique imported symbol names of one object (or, for an
/// archive, of all its members) into `names`.
#[verifier::loop_isolation(false)]
pub fn get_unique_imports(data: &Vec<u8>, names: &mut Vec<String>) -> (r: Result<
    (),
    InspectError,
>)
    ensures
        names_unique(name_views(old(names)@)) ==> names_unique(name_views(final(names)@)),
        name_views(old(names)@).is_prefix_of(name_views(final(names)@)),
        ({
            let kind = obj_kind_of(data@);
            match kind {
                ObjKindV::Elf => match elf_reloc_syms_of(data@) {
                    Some(recs) => r is Ok && name_views(final(names)@) == spec_add_elf_imports(
                        recs,
                        name_views(old(names)@),
                    ),
                    None => r matches Err(e) && e@ matches InspectErrorV::Format(_),
                },
                ObjKindV::Coff => match coff_syms_of(data@) {
                    Some(recs) => match spec_add_coff_imports(recs, name_views(old(names)@)) {
                        Ok(ns) => r is Ok && name_views(final(names)@) == ns,
                        Err(()) => r matches Err(e) && e@ matches InspectErrorV::Format(_),
                    },
                    None => r matches Err(e) && e@ matches InspectErrorV::Format(_),
                },
                ObjKindV::Mach => r is Ok ==> exists|relocs: Seq<(bool, Option<Seq<char>>)>|
                    name_views(final(names)@) == spec_add_mach_imports(
                        relocs,
                        name_views(old(names)@),
                    ),
                ObjKindV::Archive => ar_members_exist_or_err(data@, r is Ok),
                ObjKindV::Pe => r matches Err(e) && e@ matches InspectErrorV::Unsupported(_),
                ObjKindV::Other(d) => r matches Err(e) && e@ == InspectErrorV::Unsupported(
                    "Unsupported object type: "@ + d,
                ),
                ObjKindV::ParseError(m) => r matches Err(e) && e@ == InspectErrorV::Format(m),
            }
        }),
    decreases data@.len(),
{
    match object_tag(data) {
        ObjKind::Elf => match elf_reloc_records(data) {
            Some(recs) => {
                elf_imports_into(names, &recs);
                Ok(())
            },
            None => Err(InspectError::Format("the buffer is not an ELF object".to_string())),
        },
        ObjKind::Coff => match coff_sym_records(data) {
            Some(recs) => coff_imports_into(names, &recs),
            None => Err(InspectError::Format("the buffer is not a COFF object".to_string())),
        },
        ObjKind::Mach => {
            let m = match mach_object(data) {
                Ok(m) => m,
                Err(msg) => {
                    return Err(InspectError::Format(msg));
                },
            };
            let recs = match macho_reloc_records(&m) {
                Ok(r) => r,
                Err(msg) => {
                    return Err(InspectError::Format(msg));
                },
            };
            mach_imports_into(names, &recs);
            Ok(())
        },
        ObjKind::Archive => {
            let members = match archive_member_buffers(data) {
                Some(ms) => ms,
                None => {
                    return Err(InspectError::Format("the buffer is not an archive".to_string()));
                },
            };
            let ghost acc0 = name_views(names@);
            let mut k: usize = 0;
            while k < members.len()
                invariant
                    k <= members@.len(),
                    forall|t: int|
                        0 <= t < members@.len() ==> #[trigger] members@[t]@.len() < data@.len(),
                    names_unique(acc0) ==> names_unique(name_views(names@)),
                    acc0.is_prefix_of(name_views(names@)),
                decreases members@.len() - k,
            {
                let ghost mid = name_views(names@);
                let r = get_unique_imports(&members[k], names);
                proof {
                    lemma_prefix_transitive(acc0, mid, name_views(names@));
                }
                if let Err(e) = r {
                    return Err(e);
                }
                k += 1;
            }
            Ok(())
        },
        ObjKind::Pe => Err(
            InspectError::Unsupported("Unsupported object type: PE".to_string()),
        ),
        ObjKind::Other(d) => {
            let mut msg = String::new();
            msg.append("Unsupported object type: ");
            msg.append(d.as_str());
            Err(InspectError::Unsupported(msg))
        },
        ObjKind::ParseError(m) => Err(InspectError::Format(m)),
    }
}

/// For an archive buffer: either the member list was readable, or the call
/// failed.
pub open spec fn ar_members_exist_or_err(b: Seq<u8>, ok: bool) -> bool {
    ok ==> crate::object::ar_members_of(b) is Some
}

/// The list of symbols imported by a static library (or a single object
/// file), deduplicated: each name occurs exactly once.
pub fn archive_imports(data: &Vec<u8>) -> (r: Result<Vec<Import>, InspectError>)
    ensures
        r matches Ok(v) ==> names_unique(rec_views(v@)),
        ({
            let kind = obj_kind_of(data@);
            match kind {
                ObjKindV::Elf => match elf_reloc_syms_of(data@) {
                    Some(recs) => r matches Ok(v) && rec_views(v@) == spec_add_elf_imports(
                        recs,
                        Seq::<Seq<char>>::empty(),
                    ),
                    None => r is Err,
                },
                ObjKindV::Coff => match coff_syms_of(data@) {
                    Some(recs) => match spec_add_coff_imports(recs, Seq::<Seq<char>>::empty()) {
                        Ok(ns) => r matches Ok(v) && rec_views(v@) == ns,
                        Err(()) => r is Err,
                    },
                    None => r is Err,
                },
                ObjKindV::Mach => r matches Ok(v) ==> exists|
                    relocs: Seq<(bool, Option<Seq<char>>)>,
                |
                    rec_views(v@) == spec_add_mach_imports(relocs, Seq::<Seq<char>>::empty()),
                ObjKindV::Archive => true,
                ObjKindV::Pe => r is Err,
                ObjKindV::Other(_) => r is Err,
                ObjKindV::ParseError(_) => r is Err,
            }
        }),
{
    let mut names: Vec<String> = Vec::new();
    proof {
        assert(name_views(names@) =~= Seq::<Seq<char>>::empty());
    }
    match get_unique_imports(data, &mut names) {
        Ok(()) => {
            let mut out: Vec<Import> = Vec::new();
            let mut i: usize = 0;
            while i < names.len()
                invariant
                    i <= names@.len(),
                    rec_views(out@) =~= name_views(names@).subrange(0, i as int),
                decreases names@.len() - i,
            {
                proof {
                    assert(name_views(names@)[i as int] == names@[i as int]@);
                }
                let ghost prev = rec_views(out@);
                let nm = names[i].clone();
                assert(nm@ == names@[i as int]@);
                out.push(Import { name: nm });
                proof {
                    assert(rec_views(out@) =~= prev.push(names@[i as int]@));
                    assert(rec_views(out@) =~= name_views(names@).subrange(0, i + 1));
                }
                i += 1;
            }
            proof {
                assert(name_views(names@).subrange(0, names@.len() as int) =~= name_views(
                    names@,
                ));
                assert(rec_views(out@) =~= name_views(names@));
            }
            Ok(out)
        },
        Err(e) => Err(e),
    }
}

} // verus!
