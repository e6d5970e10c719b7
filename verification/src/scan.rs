//! The relationship-graph construction: a two-pass scan. Pass one discovers
//! the entity vocabulary (tagged files); pass two resolves every
//! (referencer stem, entity) pair against the candidate patterns and builds
//! the two insertion-ordered, duplicate-free mappings.

use vstd::prelude::*;

use crate::bytes::copy_bytes;
use crate::bytes::deep;
use crate::classify::discover_entities;
use crate::classify::entities_spec;
use crate::matching::build_candidates;
use crate::matching::candidate;
use crate::matching::collect_referencer_stems;
use crate::matching::referencer_stems_spec;
use crate::matching::stem_refs;
use crate::matching::stem_refs_exec;
use crate::model::Entity;
use crate::model::EntryView;
use crate::model::FileView;
use crate::model::MapEntry;
use crate::model::Pattern;
use crate::model::PatternView;
use crate::model::RelationshipIndex;
use crate::model::SourceFile;
use crate::model::entity_views;
use crate::model::entry_views;
use crate::model::file_views;
use crate::model::names_of;
use crate::model::pattern_views;

verus! {

/// The value sequence of `by_file` for one referencer stem: the entity names
/// it references, in vocabulary order.
pub open spec fn by_file_values(
    files: Seq<FileView>,
    s: Seq<u8>,
    names: Seq<Seq<u8>>,
    pats: Seq<PatternView>,
) -> Seq<Seq<u8>>
    decreases names.len(),
{
    if names.len() == 0 {
        Seq::empty()
    } else {
        let rest = by_file_values(files, s, names.drop_last(), pats);
        if stem_refs(files, s, names.last(), pats) {
            rest.push(names.last())
        } else {
            rest
        }
    }
}

/// The `by_file` mapping: one entry per referencer stem that references at
/// least one entity, in traversal order.
pub open spec fn by_file_spec(
    files: Seq<FileView>,
    stems: Seq<Seq<u8>>,
    names: Seq<Seq<u8>>,
    pats: Seq<PatternView>,
) -> Seq<EntryView>
    decreases stems.len(),
{
    if stems.len() == 0 {
        Seq::empty()
    } else {
        let rest = by_file_spec(files, stems.drop_last(), names, pats);
        let vals = by_file_values(files, stems.last(), names, pats);
        if vals.len() > 0 {
            rest.push(EntryView { key: stems.last(), values: vals })
        } else {
            rest
        }
    }
}

/// The value sequence of `by_source` for one entity name: the referencer
/// stems that reference it, in traversal order.
pub open spec fn by_source_values(
    files: Seq<FileView>,
    name: Seq<u8>,
    stems: Seq<Seq<u8>>,
    pats: Seq<PatternView>,
) -> Seq<Seq<u8>>
    decreases stems.len(),
{
    if stems.len() == 0 {
        Seq::empty()
    } else {
        let rest = by_source_values(files, name, stems.drop_last(), pats);
        if stem_refs(files, stems.last(), name, pats) {
            rest.push(stems.last())
        } else {
            rest
        }
    }
}

/// The `by_source` mapping: one entry per entity name that is referenced by
/// at least one file, in vocabulary order.
pub open spec fn by_source_spec(
    files: Seq<FileView>,
    names: Seq<Seq<u8>>,
    stems: Seq<Seq<u8>>,
    pats: Seq<PatternView>,
) -> Seq<EntryView>
    decreases names.len(),
{
    if names.len() == 0 {
        Seq::empty()
    } else {
        let rest = by_source_spec(files, names.drop_last(), stems, pats);
        let vals = by_source_values(files, names.last(), stems, pats);
        if vals.len() > 0 {
            rest.push(EntryView { key: names.last(), values: vals })
        } else {
            rest
        }
    }
}

/// The entity vocabulary of a scan, as names.
pub open spec fn scan_names(
    files: Seq<FileView>,
    primary: Seq<u8>,
    secondary: Seq<u8>,
    deny: Seq<Seq<u8>>,
) -> Seq<Seq<u8>> {
    names_of(entities_spec(files, primary, secondary, deny))
}

/// The complete `by_file` mapping of a scan.
pub open spec fn scan_by_file(
    files: Seq<FileView>,
    primary: Seq<u8>,
    secondary: Seq<u8>,
    deny: Seq<Seq<u8>>,
    pats: Seq<PatternView>,
) -> Seq<EntryView> {
    by_file_spec(
        files,
        referencer_stems_spec(files, deny),
        scan_names(files, primary, secondary, deny),
        pats,
    )
}

/// The complete `by_source` mapping of a scan.
pub open spec fn scan_by_source(
    files: Seq<FileView>,
    primary: Seq<u8>,
    secondary: Seq<u8>,
    deny: Seq<Seq<u8>>,
    pats: Seq<PatternView>,
) -> Seq<EntryView> {
    by_source_spec(
        files,
        scan_names(files, primary, secondary, deny),
        referencer_stems_spec(files, deny),
        pats,
    )
}

/// Build `by_file`: for each referencer stem, in order, the entities it
/// references, in vocabulary order; stems that reference nothing get no entry.
fn build_by_file(
    files: &Vec<SourceFile>,
    stems: &Vec<Vec<u8>>,
    entities: &Vec<Entity>,
    patterns: &Vec<Pattern>,
) -> (r: Vec<MapEntry>)
    ensures
        entry_views(r@) == by_file_spec(
            file_views(files@),
            deep(stems@),
            names_of(entity_views(entities@)),
            pattern_views(patterns@),
        ),
{
    let ghost fv = file_views(files@);
    let ghost sv = deep(stems@);
    let ghost names = names_of(entity_views(entities@));
    let ghost pats = pattern_views(patterns@);
    let mut r: Vec<MapEntry> = Vec::new();
    let mut si: usize = 0;
    while si < stems.len()
        invariant
            fv == file_views(files@),
            sv == deep(stems@),
            names == names_of(entity_views(entities@)),
            pats == pattern_views(patterns@),
            si <= stems@.len(),
            entry_views(r@) == by_file_spec(fv, sv.take(si as int), names, pats),
        decreases stems@.len() - si,
    {
        let ghost sprefix = sv.take(si as int);
        let ghost snext = sv.take(si as int + 1);
        proof {
            assert(snext.drop_last() =~= sprefix);
            assert(snext.last() == sv[si as int]);
            assert(sv[si as int] == stems@[si as int]@);
        }
        let mut vals: Vec<Vec<u8>> = Vec::new();
        let mut ei: usize = 0;
        while ei < entities.len()
            invariant
                fv == file_views(files@),
                names == names_of(entity_views(entities@)),
                pats == pattern_views(patterns@),
                ei <= entities@.len(),
                deep(vals@) == by_file_values(fv, stems@[si as int]@, names.take(ei as int), pats),
                si < stems@.len(),
            decreases entities@.len() - ei,
        {
            let ghost nnext = names.take(ei as int + 1);
            proof {
                assert(nnext.drop_last() =~= names.take(ei as int));
                assert(nnext.last() == names[ei as int]);
                assert(names[ei as int] == entities@[ei as int].name@);
            }
            let cands = build_candidates(&entities[ei].name, patterns);
            if stem_refs_exec(files, &stems[si], &cands, Ghost(entities@[ei as int].name@), Ghost(pats)) {
                vals.push(copy_bytes(&entities[ei].name));
            }
            proof {
                assert(deep(vals@) =~~= by_file_values(fv, stems@[si as int]@, nnext, pats));
            }
            ei = ei + 1;
        }
        proof {
            assert(names.take(entities@.len() as int) =~= names);
        }
        if vals.len() > 0 {
            let entry = MapEntry { key: copy_bytes(&stems[si]), values: vals };
            r.push(entry);
        }
        proof {
            assert(entry_views(r@) =~~= by_file_spec(fv, snext, names, pats));
        }
        si = si + 1;
    }
    proof {
        assert(sv.take(stems@.len() as int) =~= sv);
    }
    r
}

/// Build `by_source`: for each entity, in vocabulary order, the referencer
/// stems that reference it, in traversal order; entities that nothing
/// references get no entry.
fn build_by_source(
    files: &Vec<SourceFile>,
    entities: &Vec<Entity>,
    stems: &Vec<Vec<u8>>,
    patterns: &Vec<Pattern>,
) -> (r: Vec<MapEntry>)
    ensures
        entry_views(r@) == by_source_spec(
            file_views(files@),
            names_of(entity_views(entities@)),
            deep(stems@),
            pattern_views(patterns@),
        ),
{
    let ghost fv = file_views(files@);
    let ghost sv = deep(stems@);
    let ghost names = names_of(entity_views(entities@));
    let ghost pats = pattern_views(patterns@);
    let mut r: Vec<MapEntry> = Vec::new();
    let mut ei: usize = 0;
    while ei < entities.len()
        invariant
            fv == file_views(files@),
            sv == deep(stems@),
            names == names_of(entity_views(entities@)),
            pats == pattern_views(patterns@),
            ei <= entities@.len(),
            entry_views(r@) == by_source_spec(fv, names.take(ei as int), sv, pats),
        decreases entities@.len() - ei,
    {
        let ghost nnext = names.take(ei as int + 1);
        proof {
            assert(nnext.drop_last() =~= names.take(ei as int));
            assert(nnext.last() == names[ei as int]);
            assert(names[ei as int] == entities@[ei as int].name@);
        }
        let cands = build_candidates(&entities[ei].name, patterns);
        let mut vals: Vec<Vec<u8>> = Vec::new();
        let mut si: usize = 0;
        while si < stems.len()
            invariant
                fv == file_views(files@),
                sv == deep(stems@),
                pats == pattern_views(patterns@),
                si <= stems@.len(),
                deep(vals@) == by_source_values(fv, entities@[ei as int].name@, sv.take(si as int), pats),
                ei < entities@.len(),
                cands@.len() == pats.len(),
                forall|k: int|
                    0 <= k < cands@.len() ==> cands@[k]@ == candidate(
                        pats[k],
                        entities@[ei as int].name@,
                    ),
            decreases stems@.len() - si,
        {
            let ghost snext = sv.take(si as int + 1);
            proof {
                assert(snext.drop_last() =~= sv.take(si as int));
                assert(snext.last() == sv[si as int]);
                assert(sv[si as int] == stems@[si as int]@);
            }
            if stem_refs_exec(files, &stems[si], &cands, Ghost(entities@[ei as int].name@), Ghost(pats)) {
                vals.push(copy_bytes(&stems[si]));
            }
            proof {
                assert(deep(vals@) =~~= by_source_values(fv, entities@[ei as int].name@, snext, pats));
            }
            si = si + 1;
        }
        proof {
            assert(sv.take(stems@.len() as int) =~= sv);
        }
        if vals.len() > 0 {
            let entry = MapEntry { key: copy_bytes(&entities[ei].name), values: vals };
            r.push(entry);
        }
        proof {
            assert(entry_views(r@) =~~= by_source_spec(fv, nnext, sv, pats));
        }
        ei = ei + 1;
    }
    proof {
        assert(names.take(entities@.len() as int) =~= names);
    }
    r
}

/// Scan a collection of source files for tagged entities and build the two
/// relationship mappings.
///
/// Pass one classifies every file against the case-insensitive primary
/// marker and derives the vocabulary: each tagged, non-denylisted stem once,
/// in traversal order. Pass two tests every (referencer stem, entity) pair:
/// a stem references an entity when some line of a file with that stem
/// contains, case-sensitively, a candidate substring generated from the
/// entity name by some pattern. `by_file` maps each referencing stem to the
/// entities it references; `by_source` maps each referenced entity to the
/// stems that reference it; pairs are recorded at most once, keys with no
/// values are absent, and denylisted stems appear nowhere.
pub fn scan_gigas_files(
    files: &Vec<SourceFile>,
    primary: &Vec<u8>,
    secondary: &Vec<u8>,
    denylist: &Vec<Vec<u8>>,
    patterns: &Vec<Pattern>,
) -> (r: RelationshipIndex)
    ensures
        entry_views(r.by_file@) == scan_by_file(
            file_views(files@),
            primary@,
            secondary@,
            deep(denylist@),
            pattern_views(patterns@),
        ),
        entry_views(r.by_source@) == scan_by_source(
            file_views(files@),
            primary@,
            secondary@,
            deep(denylist@),
            pattern_views(patterns@),
        ),
{
    let entities = discover_entities(files, primary, secondary, denylist);
    let stems = collect_referencer_stems(files, denylist);
    let by_file = build_by_file(files, &stems, &entities, patterns);
    let by_source = build_by_source(files, &entities, &stems, patterns);
    RelationshipIndex { by_source, by_file }
}

} // verus!
