//! Data model of the scan: source files, tagged entities, candidate
//! patterns, and the relationship index, together with their mathematical
//! views and the default convention constants.

use vstd::prelude::*;

use crate::bytes::bytes_eq;
use crate::bytes::deep;
use crate::bytes::distinct_seq;

verus! {

/// One candidate source file handed to the scan: its file stem (name without
/// extension) and its text split into lines, both as raw bytes.
pub struct SourceFile {
    pub stem: Vec<u8>,
    pub lines: Vec<Vec<u8>>,
}

/// Mathematical view of a source file.
#[verifier::ext_equal]
pub ghost struct FileView {
    pub stem: Seq<u8>,
    pub lines: Seq<Seq<u8>>,
}

impl View for SourceFile {
    type V = FileView;

    open spec fn view(&self) -> FileView {
        FileView { stem: self.stem@, lines: deep(self.lines@) }
    }
}

/// The views of a list of source files.
pub open spec fn file_views(s: Seq<SourceFile>) -> Seq<FileView> {
    Seq::new(s.len(), |i: int| s[i]@)
}

/// A tagged entity: its canonical name (the stem of the file that declared
/// it) and whether the marker line carried the secondary (variant) token.
pub struct Entity {
    pub name: Vec<u8>,
    pub variant: bool,
}

/// Mathematical view of an entity.
#[verifier::ext_equal]
pub ghost struct EntityView {
    pub name: Seq<u8>,
    pub variant: bool,
}

impl View for Entity {
    type V = EntityView;

    open spec fn view(&self) -> EntityView {
        EntityView { name: self.name@, variant: self.variant }
    }
}

/// The views of a list of entities.
pub open spec fn entity_views(s: Seq<Entity>) -> Seq<EntityView> {
    Seq::new(s.len(), |i: int| s[i]@)
}

/// The names of a sequence of entities, in order.
pub open spec fn names_of(es: Seq<EntityView>) -> Seq<Seq<u8>> {
    Seq::new(es.len(), |i: int| es[i].name)
}

/// One naming-convention candidate template: the candidate substring for an
/// entity is `prefix + name + suffix`.
pub struct Pattern {
    pub prefix: Vec<u8>,
    pub suffix: Vec<u8>,
}

/// Mathematical view of a pattern.
#[verifier::ext_equal]
pub ghost struct PatternView {
    pub prefix: Seq<u8>,
    pub suffix: Seq<u8>,
}

impl View for Pattern {
    type V = PatternView;

    open spec fn view(&self) -> PatternView {
        PatternView { prefix: self.prefix@, suffix: self.suffix@ }
    }
}

/// The views of a list of patterns.
pub open spec fn pattern_views(s: Seq<Pattern>) -> Seq<PatternView> {
    Seq::new(s.len(), |i: int| s[i]@)
}

/// One key of a relationship mapping together with its ordered,
/// duplicate-free value sequence.
pub struct MapEntry {
    pub key: Vec<u8>,
    pub values: Vec<Vec<u8>>,
}

/// Mathematical view of a mapping entry.
#[verifier::ext_equal]
pub ghost struct EntryView {
    pub key: Seq<u8>,
    pub values: Seq<Seq<u8>>,
}

impl View for MapEntry {
    type V = EntryView;

    open spec fn view(&self) -> EntryView {
        EntryView { key: self.key@, values: deep(self.values@) }
    }
}

/// The views of a list of mapping entries.
pub open spec fn entry_views(s: Seq<MapEntry>) -> Seq<EntryView> {
    Seq::new(s.len(), |i: int| s[i]@)
}

/// Some entry of the mapping has this key.
pub open spec fn index_has_key(entries: Seq<EntryView>, key: Seq<u8>) -> bool {
    exists|i: int| 0 <= i < entries.len() && entries[i].key == key
}

/// Some entry of the mapping has this key, with this value in its value
/// sequence.
pub open spec fn index_pair(entries: Seq<EntryView>, key: Seq<u8>, v: Seq<u8>) -> bool {
    exists|i: int|
        0 <= i < entries.len() && entries[i].key == key && entries[i].values.contains(v)
}

/// Some entry of the mapping carries this value.
pub open spec fn index_has_value(entries: Seq<EntryView>, v: Seq<u8>) -> bool {
    exists|i: int| 0 <= i < entries.len() && entries[i].values.contains(v)
}

/// The mapping's keys are pairwise distinct and every value sequence is
/// duplicate-free.
pub open spec fn index_wf(entries: Seq<EntryView>) -> bool {
    &&& forall|i: int, j: int| 0 <= i < j < entries.len() ==> entries[i].key != entries[j].key
    &&& forall|i: int| 0 <= i < entries.len() ==> distinct_seq(#[trigger] entries[i].values)
}

/// Look a key up in a mapping: the position of its entry, or `None` when the
/// key is absent. Keys are unique in the mappings a scan builds, so the
/// position found is the key's one entry.
pub fn find_entry(entries: &Vec<MapEntry>, key: &Vec<u8>) -> (r: Option<usize>)
    ensures
        match r {
            Some(i) => i < entries@.len() && entry_views(entries@)[i as int].key == key@,
            None => !index_has_key(entry_views(entries@), key@),
        },
{
    let mut i: usize = 0;
    while i < entries.len()
        invariant
            i <= entries@.len(),
            forall|j: int| 0 <= j < i ==> entries@[j].key@ != key@,
        decreases entries@.len() - i,
    {
        if bytes_eq(&entries[i].key, key) {
            return Some(i);
        }
        i = i + 1;
    }
    proof {
        let ev = entry_views(entries@);
        assert forall|j: int| 0 <= j < ev.len() implies ev[j].key != key@ by {
            assert(ev[j] == entries@[j]@);
        }
    }
    None
}

/// The two relationship mappings produced by a scan, as insertion-ordered
/// association lists with unique keys: `by_source` maps each entity name to
/// the stems of the files that reference it, `by_file` maps each file stem to
/// the entity names it references.
pub struct RelationshipIndex {
    pub by_source: Vec<MapEntry>,
    pub by_file: Vec<MapEntry>,
}

/// The default primary marker token: a line containing it (case-insensitive)
/// tags its file as an entity.
pub open spec fn default_primary_marker_spec() -> Seq<u8> {
    seq![33u8, 103u8, 105u8, 103u8, 97u8, 115u8]
}

/// The default secondary marker token: its presence on the marker line
/// assigns the variant flag.
pub open spec fn default_secondary_marker_spec() -> Seq<u8> {
    seq![33u8, 97u8, 108u8, 116u8]
}

/// The default extension filter.
pub open spec fn default_extension_spec() -> Seq<u8> {
    seq![46u8, 99u8, 115u8]
}

/// The default denylist: infrastructure file stems that legitimately touch
/// every entity and are excluded from the relationship graph.
pub open spec fn default_denylist_spec() -> Seq<Seq<u8>> {
    seq![
        seq![70u8, 101u8, 109u8, 116u8, 111u8],
        seq![69u8, 110u8, 116u8, 105u8, 116u8, 121u8, 83u8, 101u8, 116u8],
    ]
}

/// The default candidate templates for an entity named `E`: the
/// identifier-suffixed form `EId`, the call-style accessors `GetE(` and
/// `GetAltE(`, and the plural-collection accessor `GetAllE(`.
pub open spec fn default_patterns_spec() -> Seq<PatternView> {
    seq![
        PatternView { prefix: seq![], suffix: seq![73u8, 100u8] },
        PatternView { prefix: seq![71u8, 101u8, 116u8], suffix: seq![40u8] },
        PatternView { prefix: seq![71u8, 101u8, 116u8, 65u8, 108u8, 108u8], suffix: seq![40u8] },
        PatternView { prefix: seq![71u8, 101u8, 116u8, 65u8, 108u8, 116u8], suffix: seq![40u8] },
    ]
}

/// The default primary marker token, `!gigas`.
pub fn default_primary_marker() -> (r: Vec<u8>)
    ensures
        r@ == default_primary_marker_spec(),
{
    let r: Vec<u8> = vec![33u8, 103u8, 105u8, 103u8, 97u8, 115u8];
    proof {
        assert(r@ =~= default_primary_marker_spec());
    }
    r
}

/// The default secondary marker token, `!alt`.
pub fn default_secondary_marker() -> (r: Vec<u8>)
    ensures
        r@ == default_secondary_marker_spec(),
{
    let r: Vec<u8> = vec![33u8, 97u8, 108u8, 116u8];
    proof {
        assert(r@ =~= default_secondary_marker_spec());
    }
    r
}

/// The default extension filter, `.cs`.
pub fn default_extension() -> (r: Vec<u8>)
    ensures
        r@ == default_extension_spec(),
{
    let r: Vec<u8> = vec![46u8, 99u8, 115u8];
    proof {
        assert(r@ =~= default_extension_spec());
    }
    r
}

/// The default denylist, the stems `Femto` and `EntitySet`.
pub fn default_denylist() -> (r: Vec<Vec<u8>>)
    ensures
        deep(r@) == default_denylist_spec(),
{
    let femto: Vec<u8> = vec![70u8, 101u8, 109u8, 116u8, 111u8];
    let entity_set: Vec<u8> = vec![69u8, 110u8, 116u8, 105u8, 116u8, 121u8, 83u8, 101u8, 116u8];
    let r: Vec<Vec<u8>> = vec![femto, entity_set];
    proof {
        assert(deep(r@) =~~= default_denylist_spec());
    }
    r
}

/// The default candidate templates (see `default_patterns_spec`).
pub fn default_patterns() -> (r: Vec<Pattern>)
    ensures
        pattern_views(r@) == default_patterns_spec(),
{
    let mut r: Vec<Pattern> = Vec::new();
    r.push(Pattern { prefix: vec![], suffix: vec![73u8, 100u8] });
    r.push(Pattern { prefix: vec![71u8, 101u8, 116u8], suffix: vec![40u8] });
    r.push(Pattern { prefix: vec![71u8, 101u8, 116u8, 65u8, 108u8, 108u8], suffix: vec![40u8] });
    r.push(Pattern { prefix: vec![71u8, 101u8, 116u8, 65u8, 108u8, 116u8], suffix: vec![40u8] });
    proof {
        assert(pattern_views(r@) =~~= default_patterns_spec());
    }
    r
}

} // verus!
