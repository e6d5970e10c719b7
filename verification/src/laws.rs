//! The laws of the scan: membership characterizations of the vocabulary, the
//! referencer stems and the two mappings, and the properties built on them —
//! determinism, bidirectional consistency, denylist exclusion, absence of
//! duplicates, and exclusion of untagged files.

use vstd::prelude::*;

use crate::bytes::distinct_seq;
use crate::classify::entities_spec;
use crate::classify::file_tagged;
use crate::matching::referencer_stems_spec;
use crate::matching::stem_refs;
use crate::model::EntryView;
use crate::model::FileView;
use crate::model::PatternView;
use crate::model::index_has_key;
use crate::model::index_has_value;
use crate::model::index_pair;
use crate::model::index_wf;
use crate::model::names_of;
use crate::scan::by_file_spec;
use crate::scan::by_file_values;
use crate::scan::by_source_spec;
use crate::scan::by_source_values;
use crate::scan::scan_by_file;
use crate::scan::scan_by_source;
use crate::scan::scan_names;

verus! {

/// Pushing an element onto a sequence adds exactly that element to its
/// membership.
proof fn lemma_push_contains<A>(s: Seq<A>, y: A, x: A)
    ensures
        s.push(y).contains(x) <==> (s.contains(x) || x == y),
{
    if s.push(y).contains(x) {
        let k = choose|k: int| 0 <= k < s.push(y).len() && s.push(y)[k] == x;
        if k < s.len() {
            assert(s[k] == x);
        } else {
            assert(x == y);
        }
    }
    if s.contains(x) {
        let k = choose|k: int| 0 <= k < s.len() && s[k] == x;
        assert(s.push(y)[k] == x);
    }
    if x == y {
        assert(s.push(y)[s.len() as int] == x);
    }
}

/// A name is in the vocabulary exactly when it is not denylisted and some
/// file with that stem is tagged.
pub proof fn lemma_vocabulary_membership(
    files: Seq<FileView>,
    primary: Seq<u8>,
    secondary: Seq<u8>,
    deny: Seq<Seq<u8>>,
    x: Seq<u8>,
)
    ensures
        names_of(entities_spec(files, primary, secondary, deny)).contains(x) <==> (
        !deny.contains(x) && exists|i: int|
            0 <= i < files.len() && files[i].stem == x && file_tagged(files[i].lines, primary)),
    decreases files.len(),
{
    let es = entities_spec(files, primary, secondary, deny);
    let ns = names_of(es);
    if files.len() == 0 {
        assert(!ns.contains(x));
    } else {
        let prefix = files.drop_last();
        let f = files.last();
        lemma_vocabulary_membership(prefix, primary, secondary, deny, x);
        let rest = entities_spec(prefix, primary, secondary, deny);
        let rns = names_of(rest);
        let pushed = file_tagged(f.lines, primary) && !deny.contains(f.stem) && !rns.contains(
            f.stem,
        );
        if pushed {
            assert(ns =~= rns.push(f.stem));
            lemma_push_contains(rns, f.stem, x);
        } else {
            assert(ns =~= rns);
        }
        if ns.contains(x) {
            if pushed && x == f.stem {
                assert(files[files.len() - 1].stem == x && file_tagged(
                    files[files.len() - 1].lines,
                    primary,
                ));
            } else {
                assert(rns.contains(x));
                let i = choose|i: int|
                    0 <= i < prefix.len() && prefix[i].stem == x && file_tagged(
                        prefix[i].lines,
                        primary,
                    );
                assert(files[i].stem == x && file_tagged(files[i].lines, primary));
            }
        }
        if !deny.contains(x) && exists|i: int|
            0 <= i < files.len() && files[i].stem == x && file_tagged(files[i].lines, primary) {
            let i = choose|i: int|
                0 <= i < files.len() && files[i].stem == x && file_tagged(
                    files[i].lines,
                    primary,
                );
            if i < files.len() - 1 {
                assert(prefix[i].stem == x && file_tagged(prefix[i].lines, primary));
                assert(rns.contains(x));
                if pushed {
                    assert(ns.contains(x));
                } else {
                    assert(ns.contains(x));
                }
            } else {
                assert(f.stem == x && file_tagged(f.lines, primary));
                if rns.contains(x) {
                    if pushed {
                        lemma_push_contains(rns, f.stem, x);
                    }
                    assert(ns.contains(x));
                } else {
                    assert(pushed);
                    assert(ns == rns.push(f.stem));
                    assert(ns[rns.len() as int] == x);
                    assert(ns.contains(x));
                }
            }
        }
    }
}

/// A stem is a referencer stem exactly when it is not denylisted and some
/// file has that stem.
pub proof fn lemma_stems_membership(files: Seq<FileView>, deny: Seq<Seq<u8>>, x: Seq<u8>)
    ensures
        referencer_stems_spec(files, deny).contains(x) <==> (!deny.contains(x) && exists|i: int|
            0 <= i < files.len() && files[i].stem == x),
    decreases files.len(),
{
    let ss = referencer_stems_spec(files, deny);
    if files.len() == 0 {
        assert(!ss.contains(x));
    } else {
        let prefix = files.drop_last();
        let f = files.last();
        lemma_stems_membership(prefix, deny, x);
        let rest = referencer_stems_spec(prefix, deny);
        let pushed = !deny.contains(f.stem) && !rest.contains(f.stem);
        if pushed {
            lemma_push_contains(rest, f.stem, x);
        }
        if ss.contains(x) {
            if pushed && x == f.stem {
                assert(files[files.len() - 1].stem == x);
            } else {
                assert(rest.contains(x));
                let i = choose|i: int| 0 <= i < prefix.len() && prefix[i].stem == x;
                assert(files[i].stem == x);
            }
        }
        if !deny.contains(x) && exists|i: int| 0 <= i < files.len() && files[i].stem == x {
            let i = choose|i: int| 0 <= i < files.len() && files[i].stem == x;
            if i < files.len() - 1 {
                assert(prefix[i].stem == x);
                assert(rest.contains(x));
                assert(ss.contains(x));
            } else {
                if rest.contains(x) {
                    assert(ss.contains(x));
                } else {
                    assert(pushed);
                    assert(ss[rest.len() as int] == x);
                    assert(ss.contains(x));
                }
            }
        }
    }
}

/// The vocabulary has no duplicate names.
pub proof fn lemma_vocabulary_distinct(
    files: Seq<FileView>,
    primary: Seq<u8>,
    secondary: Seq<u8>,
    deny: Seq<Seq<u8>>,
)
    ensures
        distinct_seq(names_of(entities_spec(files, primary, secondary, deny))),
    decreases files.len(),
{
    let ns = names_of(entities_spec(files, primary, secondary, deny));
    if files.len() == 0 {
    } else {
        let prefix = files.drop_last();
        let f = files.last();
        lemma_vocabulary_distinct(prefix, primary, secondary, deny);
        let rest = entities_spec(prefix, primary, secondary, deny);
        let rns = names_of(rest);
        let pushed = file_tagged(f.lines, primary) && !deny.contains(f.stem) && !rns.contains(
            f.stem,
        );
        if pushed {
            assert(ns =~= rns.push(f.stem));
            assert forall|i: int, j: int| 0 <= i < j < ns.len() implies ns[i] != ns[j] by {
                if j < rns.len() {
                    assert(ns[i] == rns[i] && ns[j] == rns[j]);
                } else {
                    assert(ns[j] == f.stem);
                    assert(ns[i] == rns[i]);
                    if rns[i] == f.stem {
                        assert(rns.contains(f.stem));
                    }
                }
            }
        } else {
            assert(ns =~= rns);
        }
    }
}

/// The referencer stems have no duplicates.
pub proof fn lemma_stems_distinct(files: Seq<FileView>, deny: Seq<Seq<u8>>)
    ensures
        distinct_seq(referencer_stems_spec(files, deny)),
    decreases files.len(),
{
    let ss = referencer_stems_spec(files, deny);
    if files.len() == 0 {
    } else {
        let prefix = files.drop_last();
        let f = files.last();
        lemma_stems_distinct(prefix, deny);
        let rest = referencer_stems_spec(prefix, deny);
        if !deny.contains(f.stem) && !rest.contains(f.stem) {
            assert forall|i: int, j: int| 0 <= i < j < ss.len() implies ss[i] != ss[j] by {
                if j < rest.len() {
                    assert(ss[i] == rest[i] && ss[j] == rest[j]);
                } else {
                    assert(ss[j] == f.stem);
                    assert(ss[i] == rest[i]);
                    if rest[i] == f.stem {
                        assert(rest.contains(f.stem));
                    }
                }
            }
        }
    }
}

/// A `by_file` value sequence holds exactly the vocabulary names that the
/// stem references.
pub proof fn lemma_by_file_values_membership(
    files: Seq<FileView>,
    s: Seq<u8>,
    names: Seq<Seq<u8>>,
    pats: Seq<PatternView>,
    v: Seq<u8>,
)
    ensures
        by_file_values(files, s, names, pats).contains(v) <==> (names.contains(v) && stem_refs(
            files,
            s,
            v,
            pats,
        )),
    decreases names.len(),
{
    let vals = by_file_values(files, s, names, pats);
    if names.len() == 0 {
        assert(!vals.contains(v));
    } else {
        let nprefix = names.drop_last();
        let last = names.last();
        lemma_by_file_values_membership(files, s, nprefix, pats, v);
        let rest = by_file_values(files, s, nprefix, pats);
        if stem_refs(files, s, last, pats) {
            lemma_push_contains(rest, last, v);
        }
        if vals.contains(v) {
            if rest.contains(v) {
                assert(nprefix.contains(v));
                let k = choose|k: int| 0 <= k < nprefix.len() && nprefix[k] == v;
                assert(names[k] == v);
                assert(names.contains(v));
            } else {
                assert(v == last && stem_refs(files, s, v, pats));
                assert(names[names.len() - 1] == v);
                assert(names.contains(v));
            }
        }
        if names.contains(v) && stem_refs(files, s, v, pats) {
            let k = choose|k: int| 0 <= k < names.len() && names[k] == v;
            if k < names.len() - 1 {
                assert(nprefix[k] == v);
                assert(nprefix.contains(v));
                assert(rest.contains(v));
                if stem_refs(files, s, last, pats) {
                    assert(vals.contains(v));
                } else {
                    assert(vals.contains(v));
                }
            } else {
                assert(v == last);
                assert(vals == rest.push(v));
                assert(vals[rest.len() as int] == v);
                assert(vals.contains(v));
            }
        }
    }
}

/// A `by_source` value sequence holds exactly the referencer stems that
/// reference the entity.
pub proof fn lemma_by_source_values_membership(
    files: Seq<FileView>,
    name: Seq<u8>,
    stems: Seq<Seq<u8>>,
    pats: Seq<PatternView>,
    v: Seq<u8>,
)
    ensures
        by_source_values(files, name, stems, pats).contains(v) <==> (stems.contains(v)
            && stem_refs(files, v, name, pats)),
    decreases stems.len(),
{
    let vals = by_source_values(files, name, stems, pats);
    if stems.len() == 0 {
        assert(!vals.contains(v));
    } else {
        let sprefix = stems.drop_last();
        let last = stems.last();
        lemma_by_source_values_membership(files, name, sprefix, pats, v);
        let rest = by_source_values(files, name, sprefix, pats);
        if stem_refs(files, last, name, pats) {
            lemma_push_contains(rest, last, v);
        }
        if vals.contains(v) {
            if rest.contains(v) {
                assert(sprefix.contains(v));
                let k = choose|k: int| 0 <= k < sprefix.len() && sprefix[k] == v;
                assert(stems[k] == v);
                assert(stems.contains(v));
            } else {
                assert(v == last && stem_refs(files, v, name, pats));
                assert(stems[stems.len() - 1] == v);
                assert(stems.contains(v));
            }
        }
        if stems.contains(v) && stem_refs(files, v, name, pats) {
            let k = choose|k: int| 0 <= k < stems.len() && stems[k] == v;
            if k < stems.len() - 1 {
                assert(sprefix[k] == v);
                assert(sprefix.contains(v));
                assert(rest.contains(v));
                assert(vals.contains(v));
            } else {
                assert(v == last);
                assert(vals == rest.push(v));
                assert(vals[rest.len() as int] == v);
                assert(vals.contains(v));
            }
        }
    }
}

/// A pair is in `by_file` exactly when the stem is a referencer stem, the
/// name is in the vocabulary, and the stem references the name.
pub proof fn lemma_by_file_pair(
    files: Seq<FileView>,
    stems: Seq<Seq<u8>>,
    names: Seq<Seq<u8>>,
    pats: Seq<PatternView>,
    f: Seq<u8>,
    e: Seq<u8>,
)
    ensures
        index_pair(by_file_spec(files, stems, names, pats), f, e) <==> (stems.contains(f)
            && names.contains(e) && stem_refs(files, f, e, pats)),
    decreases stems.len(),
{
    let entries = by_file_spec(files, stems, names, pats);
    if stems.len() == 0 {
    } else {
        let sprefix = stems.drop_last();
        let last = stems.last();
        lemma_by_file_pair(files, sprefix, names, pats, f, e);
        let rest = by_file_spec(files, sprefix, names, pats);
        let vals = by_file_values(files, last, names, pats);
        if index_pair(entries, f, e) {
            let i = choose|i: int|
                0 <= i < entries.len() && entries[i].key == f && entries[i].values.contains(e);
            if i < rest.len() {
                assert(rest[i] == entries[i]);
                assert(index_pair(rest, f, e));
                let k = choose|k: int| 0 <= k < sprefix.len() && sprefix[k] == f;
                assert(stems[k] == f);
                assert(stems.contains(f));
            } else {
                assert(vals.len() > 0);
                assert(entries[i] == EntryView { key: last, values: vals });
                lemma_by_file_values_membership(files, last, names, pats, e);
                assert(f == last);
                assert(stems[stems.len() - 1] == f);
                assert(stems.contains(f));
            }
        }
        if stems.contains(f) && names.contains(e) && stem_refs(files, f, e, pats) {
            let k = choose|k: int| 0 <= k < stems.len() && stems[k] == f;
            if k < stems.len() - 1 {
                assert(sprefix[k] == f);
                assert(sprefix.contains(f));
                assert(index_pair(rest, f, e));
                let i = choose|i: int|
                    0 <= i < rest.len() && rest[i].key == f && rest[i].values.contains(e);
                assert(entries[i] == rest[i]);
                assert(index_pair(entries, f, e));
            } else {
                assert(f == last);
                lemma_by_file_values_membership(files, last, names, pats, e);
                assert(vals.contains(e));
                assert(vals.len() > 0);
                assert(entries == rest.push(EntryView { key: last, values: vals }));
                assert(entries[rest.len() as int].key == f);
                assert(entries[rest.len() as int].values.contains(e));
                assert(index_pair(entries, f, e));
            }
        }
    }
}

/// A pair is in `by_source` exactly when the name is in the vocabulary, the
/// stem is a referencer stem, and the stem references the name.
pub proof fn lemma_by_source_pair(
    files: Seq<FileView>,
    names: Seq<Seq<u8>>,
    stems: Seq<Seq<u8>>,
    pats: Seq<PatternView>,
    e: Seq<u8>,
    f: Seq<u8>,
)
    ensures
        index_pair(by_source_spec(files, names, stems, pats), e, f) <==> (names.contains(e)
            && stems.contains(f) && stem_refs(files, f, e, pats)),
    decreases names.len(),
{
    let entries = by_source_spec(files, names, stems, pats);
    if names.len() == 0 {
    } else {
        let nprefix = names.drop_last();
        let last = names.last();
        lemma_by_source_pair(files, nprefix, stems, pats, e, f);
        let rest = by_source_spec(files, nprefix, stems, pats);
        let vals = by_source_values(files, last, stems, pats);
        if index_pair(entries, e, f) {
            let i = choose|i: int|
                0 <= i < entries.len() && entries[i].key == e && entries[i].values.contains(f);
            if i < rest.len() {
                assert(rest[i] == entries[i]);
                assert(index_pair(rest, e, f));
                let k = choose|k: int| 0 <= k < nprefix.len() && nprefix[k] == e;
                assert(names[k] == e);
                assert(names.contains(e));
            } else {
                assert(vals.len() > 0);
                assert(entries[i] == EntryView { key: last, values: vals });
                lemma_by_source_values_membership(files, last, stems, pats, f);
                assert(e == last);
                assert(names[names.len() - 1] == e);
                assert(names.contains(e));
            }
        }
        if names.contains(e) && stems.contains(f) && stem_refs(files, f, e, pats) {
            let k = choose|k: int| 0 <= k < names.len() && names[k] == e;
            if k < names.len() - 1 {
                assert(nprefix[k] == e);
                assert(nprefix.contains(e));
                assert(index_pair(rest, e, f));
                let i = choose|i: int|
                    0 <= i < rest.len() && rest[i].key == e && rest[i].values.contains(f);
                assert(entries[i] == rest[i]);
                assert(index_pair(entries, e, f));
            } else {
                assert(e == last);
                lemma_by_source_values_membership(files, last, stems, pats, f);
                assert(vals.contains(f));
                assert(vals.len() > 0);
                assert(entries == rest.push(EntryView { key: last, values: vals }));
                assert(entries[rest.len() as int].key == e);
                assert(entries[rest.len() as int].values.contains(f));
                assert(index_pair(entries, e, f));
            }
        }
    }
}

/// Every key of `by_file` is a referencer stem.
proof fn lemma_by_file_keys_sub(
    files: Seq<FileView>,
    stems: Seq<Seq<u8>>,
    names: Seq<Seq<u8>>,
    pats: Seq<PatternView>,
    k: Seq<u8>,
)
    ensures
        index_has_key(by_file_spec(files, stems, names, pats), k) ==> stems.contains(k),
    decreases stems.len(),
{
    let entries = by_file_spec(files, stems, names, pats);
    if stems.len() == 0 {
    } else {
        let sprefix = stems.drop_last();
        lemma_by_file_keys_sub(files, sprefix, names, pats, k);
        let rest = by_file_spec(files, sprefix, names, pats);
        if index_has_key(entries, k) {
            let i = choose|i: int| 0 <= i < entries.len() && entries[i].key == k;
            if i < rest.len() {
                assert(rest[i] == entries[i]);
                assert(index_has_key(rest, k));
                let m = choose|m: int| 0 <= m < sprefix.len() && sprefix[m] == k;
                assert(stems[m] == k);
                assert(stems.contains(k));
            } else {
                assert(entries[i].key == stems.last());
                assert(stems[stems.len() - 1] == k);
                assert(stems.contains(k));
            }
        }
    }
}

/// Every value of `by_file` is a vocabulary name.
proof fn lemma_by_file_values_sub(
    files: Seq<FileView>,
    stems: Seq<Seq<u8>>,
    names: Seq<Seq<u8>>,
    pats: Seq<PatternView>,
    v: Seq<u8>,
)
    ensures
        index_has_value(by_file_spec(files, stems, names, pats), v) ==> names.contains(v),
    decreases stems.len(),
{
    let entries = by_file_spec(files, stems, names, pats);
    if stems.len() == 0 {
    } else {
        let sprefix = stems.drop_last();
        lemma_by_file_values_sub(files, sprefix, names, pats, v);
        let rest = by_file_spec(files, sprefix, names, pats);
        if index_has_value(entries, v) {
            let i = choose|i: int| 0 <= i < entries.len() && entries[i].values.contains(v);
            if i < rest.len() {
                assert(rest[i] == entries[i]);
                assert(index_has_value(rest, v));
            } else {
                assert(entries[i].values == by_file_values(files, stems.last(), names, pats));
                lemma_by_file_values_membership(files, stems.last(), names, pats, v);
            }
        }
    }
}

/// Every key of `by_source` is a vocabulary name.
proof fn lemma_by_source_keys_sub(
    files: Seq<FileView>,
    names: Seq<Seq<u8>>,
    stems: Seq<Seq<u8>>,
    pats: Seq<PatternView>,
    k: Seq<u8>,
)
    ensures
        index_has_key(by_source_spec(files, names, stems, pats), k) ==> names.contains(k),
    decreases names.len(),
{
    let entries = by_source_spec(files, names, stems, pats);
    if names.len() == 0 {
    } else {
        let nprefix = names.drop_last();
        lemma_by_source_keys_sub(files, nprefix, stems, pats, k);
        let rest = by_source_spec(files, nprefix, stems, pats);
        if index_has_key(entries, k) {
            let i = choose|i: int| 0 <= i < entries.len() && entries[i].key == k;
            if i < rest.len() {
                assert(rest[i] == entries[i]);
                assert(index_has_key(rest, k));
                let m = choose|m: int| 0 <= m < nprefix.len() && nprefix[m] == k;
                assert(names[m] == k);
                assert(names.contains(k));
            } else {
                assert(entries[i].key == names.last());
                assert(names[names.len() - 1] == k);
                assert(names.contains(k));
            }
        }
    }
}

/// Every value of `by_source` is a referencer stem.
proof fn lemma_by_source_values_sub(
    files: Seq<FileView>,
    names: Seq<Seq<u8>>,
    stems: Seq<Seq<u8>>,
    pats: Seq<PatternView>,
    v: Seq<u8>,
)
    ensures
        index_has_value(by_source_spec(files, names, stems, pats), v) ==> stems.contains(v),
    decreases names.len(),
{
    let entries = by_source_spec(files, names, stems, pats);
    if names.len() == 0 {
    } else {
        let nprefix = names.drop_last();
        lemma_by_source_values_sub(files, nprefix, stems, pats, v);
        let rest = by_source_spec(files, nprefix, stems, pats);
        if index_has_value(entries, v) {
            let i = choose|i: int| 0 <= i < entries.len() && entries[i].values.contains(v);
            if i < rest.len() {
                assert(rest[i] == entries[i]);
                assert(index_has_value(rest, v));
            } else {
                assert(entries[i].values == by_source_values(files, names.last(), stems, pats));
                lemma_by_source_values_membership(files, names.last(), stems, pats, v);
            }
        }
    }
}

/// A `by_file` value sequence is duplicate-free when the vocabulary is.
proof fn lemma_by_file_values_distinct(
    files: Seq<FileView>,
    s: Seq<u8>,
    names: Seq<Seq<u8>>,
    pats: Seq<PatternView>,
)
    requires
        distinct_seq(names),
    ensures
        distinct_seq(by_file_values(files, s, names, pats)),
    decreases names.len(),
{
    let vals = by_file_values(files, s, names, pats);
    if names.len() == 0 {
    } else {
        let nprefix = names.drop_last();
        let last = names.last();
        assert(distinct_seq(nprefix)) by {
            assert forall|i: int, j: int| 0 <= i < j < nprefix.len() implies nprefix[i]
                != nprefix[j] by {
                assert(nprefix[i] == names[i] && nprefix[j] == names[j]);
            }
        }
        lemma_by_file_values_distinct(files, s, nprefix, pats);
        let rest = by_file_values(files, s, nprefix, pats);
        if stem_refs(files, s, last, pats) {
            assert(!rest.contains(last)) by {
                if rest.contains(last) {
                    lemma_by_file_values_membership(files, s, nprefix, pats, last);
                    let m = choose|m: int| 0 <= m < nprefix.len() && nprefix[m] == last;
                    assert(names[m] == last && names[names.len() - 1] == last);
                }
            }
            assert forall|i: int, j: int| 0 <= i < j < vals.len() implies vals[i] != vals[j] by {
                if j < rest.len() {
                    assert(vals[i] == rest[i] && vals[j] == rest[j]);
                } else {
                    assert(vals[j] == last);
                    assert(vals[i] == rest[i]);
                    if rest[i] == last {
                        assert(rest.contains(last));
                    }
                }
            }
        }
    }
}

/// A `by_source` value sequence is duplicate-free when the referencer stems
/// are.
proof fn lemma_by_source_values_distinct(
    files: Seq<FileView>,
    name: Seq<u8>,
    stems: Seq<Seq<u8>>,
    pats: Seq<PatternView>,
)
    requires
        distinct_seq(stems),
    ensures
        distinct_seq(by_source_values(files, name, stems, pats)),
    decreases stems.len(),
{
    let vals = by_source_values(files, name, stems, pats);
    if stems.len() == 0 {
    } else {
        let sprefix = stems.drop_last();
        let last = stems.last();
        assert(distinct_seq(sprefix)) by {
            assert forall|i: int, j: int| 0 <= i < j < sprefix.len() implies sprefix[i]
                != sprefix[j] by {
                assert(sprefix[i] == stems[i] && sprefix[j] == stems[j]);
            }
        }
        lemma_by_source_values_distinct(files, name, sprefix, pats);
        let rest = by_source_values(files, name, sprefix, pats);
        if stem_refs(files, last, name, pats) {
            assert(!rest.contains(last)) by {
                if rest.contains(last) {
                    lemma_by_source_values_membership(files, name, sprefix, pats, last);
                    let m = choose|m: int| 0 <= m < sprefix.len() && sprefix[m] == last;
                    assert(stems[m] == last && stems[stems.len() - 1] == last);
                }
            }
            assert forall|i: int, j: int| 0 <= i < j < vals.len() implies vals[i] != vals[j] by {
                if j < rest.len() {
                    assert(vals[i] == rest[i] && vals[j] == rest[j]);
                } else {
                    assert(vals[j] == last);
                    assert(vals[i] == rest[i]);
                    if rest[i] == last {
                        assert(rest.contains(last));
                    }
                }
            }
        }
    }
}

/// `by_file` is well formed when stems and vocabulary are duplicate-free.
proof fn lemma_by_file_wf(
    files: Seq<FileView>,
    stems: Seq<Seq<u8>>,
    names: Seq<Seq<u8>>,
    pats: Seq<PatternView>,
)
    requires
        distinct_seq(stems),
        distinct_seq(names),
    ensures
        index_wf(by_file_spec(files, stems, names, pats)),
    decreases stems.len(),
{
    let entries = by_file_spec(files, stems, names, pats);
    if stems.len() == 0 {
    } else {
        let sprefix = stems.drop_last();
        let last = stems.last();
        assert(distinct_seq(sprefix)) by {
            assert forall|i: int, j: int| 0 <= i < j < sprefix.len() implies sprefix[i]
                != sprefix[j] by {
                assert(sprefix[i] == stems[i] && sprefix[j] == stems[j]);
            }
        }
        lemma_by_file_wf(files, sprefix, names, pats);
        let rest = by_file_spec(files, sprefix, names, pats);
        let vals = by_file_values(files, last, names, pats);
        if vals.len() > 0 {
            assert(!index_has_key(rest, last)) by {
                if index_has_key(rest, last) {
                    lemma_by_file_keys_sub(files, sprefix, names, pats, last);
                    let m = choose|m: int| 0 <= m < sprefix.len() && sprefix[m] == last;
                    assert(stems[m] == last && stems[stems.len() - 1] == last);
                }
            }
            lemma_by_file_values_distinct(files, last, names, pats);
            assert forall|i: int, j: int| 0 <= i < j < entries.len() implies entries[i].key
                != entries[j].key by {
                if j < rest.len() {
                    assert(entries[i] == rest[i] && entries[j] == rest[j]);
                } else {
                    assert(entries[j].key == last);
                    assert(entries[i] == rest[i]);
                    if rest[i].key == last {
                        assert(index_has_key(rest, last));
                    }
                }
            }
            assert forall|i: int| 0 <= i < entries.len() implies distinct_seq(
                #[trigger] entries[i].values,
            ) by {
                if i < rest.len() {
                    assert(entries[i] == rest[i]);
                } else {
                    assert(entries[i].values == vals);
                }
            }
        }
    }
}

/// `by_source` is well formed when stems and vocabulary are duplicate-free.
proof fn lemma_by_source_wf(
    files: Seq<FileView>,
    names: Seq<Seq<u8>>,
    stems: Seq<Seq<u8>>,
    pats: Seq<PatternView>,
)
    requires
        distinct_seq(names),
        distinct_seq(stems),
    ensures
        index_wf(by_source_spec(files, names, stems, pats)),
    decreases names.len(),
{
    let entries = by_source_spec(files, names, stems, pats);
    if names.len() == 0 {
    } else {
        let nprefix = names.drop_last();
        let last = names.last();
        assert(distinct_seq(nprefix)) by {
            assert forall|i: int, j: int| 0 <= i < j < nprefix.len() implies nprefix[i]
                != nprefix[j] by {
                assert(nprefix[i] == names[i] && nprefix[j] == names[j]);
            }
        }
        lemma_by_source_wf(files, nprefix, stems, pats);
        let rest = by_source_spec(files, nprefix, stems, pats);
        let vals = by_source_values(files, last, stems, pats);
        if vals.len() > 0 {
            assert(!index_has_key(rest, last)) by {
                if index_has_key(rest, last) {
                    lemma_by_source_keys_sub(files, nprefix, stems, pats, last);
                    let m = choose|m: int| 0 <= m < nprefix.len() && nprefix[m] == last;
                    assert(names[m] == last && names[names.len() - 1] == last);
                }
            }
            lemma_by_source_values_distinct(files, last, stems, pats);
            assert forall|i: int, j: int| 0 <= i < j < entries.len() implies entries[i].key
                != entries[j].key by {
                if j < rest.len() {
                    assert(entries[i] == rest[i] && entries[j] == rest[j]);
                } else {
                    assert(entries[j].key == last);
                    assert(entries[i] == rest[i]);
                    if rest[i].key == last {
                        assert(index_has_key(rest, last));
                    }
                }
            }
            assert forall|i: int| 0 <= i < entries.len() implies distinct_seq(
                #[trigger] entries[i].values,
            ) by {
                if i < rest.len() {
                    assert(entries[i] == rest[i]);
                } else {
                    assert(entries[i].values == vals);
                }
            }
        }
    }
}

/// For one input — files, markers, denylist, patterns — any two scans yield
/// equal mappings: the result is a function of the scan inputs alone.
pub proof fn lemma_scan_deterministic(
    files: Seq<FileView>,
    primary: Seq<u8>,
    secondary: Seq<u8>,
    deny: Seq<Seq<u8>>,
    pats: Seq<PatternView>,
    by_file_first: Seq<EntryView>,
    by_source_first: Seq<EntryView>,
    by_file_second: Seq<EntryView>,
    by_source_second: Seq<EntryView>,
)
    requires
        by_file_first == scan_by_file(files, primary, secondary, deny, pats),
        by_source_first == scan_by_source(files, primary, secondary, deny, pats),
        by_file_second == scan_by_file(files, primary, secondary, deny, pats),
        by_source_second == scan_by_source(files, primary, secondary, deny, pats),
    ensures
        by_file_first == by_file_second,
        by_source_first == by_source_second,
{
}

/// For every non-denylisted entity `e` and file stem `f`: `f` is recorded
/// under `e` in `by_source` exactly when `e` is recorded under `f` in
/// `by_file`.
pub proof fn lemma_bidirectional_consistency(
    files: Seq<FileView>,
    primary: Seq<u8>,
    secondary: Seq<u8>,
    deny: Seq<Seq<u8>>,
    pats: Seq<PatternView>,
    e: Seq<u8>,
    f: Seq<u8>,
)
    ensures
        index_pair(scan_by_source(files, primary, secondary, deny, pats), e, f) <==> index_pair(
            scan_by_file(files, primary, secondary, deny, pats),
            f,
            e,
        ),
{
    let names = scan_names(files, primary, secondary, deny);
    let stems = referencer_stems_spec(files, deny);
    lemma_by_source_pair(files, names, stems, pats, e, f);
    lemma_by_file_pair(files, stems, names, pats, f, e);
}

/// A denylisted stem appears nowhere: not as a key and not as a value, in
/// either mapping.
pub proof fn lemma_denylist_excluded(
    files: Seq<FileView>,
    primary: Seq<u8>,
    secondary: Seq<u8>,
    deny: Seq<Seq<u8>>,
    pats: Seq<PatternView>,
    d: Seq<u8>,
)
    requires
        deny.contains(d),
    ensures
        !index_has_key(scan_by_file(files, primary, secondary, deny, pats), d),
        !index_has_value(scan_by_file(files, primary, secondary, deny, pats), d),
        !index_has_key(scan_by_source(files, primary, secondary, deny, pats), d),
        !index_has_value(scan_by_source(files, primary, secondary, deny, pats), d),
{
    let names = scan_names(files, primary, secondary, deny);
    let stems = referencer_stems_spec(files, deny);
    lemma_stems_membership(files, deny, d);
    lemma_vocabulary_membership(files, primary, secondary, deny, d);
    lemma_by_file_keys_sub(files, stems, names, pats, d);
    lemma_by_file_values_sub(files, stems, names, pats, d);
    lemma_by_source_keys_sub(files, names, stems, pats, d);
    lemma_by_source_values_sub(files, names, stems, pats, d);
}

/// Both mappings are duplicate-free: keys are pairwise distinct and each
/// value sequence records a partner at most once, however many lines or
/// candidate patterns matched.
pub proof fn lemma_index_no_duplicates(
    files: Seq<FileView>,
    primary: Seq<u8>,
    secondary: Seq<u8>,
    deny: Seq<Seq<u8>>,
    pats: Seq<PatternView>,
)
    ensures
        index_wf(scan_by_file(files, primary, secondary, deny, pats)),
        index_wf(scan_by_source(files, primary, secondary, deny, pats)),
{
    let names = scan_names(files, primary, secondary, deny);
    let stems = referencer_stems_spec(files, deny);
    lemma_vocabulary_distinct(files, primary, secondary, deny);
    lemma_stems_distinct(files, deny);
    lemma_by_file_wf(files, stems, names, pats);
    lemma_by_source_wf(files, names, stems, pats);
}

/// A stem none of whose files is tagged never keys `by_source`: untagged
/// files are not part of the vocabulary.
pub proof fn lemma_untagged_excluded(
    files: Seq<FileView>,
    primary: Seq<u8>,
    secondary: Seq<u8>,
    deny: Seq<Seq<u8>>,
    pats: Seq<PatternView>,
    s: Seq<u8>,
)
    requires
        forall|i: int|
            0 <= i < files.len() && files[i].stem == s ==> !file_tagged(files[i].lines, primary),
    ensures
        !index_has_key(scan_by_source(files, primary, secondary, deny, pats), s),
{
    let names = scan_names(files, primary, secondary, deny);
    let stems = referencer_stems_spec(files, deny);
    lemma_by_source_keys_sub(files, names, stems, pats, s);
    lemma_vocabulary_membership(files, primary, secondary, deny, s);
    if names.contains(s) {
        let i = choose|i: int|
            0 <= i < files.len() && files[i].stem == s && file_tagged(files[i].lines, primary);
        assert(!file_tagged(files[i].lines, primary));
    }
}

} // verus!
