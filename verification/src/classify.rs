//! Tag classification: deciding whether a file carries the primary marker
//! token, assigning the variant flag from the secondary token on the same
//! line, and building the deduplicated entity vocabulary of a scan.

use vstd::prelude::*;

use crate::bytes::bytes_eq;
use crate::bytes::contains_bytes;
use crate::bytes::contains_name;
use crate::bytes::contains_seq;
use crate::bytes::copy_bytes;
use crate::bytes::deep;
use crate::bytes::lower_seq;
use crate::bytes::lower_vec;
use crate::model::Entity;
use crate::model::EntityView;
use crate::model::FileView;
use crate::model::SourceFile;
use crate::model::entity_views;
use crate::model::file_views;
use crate::model::names_of;

verus! {

/// The line contains the marker token, case-insensitively (ASCII).
pub open spec fn line_tagged(line: Seq<u8>, marker: Seq<u8>) -> bool {
    contains_seq(lower_seq(line), lower_seq(marker))
}

/// Some line of the file contains the marker token.
pub open spec fn file_tagged(lines: Seq<Seq<u8>>, marker: Seq<u8>) -> bool {
    exists|i: int| 0 <= i < lines.len() && line_tagged(lines[i], marker)
}

/// `i` is the first line that contains the marker token.
pub open spec fn is_first_tagged_line(lines: Seq<Seq<u8>>, marker: Seq<u8>, i: int) -> bool {
    &&& 0 <= i < lines.len()
    &&& line_tagged(lines[i], marker)
    &&& forall|j: int| 0 <= j < i ==> !line_tagged(lines[j], marker)
}

/// The first line carrying the primary marker also carries the secondary
/// marker. Classification reads only that one line: a later line with the
/// secondary token does not make the entity a variant.
pub open spec fn variant_of(lines: Seq<Seq<u8>>, primary: Seq<u8>, secondary: Seq<u8>) -> bool {
    exists|i: int|
        is_first_tagged_line(lines, primary, i) && line_tagged(lines[i], secondary)
}

/// The classification of one file: `None` when untagged, otherwise
/// `Some(variant flag)`.
pub open spec fn classify_spec(lines: Seq<Seq<u8>>, primary: Seq<u8>, secondary: Seq<u8>) -> Option<
    bool,
> {
    if file_tagged(lines, primary) {
        Some(variant_of(lines, primary, secondary))
    } else {
        None
    }
}

/// At most one line is the first tagged line.
proof fn lemma_first_tagged_unique(lines: Seq<Seq<u8>>, marker: Seq<u8>, i: int, j: int)
    requires
        is_first_tagged_line(lines, marker, i),
        is_first_tagged_line(lines, marker, j),
    ensures
        i == j,
{
    if i < j {
        assert(!line_tagged(lines[i], marker));
    }
    if j < i {
        assert(!line_tagged(lines[j], marker));
    }
}

/// Scan the lines in order and stop at the first line containing the primary
/// marker (case-insensitive); the variant flag is whether that same line also
/// contains the secondary marker. Returns `None` when no line matches.
pub fn classify_file(lines: &Vec<Vec<u8>>, primary: &Vec<u8>, secondary: &Vec<u8>) -> (r: Option<
    bool,
>)
    ensures
        r == classify_spec(deep(lines@), primary@, secondary@),
{
    let lp = lower_vec(primary);
    let ls = lower_vec(secondary);
    let ghost dl = deep(lines@);
    let mut i: usize = 0;
    while i < lines.len()
        invariant
            lp@ == lower_seq(primary@),
            ls@ == lower_seq(secondary@),
            dl == deep(lines@),
            i <= lines@.len(),
            forall|j: int| 0 <= j < i ==> !line_tagged(dl[j], primary@),
        decreases lines@.len() - i,
    {
        let ll = lower_vec(&lines[i]);
        proof {
            assert(dl[i as int] == lines@[i as int]@);
        }
        if contains_bytes(&ll, &lp) {
            let variant = contains_bytes(&ll, &ls);
            proof {
                assert(is_first_tagged_line(dl, primary@, i as int));
                if variant {
                    assert(variant_of(dl, primary@, secondary@));
                } else {
                    if variant_of(dl, primary@, secondary@) {
                        let w = choose|w: int|
                            is_first_tagged_line(dl, primary@, w) && line_tagged(
                                dl[w],
                                secondary@,
                            );
                        lemma_first_tagged_unique(dl, primary@, w, i as int);
                        assert(false);
                    }
                }
            }
            return Some(variant);
        }
        i = i + 1;
    }
    proof {
        assert(!file_tagged(dl, primary@));
    }
    None
}

/// The entity vocabulary of a scan, in traversal order: the stem of each
/// tagged file, excluding denylisted stems, first occurrence winning when two
/// tagged files share a stem. The variant flag is taken from the first file
/// that contributed the name.
pub open spec fn entities_spec(
    files: Seq<FileView>,
    primary: Seq<u8>,
    secondary: Seq<u8>,
    deny: Seq<Seq<u8>>,
) -> Seq<EntityView>
    decreases files.len(),
{
    if files.len() == 0 {
        Seq::empty()
    } else {
        let rest = entities_spec(files.drop_last(), primary, secondary, deny);
        let f = files.last();
        if file_tagged(f.lines, primary) && !deny.contains(f.stem) && !names_of(rest).contains(
            f.stem,
        ) {
            rest.push(EntityView { name: f.stem, variant: variant_of(f.lines, primary, secondary) })
        } else {
            rest
        }
    }
}

/// Membership of a stem among the names already collected.
fn entities_contain_name(es: &Vec<Entity>, x: &Vec<u8>) -> (r: bool)
    ensures
        r == names_of(entity_views(es@)).contains(x@),
{
    let mut i: usize = 0;
    while i < es.len()
        invariant
            i <= es@.len(),
            forall|j: int| 0 <= j < i ==> es@[j].name@ != x@,
        decreases es@.len() - i,
    {
        if bytes_eq(&es[i].name, x) {
            proof {
                assert(names_of(entity_views(es@))[i as int] == x@);
            }
            return true;
        }
        i = i + 1;
    }
    proof {
        let ns = names_of(entity_views(es@));
        assert forall|j: int| 0 <= j < ns.len() implies ns[j] != x@ by {
            assert(ns[j] == es@[j].name@);
        }
    }
    false
}

/// Discover the entity vocabulary: classify every file in traversal order and
/// collect each tagged, non-denylisted stem once, with its variant flag.
pub fn discover_entities(
    files: &Vec<SourceFile>,
    primary: &Vec<u8>,
    secondary: &Vec<u8>,
    denylist: &Vec<Vec<u8>>,
) -> (r: Vec<Entity>)
    ensures
        entity_views(r@) == entities_spec(
            file_views(files@),
            primary@,
            secondary@,
            deep(denylist@),
        ),
{
    let ghost fv = file_views(files@);
    let ghost deny = deep(denylist@);
    let mut r: Vec<Entity> = Vec::new();
    let mut i: usize = 0;
    while i < files.len()
        invariant
            fv == file_views(files@),
            deny == deep(denylist@),
            i <= files@.len(),
            entity_views(r@) == entities_spec(fv.take(i as int), primary@, secondary@, deny),
        decreases files@.len() - i,
    {
        let ghost prefix = fv.take(i as int);
        let ghost next = fv.take(i as int + 1);
        proof {
            assert(next.drop_last() =~= prefix);
            assert(next.last() == fv[i as int]);
            assert(fv[i as int] == files@[i as int]@);
        }
        let tagged = classify_file(&files[i].lines, primary, secondary);
        match tagged {
            Some(variant) => {
                let denied = contains_name(denylist, &files[i].stem);
                let present = entities_contain_name(&r, &files[i].stem);
                if !denied && !present {
                    let e = Entity { name: copy_bytes(&files[i].stem), variant };
                    r.push(e);
                    proof {
                        assert(entity_views(r@) =~~= entities_spec(next, primary@, secondary@, deny));
                    }
                } else {
                    proof {
                        assert(entity_views(r@) =~~= entities_spec(next, primary@, secondary@, deny));
                    }
                }
            },
            None => {
                proof {
                    assert(entity_views(r@) =~~= entities_spec(next, primary@, secondary@, deny));
                }
            },
        }
        i = i + 1;
    }
    proof {
        assert(fv.take(files@.len() as int) =~= fv);
    }
    r
}

} // verus!
