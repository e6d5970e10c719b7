//! Reference matching: candidate substrings are generated from an entity
//! name by the configured naming-convention patterns, and a file references
//! an entity when some line contains some candidate as a literal
//! (case-sensitive) substring.

use vstd::prelude::*;

use crate::bytes::bytes_eq;
use crate::bytes::contains_bytes;
use crate::bytes::contains_name;
use crate::bytes::contains_seq;
use crate::bytes::copy_bytes;
use crate::bytes::deep;
use crate::model::FileView;
use crate::model::Pattern;
use crate::model::PatternView;
use crate::model::SourceFile;
use crate::model::file_views;
use crate::model::pattern_views;

verus! {

/// The candidate substring a pattern generates for an entity name.
pub open spec fn candidate(p: PatternView, name: Seq<u8>) -> Seq<u8> {
    p.prefix + name + p.suffix
}

/// The line contains some candidate for the entity name.
pub open spec fn line_refs(line: Seq<u8>, name: Seq<u8>, pats: Seq<PatternView>) -> bool {
    exists|k: int| 0 <= k < pats.len() && contains_seq(line, candidate(pats[k], name))
}

/// Some line of the file contains some candidate for the entity name.
pub open spec fn file_refs(f: FileView, name: Seq<u8>, pats: Seq<PatternView>) -> bool {
    exists|i: int| 0 <= i < f.lines.len() && line_refs(f.lines[i], name, pats)
}

/// Some file with the given stem references the entity name. Files that
/// share a stem are one referencer: a match in any of them counts.
pub open spec fn stem_refs(
    files: Seq<FileView>,
    s: Seq<u8>,
    name: Seq<u8>,
    pats: Seq<PatternView>,
) -> bool {
    exists|i: int| 0 <= i < files.len() && files[i].stem == s && file_refs(files[i], name, pats)
}

/// Concatenate prefix, name and suffix into one candidate substring.
fn build_candidate(prefix: &Vec<u8>, name: &Vec<u8>, suffix: &Vec<u8>) -> (r: Vec<u8>)
    ensures
        r@ == prefix@ + name@ + suffix@,
{
    let mut r = copy_bytes(prefix);
    let mut i: usize = 0;
    while i < name.len()
        invariant
            i <= name@.len(),
            r@ == prefix@ + name@.take(i as int),
        decreases name@.len() - i,
    {
        r.push(name[i]);
        proof {
            assert(r@ =~= prefix@ + name@.take(i as int + 1));
        }
        i = i + 1;
    }
    proof {
        assert(name@.take(name@.len() as int) =~= name@);
    }
    let mut j: usize = 0;
    while j < suffix.len()
        invariant
            j <= suffix@.len(),
            r@ == prefix@ + name@ + suffix@.take(j as int),
        decreases suffix@.len() - j,
    {
        r.push(suffix[j]);
        proof {
            assert(r@ =~= prefix@ + name@ + suffix@.take(j as int + 1));
        }
        j = j + 1;
    }
    proof {
        assert(suffix@.take(suffix@.len() as int) =~= suffix@);
        assert(prefix@ + name@ + suffix@.take(suffix@.len() as int) =~= prefix@ + name@ + suffix@);
    }
    r
}

/// Generate the candidate substrings of an entity name under every pattern,
/// in pattern order.
pub fn build_candidates(name: &Vec<u8>, patterns: &Vec<Pattern>) -> (r: Vec<Vec<u8>>)
    ensures
        r@.len() == patterns@.len(),
        forall|k: int|
            0 <= k < r@.len() ==> r@[k]@ == candidate(pattern_views(patterns@)[k], name@),
{
    let mut r: Vec<Vec<u8>> = Vec::new();
    let mut k: usize = 0;
    while k < patterns.len()
        invariant
            k <= patterns@.len(),
            r@.len() == k,
            forall|m: int|
                0 <= m < k ==> r@[m]@ == candidate(pattern_views(patterns@)[m], name@),
        decreases patterns@.len() - k,
    {
        let c = build_candidate(&patterns[k].prefix, name, &patterns[k].suffix);
        r.push(c);
        k = k + 1;
    }
    r
}

/// Does the line contain any of the candidates?
fn line_refs_exec(
    line: &Vec<u8>,
    cands: &Vec<Vec<u8>>,
    Ghost(name): Ghost<Seq<u8>>,
    Ghost(pats): Ghost<Seq<PatternView>>,
) -> (r: bool)
    requires
        cands@.len() == pats.len(),
        forall|k: int| 0 <= k < cands@.len() ==> cands@[k]@ == candidate(pats[k], name),
    ensures
        r == line_refs(line@, name, pats),
{
    let mut k: usize = 0;
    while k < cands.len()
        invariant
            cands@.len() == pats.len(),
            forall|m: int| 0 <= m < cands@.len() ==> cands@[m]@ == candidate(pats[m], name),
            k <= cands@.len(),
            forall|m: int| 0 <= m < k ==> !contains_seq(line@, candidate(pats[m], name)),
        decreases cands@.len() - k,
    {
        if contains_bytes(line, &cands[k]) {
            proof {
                assert(contains_seq(line@, candidate(pats[k as int], name)));
            }
            return true;
        }
        k = k + 1;
    }
    false
}

/// Does any line of the file contain any of the candidates?
fn file_refs_exec(
    f: &SourceFile,
    cands: &Vec<Vec<u8>>,
    Ghost(name): Ghost<Seq<u8>>,
    Ghost(pats): Ghost<Seq<PatternView>>,
) -> (r: bool)
    requires
        cands@.len() == pats.len(),
        forall|k: int| 0 <= k < cands@.len() ==> cands@[k]@ == candidate(pats[k], name),
    ensures
        r == file_refs(f@, name, pats),
{
    let mut i: usize = 0;
    while i < f.lines.len()
        invariant
            cands@.len() == pats.len(),
            forall|k: int| 0 <= k < cands@.len() ==> cands@[k]@ == candidate(pats[k], name),
            i <= f.lines@.len(),
            forall|j: int| 0 <= j < i ==> !line_refs(f@.lines[j], name, pats),
        decreases f.lines@.len() - i,
    {
        proof {
            assert(f@.lines[i as int] == f.lines@[i as int]@);
        }
        if line_refs_exec(&f.lines[i], cands, Ghost(name), Ghost(pats)) {
            return true;
        }
        i = i + 1;
    }
    false
}

/// Does any file with the given stem reference the entity whose candidates
/// are given?
pub fn stem_refs_exec(
    files: &Vec<SourceFile>,
    s: &Vec<u8>,
    cands: &Vec<Vec<u8>>,
    Ghost(name): Ghost<Seq<u8>>,
    Ghost(pats): Ghost<Seq<PatternView>>,
) -> (r: bool)
    requires
        cands@.len() == pats.len(),
        forall|k: int| 0 <= k < cands@.len() ==> cands@[k]@ == candidate(pats[k], name),
    ensures
        r == stem_refs(file_views(files@), s@, name, pats),
{
    let ghost fv = file_views(files@);
    let mut i: usize = 0;
    while i < files.len()
        invariant
            fv == file_views(files@),
            cands@.len() == pats.len(),
            forall|k: int| 0 <= k < cands@.len() ==> cands@[k]@ == candidate(pats[k], name),
            i <= files@.len(),
            forall|j: int|
                0 <= j < i ==> !(fv[j].stem == s@ && file_refs(fv[j], name, pats)),
        decreases files@.len() - i,
    {
        proof {
            assert(fv[i as int] == files@[i as int]@);
        }
        if bytes_eq(&files[i].stem, s) {
            if file_refs_exec(&files[i], cands, Ghost(name), Ghost(pats)) {
                return true;
            }
        }
        i = i + 1;
    }
    false
}

/// The referencer stems of a scan, in traversal order: the stem of each
/// file, excluding denylisted stems, each stem once.
pub open spec fn referencer_stems_spec(files: Seq<FileView>, deny: Seq<Seq<u8>>) -> Seq<Seq<u8>>
    decreases files.len(),
{
    if files.len() == 0 {
        Seq::empty()
    } else {
        let rest = referencer_stems_spec(files.drop_last(), deny);
        let f = files.last();
        if !deny.contains(f.stem) && !rest.contains(f.stem) {
            rest.push(f.stem)
        } else {
            rest
        }
    }
}

/// Collect the referencer stems: every distinct, non-denylisted file stem in
/// traversal order.
pub fn collect_referencer_stems(files: &Vec<SourceFile>, denylist: &Vec<Vec<u8>>) -> (r: Vec<
    Vec<u8>,
>)
    ensures
        deep(r@) == referencer_stems_spec(file_views(files@), deep(denylist@)),
{
    let ghost fv = file_views(files@);
    let ghost deny = deep(denylist@);
    let mut r: Vec<Vec<u8>> = Vec::new();
    let mut i: usize = 0;
    while i < files.len()
        invariant
            fv == file_views(files@),
            deny == deep(denylist@),
            i <= files@.len(),
            deep(r@) == referencer_stems_spec(fv.take(i as int), deny),
        decreases files@.len() - i,
    {
        let ghost prefix = fv.take(i as int);
        let ghost next = fv.take(i as int + 1);
        proof {
            assert(next.drop_last() =~= prefix);
            assert(next.last() == fv[i as int]);
            assert(fv[i as int] == files@[i as int]@);
        }
        let denied = contains_name(denylist, &files[i].stem);
        let present = contains_name(&r, &files[i].stem);
        if !denied && !present {
            r.push(copy_bytes(&files[i].stem));
        }
        proof {
            assert(deep(r@) =~~= referencer_stems_spec(next, deny));
        }
        i = i + 1;
    }
    proof {
        assert(fv.take(files@.len() as int) =~= fv);
    }
    r
}

} // verus!
