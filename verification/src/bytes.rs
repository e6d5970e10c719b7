//! Byte-level text primitives: ASCII lowercasing, literal substring search,
//! suffix tests, and file-stem extraction. All matching in the library is
//! defined over byte sequences; case-insensitive comparisons lowercase the
//! ASCII letters and leave every other byte unchanged.

use vstd::prelude::*;

verus! {

/// ASCII lowercase of a single byte: `A`..`Z` map to `a`..`z`, everything
/// else is unchanged.
pub open spec fn lower_byte(b: u8) -> u8 {
    if 65 <= b && b <= 90 {
        (b + 32) as u8
    } else {
        b
    }
}

/// Pointwise ASCII lowercase of a byte sequence.
pub open spec fn lower_seq(s: Seq<u8>) -> Seq<u8> {
    Seq::new(s.len(), |i: int| lower_byte(s[i]))
}

/// `needle` occurs in `hay` starting at offset `i`.
pub open spec fn match_at(hay: Seq<u8>, needle: Seq<u8>, i: int) -> bool {
    &&& 0 <= i
    &&& i + needle.len() <= hay.len()
    &&& forall|k: int| 0 <= k < needle.len() ==> hay[i + k] == needle[k]
}

/// `needle` occurs somewhere in `hay` as a contiguous subsequence.
pub open spec fn contains_seq(hay: Seq<u8>, needle: Seq<u8>) -> bool {
    exists|i: int| match_at(hay, needle, i)
}

/// `suffix` is a suffix of `s`.
pub open spec fn ends_with(s: Seq<u8>, suffix: Seq<u8>) -> bool {
    &&& suffix.len() <= s.len()
    &&& forall|k: int| 0 <= k < suffix.len() ==> s[s.len() - suffix.len() + k] == suffix[k]
}

/// The views of a list of byte vectors.
pub open spec fn deep(s: Seq<Vec<u8>>) -> Seq<Seq<u8>> {
    Seq::new(s.len(), |i: int| s[i]@)
}

/// No two elements of the sequence are equal.
pub open spec fn distinct_seq(s: Seq<Seq<u8>>) -> bool {
    forall|i: int, j: int| 0 <= i < j < s.len() ==> s[i] != s[j]
}

/// ASCII-lowercase a byte vector.
pub fn lower_vec(v: &Vec<u8>) -> (r: Vec<u8>)
    ensures
        r@ == lower_seq(v@),
{
    let mut r: Vec<u8> = Vec::new();
    let mut i: usize = 0;
    while i < v.len()
        invariant
            i <= v@.len(),
            r@.len() == i,
            forall|j: int| 0 <= j < i ==> r@[j] == lower_byte(v@[j]),
        decreases v@.len() - i,
    {
        let b = v[i];
        if 65 <= b && b <= 90 {
            r.push(b + 32);
        } else {
            r.push(b);
        }
        i = i + 1;
    }
    proof {
        assert(r@ =~= lower_seq(v@));
    }
    r
}

/// Copy a byte vector.
pub fn copy_bytes(v: &Vec<u8>) -> (r: Vec<u8>)
    ensures
        r@ == v@,
{
    let mut r: Vec<u8> = Vec::new();
    let mut i: usize = 0;
    while i < v.len()
        invariant
            i <= v@.len(),
            r@.len() == i,
            forall|j: int| 0 <= j < i ==> r@[j] == v@[j],
        decreases v@.len() - i,
    {
        r.push(v[i]);
        i = i + 1;
    }
    proof {
        assert(r@ =~= v@);
    }
    r
}

/// Byte-vector equality.
pub fn bytes_eq(a: &Vec<u8>, b: &Vec<u8>) -> (r: bool)
    ensures
        r == (a@ == b@),
{
    if a.len() != b.len() {
        return false;
    }
    let mut i: usize = 0;
    while i < a.len()
        invariant
            a@.len() == b@.len(),
            i <= a@.len(),
            forall|j: int| 0 <= j < i ==> a@[j] == b@[j],
        decreases a@.len() - i,
    {
        if a[i] != b[i] {
            return false;
        }
        i = i + 1;
    }
    proof {
        assert(a@ =~= b@);
    }
    true
}

/// `needle` occurs in `hay` starting at offset `i`, checked byte by byte.
fn match_at_exec(hay: &Vec<u8>, needle: &Vec<u8>, i: usize) -> (r: bool)
    requires
        i + needle@.len() <= hay@.len(),
    ensures
        r == match_at(hay@, needle@, i as int),
{
    let hl = hay.len();
    let mut k: usize = 0;
    while k < needle.len()
        invariant
            hl == hay@.len(),
            i + needle@.len() <= hay@.len(),
            k <= needle@.len(),
            forall|m: int| 0 <= m < k ==> hay@[i + m] == needle@[m],
        decreases needle@.len() - k,
    {
        if hay[i + k] != needle[k] {
            return false;
        }
        k = k + 1;
    }
    true
}

/// Literal substring search: does `needle` occur anywhere in `hay`?
pub fn contains_bytes(hay: &Vec<u8>, needle: &Vec<u8>) -> (r: bool)
    ensures
        r == contains_seq(hay@, needle@),
{
    if needle.len() == 0 {
        proof {
            assert(match_at(hay@, needle@, 0));
        }
        return true;
    }
    if needle.len() > hay.len() {
        proof {
            assert forall|i: int| !match_at(hay@, needle@, i) by {}
        }
        return false;
    }
    let end = hay.len() - needle.len() + 1;
    let mut i: usize = 0;
    while i < end
        invariant
            needle@.len() >= 1,
            needle@.len() <= hay@.len(),
            end == hay@.len() - needle@.len() + 1,
            i <= end,
            forall|j: int| 0 <= j < i ==> !match_at(hay@, needle@, j),
        decreases end - i,
    {
        if match_at_exec(hay, needle, i) {
            return true;
        }
        i = i + 1;
    }
    proof {
        assert forall|j: int| !match_at(hay@, needle@, j) by {
            if 0 <= j < end as int {
                assert(!match_at(hay@, needle@, j));
            }
        }
    }
    false
}

/// Suffix test on byte vectors.
pub fn ends_with_bytes(s: &Vec<u8>, suffix: &Vec<u8>) -> (r: bool)
    ensures
        r == ends_with(s@, suffix@),
{
    if suffix.len() > s.len() {
        return false;
    }
    let sl = s.len();
    let off = s.len() - suffix.len();
    let mut k: usize = 0;
    while k < suffix.len()
        invariant
            sl == s@.len(),
            suffix@.len() <= s@.len(),
            off == s@.len() - suffix@.len(),
            k <= suffix@.len(),
            forall|m: int| 0 <= m < k ==> s@[off + m] == suffix@[m],
        decreases suffix@.len() - k,
    {
        if s[off + k] != suffix[k] {
            return false;
        }
        k = k + 1;
    }
    true
}

/// Case-insensitive (ASCII) extension filter: true when the lowercased file
/// name ends with the lowercased extension.
pub fn matches_extension(name: &Vec<u8>, extension: &Vec<u8>) -> (r: bool)
    ensures
        r == ends_with(lower_seq(name@), lower_seq(extension@)),
{
    let ln = lower_vec(name);
    let le = lower_vec(extension);
    ends_with_bytes(&ln, &le)
}

/// Case-insensitive (ASCII) substring test: does the lowercased needle occur
/// in the lowercased hay?
pub fn contains_ci(hay: &Vec<u8>, needle: &Vec<u8>) -> (r: bool)
    ensures
        r == contains_seq(lower_seq(hay@), lower_seq(needle@)),
{
    let lh = lower_vec(hay);
    let ln = lower_vec(needle);
    contains_bytes(&lh, &ln)
}

/// `i` is the offset of the last dot that separates a file name's stem from
/// its extension. A dot at offset 0 (a leading-dot hidden file) does not
/// count as a separator.
pub open spec fn is_stem_split(name: Seq<u8>, i: int) -> bool {
    &&& 1 <= i < name.len()
    &&& name[i] == 46u8
    &&& forall|j: int| i < j < name.len() ==> name[j] != 46u8
}

/// The stem of a file name: everything before the last dot, or the whole
/// name when there is no separating dot.
pub open spec fn stem_spec(name: Seq<u8>) -> Seq<u8> {
    if exists|i: int| is_stem_split(name, i) {
        name.take(choose|i: int| is_stem_split(name, i))
    } else {
        name
    }
}

/// At most one offset can be the stem/extension split point.
proof fn lemma_stem_split_unique(name: Seq<u8>, i: int, j: int)
    requires
        is_stem_split(name, i),
        is_stem_split(name, j),
    ensures
        i == j,
{
    if i < j {
        assert(name[j] != 46u8);
    }
    if j < i {
        assert(name[i] != 46u8);
    }
}

/// Extract the stem (name without extension) of a file name.
pub fn stem_of(name: &Vec<u8>) -> (r: Vec<u8>)
    ensures
        r@ == stem_spec(name@),
{
    let mut i: usize = name.len();
    while i > 1
        invariant
            i <= name@.len(),
            forall|j: int| i <= j < name@.len() ==> name@[j] != 46u8,
        decreases i,
    {
        if name[i - 1] == 46 {
            let split = i - 1;
            proof {
                assert(is_stem_split(name@, split as int));
                let c = choose|m: int| is_stem_split(name@, m);
                lemma_stem_split_unique(name@, c, split as int);
            }
            let mut r: Vec<u8> = Vec::new();
            let mut k: usize = 0;
            while k < split
                invariant
                    split <= name@.len(),
                    k <= split,
                    r@.len() == k,
                    forall|m: int| 0 <= m < k ==> r@[m] == name@[m],
                decreases split - k,
            {
                r.push(name[k]);
                k = k + 1;
            }
            proof {
                assert(r@ =~= name@.take(split as int));
            }
            return r;
        }
        i = i - 1;
    }
    proof {
        assert forall|m: int| !is_stem_split(name@, m) by {
            if 1 <= m < name@.len() {
                assert(name@[m] != 46u8);
            }
        }
    }
    copy_bytes(name)
}

/// Membership of a byte vector in a list of byte vectors.
pub fn contains_name(list: &Vec<Vec<u8>>, x: &Vec<u8>) -> (r: bool)
    ensures
        r == deep(list@).contains(x@),
{
    let mut i: usize = 0;
    while i < list.len()
        invariant
            i <= list@.len(),
            forall|j: int| 0 <= j < i ==> list@[j]@ != x@,
        decreases list@.len() - i,
    {
        if bytes_eq(&list[i], x) {
            proof {
                assert(deep(list@)[i as int] == x@);
            }
            return true;
        }
        i = i + 1;
    }
    proof {
        assert forall|j: int| 0 <= j < deep(list@).len() implies deep(list@)[j] != x@ by {
            assert(deep(list@)[j] == list@[j]@);
        }
    }
    false
}

} // verus!
