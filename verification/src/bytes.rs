//! Byte-level pattern primitives shared by the link extractor, the
//! URL-list scanner and the header parser: literal occurrence, first
//! occurrence of a pattern, and subrange copies.

use vstd::prelude::*;

verus! {

/// The pattern `p` occurs in `s` starting at index `i`.
pub open spec fn lit_at(s: Seq<u8>, i: int, p: Seq<u8>) -> bool {
    &&& 0 <= i
    &&& i + p.len() <= s.len()
    &&& s.subrange(i, i + p.len() as int) == p
}

/// Index of the first occurrence of `p` in `s` at or after `i`,
/// or -1 when there is none.
pub open spec fn find_from(s: Seq<u8>, i: int, p: Seq<u8>) -> int
    decreases s.len() - i,
{
    if i < 0 || i + p.len() > s.len() {
        -1
    } else if p.len() == 0 || lit_at(s, i, p) {
        i
    } else {
        find_from(s, i + 1, p)
    }
}

/// What `find_from` finds: a first occurrence when nonnegative, and no
/// occurrence at all (at or after `i`) when -1.
pub proof fn lemma_find_from(s: Seq<u8>, i: int, p: Seq<u8>)
    requires
        0 <= i,
    ensures
        find_from(s, i, p) == -1 ==> forall|j: int| i <= j ==> !lit_at(s, j, p),
        find_from(s, i, p) >= 0 ==> {
            let k = find_from(s, i, p);
            &&& i <= k
            &&& lit_at(s, k, p)
            &&& forall|j: int| i <= j < k ==> !lit_at(s, j, p)
        },
    decreases s.len() - i,
{
    if i + p.len() > s.len() {
    } else if p.len() == 0 {
        assert(s.subrange(i, i) =~= p);
    } else if lit_at(s, i, p) {
    } else {
        lemma_find_from(s, i + 1, p);
    }
}

/// Whether `p` occurs in `s` at index `i`.
pub fn match_at(s: &[u8], i: usize, p: &[u8]) -> (r: bool)
    ensures
        r == lit_at(s@, i as int, p@),
{
    if i > s.len() || s.len() - i < p.len() {
        return false;
    }
    let mut j: usize = 0;
    while j < p.len()
        invariant
            i + p.len() <= s.len(),
            j <= p.len(),
            forall|k: int| 0 <= k < j ==> s@[i + k] == p@[k],
        decreases p.len() - j,
    {
        if s[i + j] != p[j] {
            proof {
                assert(lit_at(s@, i as int, p@) ==> s@.subrange(
                    i as int,
                    i + p@.len() as int,
                )[j as int] == p@[j as int]);
            }
            return false;
        }
        j += 1;
    }
    proof {
        assert(s@.subrange(i as int, i + p@.len() as int) =~= p@);
    }
    true
}

/// Index of the first occurrence of `p` in `s` at or after `from`.
pub fn find_pattern(s: &[u8], from: usize, p: &[u8]) -> (r: Option<usize>)
    ensures
        match r {
            Some(k) => k as int == find_from(s@, from as int, p@),
            None => find_from(s@, from as int, p@) == -1,
        },
{
    let mut i: usize = from;
    loop
        invariant
            from <= i,
            find_from(s@, from as int, p@) == find_from(s@, i as int, p@),
        decreases s@.len() + 1 - i,
    {
        if i > s.len() || s.len() - i < p.len() {
            return None;
        }
        proof {
            if p@.len() == 0 {
                assert(s@.subrange(i as int, i as int) =~= p@);
            }
        }
        if match_at(s, i, p) {
            return Some(i);
        }
        i += 1;
    }
}

/// A copy of `s[lo..hi]` as a fresh vector.
pub fn sub_vec(s: &[u8], lo: usize, hi: usize) -> (v: Vec<u8>)
    requires
        lo <= hi <= s@.len(),
    ensures
        v@ == s@.subrange(lo as int, hi as int),
{
    let mut v: Vec<u8> = Vec::new();
    let mut j: usize = lo;
    proof {
        assert(v@ =~= s@.subrange(lo as int, lo as int));
    }
    while j < hi
        invariant
            lo <= j <= hi <= s@.len(),
            v@ == s@.subrange(lo as int, j as int),
        decreases hi - j,
    {
        v.push(s[j]);
        j += 1;
        proof {
            assert(v@ =~= s@.subrange(lo as int, j as int));
        }
    }
    v
}

} // verus!
