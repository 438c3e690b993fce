//! Link extractor: finds the first embedded direct-download URL in an
//! HTML page body. A direct link stands inside a script call that
//! opens it: the literal `window.open("`, then the URL itself — a run
//! of non-quote bytes whose path contains the site's download marker —
//! closed by a quote. Only the first such occurrence in document order
//! is used; a body without one yields `NoLinkFound`.

use vstd::prelude::*;

use crate::bytes::{find_from, find_pattern, lemma_find_from, lit_at, match_at, sub_vec};
use crate::errors::DownloadError;

verus! {

/// Bytes of the literal `window.open("` that precedes a direct link.
pub open spec fn opener() -> Seq<u8> {
    seq![('w' as u8), ('i' as u8), ('n' as u8), ('d' as u8), ('o' as u8), ('w' as u8), ('.' as u8), ('o' as u8), ('p' as u8), ('e' as u8), ('n' as u8), ('(' as u8), ('"' as u8)]
}

/// Bytes of the host-and-path marker `fuckingfast.co/dl/` that a
/// direct link must contain.
pub open spec fn marker() -> Seq<u8> {
    seq![
        ('f' as u8), ('u' as u8), ('c' as u8), ('k' as u8), ('i' as u8), ('n' as u8), ('g' as u8), ('f' as u8), ('a' as u8), ('s' as u8), ('t' as u8), ('.' as u8), ('c' as u8), ('o' as u8), ('/' as u8),
        ('d' as u8), ('l' as u8), ('/' as u8),
    ]
}

/// No quote byte anywhere in `s[lo..hi]`.
pub open spec fn quote_free(s: Seq<u8>, lo: int, hi: int) -> bool {
    forall|j: int| lo <= j < hi ==> s[j] != ('"' as u8)
}

/// A direct-link match begins at `i` and is closed by the quote at
/// `end`: the opener literal at `i`, then a non-empty run of non-quote
/// bytes containing the marker with at least one byte on each side.
pub open spec fn link_match(s: Seq<u8>, i: int, end: int) -> bool {
    let c0 = i + opener().len();
    &&& lit_at(s, i, opener())
    &&& c0 <= end < s.len()
    &&& s[end] == ('"' as u8)
    &&& quote_free(s, c0, end)
    &&& exists|k: int| c0 < k && k + marker().len() < end && #[trigger] lit_at(s, k, marker())
}

/// Some direct-link match begins at `i`.
pub open spec fn link_match_at(s: Seq<u8>, i: int) -> bool {
    exists|end: int| link_match(s, i, end)
}

/// The URL captured by the match that begins at `i` and ends at `end`.
pub open spec fn captured(s: Seq<u8>, i: int, end: int) -> Seq<u8> {
    s.subrange(i + opener().len(), end)
}

/// `url` is the capture of the first direct-link match in `s`, in
/// document order.
pub open spec fn is_first_link(s: Seq<u8>, url: Seq<u8>) -> bool {
    exists|i: int, end: int|
        {
            &&& #[trigger] link_match(s, i, end)
            &&& url == captured(s, i, end)
            &&& forall|i2: int| 0 <= i2 < i ==> !link_match_at(s, i2)
        }
}

/// A one-byte pattern occurs at `j` exactly when that byte stands there.
proof fn lemma_single_byte(s: Seq<u8>, j: int, b: u8)
    requires
        0 <= j < s.len(),
    ensures
        lit_at(s, j, seq![b]) <==> s[j] == b,
{
    if s[j] == b {
        assert(s.subrange(j, j + 1) =~= seq![b]);
    }
    if lit_at(s, j, seq![b]) {
        assert(s.subrange(j, j + 1)[0] == s[j]);
    }
}

/// The first quote at or after `c0` bounds a quote-free range.
proof fn lemma_first_quote(s: Seq<u8>, c0: int, end: int)
    requires
        0 <= c0,
        find_from(s, c0, seq![('"' as u8)]) == end,
        end >= 0,
    ensures
        c0 <= end < s.len(),
        s[end] == ('"' as u8),
        quote_free(s, c0, end),
{
    lemma_find_from(s, c0, seq![('"' as u8)]);
    lemma_single_byte(s, end, ('"' as u8));
    assert forall|j: int| c0 <= j < end implies s[j] != ('"' as u8) by {
        lemma_single_byte(s, j, ('"' as u8));
    }
}

/// Two matches beginning at the same index close at the same quote.
proof fn lemma_match_end_unique(s: Seq<u8>, i: int, end: int, end2: int)
    requires
        i + opener().len() <= end < s.len(),
        s[end] == ('"' as u8),
        quote_free(s, i + opener().len(), end),
        link_match(s, i, end2),
    ensures
        end2 == end,
{
}

/// Without any quote after the opener there is no match at `i`.
proof fn lemma_no_quote_no_match(s: Seq<u8>, i: int)
    requires
        0 <= i,
        forall|j: int| i + opener().len() <= j ==> !(#[trigger] lit_at(s, j, seq![('"' as u8)])),
    ensures
        !link_match_at(s, i),
{
    assert forall|end: int| !link_match(s, i, end) by {
        if link_match(s, i, end) {
            lemma_single_byte(s, end, ('"' as u8));
        }
    }
}

/// When no marker occurrence fits before the closing quote, there is
/// no match at `i`.
proof fn lemma_no_marker_no_match(s: Seq<u8>, i: int, end: int)
    requires
        i + opener().len() <= end < s.len(),
        s[end] == ('"' as u8),
        quote_free(s, i + opener().len(), end),
        forall|k: int|
            i + opener().len() < k && k + marker().len() < end ==> !(#[trigger] lit_at(
                s,
                k,
                marker(),
            )),
    ensures
        !link_match_at(s, i),
{
    assert forall|end2: int| !link_match(s, i, end2) by {
        if link_match(s, i, end2) {
            lemma_match_end_unique(s, i, end, end2);
        }
    }
}

/// The opener literal as a vector.
fn opener_bytes() -> (v: Vec<u8>)
    ensures
        v@ == opener(),
{
    let mut v: Vec<u8> = Vec::new();
    v.push(('w' as u8));
    v.push(('i' as u8));
    v.push(('n' as u8));
    v.push(('d' as u8));
    v.push(('o' as u8));
    v.push(('w' as u8));
    v.push(('.' as u8));
    v.push(('o' as u8));
    v.push(('p' as u8));
    v.push(('e' as u8));
    v.push(('n' as u8));
    v.push(('(' as u8));
    v.push(('"' as u8));
    proof {
        assert(v@ =~= opener());
    }
    v
}

/// The marker literal as a vector.
fn marker_bytes() -> (v: Vec<u8>)
    ensures
        v@ == marker(),
{
    let mut v: Vec<u8> = Vec::new();
    v.push(('f' as u8));
    v.push(('u' as u8));
    v.push(('c' as u8));
    v.push(('k' as u8));
    v.push(('i' as u8));
    v.push(('n' as u8));
    v.push(('g' as u8));
    v.push(('f' as u8));
    v.push(('a' as u8));
    v.push(('s' as u8));
    v.push(('t' as u8));
    v.push(('.' as u8));
    v.push(('c' as u8));
    v.push(('o' as u8));
    v.push(('/' as u8));
    v.push(('d' as u8));
    v.push(('l' as u8));
    v.push(('/' as u8));
    proof {
        assert(v@ =~= marker());
    }
    v
}

/// A single quote byte as a vector.
fn quote_bytes() -> (v: Vec<u8>)
    ensures
        v@ == seq![('"' as u8)],
{
    let mut v: Vec<u8> = Vec::new();
    v.push(('"' as u8));
    proof {
        assert(v@ =~= seq![('"' as u8)]);
    }
    v
}

/// Search `body` for the first direct-link match and return its
/// captured URL, unmodified; fail with `NoLinkFound` when no match
/// exists anywhere in the body.
pub fn extract_direct_link(body: &[u8]) -> (r: Result<Vec<u8>, DownloadError>)
    ensures
        match r {
            Ok(url) => is_first_link(body@, url@),
            Err(e) => e == DownloadError::NoLinkFound && forall|i: int| !link_match_at(body@, i),
        },
{
    let opener_v = opener_bytes();
    let marker_v = marker_bytes();
    let quote_v = quote_bytes();
    let mut i: usize = 0;
    while i < body.len()
        invariant
            i <= body@.len(),
            opener_v@ == opener(),
            marker_v@ == marker(),
            quote_v@ == seq![('"' as u8)],
            forall|i2: int| 0 <= i2 < i ==> !link_match_at(body@, i2),
        decreases body@.len() - i,
    {
        if match_at(body, i, opener_v.as_slice()) {
            let c0 = i + opener_v.len();
            match find_pattern(body, c0, quote_v.as_slice()) {
                Some(end) => {
                    proof {
                        lemma_first_quote(body@, c0 as int, end as int);
                    }
                    let found = find_pattern(body, c0 + 1, marker_v.as_slice());
                    proof {
                        lemma_find_from(body@, c0 + 1, marker());
                    }
                    match found {
                        Some(k) if k + marker_v.len() < end => {
                            let url = sub_vec(body, c0, end);
                            proof {
                                assert(link_match(body@, i as int, end as int));
                                assert(url@ == captured(body@, i as int, end as int));
                                assert(is_first_link(body@, url@));
                            }
                            return Ok(url);
                        },
                        Some(k) => {
                            proof {
                                assert forall|k2: int|
                                    c0 < k2 && k2 + marker().len() < end implies !(#[trigger] lit_at(
                                        body@,
                                        k2,
                                        marker(),
                                    )) by {
                                    if lit_at(body@, k2, marker()) {
                                        assert(k2 >= k);
                                    }
                                }
                                lemma_no_marker_no_match(body@, i as int, end as int);
                            }
                        },
                        None => {
                            proof {
                                assert forall|k2: int|
                                    c0 < k2 && k2 + marker().len() < end implies !(#[trigger] lit_at(
                                        body@,
                                        k2,
                                        marker(),
                                    )) by {}
                                lemma_no_marker_no_match(body@, i as int, end as int);
                            }
                        },
                    }
                },
                None => {
                    proof {
                        lemma_find_from(body@, c0 as int, seq![('"' as u8)]);
                        lemma_no_quote_no_match(body@, i as int);
                    }
                },
            }
        } else {
            proof {
                assert forall|end: int| !link_match(body@, i as int, end) by {}
            }
        }
        i += 1;
    }
    proof {
        assert forall|i2: int| !link_match_at(body@, i2) by {
            if link_match_at(body@, i2) {
                let end = choose|end: int| link_match(body@, i2, end);
                assert(lit_at(body@, i2, opener()));
                assert(0 <= i2 < body@.len());
            }
        }
    }
    Err(DownloadError::NoLinkFound)
}

} // verus!
