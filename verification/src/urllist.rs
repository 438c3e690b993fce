//! URL-list scanner: every substring of a text that looks like an
//! `http://` or `https://` URL is one entry, in order of first
//! appearance. A URL starts at a scheme literal and extends over the
//! longest run of bytes that are not ASCII whitespace, `"`, `<` or
//! `>`; matches do not overlap, and no line structure is assumed.

use vstd::prelude::*;

use crate::bytes::{lit_at, match_at, sub_vec};

verus! {

/// Bytes of `http://`.
pub open spec fn http_scheme() -> Seq<u8> {
    seq![
        ('h' as u8), ('t' as u8), ('t' as u8), ('p' as u8), (':' as u8), ('/' as u8), ('/' as u8),
    ]
}

/// Bytes of `https://`.
pub open spec fn https_scheme() -> Seq<u8> {
    seq![
        ('h' as u8), ('t' as u8), ('t' as u8), ('p' as u8), ('s' as u8), (':' as u8), ('/' as u8),
        ('/' as u8),
    ]
}

/// A byte that may stand inside a URL: anything but ASCII whitespace,
/// `"`, `<` and `>`.
pub open spec fn url_byte(b: u8) -> bool {
    &&& b != 0x20
    &&& b != 0x09
    &&& b != 0x0a
    &&& b != 0x0b
    &&& b != 0x0c
    &&& b != 0x0d
    &&& b != ('"' as u8)
    &&& b != ('<' as u8)
    &&& b != ('>' as u8)
}

/// Length of the URL scheme at `i`: the longer `https://` wins over
/// `http://`; 0 when neither stands there.
pub open spec fn scheme_len_at(s: Seq<u8>, i: int) -> int {
    if lit_at(s, i, https_scheme()) {
        8
    } else if lit_at(s, i, http_scheme()) {
        7
    } else {
        0
    }
}

/// A URL match begins at `i`: a scheme followed by at least one URL byte.
pub open spec fn url_match_at(s: Seq<u8>, i: int) -> bool {
    let sl = scheme_len_at(s, i);
    &&& sl > 0
    &&& i + sl < s.len()
    &&& url_byte(s[i + sl])
}

/// First index at or after `j` that does not continue a run of URL bytes.
pub open spec fn run_end(s: Seq<u8>, j: int) -> int
    decreases s.len() - j,
{
    if 0 <= j && j < s.len() && url_byte(s[j]) {
        run_end(s, j + 1)
    } else {
        j
    }
}

/// Bounds and meaning of `run_end`: it stays within the text, every
/// byte before it continues the run, and the run stops there.
pub proof fn lemma_run_end(s: Seq<u8>, j: int)
    requires
        0 <= j <= s.len(),
    ensures
        j <= run_end(s, j) <= s.len(),
        forall|m: int| j <= m < run_end(s, j) ==> url_byte(s[m]),
        run_end(s, j) == s.len() || !url_byte(s[run_end(s, j)]),
    decreases s.len() - j,
{
    if j < s.len() && url_byte(s[j]) {
        lemma_run_end(s, j + 1);
    }
}

/// The sequence of URL matches in `s` from position `i` on: at a match,
/// the maximal run from the scheme start, then the scan resumes where
/// that match ended; elsewhere the scan moves one byte on.
pub open spec fn urls_from(s: Seq<u8>, i: int) -> Seq<Seq<u8>>
    decreases s.len() - i,
    when 0 <= i <= s.len()
    via urls_from_dec
{
    if i >= s.len() {
        Seq::empty()
    } else if url_match_at(s, i) {
        let e = run_end(s, i + scheme_len_at(s, i));
        seq![s.subrange(i, e)] + urls_from(s, e)
    } else {
        urls_from(s, i + 1)
    }
}

#[via_fn]
proof fn urls_from_dec(s: Seq<u8>, i: int) {
    if 0 <= i <= s.len() && i < s.len() && url_match_at(s, i) {
        lemma_run_end(s, i + scheme_len_at(s, i));
    }
}

/// The whole scan of `s`.
pub open spec fn all_urls(s: Seq<u8>) -> Seq<Seq<u8>> {
    urls_from(s, 0)
}

/// `entry` is the text of a URL match of `s` that begins at or after
/// `i`: the bytes from a match position to the end of the maximal run
/// of URL bytes after its scheme.
pub open spec fn is_match_text(s: Seq<u8>, i: int, entry: Seq<u8>) -> bool {
    exists|m: int|
        {
            &&& i <= m
            &&& #[trigger] url_match_at(s, m)
            &&& entry == s.subrange(m, run_end(s, m + scheme_len_at(s, m)))
        }
}

proof fn lemma_match_text_widen(s: Seq<u8>, lo: int, hi: int, entry: Seq<u8>)
    requires
        lo <= hi,
        is_match_text(s, hi, entry),
    ensures
        is_match_text(s, lo, entry),
{
    let m = choose|m: int|
        {
            &&& hi <= m
            &&& #[trigger] url_match_at(s, m)
            &&& entry == s.subrange(m, run_end(s, m + scheme_len_at(s, m)))
        };
    assert(lo <= m && url_match_at(s, m) && entry == s.subrange(
        m,
        run_end(s, m + scheme_len_at(s, m)),
    ));
}

/// Every scanned entry is a genuine URL match of the text.
pub proof fn lemma_entries_are_matches(s: Seq<u8>, i: int)
    requires
        0 <= i <= s.len(),
    ensures
        forall|k: int|
            0 <= k < urls_from(s, i).len() ==> is_match_text(s, i, #[trigger] urls_from(s, i)[k]),
    decreases s.len() - i,
{
    if i >= s.len() {
    } else if url_match_at(s, i) {
        let e = run_end(s, i + scheme_len_at(s, i));
        lemma_run_end(s, i + scheme_len_at(s, i));
        lemma_entries_are_matches(s, e);
        assert forall|k: int|
            0 <= k < urls_from(s, i).len() implies is_match_text(
            s,
            i,
            #[trigger] urls_from(s, i)[k],
        ) by {
            if k == 0 {
                assert(urls_from(s, i)[0] == s.subrange(i, e));
                assert(url_match_at(s, i));
            } else {
                assert(urls_from(s, i)[k] == urls_from(s, e)[k - 1]);
                lemma_match_text_widen(s, i, e, urls_from(s, e)[k - 1]);
            }
        }
    } else {
        lemma_entries_are_matches(s, i + 1);
        assert forall|k: int|
            0 <= k < urls_from(s, i).len() implies is_match_text(
            s,
            i,
            #[trigger] urls_from(s, i)[k],
        ) by {
            assert(urls_from(s, i)[k] == urls_from(s, i + 1)[k]);
            lemma_match_text_widen(s, i, i + 1, urls_from(s, i + 1)[k]);
        }
    }
}

/// Whether `b` may stand inside a URL.
pub fn is_url_byte(b: u8) -> (r: bool)
    ensures
        r == url_byte(b),
{
    b != 0x20 && b != 0x09 && b != 0x0a && b != 0x0b && b != 0x0c && b != 0x0d && b != ('"' as u8)
        && b != ('<' as u8) && b != ('>' as u8)
}

/// The `http://` literal as a vector.
fn http_bytes() -> (v: Vec<u8>)
    ensures
        v@ == http_scheme(),
{
    let mut v: Vec<u8> = Vec::new();
    v.push('h' as u8);
    v.push('t' as u8);
    v.push('t' as u8);
    v.push('p' as u8);
    v.push(':' as u8);
    v.push('/' as u8);
    v.push('/' as u8);
    proof {
        assert(v@ =~= http_scheme());
    }
    v
}

/// The `https://` literal as a vector.
fn https_bytes() -> (v: Vec<u8>)
    ensures
        v@ == https_scheme(),
{
    let mut v: Vec<u8> = Vec::new();
    v.push('h' as u8);
    v.push('t' as u8);
    v.push('t' as u8);
    v.push('p' as u8);
    v.push('s' as u8);
    v.push(':' as u8);
    v.push('/' as u8);
    v.push('/' as u8);
    proof {
        assert(v@ =~= https_scheme());
    }
    v
}

/// Length of the URL scheme at `i`.
fn scheme_len(s: &[u8], i: usize) -> (sl: usize)
    ensures
        sl as int == scheme_len_at(s@, i as int),
{
    let https_v = https_bytes();
    let http_v = http_bytes();
    if match_at(s, i, https_v.as_slice()) {
        8
    } else if match_at(s, i, http_v.as_slice()) {
        7
    } else {
        0
    }
}

/// End of the run of URL bytes that starts at `j`.
fn run_end_exec(s: &[u8], j: usize) -> (e: usize)
    requires
        j <= s@.len(),
    ensures
        e as int == run_end(s@, j as int),
        j <= e <= s@.len(),
{
    let mut e: usize = j;
    while e < s.len() && is_url_byte(s[e])
        invariant
            j <= e <= s@.len(),
            run_end(s@, j as int) == run_end(s@, e as int),
        decreases s@.len() - e,
    {
        e += 1;
    }
    proof {
        lemma_run_end(s@, j as int);
    }
    e
}

/// Scan `content` and return every URL match, each exactly once, in
/// order of first appearance.
pub fn find_urls(content: &[u8]) -> (urls: Vec<Vec<u8>>)
    ensures
        urls.deep_view() == all_urls(content@),
{
    let mut urls: Vec<Vec<u8>> = Vec::new();
    let mut i: usize = 0;
    proof {
        assert(urls.deep_view() =~= Seq::<Seq<u8>>::empty());
        assert(urls.deep_view() + urls_from(content@, 0) =~= urls_from(content@, 0));
    }
    while i < content.len()
        invariant
            i <= content@.len(),
            all_urls(content@) == urls.deep_view() + urls_from(content@, i as int),
        decreases content@.len() - i,
    {
        let ghost pre = urls.deep_view();
        let sl = scheme_len(content, i);
        if sl > 0 && i + sl < content.len() && is_url_byte(content[i + sl]) {
            let e = run_end_exec(content, i + sl);
            let cap = sub_vec(content, i, e);
            proof {
                assert(url_match_at(content@, i as int));
                assert(urls_from(content@, i as int) == seq![cap@] + urls_from(
                    content@,
                    e as int,
                ));
            }
            urls.push(cap);
            proof {
                assert(cap.deep_view() =~= cap@);
                assert(urls.deep_view() =~~= pre + seq![cap@]);
                assert((pre + seq![cap@]) + urls_from(content@, e as int) =~= pre + (seq![cap@]
                    + urls_from(content@, e as int)));
            }
            i = e;
        } else {
            proof {
                assert(!url_match_at(content@, i as int));
                assert(urls_from(content@, i as int) == urls_from(content@, i + 1));
            }
            i += 1;
        }
    }
    proof {
        assert(urls_from(content@, i as int) =~= Seq::<Seq<u8>>::empty());
        assert(urls.deep_view() + Seq::<Seq<u8>>::empty() =~= urls.deep_view());
    }
    urls
}

} // verus!
