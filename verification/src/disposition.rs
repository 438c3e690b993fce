//! Destination-filename derivation from a content-disposition header
//! value: the bytes between the first `filename*=UTF-8''` parameter
//! key and the next occurrence of that key (or the end of the value),
//! with surrounding quote characters stripped. A value without the key
//! yields `MissingFilename`; no fallback name is synthesized.

use vstd::prelude::*;

use crate::bytes::{find_from, find_pattern, lemma_find_from, sub_vec};
use crate::errors::DownloadError;

verus! {

/// Bytes of the parameter key `filename*=UTF-8''`.
pub open spec fn filename_key() -> Seq<u8> {
    seq![
        ('f' as u8), ('i' as u8), ('l' as u8), ('e' as u8), ('n' as u8), ('a' as u8), ('m' as u8),
        ('e' as u8), ('*' as u8), ('=' as u8), ('U' as u8), ('T' as u8), ('F' as u8), ('-' as u8),
        ('8' as u8), ('\'' as u8), ('\'' as u8),
    ]
}

/// `s` with every leading and trailing quote byte removed.
pub open spec fn trim_quotes(s: Seq<u8>) -> Seq<u8>
    decreases s.len(),
{
    if s.len() > 0 && s[0] == ('"' as u8) {
        trim_quotes(s.subrange(1, s.len() as int))
    } else if s.len() > 0 && s[s.len() - 1] == ('"' as u8) {
        trim_quotes(s.subrange(0, s.len() - 1))
    } else {
        s
    }
}

/// The filename encoded in a content-disposition value `v`, when the
/// parameter key occurs in it.
pub open spec fn filename_of(v: Seq<u8>) -> Option<Seq<u8>> {
    let k = find_from(v, 0, filename_key());
    if k < 0 {
        None
    } else {
        let start = k + filename_key().len();
        let next = find_from(v, start, filename_key());
        let stop = if next < 0 {
            v.len() as int
        } else {
            next
        };
        Some(trim_quotes(v.subrange(start, stop)))
    }
}

/// Copy of `v` with leading and trailing quotes removed.
fn trim_quotes_exec(v: &[u8]) -> (r: Vec<u8>)
    ensures
        r@ == trim_quotes(v@),
    decreases v@.len(),
{
    if v.len() > 0 && v[0] == ('"' as u8) {
        trim_quotes_exec(&v[1..v.len()])
    } else if v.len() > 0 && v[v.len() - 1] == ('"' as u8) {
        trim_quotes_exec(&v[0..v.len() - 1])
    } else {
        let r = sub_vec(v, 0, v.len());
        proof {
            assert(v@.subrange(0, v@.len() as int) =~= v@);
        }
        r
    }
}

/// The parameter key as a vector.
fn filename_key_bytes() -> (v: Vec<u8>)
    ensures
        v@ == filename_key(),
{
    let mut v: Vec<u8> = Vec::new();
    v.push('f' as u8);
    v.push('i' as u8);
    v.push('l' as u8);
    v.push('e' as u8);
    v.push('n' as u8);
    v.push('a' as u8);
    v.push('m' as u8);
    v.push('e' as u8);
    v.push('*' as u8);
    v.push('=' as u8);
    v.push('U' as u8);
    v.push('T' as u8);
    v.push('F' as u8);
    v.push('-' as u8);
    v.push('8' as u8);
    v.push('\'' as u8);
    v.push('\'' as u8);
    proof {
        assert(v@ =~= filename_key());
    }
    v
}

/// Derive the destination filename from a content-disposition header
/// value; fail with `MissingFilename` when the value carries no
/// `filename*=UTF-8''` parameter.
pub fn filename_from_disposition(value: &[u8]) -> (r: Result<Vec<u8>, DownloadError>)
    ensures
        match r {
            Ok(f) => filename_of(value@) == Some(f@),
            Err(e) => e == DownloadError::MissingFilename && filename_of(value@) is None,
        },
{
    let key = filename_key_bytes();
    let n = value.len();
    match find_pattern(value, 0, key.as_slice()) {
        None => Err(DownloadError::MissingFilename),
        Some(k) => {
            proof {
                lemma_find_from(value@, 0, filename_key());
                assert(k + filename_key().len() <= value@.len());
            }
            let start = k + key.len();
            let stop = match find_pattern(value, start, key.as_slice()) {
                None => n,
                Some(next) => {
                    proof {
                        lemma_find_from(value@, start as int, filename_key());
                    }
                    next
                },
            };
            let part = sub_vec(value, start, stop);
            let trimmed = trim_quotes_exec(part.as_slice());
            Ok(trimmed)
        },
    }
}

} // verus!
