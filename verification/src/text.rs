//! Bridging between owned UTF-8 text and its byte form.

use vstd::prelude::*;
use vstd::string::StringSliceAdditionalSpecFns;
use vstd::utf8::{encode_utf8, valid_utf8};

verus! {

/// The UTF-8 bytes of a character sequence; the byte-level reading of a
/// `String` or `&str` used throughout the contracts of this crate.
pub open spec fn spec_str_bytes(s: Seq<char>) -> Seq<u8> {
    encode_utf8(s)
}

/// Relies on `String::from_utf8`: it returns the string holding exactly the
/// given bytes when they are valid UTF-8, and an error otherwise.
#[verifier::external_body]
pub fn string_from_utf8(v: Vec<u8>) -> (r: Option<String>)
    ensures
        r is Some <==> valid_utf8(v@),
        r matches Some(s) ==> spec_str_bytes(s@) == v@,
{
    match String::from_utf8(v) {
        Ok(s) => Some(s),
        Err(_) => None,
    }
}

/// Whether a byte vector holds exactly the UTF-8 bytes of a string slice.
pub fn bytes_eq_str(a: &Vec<u8>, s: &str) -> (r: bool)
    ensures
        r == (a@ == spec_str_bytes(s@)),
{
    let bs: &[u8] = s.as_bytes();
    if a.len() != bs.len() {
        assert(a@.len() != spec_str_bytes(s@).len());
        return false;
    }
    let n = a.len();
    let mut i: usize = 0;
    while i < n
        invariant
            i <= n,
            n == a@.len() == bs@.len(),
            bs@ == spec_str_bytes(s@),
            forall|k: int| 0 <= k < i ==> a@[k] == bs@[k],
        decreases n - i,
    {
        if a[i] != bs[i] {
            assert(a@ != spec_str_bytes(s@));
            return false;
        }
        i = i + 1;
    }
    assert(a@ =~= bs@);
    true
}

/// A fresh copy of a byte vector.
pub fn clone_bytes(v: &Vec<u8>) -> (out: Vec<u8>)
    ensures
        out@ == v@,
{
    let n = v.len();
    let mut out: Vec<u8> = Vec::new();
    let mut i: usize = 0;
    while i < n
        invariant
            i <= n,
            n == v@.len(),
            out@ == v@.take(i as int),
        decreases n - i,
    {
        out.push(v[i]);
        assert(out@ =~= v@.take(i as int + 1));
        i = i + 1;
    }
    assert(v@.take(n as int) =~= v@);
    out
}

/// The UTF-8 bytes of a string slice as a fresh vector.
pub fn str_to_bytes(s: &str) -> (out: Vec<u8>)
    ensures
        out@ == spec_str_bytes(s@),
{
    let bs: &[u8] = s.as_bytes();
    let n = bs.len();
    let mut out: Vec<u8> = Vec::new();
    let mut i: usize = 0;
    while i < n
        invariant
            i <= n,
            n == bs@.len(),
            out@ == bs@.take(i as int),
        decreases n - i,
    {
        out.push(bs[i]);
        assert(out@ =~= bs@.take(i as int + 1));
        i = i + 1;
    }
    assert(bs@.take(n as int) =~= bs@);
    out
}

} // verus!
