//! Locating the boundary between the text header and the binary payload.
//!
//! A file starts with UTF-8 header text, one `0x00` terminator byte, and
//! then the binary payload.  The locator finds the first `0x00`, decodes
//! the bytes before it, and reports where the payload begins.

use vstd::prelude::*;
use vstd::utf8::decode_utf8;
use vstd::utf8::valid_utf8;
use crate::errors::QvdError;

verus! {

/// The index of the first `0x00` byte of `s`, or `s.len()` if none exists.
pub open spec fn first_zero(s: Seq<u8>) -> int
    decreases s.len(),
{
    if s.len() == 0 {
        0
    } else if s[0] == 0u8 {
        0
    } else {
        1 + first_zero(s.drop_first())
    }
}

/// `first_zero` names position `k` exactly when everything before `k` is
/// non-zero and `k` is either a zero byte or the end of the input.
pub proof fn lemma_first_zero_is(s: Seq<u8>, k: int)
    requires
        0 <= k <= s.len(),
        forall|j: int| 0 <= j < k ==> s[j] != 0u8,
        k < s.len() ==> s[k] == 0u8,
    ensures
        first_zero(s) == k,
    decreases k,
{
    if k == 0 {
    } else {
        assert(s[0] != 0u8);
        assert(forall|j: int| 0 <= j < k - 1 ==> s.drop_first()[j] != 0u8);
        lemma_first_zero_is(s.drop_first(), k - 1);
    }
}

/// Relies on `str::from_utf8` (read through vstd's UTF-8 model): it succeeds
/// exactly on valid UTF-8 input and yields the decoded characters.
#[verifier::external_body]
fn utf8_to_string(b: &[u8]) -> (r: Option<String>)
    ensures
        r is Some <==> valid_utf8(b@),
        r matches Some(text) ==> text@ == decode_utf8(b@),
{
    match core::str::from_utf8(b) {
        Ok(text) => Some(text.to_owned()),
        Err(_) => None,
    }
}

/// Scans the input for the first `0x00` byte, decodes the bytes before it
/// as UTF-8 text, and returns that text together with the count of bytes
/// consumed (text byte length plus one) — the offset where the binary
/// payload begins.  Fails with `FormatError` when no terminator exists, and
/// with `DecodingError` when the header bytes are not valid UTF-8.
pub fn get_xml_data(buf: &[u8]) -> (r: Result<(String, usize), QvdError>)
    ensures
        r is Ok <==> (first_zero(buf@) < buf@.len() && valid_utf8(
            buf@.subrange(0, first_zero(buf@)),
        )),
        r matches Ok(pair) ==> {
            &&& pair.0@ == decode_utf8(buf@.subrange(0, first_zero(buf@)))
            &&& pair.1 == first_zero(buf@) + 1
        },
        r matches Err(e) ==> {
            &&& (first_zero(buf@) == buf@.len() ==> e == (QvdError::FormatError {
                offset: buf@.len() as usize,
            }))
            &&& (first_zero(buf@) < buf@.len() ==> e == QvdError::DecodingError && !valid_utf8(
                buf@.subrange(0, first_zero(buf@)),
            ))
        },
{
    let mut i: usize = 0;
    while i < buf.len()
        invariant
            i <= buf@.len(),
            forall|j: int| 0 <= j < i ==> buf@[j] != 0u8,
        decreases buf@.len() - i,
    {
        if *vstd::slice::slice_index_get(buf, i) == 0 {
            proof {
                lemma_first_zero_is(buf@, i as int);
            }
            let text_bytes = vstd::slice::slice_subrange(buf, 0, i);
            match utf8_to_string(text_bytes) {
                Some(text) => {
                    return Ok((text, i + 1));
                },
                None => {
                    return Err(QvdError::DecodingError);
                },
            }
        }
        i = i + 1;
    }
    proof {
        lemma_first_zero_is(buf@, buf@.len() as int);
    }
    Err(QvdError::FormatError { offset: buf.len() })
}

/// Law: for a header of terminator-free text bytes followed by `0x00` and
/// arbitrary payload bytes, the boundary sits exactly after the header: the
/// recovered text bytes are the header bytes, and the payload offset —
/// `first_zero` plus one — equals the header length plus one.
pub proof fn lemma_boundary_offset(text: Seq<u8>, tail: Seq<u8>)
    requires
        forall|j: int| 0 <= j < text.len() ==> text[j] != 0u8,
    ensures
        first_zero(text + seq![0u8] + tail) == text.len(),
        (text + seq![0u8] + tail).subrange(0, text.len() as int) == text,
{
    let t = text + seq![0u8] + tail;
    assert(t[text.len() as int] == 0u8);
    lemma_first_zero_is(t, text.len() as int);
    assert(t.subrange(0, text.len() as int) =~= text);
}

} // verus!
