//! Status codes and output-buffer handling for callers across a C boundary.
use crate::hash::{hex_encode, sha256_hex, sha256_of};
use vstd::prelude::*;
use vstd::string::StringSliceAdditionalSpecFns;
use vstd::utf8::valid_utf8;

verus! {

/// The call succeeded.
pub const STATUS_OK: i32 = 0;

/// The call failed: an input was malformed, or reading, decoding, rendering or
/// writing failed.
pub const STATUS_FAILURE: i32 = -1;

/// The caller's output buffer cannot hold the result with its terminator.
pub const STATUS_BUFFER_TOO_SMALL: i32 = -2;

/// The size of a buffer that holds a hexadecimal SHA-256 digest and its
/// terminating zero byte.
pub const DIGEST_BUFFER_LEN: usize = 65;

/// Relies on std's `str::from_utf8`: it succeeds exactly on well-formed UTF-8,
/// and the text it returns is made of the same bytes.
#[verifier::external_body]
fn utf8_text(bytes: &[u8]) -> (r: Option<&str>)
    ensures
        r is Some <==> valid_utf8(bytes@),
        r matches Some(s) ==> s.spec_bytes() == bytes@,
{
    std::str::from_utf8(bytes).ok()
}

/// Reads a caller's string argument, given as its bytes without the
/// terminator: the text where the bytes are well-formed UTF-8, and
/// `STATUS_FAILURE` where they are not.
pub fn text_argument(bytes: &[u8]) -> (r: Result<&str, i32>)
    ensures
        valid_utf8(bytes@) ==> (r matches Ok(s) && s.spec_bytes() == bytes@),
        !valid_utf8(bytes@) ==> r == Err::<&str, i32>(STATUS_FAILURE),
{
    match utf8_text(bytes) {
        Some(s) => Ok(s),
        None => Err(STATUS_FAILURE),
    }
}

/// What a caller's buffer holds after a text was written to it: the text and
/// a terminating zero byte.
pub open spec fn nul_terminated(text: Seq<u8>) -> Seq<u8> {
    text.push(0)
}

/// The bytes to copy into a caller's buffer of `capacity` bytes for `text`.
///
/// A text that holds a zero byte cannot be passed as a terminated string and
/// gives `STATUS_FAILURE`. Otherwise the text and its terminator are returned
/// where they fit in `capacity`, and `STATUS_BUFFER_TOO_SMALL` where they do
/// not, so that nothing is written to a buffer that is too small.
pub fn terminated_for_buffer(text: &[u8], capacity: usize) -> (r: Result<Vec<u8>, i32>)
    ensures
        text@.contains(0) ==> r == Err::<Vec<u8>, i32>(STATUS_FAILURE),
        !text@.contains(0) && text@.len() + 1 > capacity ==> r == Err::<Vec<u8>, i32>(
            STATUS_BUFFER_TOO_SMALL,
        ),
        !text@.contains(0) && text@.len() + 1 <= capacity ==> (r matches Ok(v) && v@
            == nul_terminated(text@)),
{
    let mut out: Vec<u8> = Vec::new();
    let mut i: usize = 0;
    while i < text.len()
        invariant
            i <= text@.len(),
            out@ == text@.subrange(0, i as int),
            forall|j: int| 0 <= j < i ==> #[trigger] text@[j] != 0,
        decreases text@.len() - i,
    {
        if text[i] == 0 {
            return Err(STATUS_FAILURE);
        }
        out.push(text[i]);
        assert(out@ =~= text@.subrange(0, i + 1));
        i = i + 1;
    }
    assert(out@ =~= text@);
    assert(!text@.contains(0));
    if text.len() >= capacity {
        return Err(STATUS_BUFFER_TOO_SMALL);
    }
    out.push(0);
    Ok(out)
}

/// The bytes to copy into a caller's buffer of `capacity` bytes for the
/// SHA-256 digest of `data`: the 64 lowercase hexadecimal digits and a zero
/// byte where `capacity` is at least `DIGEST_BUFFER_LEN`, and
/// `STATUS_BUFFER_TOO_SMALL` otherwise.
pub fn digest_for_buffer(data: &[u8], capacity: usize) -> (r: Result<Vec<u8>, i32>)
    ensures
        capacity >= DIGEST_BUFFER_LEN ==> (r matches Ok(v) && v@ == nul_terminated(
            hex_encode(sha256_of(data@)),
        )),
        capacity < DIGEST_BUFFER_LEN ==> r == Err::<Vec<u8>, i32>(STATUS_BUFFER_TOO_SMALL),
{
    let hex = sha256_hex(data);
    terminated_for_buffer(hex.as_slice(), capacity)
}

} // verus!
