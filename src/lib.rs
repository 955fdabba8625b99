//! Name/value pair lists: a self-describing, dynamically typed key/value
//! container that can be packed into a flat byte buffer and unpacked again.
//!
//! Two flavours live side by side and are never mixed in one list:
//! [`libnv`] follows the FreeBSD library (sticky per-list error code, optional
//! case-insensitive names, packing), [`nvpair`] follows the Solaris library
//! (per-call error codes, uniqueness by name or by name and type).
use vstd::prelude::*;

pub mod libnv;
pub mod nvpair;

verus! {

/// Error kinds for the name/value lists.
#[derive(Debug, Clone, Copy, PartialEq, Eq, Structural)]
pub enum NvError {
    /// A name or string holds a NUL byte; the payload is its byte position.
    InvalidString(usize),
    /// The list reported a non-zero error code.
    NativeError(i32),
    /// Trying to set an error on a list that already has one.
    AlreadySet,
    /// No value found for the given name.
    NotFound,
    /// The list could not allocate.
    OutOfMemory,
    /// An OS-level error, carried as its raw error code.
    Io(i32),
    /// The operation is not supported for the list's content or flags.
    OperationNotSupported,
    /// Bytes that should hold text are not valid UTF-8; the payload is the
    /// length of the longest valid prefix.
    InvalidStringEncoding(usize),
}

/// Short-cut to `Result<T, NvError>`.
pub type NvResult<T> = Result<T, NvError>;

/// No byte of `b` is NUL.
pub open spec fn nul_free(b: Seq<u8>) -> bool {
    forall|i: int| 0 <= i < b.len() ==> b[i] != 0
}

/// `p` is the position of the first NUL byte of `b`.
pub open spec fn first_nul_at(b: Seq<u8>, p: int) -> bool {
    &&& 0 <= p < b.len()
    &&& b[p] == 0
    &&& forall|j: int| 0 <= j < p ==> b[j] != 0
}

/// A text is usable as a name (or a string value) when its UTF-8 encoding
/// holds no NUL byte.
pub open spec fn valid_text(s: Seq<char>) -> bool {
    nul_free(vstd::utf8::encode_utf8(s))
}

/// What converting `s` to a NUL-terminated string gives: `Ok` exactly when it
/// holds no NUL byte, else `InvalidString` at the first NUL.
pub open spec fn text_result(s: Seq<char>) -> NvResult<()> {
    if valid_text(s) {
        Ok(())
    } else {
        Err(
            NvError::InvalidString(
                (choose|p: int| first_nul_at(vstd::utf8::encode_utf8(s), p)) as usize,
            ),
        )
    }
}

/// What converting each of `ss` in turn gives: the failure of the first one
/// that fails, else `Ok`.
#[verifier::opaque]
pub open spec fn texts_result(ss: Seq<Seq<char>>) -> NvResult<()> {
    if forall|i: int| 0 <= i < ss.len() ==> valid_text(#[trigger] ss[i]) {
        Ok(())
    } else {
        text_result(
            ss[choose|k: int|
                0 <= k < ss.len() && !valid_text(ss[k]) && forall|j: int|
                    0 <= j < k ==> valid_text(#[trigger] ss[j])],
        )
    }
}

/// Checks that `s` can be handed on as a NUL-terminated string.
pub fn check_text(s: &str) -> (r: NvResult<()>)
    ensures
        r == text_result(s@),
{
    let b = s.as_bytes();
    let mut i: usize = 0;
    while i < b.len()
        invariant
            b@ == vstd::utf8::encode_utf8(s@),
            0 <= i <= b@.len(),
            forall|j: int| 0 <= j < i ==> b@[j] != 0,
        decreases b@.len() - i,
    {
        if b[i] == 0 {
            proof {
                let p = choose|p: int| first_nul_at(b@, p);
                assert(first_nul_at(b@, i as int));
                if p < i {
                } else if p > i {
                }
            }
            return Err(NvError::InvalidString(i));
        }
        i = i + 1;
    }
    Ok(())
}

} // verus!
