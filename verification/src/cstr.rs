use vstd::prelude::*;
use vstd::utf8::*;
use vstd::string::*;
use crate::error::RbdError;

verus! {

/// Index of the first NUL byte of `s`, or the length of `s` when it holds none.
pub open spec fn nul_position(s: Seq<u8>) -> nat
    decreases s.len(),
{
    if s.len() == 0 {
        0
    } else if s[0] == 0 {
        0
    } else {
        1 + nul_position(s.drop_first())
    }
}

/// `s` holds no NUL byte.
pub open spec fn nul_free(s: Seq<u8>) -> bool {
    forall|j: int| 0 <= j < s.len() ==> s[j] != 0
}

/// `e` refuses the string with bytes `s` for the first NUL byte in it.
pub open spec fn nul_error(e: RbdError, s: Seq<u8>) -> bool {
    e matches RbdError::InteriorNul(p, b) && p == nul_position(s) && b@ == s
}

/// `t` holds no NUL character.
pub open spec fn nul_free_text(t: Seq<char>) -> bool {
    forall|j: int| 0 <= j < t.len() ==> t[j] != '\0'
}

/// The C string at the start of a buffer: the bytes before its first NUL.
pub open spec fn until_nul(s: Seq<u8>) -> Seq<u8> {
    s.take(nul_position(s) as int)
}

/// What `String::from_utf8_lossy` makes of a byte sequence.
pub uninterp spec fn lossy_utf8(bytes: Seq<u8>) -> Seq<char>;

/// The first NUL of `s` stands at `i` exactly when no byte before `i` is
/// NUL and `i` is either the end of `s` or a NUL byte.
pub proof fn lemma_nul_position_is(s: Seq<u8>, i: int)
    requires
        0 <= i <= s.len(),
        forall|j: int| 0 <= j < i ==> s[j] != 0,
        i < s.len() ==> s[i] == 0,
    ensures
        nul_position(s) == i,
    decreases i,
{
    if i > 0 {
        let t = s.drop_first();
        assert forall|j: int| 0 <= j < i - 1 implies t[j] != 0 by {
            assert(t[j] == s[j + 1]);
        }
        if i - 1 < t.len() {
            assert(t[i - 1] == s[i]);
        }
        lemma_nul_position_is(t, i - 1);
    }
}

/// `std::str::from_utf8`: the bytes read as a string slice, when they are
/// valid UTF-8. The standard library documents that it checks the bytes
/// for UTF-8 validity and fails exactly on invalid input.
#[verifier::external_body]
fn str_from_utf8(bytes: &[u8]) -> (r: Option<&str>)
    ensures
        r is Some <==> valid_utf8(bytes@),
        r matches Some(t) ==> t@ == decode_utf8(bytes@),
{
    match std::str::from_utf8(bytes) {
        Ok(t) => Some(t),
        Err(_) => None,
    }
}

/// `String::from_utf8_lossy`: the bytes read as text, each invalid
/// sequence replaced by U+FFFD. The standard library documents that valid
/// UTF-8 comes through unchanged and that invalid sequences become U+FFFD,
/// so a NUL character comes only from a NUL byte; the replacement itself
/// is left to the name `lossy_utf8`.
#[verifier::external_body]
fn string_from_utf8_lossy(bytes: &[u8]) -> (s: String)
    ensures
        s@ == lossy_utf8(bytes@),
        valid_utf8(bytes@) ==> s@ == decode_utf8(bytes@),
        nul_free(bytes@) ==> nul_free_text(s@),
{
    String::from_utf8_lossy(bytes).into_owned()
}

/// The bytes of `s` as a C string: followed by a NUL terminator, or an
/// error naming the offset of the first NUL byte inside `s`.
pub fn c_string_bytes(s: &str) -> (r: Result<Vec<u8>, RbdError>)
    ensures
        match r {
            Ok(v) => nul_free(s.spec_bytes()) && v@ == s.spec_bytes().push(0u8),
            Err(e) => !nul_free(s.spec_bytes()) && nul_error(e, s.spec_bytes()),
        },
{
    let bytes = s.as_bytes();
    let mut out: Vec<u8> = Vec::new();
    let mut i: usize = 0;
    while i < bytes.len()
        invariant
            0 <= i <= bytes@.len(),
            bytes@ == s.spec_bytes(),
            out@ == bytes@.take(i as int),
            forall|j: int| 0 <= j < i ==> bytes@[j] != 0,
        decreases bytes@.len() - i,
    {
        if bytes[i] == 0 {
            proof {
                lemma_nul_position_is(bytes@, i as int);
            }
            return Err(RbdError::InteriorNul(i, vstd::slice::slice_to_vec(bytes)));
        }
        out.push(bytes[i]);
        i = i + 1;
        assert(out@ =~= bytes@.take(i as int));
    }
    out.push(0u8);
    assert(out@ =~= bytes@.push(0u8));
    Ok(out)
}

/// The bytes of a buffer before its first NUL.
pub fn c_prefix(buf: &[u8]) -> (v: Vec<u8>)
    ensures
        v@ == until_nul(buf@),
        nul_free(v@),
{
    let mut out: Vec<u8> = Vec::new();
    let mut i: usize = 0;
    while i < buf.len() && buf[i] != 0
        invariant
            0 <= i <= buf@.len(),
            out@ == buf@.take(i as int),
            forall|j: int| 0 <= j < i ==> buf@[j] != 0,
        decreases buf@.len() - i,
    {
        out.push(buf[i]);
        i = i + 1;
        assert(out@ =~= buf@.take(i as int));
    }
    proof {
        lemma_nul_position_is(buf@, i as int);
    }
    out
}

/// Reads the C string at the start of a buffer filled by librbd as UTF-8
/// text.
pub fn string_from_c_buffer(buf: &[u8]) -> (r: Result<String, RbdError>)
    ensures
        match r {
            Ok(s) => valid_utf8(until_nul(buf@)) && s@ == decode_utf8(until_nul(buf@)),
            Err(e) => !valid_utf8(until_nul(buf@)) && (e matches RbdError::InvalidUtf8(b) && b@
                == until_nul(buf@)),
        },
{
    string_from_bytes(c_prefix(buf))
}

/// Reads bytes as UTF-8 text; invalid bytes come back inside the error.
pub fn string_from_bytes(bytes: Vec<u8>) -> (r: Result<String, RbdError>)
    ensures
        match r {
            Ok(s) => valid_utf8(bytes@) && s@ == decode_utf8(bytes@),
            Err(e) => !valid_utf8(bytes@) && (e matches RbdError::InvalidUtf8(b) && b@ == bytes@),
        },
{
    match str_from_utf8(bytes.as_slice()) {
        Some(t) => Ok(t.to_owned()),
        None => Err(RbdError::InvalidUtf8(bytes)),
    }
}

/// The message text of a buffer that the C library filled with an error
/// description: its C string, with invalid UTF-8 replaced.
pub fn error_text(buf: &[u8]) -> (s: String)
    ensures
        s@ == lossy_utf8(until_nul(buf@)),
        valid_utf8(until_nul(buf@)) ==> s@ == decode_utf8(until_nul(buf@)),
        nul_free_text(s@),
{
    let prefix = c_prefix(buf);
    string_from_utf8_lossy(prefix.as_slice())
}

} // verus!
