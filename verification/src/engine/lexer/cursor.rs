//! The cursor over the source bytes: decodes the one Unicode scalar value
//! that starts at a byte offset.

use vstd::prelude::*;
use vstd::slice::*;
use vstd::string::*;
use vstd::utf8::*;

verus! {

/// `core::str::Utf8Error`, of which nothing is read here.
#[verifier::external_type_specification]
#[verifier::external_body]
pub struct ExUtf8Error(core::str::Utf8Error);

/// `core::str::from_utf8` succeeds exactly on the byte sequences that are
/// well-formed UTF-8, and the string it then returns is those same bytes.
pub assume_specification[ core::str::from_utf8 ](v: &[u8]) -> (r: Result<
    &str,
    core::str::Utf8Error,
>)
    ensures
        r is Ok <==> valid_utf8(v@),
        r matches Ok(s) ==> s.spec_bytes() == v@,
;

/// No encoding of a scalar value is longer than this.
pub const MAX_SCALAR_LEN: usize = 4;

/// The scalar value whose encoding starts at byte `at` of `src`, and the
/// offset of the byte after it. `None` where `at` is at or past the end,
/// and where the bytes from `at` on do not start with a well-formed
/// encoding, be it malformed or cut short by the end of the source.
pub open spec fn scalar_at(src: Seq<u8>, at: nat) -> Option<(char, nat)> {
    let rest = src.skip(at as int);
    if at < src.len() && valid_first_scalar(rest) {
        Some((decode_first_scalar(rest) as char, (at + length_of_first_scalar(rest)) as nat))
    } else {
        None
    }
}

/// A scalar value takes at least one byte and at most
/// [`MAX_SCALAR_LEN`], all of them inside the source.
pub proof fn lemma_scalar_at_advances(src: Seq<u8>, at: nat)
    requires
        scalar_at(src, at) is Some,
    ensures
        ({
            let (_, next) = scalar_at(src, at).unwrap();
            at < next <= at + MAX_SCALAR_LEN && next <= src.len()
        }),
{
}

/// The first scalar value of a byte sequence is that of each of its
/// prefixes that start with a well-formed encoding.
proof fn lemma_first_scalar_of_prefix(bytes: Seq<u8>, k: int)
    requires
        0 <= k <= bytes.len(),
        valid_first_scalar(bytes.take(k)),
    ensures
        valid_first_scalar(bytes),
        length_of_first_scalar(bytes) == length_of_first_scalar(bytes.take(k)),
        decode_first_scalar(bytes) == decode_first_scalar(bytes.take(k)),
        length_of_first_scalar(bytes) <= k,
{
    let prefix = bytes.take(k);
    assert(prefix.len() == k);
    assert(forall|i: int| 0 <= i < k ==> prefix[i] == bytes[i]);
}

/// The bytes of the first scalar value alone are well-formed UTF-8.
proof fn lemma_first_scalar_alone(bytes: Seq<u8>)
    requires
        valid_first_scalar(bytes),
    ensures
        1 <= length_of_first_scalar(bytes) <= MAX_SCALAR_LEN,
        length_of_first_scalar(bytes) <= bytes.len(),
        valid_utf8(bytes.take(length_of_first_scalar(bytes))),
{
    let len = length_of_first_scalar(bytes);
    let alone = bytes.take(len);
    assert(alone.len() == len);
    assert(forall|i: int| 0 <= i < len ==> alone[i] == bytes[i]);
    assert(valid_first_scalar(alone));
    assert(pop_first_scalar(alone) =~= Seq::<u8>::empty());
    reveal_with_fuel(valid_utf8, 2);
}

/// Reads the scalar value that starts at byte `at` of `src`: tries the
/// prefixes of one to four bytes, shortest first, and takes the first that
/// is well-formed.
pub fn read_scalar(src: &[u8], at: usize) -> (read: Option<(char, usize)>)
    ensures
        match read {
            Some((c, next)) => scalar_at(src@, at as nat) == Some((c, next as nat)),
            None => scalar_at(src@, at as nat) is None,
        },
{
    if at >= src.len() {
        return None;
    }
    let ghost rest = src@.skip(at as int);
    let available: usize = src.len() - at;
    let mut len: usize = 1;
    while len <= MAX_SCALAR_LEN && len <= available
        invariant
            1 <= len <= MAX_SCALAR_LEN + 1,
            at < src.len(),
            available == src.len() - at,
            rest == src@.skip(at as int),
            forall|shorter: int| 1 <= shorter < len ==> !valid_utf8(#[trigger] rest.take(shorter)),
        decreases MAX_SCALAR_LEN + 1 - len,
    {
        let prefix = slice_subrange(src, at, at + len);
        assert(prefix@ =~= rest.take(len as int));
        match core::str::from_utf8(prefix) {
            Ok(text) => {
                proof {
                    broadcast use {encode_utf8_decode_utf8, encode_utf8_valid_utf8};

                    assert(text@ == decode_utf8(prefix@));
                    assert(valid_first_scalar(prefix@) && text@[0] == decode_first_scalar(
                        prefix@,
                    ) as char) by {
                        reveal_with_fuel(valid_utf8, 2);
                        reveal_with_fuel(decode_utf8, 2);
                    }
                    lemma_first_scalar_of_prefix(rest, len as int);
                    lemma_first_scalar_alone(rest);
                    assert(text@.len() > 0) by {
                        reveal_with_fuel(decode_utf8, 2);
                    }
                }
                return Some((text.get_char(0), at + len));
            },
            Err(_) => {},
        }
        len += 1;
    }
    proof {
        if valid_first_scalar(rest) {
            lemma_first_scalar_alone(rest);
        }
    }
    None
}

} // verus!
