//! Check characters on identifier strings.
use vstd::prelude::*;
use vstd::string::{StrSliceExecFns, StringExecFns};
use vstd::utf8::{
    decode_utf8, encode_utf8, encode_utf8_decode_utf8, encode_utf8_valid_utf8,
    is_char_boundary, is_char_boundary_iff_not_is_continuation_byte,
};

use crate::checksum::{iso7064_accepts, iso7064_char, iso7064_checksum};
use crate::text::{ascii_chars, is_ascii_bytes, lemma_ascii_utf8, lemma_encode_utf8_concat, str_from_utf8};

verus! {

/// The check character of a string: that of its UTF-8 bytes.
pub open spec fn check_char(text: Seq<char>) -> char {
    iso7064_char(encode_utf8(text)) as char
}

/// Whether `text` ends in the check character of the rest: at least two bytes, and
/// the character made of the last byte is the check character of the bytes before it.
pub open spec fn has_valid_check_char(text: Seq<char>) -> bool {
    let bytes = encode_utf8(text);
    &&& bytes.len() >= 2
    &&& iso7064_char(bytes.subrange(0, bytes.len() - 1)) as char == decode_utf8(
        bytes.subrange(bytes.len() - 1, bytes.len() as int),
    )[0]
}

/// Strings whose last byte is a character of its own, with the bytes before it all
/// below 230 (see `iso7064_checksum`): those that `verify_checksum` takes.
pub open spec fn verifiable(text: Seq<char>) -> bool {
    let bytes = encode_utf8(text);
    bytes.len() >= 2 ==> is_char_boundary(bytes, bytes.len() - 1) && iso7064_accepts(
        bytes.subrange(0, bytes.len() - 1),
    )
}

/// Append the check character of `id`.
pub fn add_checksum(id: &str) -> (with_check: String)
    requires
        iso7064_accepts(encode_utf8(id@)),
    ensures
        with_check@ == id@.push(check_char(id@)),
{
    let checksum = iso7064_checksum(id.as_bytes());
    let mut result = String::from_str(id);
    let tail = [checksum];
    proof {
        assert(is_ascii_bytes(tail@));
        lemma_ascii_utf8(tail@);
        assert(ascii_chars(tail@) =~= seq![checksum as char]);
    }
    match str_from_utf8(&tail) {
        Some(t) => result.append(t),
        None => {},
    }
    result
}

/// Whether `id` ends in the check character of the rest.
pub fn verify_checksum(id: &str) -> (valid: bool)
    requires
        verifiable(id@),
    ensures
        valid == has_valid_check_char(id@),
{
    let len = id.as_bytes().len();
    if len < 2 {
        return false;
    }
    let (body, checksum) = id.split_at(len - 1);
    proof {
        encode_utf8_decode_utf8(checksum@);
        if checksum@.len() == 0 {
            assert(encode_utf8(checksum@) =~= Seq::<u8>::empty());
        }
        encode_utf8_decode_utf8(body@);
    }
    let expected = iso7064_checksum(body.as_bytes());
    let last = checksum.get_char(0);
    expected as char == last
}

/// A nonempty string with its check character appended passes the check.
pub proof fn lemma_verify_added_checksum(id: Seq<char>)
    requires
        id.len() > 0,
        iso7064_accepts(encode_utf8(id)),
    ensures
        verifiable(id.push(check_char(id))),
        has_valid_check_char(id.push(check_char(id))),
{
    let b = encode_utf8(id);
    let c = iso7064_char(b);
    let tail = seq![c];
    assert(is_ascii_bytes(tail));
    lemma_ascii_utf8(tail);
    assert(ascii_chars(tail) =~= seq![c as char]);
    lemma_encode_utf8_concat(id, seq![c as char]);
    assert(id.push(c as char) =~= id + seq![c as char]);
    let bytes = encode_utf8(id.push(c as char));
    assert(bytes =~= b + tail);
    encode_utf8_valid_utf8(id.push(c as char));
    assert(bytes[bytes.len() - 1] == c);
    assert(c < 128);
    is_char_boundary_iff_not_is_continuation_byte(bytes, bytes.len() - 1);
    assert(bytes.subrange(0, bytes.len() - 1) =~= b);
    assert(bytes.subrange(bytes.len() - 1, bytes.len() as int) =~= tail);
    assert(b.len() > 0) by {
        assert(id =~= seq![id[0]] + id.drop_first());
        lemma_encode_utf8_concat(seq![id[0]], id.drop_first());
        assert(encode_utf8(seq![id[0]]).len() > 0);
    }
}

} // verus!
