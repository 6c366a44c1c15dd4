//! The 26-character identifier.
use vstd::prelude::*;
use vstd::string::StrSliceExecFns;
use vstd::utf8::{decode_utf8, encode_utf8, valid_utf8};

use crate::consts::{alphabet_char, alphabet_contains, is_alphabet_byte, COUNTER_MAX, EPOCH, TIMESTAMP_MAX, WORKER_MAX};
use crate::encoder::{
    crockford_decode, crockford_encode, crockford_number, crockford_value, decode_crockford32,
    encode_crockford32, is_canonical_crockford, is_crockford_text, lemma_base32_digits_below,
    crockford_normal, lemma_canonical_when_first_small, lemma_decode_normalized,
    lemma_encode_decode, lemma_encode_first_char, lemma_encode_is_canonical, lemma_number_bound,
    lemma_number_of_encode,
};
use crate::layout::{
    be_bytes, counter_field, lemma_be_bytes, pack_fields, random_field, timestamp_field,
    worker_field,
};
use crate::radix::{lemma_digits_len, lemma_value_of_digits, radix_digits, radix_value};
use crate::text::{ascii_chars, is_ascii_bytes, lemma_ascii_utf8, str_from_utf8};
use crate::Error;

verus! {

/// Errors of parsing a string into an identifier.
#[derive(Debug, Clone, PartialEq, Eq, Structural)]
pub enum ParseError {
    /// The string does not have 26 bytes; carries its length in bytes.
    Length(usize),
    /// A character outside the alphabet, and its position among the characters.
    Character(char, usize),
    /// The checksum does not match.
    Checksum,
}

/// Text of an identifier: 26 bytes of the alphabet.
pub open spec fn is_id_text(text: Seq<u8>) -> bool {
    &&& text.len() == 26
    &&& forall|i: int| 0 <= i < text.len() ==> is_alphabet_byte(#[trigger] text[i])
}

/// The 128-bit number that identifier text denotes.
pub open spec fn id_number(text: Seq<u8>) -> u128 {
    crockford_number(text) as u128
}

/// 26-character identifier in Crockford Base32.
#[derive(Clone, Copy, Debug, PartialEq, Eq, Hash)]
pub struct SigId26 {
    bytes: [u8; 26],
}

impl View for SigId26 {
    type V = Seq<u8>;

    closed spec fn view(&self) -> Seq<u8> {
        self.bytes@
    }
}

/// Alphabet text is Crockford text.
proof fn lemma_id_text_decodes(text: Seq<u8>)
    requires
        is_id_text(text),
    ensures
        is_crockford_text(text),
{
    assert forall|i: int| 0 <= i < text.len() implies (#[trigger] crockford_value(text[i])) is Some by {
        assert(is_alphabet_byte(text[i]));
    }
}

/// The encoding of 16 bytes is identifier text, and it denotes their big-endian number.
pub proof fn lemma_encode_is_id_text(raw: Seq<u8>)
    requires
        raw.len() == 16,
    ensures
        is_id_text(crockford_encode(raw)),
        id_number(crockford_encode(raw)) as nat == radix_value(raw, 256),
{
    let n = radix_value(raw, 256);
    lemma_base32_digits_below(n, 26);
    let digits = radix_digits(n, 26, 32);
    let text = crockford_encode(raw);
    assert forall|i: int| 0 <= i < text.len() implies is_alphabet_byte(#[trigger] text[i]) by {
        assert((digits[i] as nat) < 32);
    }
    lemma_number_of_encode(raw);
    lemma_number_bound(text);
}

/// The identifier whose number is `number`: the text of its big-endian bytes.
pub proof fn lemma_encode_be_bytes(number: u128)
    ensures
        be_bytes(number).len() == 16,
        is_id_text(crockford_encode(be_bytes(number))),
        id_number(crockford_encode(be_bytes(number))) == number,
{
    lemma_digits_len(number as nat, 16, 256);
    lemma_encode_is_id_text(be_bytes(number));
    lemma_number_bound(crockford_encode(be_bytes(number)));
    lemma_value_of_digits(number as nat, 16, 256);
}

/// An ASCII lower-case letter.
pub open spec fn is_ascii_lower(c: char) -> bool {
    'a' <= c <= 'z'
}

/// A character that parsing takes: an ASCII character that is itself in the
/// alphabet, or an ASCII lower-case letter whose upper-case form is.
pub open spec fn char_accepted(c: char) -> bool {
    &&& (c as u32) < 128
    &&& is_alphabet_byte(c as u8) || (is_ascii_lower(c) && is_alphabet_byte(((c as u8) - 32) as u8))
}

/// A character that parsing takes is ASCII and decodes as a Crockford character.
pub proof fn lemma_accepted_char_decodes(c: char)
    requires
        char_accepted(c),
    ensures
        '\0' <= c <= '\u{7f}',
        crockford_value(c as u8) is Some,
{
}

/// When every character is taken, the string is ASCII and its bytes are Crockford text.
proof fn lemma_accepted_chars_decode(chars: Seq<char>)
    requires
        forall|j: int| 0 <= j < chars.len() ==> char_accepted(#[trigger] chars[j]),
    ensures
        is_crockford_text(encode_utf8(chars)),
        encode_utf8(chars).len() == chars.len(),
{
    assert(vstd::utf8::is_ascii_chars(chars)) by {
        assert forall|i: int| 0 <= i < chars.len() implies '\0' <= #[trigger] chars[i] <= '\u{7f}' by {
            lemma_accepted_char_decodes(chars[i]);
        }
    }
    vstd::utf8::is_ascii_chars_encode_utf8(chars);
    let bytes = encode_utf8(chars);
    assert forall|i: int| 0 <= i < bytes.len() implies (#[trigger] crockford_value(bytes[i])) is Some by {
        lemma_accepted_char_decodes(chars[i]);
        assert(chars[i] as u8 == bytes[i]);
    }
}

/// `i` is the first position of `chars` that parsing does not take.
pub open spec fn is_first_rejected(chars: Seq<char>, i: int) -> bool {
    &&& 0 <= i < chars.len()
    &&& !char_accepted(chars[i])
    &&& forall|j: int| 0 <= j < i ==> char_accepted(#[trigger] chars[j])
}

/// What parsing `chars` gives: the text of the identifier, or the error.
///
/// The string must have 26 bytes; its characters are checked in order, and the
/// first one outside the alphabet is reported with its position; then its bytes
/// are decoded, and the identifier is the encoding of the decoded bytes.
pub open spec fn parse_spec(chars: Seq<char>) -> Result<Seq<u8>, ParseError> {
    let bytes = encode_utf8(chars);
    if bytes.len() != 26 {
        Err(ParseError::Length(bytes.len() as usize))
    } else if exists|i: int| is_first_rejected(chars, i) {
        let i = choose|i: int| is_first_rejected(chars, i);
        Err(ParseError::Character(chars[i], i as usize))
    } else {
        Ok(crockford_encode(crockford_decode(bytes)))
    }
}

/// The characters of identifier text.
pub open spec fn id_chars(text: Seq<u8>) -> Seq<char> {
    text.map_values(|b: u8| b as char)
}

/// Identifier text is ASCII, and its UTF-8 encoding is itself.
pub proof fn lemma_id_chars_utf8(text: Seq<u8>)
    requires
        is_id_text(text),
    ensures
        encode_utf8(id_chars(text)) == text,
        valid_utf8(text),
        decode_utf8(text) == id_chars(text),
{
    assert(is_ascii_bytes(text)) by {
        assert forall|i: int| 0 <= i < text.len() implies #[trigger] text[i] < 128 by {
            assert(is_alphabet_byte(text[i]));
        }
    }
    lemma_ascii_utf8(text);
    assert(ascii_chars(text) =~= id_chars(text));
}

impl SigId26 {
    #[verifier::type_invariant]
    spec fn well_formed(self) -> bool {
        is_id_text(self.bytes@)
    }

    /// The 128-bit number the identifier denotes.
    pub open spec fn number(self) -> u128 {
        id_number(self@)
    }

    /// Create an identifier from 26 bytes, which must all be in the alphabet.
    pub fn from_bytes(bytes: [u8; 26]) -> (r: Result<Self, Error>)
        ensures
            is_id_text(bytes@) ==> (r matches Ok(id) && id@ == bytes@),
            !is_id_text(bytes@) ==> r == Err::<Self, Error>(Error::InvalidCharacter),
    {
        let mut i: usize = 0;
        while i < 26
            invariant
                i <= 26,
                forall|j: int| 0 <= j < i ==> is_alphabet_byte(#[trigger] bytes@[j]),
            decreases 26 - i,
        {
            let b = bytes[i];
            if 48 <= b && b <= 57 {
            } else if 65 <= b && b <= 90 {
                if !alphabet_contains(b) {
                    return Err(Error::InvalidCharacter);
                }
            } else {
                return Err(Error::InvalidCharacter);
            }
            i += 1;
        }
        Ok(SigId26 { bytes })
    }

    /// Create an identifier from 16 raw bytes (128 bits): their encoding.
    pub fn from_raw_bytes(raw: [u8; 16]) -> (id: Self)
        ensures
            id@ == crockford_encode(raw@),
            id.number() as nat == radix_value(raw@, 256),
    {
        let mut encoded = [0u8; 26];
        encode_crockford32(&raw, &mut encoded);
        proof {
            lemma_encode_is_id_text(raw@);
        }
        SigId26 { bytes: encoded }
    }

    /// Create an identifier from its fields, with worker id 0.
    pub fn raw_new(timestamp: u64, counter: u16, random: u64) -> (id: Self)
        ensures
            id.number() == pack_fields(timestamp, 0, counter, random),
            id@ == crockford_encode(be_bytes(pack_fields(timestamp, 0, counter, random))),
    {
        Self::raw_new_with_worker(timestamp, 0, counter, random)
    }

    /// Create an identifier from its fields: timestamp (48 bits), worker id (16 bits),
    /// counter (14 bits) and random part (50 bits); each is cut to its width.
    pub fn raw_new_with_worker(timestamp: u64, worker_id: u16, counter: u16, random: u64) -> (id:
        Self)
        ensures
            id.number() == pack_fields(timestamp, worker_id, counter, random),
            id@ == crockford_encode(be_bytes(pack_fields(timestamp, worker_id, counter, random))),
    {
        let ts = timestamp & TIMESTAMP_MAX;
        let worker = worker_id & WORKER_MAX;
        let cnt = counter & COUNTER_MAX;
        let rand = random & 0x3FFFFFFFFFFFF;

        let mut raw = [0u8; 16];

        // Timestamp: 48 bits (bytes 0-5)
        raw[0] = ((ts >> 40u64) & 0xFF) as u8;
        raw[1] = ((ts >> 32u64) & 0xFF) as u8;
        raw[2] = ((ts >> 24u64) & 0xFF) as u8;
        raw[3] = ((ts >> 16u64) & 0xFF) as u8;
        raw[4] = ((ts >> 8u64) & 0xFF) as u8;
        raw[5] = (ts & 0xFF) as u8;

        // Worker ID: 16 bits (bytes 6-7)
        raw[6] = ((worker >> 8u16) & 0xFF) as u8;
        raw[7] = (worker & 0xFF) as u8;

        // Counter: 14 bits (bytes 8-9): byte 8 holds counter bits 13-6,
        // byte 9 counter bits 5-0 and random bits 49-48.
        raw[8] = ((cnt >> 6u16) & 0xFF) as u8;
        raw[9] = ((cnt & 0x3F) << 2u16) as u8;
        raw[9] = raw[9] | ((rand >> 48u64) & 0x03) as u8;

        // Random: the other 48 bits (bytes 10-15)
        raw[10] = ((rand >> 40u64) & 0xFF) as u8;
        raw[11] = ((rand >> 32u64) & 0xFF) as u8;
        raw[12] = ((rand >> 24u64) & 0xFF) as u8;
        raw[13] = ((rand >> 16u64) & 0xFF) as u8;
        raw[14] = ((rand >> 8u64) & 0xFF) as u8;
        raw[15] = (rand & 0xFF) as u8;

        proof {
            let p = pack_fields(timestamp, worker_id, counter, random);
            lemma_be_bytes(p);
            let b9 = ((cnt & 0x3F) << 2u16) as u8 | ((rand >> 48u64) & 0x03) as u8;
            assert({
                let p = (((timestamp & 0xFFFF_FFFF_FFFF) as u128) << 80u128) | ((worker_id as u128)
                    << 64u128) | (((counter & 0x3FFF) as u128) << 50u128) | ((random
                    & 0x3_FFFF_FFFF_FFFF) as u128);
                &&& ((ts >> 40u64) & 0xFF) as u8 == ((p >> 120u128) & 0xFF) as u8
                &&& ((ts >> 32u64) & 0xFF) as u8 == ((p >> 112u128) & 0xFF) as u8
                &&& ((ts >> 24u64) & 0xFF) as u8 == ((p >> 104u128) & 0xFF) as u8
                &&& ((ts >> 16u64) & 0xFF) as u8 == ((p >> 96u128) & 0xFF) as u8
                &&& ((ts >> 8u64) & 0xFF) as u8 == ((p >> 88u128) & 0xFF) as u8
                &&& (ts & 0xFF) as u8 == ((p >> 80u128) & 0xFF) as u8
                &&& ((worker >> 8u16) & 0xFF) as u8 == ((p >> 72u128) & 0xFF) as u8
                &&& (worker & 0xFF) as u8 == ((p >> 64u128) & 0xFF) as u8
                &&& ((cnt >> 6u16) & 0xFF) as u8 == ((p >> 56u128) & 0xFF) as u8
                &&& b9 == ((p >> 48u128) & 0xFF) as u8
                &&& ((rand >> 40u64) & 0xFF) as u8 == ((p >> 40u128) & 0xFF) as u8
                &&& ((rand >> 32u64) & 0xFF) as u8 == ((p >> 32u128) & 0xFF) as u8
                &&& ((rand >> 24u64) & 0xFF) as u8 == ((p >> 24u128) & 0xFF) as u8
                &&& ((rand >> 16u64) & 0xFF) as u8 == ((p >> 16u128) & 0xFF) as u8
                &&& ((rand >> 8u64) & 0xFF) as u8 == ((p >> 8u128) & 0xFF) as u8
                &&& (rand & 0xFF) as u8 == ((p >> 0u128) & 0xFF) as u8
            }) by (bit_vector)
                requires
                    ts == timestamp & 0xFFFF_FFFF_FFFF,
                    worker == worker_id & 0xFFFF,
                    cnt == counter & 0x3FFF,
                    rand == random & 0x3_FFFF_FFFF_FFFF,
                    b9 == ((cnt & 0x3F) << 2u16) as u8 | ((rand >> 48u64) & 0x03) as u8,
            ;
            assert(raw@ =~= be_bytes(p));
            lemma_encode_be_bytes(p);
        }
        Self::from_raw_bytes(raw)
    }

    /// The 26 bytes of the identifier's text.
    pub fn as_bytes(&self) -> (bytes: &[u8; 26])
        ensures
            bytes@ == self@,
            is_id_text(bytes@),
    {
        proof {
            use_type_invariant(self);
        }
        &self.bytes
    }

    /// The 16 raw bytes (128 bits) the identifier denotes, big-endian.
    pub fn as_raw_bytes(&self) -> (raw: [u8; 16])
        ensures
            raw@ == be_bytes(self.number()),
            raw@ == crockford_decode(self@),
    {
        proof {
            use_type_invariant(self);
            lemma_id_text_decodes(self.bytes@);
            lemma_number_bound(self.bytes@);
        }
        let mut raw = [0u8; 16];
        let _ = decode_crockford32(&self.bytes, &mut raw);
        raw
    }

    /// The timestamp field (48 bits): milliseconds since `EPOCH`.
    pub fn timestamp(&self) -> (ts: u64)
        ensures
            ts == timestamp_field(self.number()),
            ts <= TIMESTAMP_MAX,
    {
        let raw = self.as_raw_bytes();
        let ghost m = self.number();
        proof {
            lemma_be_bytes(m);
        }
        let (b0, b1, b2, b3, b4, b5) = (raw[0], raw[1], raw[2], raw[3], raw[4], raw[5]);
        let ts = ((b0 as u64) << 40u64) | ((b1 as u64) << 32u64) | ((b2 as u64) << 24u64) | ((
        b3 as u64) << 16u64) | ((b4 as u64) << 8u64) | (b5 as u64);
        assert(ts == (m >> 80u128) as u64 && ts <= 0xFFFF_FFFF_FFFF) by (bit_vector)
            requires
                b0 == ((m >> 120u128) & 0xFF) as u8,
                b1 == ((m >> 112u128) & 0xFF) as u8,
                b2 == ((m >> 104u128) & 0xFF) as u8,
                b3 == ((m >> 96u128) & 0xFF) as u8,
                b4 == ((m >> 88u128) & 0xFF) as u8,
                b5 == ((m >> 80u128) & 0xFF) as u8,
                ts == ((b0 as u64) << 40u64) | ((b1 as u64) << 32u64) | ((b2 as u64) << 24u64) | ((
                b3 as u64) << 16u64) | ((b4 as u64) << 8u64) | (b5 as u64),
        ;
        ts
    }

    /// The timestamp in milliseconds since the Unix epoch (1970).
    pub fn timestamp_ms(&self) -> (ms: u64)
        ensures
            ms == timestamp_field(self.number()) + EPOCH,
    {
        self.timestamp() + EPOCH
    }

    /// The counter field (14 bits).
    pub fn counter(&self) -> (counter: u16)
        ensures
            counter == counter_field(self.number()),
            counter <= COUNTER_MAX,
    {
        let raw = self.as_raw_bytes();
        let ghost m = self.number();
        proof {
            lemma_be_bytes(m);
        }
        let (b8, b9) = (raw[8], raw[9]);
        let high = (b8 as u16) << 6u16;
        let low = (b9 >> 2u8) as u16;
        let counter = high | low;
        assert(counter == ((m >> 50u128) & 0x3FFF) as u16 && counter <= 0x3FFF) by (bit_vector)
            requires
                b8 == ((m >> 56u128) & 0xFF) as u8,
                b9 == ((m >> 48u128) & 0xFF) as u8,
                counter == ((b8 as u16) << 6u16) | ((b9 >> 2u8) as u16),
        ;
        counter
    }

    /// The random field (50 bits).
    pub fn random(&self) -> (random: u64)
        ensures
            random == random_field(self.number()),
    {
        let raw = self.as_raw_bytes();
        let ghost m = self.number();
        proof {
            lemma_be_bytes(m);
        }
        let (b9, b10, b11, b12, b13, b14, b15) = (
            raw[9],
            raw[10],
            raw[11],
            raw[12],
            raw[13],
            raw[14],
            raw[15],
        );
        let top = (b9 & 0x03) as u64;
        let random = (top << 48u64) | ((b10 as u64) << 40u64) | ((b11 as u64) << 32u64) | ((
        b12 as u64) << 24u64) | ((b13 as u64) << 16u64) | ((b14 as u64) << 8u64) | (b15 as u64);
        assert(random == (m & 0x3_FFFF_FFFF_FFFF) as u64) by (bit_vector)
            requires
                b9 == ((m >> 48u128) & 0xFF) as u8,
                b10 == ((m >> 40u128) & 0xFF) as u8,
                b11 == ((m >> 32u128) & 0xFF) as u8,
                b12 == ((m >> 24u128) & 0xFF) as u8,
                b13 == ((m >> 16u128) & 0xFF) as u8,
                b14 == ((m >> 8u128) & 0xFF) as u8,
                b15 == ((m >> 0u128) & 0xFF) as u8,
                random == (((b9 & 0x03) as u64) << 48u64) | ((b10 as u64) << 40u64) | ((
                b11 as u64) << 32u64) | ((b12 as u64) << 24u64) | ((b13 as u64) << 16u64) | ((
                b14 as u64) << 8u64) | (b15 as u64),
        ;
        random
    }

    /// The worker id field (16 bits).
    pub fn worker_id(&self) -> (worker_id: u16)
        ensures
            worker_id == worker_field(self.number()),
    {
        let raw = self.as_raw_bytes();
        let ghost m = self.number();
        proof {
            lemma_be_bytes(m);
        }
        let (b6, b7) = (raw[6], raw[7]);
        let worker_id = ((b6 as u16) << 8u16) | (b7 as u16);
        assert(worker_id == ((m >> 64u128) & 0xFFFF) as u16) by (bit_vector)
            requires
                b6 == ((m >> 72u128) & 0xFF) as u8,
                b7 == ((m >> 64u128) & 0xFF) as u8,
                worker_id == ((b6 as u16) << 8u16) | (b7 as u16),
        ;
        worker_id
    }

    /// Whether every byte is in the alphabet; every identifier is.
    pub fn is_valid(&self) -> (valid: bool)
        ensures
            valid == is_id_text(self@),
            valid,
    {
        proof {
            use_type_invariant(self);
        }
        let mut i: usize = 0;
        while i < 26
            invariant
                i <= 26,
                is_id_text(self.bytes@),
            decreases 26 - i,
        {
            let b = self.bytes[i];
            if 48 <= b && b <= 57 {
            } else if 65 <= b && b <= 90 {
                if !alphabet_contains(b) {
                    return false;
                }
            } else {
                return false;
            }
            i += 1;
        }
        true
    }

    /// The identifier as a string of its 26 characters.
    pub fn to_string(&self) -> (s: String)
        ensures
            s@ == id_chars(self@),
            s@.len() == 26,
            vstd::utf8::is_ascii_chars(s@),
            encode_utf8(s@) == self@,
    {
        proof {
            use_type_invariant(self);
            lemma_id_chars_utf8(self.bytes@);
            let chars = id_chars(self.bytes@);
            assert forall|i: int| 0 <= i < chars.len() implies '\0' <= #[trigger] chars[i] <= '\u{7f}' by {
                assert(is_alphabet_byte(self.bytes@[i]));
            }
        }
        match str_from_utf8(&self.bytes) {
            Some(text) => text.to_owned(),
            None => String::new(),
        }
    }

    /// Parse a string in Crockford Base32 into an identifier.
    ///
    /// Lower-case letters are taken; the identifier holds the canonical encoding of
    /// the decoded 128 bits.
    pub fn from_string(s: &str) -> (r: Result<Self, ParseError>)
        ensures
            match parse_spec(s@) {
                Ok(text) => r matches Ok(id) && id@ == text,
                Err(e) => r == Err::<Self, ParseError>(e),
            },
    {
        let len = s.as_bytes().len();
        if len != 26 {
            return Err(ParseError::Length(len));
        }
        let n = s.unicode_len();
        let mut i: usize = 0;
        while i < n
            invariant
                i <= n,
                n == s@.len(),
                encode_utf8(s@).len() == 26,
                forall|j: int| 0 <= j < i ==> char_accepted(#[trigger] s@[j]),
            decreases n - i,
        {
            let ch = s.get_char(i);
            let mut found = false;
            if (ch as u32) < 128 {
                let byte = ch as u8;
                found = alphabet_contains(byte);
                if !found && 'a' <= ch && ch <= 'z' {
                    let upper = byte - 32;
                    found = alphabet_contains(upper);
                }
            }
            if !found {
                proof {
                    assert(is_first_rejected(s@, i as int));
                    let k = choose|k: int| is_first_rejected(s@, k);
                    assert(k == i) by {
                        if k < i {
                            assert(char_accepted(s@[k]));
                        } else if k > i {
                            assert(char_accepted(s@[i as int]));
                        }
                    }
                }
                return Err(ParseError::Character(ch, i));
            }
            i += 1;
        }
        assert(!exists|k: int| is_first_rejected(s@, k));
        proof {
            lemma_accepted_chars_decode(s@);
        }
        let mut raw_bytes = [0u8; 16];
        match decode_crockford32(s.as_bytes(), &mut raw_bytes) {
            Ok(()) => Ok(Self::from_raw_bytes(raw_bytes)),
            Err(_) => Err(ParseError::Length(len)),
        }
    }
}

impl AsRef<[u8]> for SigId26 {
    fn as_ref(&self) -> (bytes: &[u8])
        ensures
            bytes@ == self@,
    {
        &self.bytes
    }
}

impl std::str::FromStr for SigId26 {
    type Err = ParseError;

    fn from_str(s: &str) -> (r: Result<Self, ParseError>)
        ensures
            match parse_spec(s@) {
                Ok(text) => r matches Ok(id) && id@ == text,
                Err(e) => r == Err::<Self, ParseError>(e),
            },
    {
        Self::from_string(s)
    }
}

/// Parsing the string of an identifier with canonical text gives back the same text.
pub proof fn lemma_parse_to_string(text: Seq<u8>)
    requires
        is_id_text(text),
        is_canonical_crockford(text),
    ensures
        parse_spec(id_chars(text)) == Ok::<Seq<u8>, ParseError>(text),
{
    lemma_id_chars_utf8(text);
    let chars = id_chars(text);
    assert forall|i: int| 0 <= i < chars.len() implies char_accepted(#[trigger] chars[i]) by {
        assert(is_alphabet_byte(text[i]));
    }
    assert(!exists|i: int| is_first_rejected(chars, i));
    lemma_encode_decode(text);
}

/// Every identifier built from raw bytes (and so from fields) has canonical text:
/// parsing its string gives it back.
pub proof fn lemma_parse_to_string_of_raw(raw: Seq<u8>)
    requires
        raw.len() == 16,
    ensures
        parse_spec(id_chars(crockford_encode(raw))) == Ok::<Seq<u8>, ParseError>(
            crockford_encode(raw),
        ),
{
    lemma_encode_is_id_text(raw);
    lemma_encode_is_canonical(raw);
    lemma_parse_to_string(crockford_encode(raw));
}

/// The raw bytes of canonical identifier text encode back to the text: building an
/// identifier from the raw bytes (or the number) of another gives the same one.
pub proof fn lemma_raw_round_trip(text: Seq<u8>)
    requires
        is_canonical_crockford(text),
    ensures
        be_bytes(id_number(text)) == crockford_decode(text),
        crockford_encode(be_bytes(id_number(text))) == text,
{
    lemma_number_bound(text);
    lemma_encode_decode(text);
}

/// The ASCII lower-case form of `chars`: `A`-`Z` become `a`-`z`, others stay.
pub open spec fn ascii_lowercase(chars: Seq<char>) -> Seq<char> {
    chars.map_values(|c: char| if 'A' <= c <= 'Z' { ((c as u32) + 32) as char } else { c })
}

/// Parsing the lower-case string of an identifier with canonical text gives back
/// the same text.
pub proof fn lemma_parse_lowercase(text: Seq<u8>)
    requires
        is_id_text(text),
        is_canonical_crockford(text),
    ensures
        parse_spec(ascii_lowercase(id_chars(text))) == Ok::<Seq<u8>, ParseError>(text),
{
    let chars = id_chars(text);
    let lower = ascii_lowercase(chars);
    assert forall|i: int| 0 <= i < lower.len() implies char_accepted(#[trigger] lower[i]) by {
        assert(is_alphabet_byte(text[i]));
        if 65 <= text[i] <= 90 {
            assert(lower[i] as u32 == text[i] + 32);
        } else {
            assert(lower[i] == text[i] as char);
        }
    }
    lemma_accepted_chars_decode(lower);
    let bytes = encode_utf8(lower);
    assert(vstd::utf8::is_ascii_chars(lower)) by {
        assert forall|i: int| 0 <= i < lower.len() implies '\0' <= #[trigger] lower[i] <= '\u{7f}' by {
            lemma_accepted_char_decodes(lower[i]);
        }
    }
    vstd::utf8::is_ascii_chars_encode_utf8(lower);
    assert(bytes.map_values(|c: u8| crockford_normal(c)) =~= text) by {
        assert forall|i: int| 0 <= i < text.len() implies crockford_normal(#[trigger] bytes[i])
            == text[i] by {
            assert(is_alphabet_byte(text[i]));
            assert(lower[i] as u8 == bytes[i]);
            if 65 <= text[i] <= 90 {
                assert(lower[i] as u32 == text[i] + 32);
            } else {
                assert(lower[i] == text[i] as char);
            }
        }
    }
    lemma_decode_normalized(bytes);
    assert(!exists|i: int| is_first_rejected(lower, i));
    lemma_encode_decode(text);
}

/// Building an identifier from the raw bytes of another gives the same one exactly
/// when the first character is at most `7`: 128 bits leave three for the first of
/// the 26 digits, so a larger first character loses its high bits.
pub proof fn lemma_raw_round_trip_exact(text: Seq<u8>)
    requires
        is_id_text(text),
    ensures
        crockford_encode(crockford_decode(text)) == text <==> text[0] <= 55,
{
    lemma_id_text_decodes(text);
    lemma_digits_len(crockford_number(text), 16, 256);
    lemma_encode_first_char(crockford_decode(text));
    if text[0] <= 55 {
        assert forall|i: int| 0 <= i < text.len() implies alphabet_char(
            crockford_value(#[trigger] text[i]).unwrap() as int,
        ) == text[i] by {
            assert(is_alphabet_byte(text[i]));
        }
        assert(is_alphabet_byte(text[0]));
        lemma_canonical_when_first_small(text);
        lemma_encode_decode(text);
    }
}

/// A character that parsing does not take, after only taken ones, is the first
/// rejected: where some character is not taken, a first rejected one exists.
proof fn lemma_first_rejected_exists(chars: Seq<char>, i: int)
    requires
        0 <= i < chars.len(),
        !char_accepted(chars[i]),
    ensures
        exists|k: int| is_first_rejected(chars, k),
    decreases i,
{
    if forall|j: int| 0 <= j < i ==> char_accepted(#[trigger] chars[j]) {
        assert(is_first_rejected(chars, i));
    } else {
        let j = choose|j: int| 0 <= j < i && !char_accepted(#[trigger] chars[j]);
        lemma_first_rejected_exists(chars, j);
    }
}

/// The string of a parsed identifier is 26 bytes of Crockford text.
pub proof fn lemma_parsed_is_crockford(chars: Seq<char>)
    requires
        parse_spec(chars) is Ok,
    ensures
        is_crockford_text(encode_utf8(chars)),
        encode_utf8(chars).len() == 26,
        chars.len() == 26,
{
    assert forall|j: int| 0 <= j < chars.len() implies char_accepted(#[trigger] chars[j]) by {
        if !char_accepted(chars[j]) {
            lemma_first_rejected_exists(chars, j);
        }
    }
    lemma_accepted_chars_decode(chars);
}

} // verus!
