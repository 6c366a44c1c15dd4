use vstd::prelude::*;

verus! {

/// Crockford Base32 alphabet (`0123456789ABCDEFGHJKMNPQRSTVWXYZ` as ASCII codes).
pub const ALPHABET: [u8; 32] = [
    48, 49, 50, 51, 52, 53, 54, 55, 56, 57, 65, 66, 67, 68, 69, 70,
    71, 72, 74, 75, 77, 78, 80, 81, 82, 83, 84, 86, 87, 88, 89, 90,
];

pub open spec fn alphabet_char(d: int) -> u8 {
    if d < 10 { (48 + d) as u8 }
    else if d < 18 { (55 + d) as u8 }
    else if d < 20 { (56 + d) as u8 }
    else if d < 22 { (57 + d) as u8 }
    else if d < 27 { (58 + d) as u8 }
    else { (59 + d) as u8 }
}

pub proof fn lemma_alphabet_table()
    ensures forall|d: int| 0 <= d < 32 ==> #[trigger] ALPHABET@[d] == alphabet_char(d),
{
    assert(ALPHABET@ =~= seq![48u8, 49, 50, 51, 52, 53, 54, 55, 56, 57, 65, 66, 67, 68, 69, 70, 71, 72, 74, 75, 77, 78, 80, 81, 82, 83, 84, 86, 87, 88, 89, 90]);
}

/// Crockford Base32 alphabet in lower case (`0123456789abcdefghjkmnpqrstvwxyz` as ASCII codes).
pub const ALPHABET_LOWER: [u8; 32] = [
    48, 49, 50, 51, 52, 53, 54, 55, 56, 57, 97, 98, 99, 100, 101, 102,
    103, 104, 106, 107, 109, 110, 112, 113, 114, 115, 116, 118, 119, 120, 121, 122,
];

/// ID length in characters.
pub const ID_LENGTH: usize = 26;

/// ID length in bytes (128 bits).
pub const ID_BYTES: usize = 16;

/// Timestamp bits.
pub const TIMESTAMP_BITS: u8 = 48;

/// Worker ID bits.
pub const WORKER_BITS: u8 = 16;

/// Counter bits.
pub const COUNTER_BITS: u8 = 14;

/// Random bits.
pub const RANDOM_BITS: u8 = 50;

/// Maximum timestamp value (2^48 - 1).
pub const TIMESTAMP_MAX: u64 = 0xFFFF_FFFF_FFFF;

/// Maximum worker ID value (2^16 - 1).
pub const WORKER_MAX: u16 = 0xFFFF;

/// Maximum counter value (2^14 - 1) = 16383.
pub const COUNTER_MAX: u16 = 0x3FFF;

/// Maximum random value (2^50 - 1).
pub const RANDOM_MAX: u64 = 0x3_FFFF_FFFF_FFFF;

/// Epoch: 2020-01-01 00:00:00 UTC, in milliseconds since the Unix epoch.
pub const EPOCH: u64 = 1577836800000;

/// A byte of the alphabet: a digit, or an upper-case letter other than I, L, O and U.
pub open spec fn is_alphabet_byte(c: u8) -> bool {
    (48 <= c <= 57) || (65 <= c <= 90 && c != 73 && c != 76 && c != 79 && c != 85)
}

/// The alphabet bytes are exactly the characters of the 32 digits.
pub proof fn lemma_alphabet_bytes(c: u8)
    ensures
        is_alphabet_byte(c) <==> (exists|d: int| 0 <= d < 32 && #[trigger] alphabet_char(d) == c),
{
    if is_alphabet_byte(c) {
        let d: int = if c <= 57 {
            c - 48
        } else if c <= 72 {
            c - 55
        } else if c <= 75 {
            c - 56
        } else if c <= 78 {
            c - 57
        } else if c <= 84 {
            c - 58
        } else {
            c - 59
        };
        assert(alphabet_char(d) == c);
    }
}

/// Whether `c` is in `ALPHABET`, searched in order.
pub(crate) fn alphabet_contains(c: u8) -> (found: bool)
    ensures
        found == is_alphabet_byte(c),
{
    proof {
        lemma_alphabet_table();
        lemma_alphabet_bytes(c);
    }
    let mut k: usize = 0;
    while k < 32
        invariant
            k <= 32,
            forall|j: int| 0 <= j < k ==> ALPHABET@[j] != c,
            forall|d: int| 0 <= d < 32 ==> #[trigger] ALPHABET@[d] == alphabet_char(d),
        decreases 32 - k,
    {
        if ALPHABET[k] == c {
            assert(alphabet_char(k as int) == c);
            return true;
        }
        k += 1;
    }
    assert forall|d: int| 0 <= d < 32 implies #[trigger] alphabet_char(d) != c by {
        assert(ALPHABET@[d] != c);
    }
    false
}

} // verus!
