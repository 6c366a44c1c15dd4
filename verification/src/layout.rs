//! The 128-bit layout of an identifier: timestamp (48 bits), worker id (16 bits),
//! counter (14 bits) and random part (50 bits), from the most significant bit down.
use vstd::arithmetic::div_mod::*;
use vstd::prelude::*;

use crate::radix::{
    lemma_digit_at, lemma_digits_len, lemma_pow_positive, lemma_value_of_digits, pow_nat, radix_digits,
    radix_value,
};

verus! {

/// The 128-bit number that holds the four fields, each cut to its width.
pub open spec fn pack_fields(timestamp: u64, worker_id: u16, counter: u16, random: u64) -> u128 {
    (((timestamp & 0xFFFF_FFFF_FFFF) as u128) << 80u128) | ((worker_id as u128) << 64u128) | (((
    counter & 0x3FFF) as u128) << 50u128) | ((random & 0x3_FFFF_FFFF_FFFF) as u128)
}

/// The timestamp field: the top 48 bits.
pub open spec fn timestamp_field(number: u128) -> u64 {
    (number >> 80u128) as u64
}

/// The worker id field: the 16 bits below the timestamp.
pub open spec fn worker_field(number: u128) -> u16 {
    ((number >> 64u128) & 0xFFFF) as u16
}

/// The counter field: the 14 bits below the worker id.
pub open spec fn counter_field(number: u128) -> u16 {
    ((number >> 50u128) & 0x3FFF) as u16
}

/// The random field: the low 50 bits.
pub open spec fn random_field(number: u128) -> u64 {
    (number & 0x3_FFFF_FFFF_FFFF) as u64
}

/// The 16 big-endian bytes of a 128-bit number.
pub open spec fn be_bytes(number: u128) -> Seq<u8> {
    radix_digits(number as nat, 16, 256)
}

/// Each field reads back what was packed into it, cut to its width.
pub proof fn lemma_fields_of_pack(timestamp: u64, worker_id: u16, counter: u16, random: u64)
    ensures
        timestamp_field(pack_fields(timestamp, worker_id, counter, random)) == timestamp
            & 0xFFFF_FFFF_FFFF,
        worker_field(pack_fields(timestamp, worker_id, counter, random)) == worker_id,
        counter_field(pack_fields(timestamp, worker_id, counter, random)) == counter & 0x3FFF,
        random_field(pack_fields(timestamp, worker_id, counter, random)) == random
            & 0x3_FFFF_FFFF_FFFF,
        timestamp <= 0xFFFF_FFFF_FFFF ==> timestamp & 0xFFFF_FFFF_FFFF == timestamp,
        counter <= 0x3FFF ==> counter & 0x3FFF == counter,
        random <= 0x3_FFFF_FFFF_FFFF ==> random & 0x3_FFFF_FFFF_FFFF == random,
{
    assert(timestamp <= 0xFFFF_FFFF_FFFF ==> timestamp & 0xFFFF_FFFF_FFFF == timestamp) by (bit_vector);
    assert(counter <= 0x3FFF ==> counter & 0x3FFF == counter) by (bit_vector);
    assert(random <= 0x3_FFFF_FFFF_FFFF ==> random & 0x3_FFFF_FFFF_FFFF == random) by (bit_vector);
    assert({
        let n = (((timestamp & 0xFFFF_FFFF_FFFF) as u128) << 80u128) | ((worker_id as u128)
            << 64u128) | (((counter & 0x3FFF) as u128) << 50u128) | ((random & 0x3_FFFF_FFFF_FFFF)
            as u128);
        &&& (n >> 80u128) as u64 == timestamp & 0xFFFF_FFFF_FFFF
        &&& ((n >> 64u128) & 0xFFFF) as u16 == worker_id
        &&& ((n >> 50u128) & 0x3FFF) as u16 == counter & 0x3FFF
        &&& (n & 0x3_FFFF_FFFF_FFFF) as u64 == random & 0x3_FFFF_FFFF_FFFF
    }) by (bit_vector);
}

/// Shifting right by `8k` bits divides by `256^k`.
proof fn lemma_shr_bytes(number: u128, k: nat)
    requires
        k < 16,
    ensures
        (number >> (8 * k) as u128) as nat == (number as nat) / pow_nat(256, k),
    decreases k,
{
    if k == 0 {
        assert(number >> 0u128 == number) by (bit_vector);
        assert(pow_nat(256, 0) == 1);
    } else {
        let j = (k - 1) as nat;
        lemma_shr_bytes(number, j);
        let s = (8 * j) as u128;
        assert(number >> (s + 8) as u128 == (number >> s) / 256) by (bit_vector)
            requires
                s < 120,
        ;
        assert((8 * k) as u128 == (s + 8) as u128);
        lemma_pow_positive(256, j);
        lemma_div_denominator(number as int, pow_nat(256, j) as int, 256);
        assert(pow_nat(256, k) == 256 * pow_nat(256, j));
        assert(pow_nat(256, j) * 256 == 256 * pow_nat(256, j));
    }
}

/// Byte `i` of the big-endian bytes of a number is the number shifted right by
/// `8 * (15 - i)` bits, cut to 8 bits.
pub proof fn lemma_be_bytes_at(number: u128, i: int)
    requires
        0 <= i < 16,
    ensures
        be_bytes(number).len() == 16,
        be_bytes(number)[i] == ((number >> (8 * (15 - i)) as u128) & 0xFF) as u8,
{
    let k = (15 - i) as nat;
    lemma_digit_at(number as nat, 16, 256, i);
    lemma_shr_bytes(number, k);
    let v = number >> (8 * k) as u128;
    assert((v & 0xFF) as u8 as nat == v % 256) by (bit_vector);
}

/// All 16 bytes at once.
pub proof fn lemma_be_bytes(number: u128)
    ensures
        be_bytes(number).len() == 16,
        forall|i: int|
            0 <= i < 16 ==> #[trigger] be_bytes(number)[i] == ((number >> (8 * (15 - i)) as u128)
                & 0xFF) as u8,
{
    assert forall|i: int| 0 <= i < 16 implies #[trigger] be_bytes(number)[i] == ((number >> (8 * (15
        - i)) as u128) & 0xFF) as u8 by {
        lemma_be_bytes_at(number, i);
    }
    lemma_be_bytes_at(number, 0);
}

/// Packed numbers order by timestamp first, then (for one worker) by counter.
pub proof fn lemma_pack_order(
    t1: u64,
    t2: u64,
    worker_id: u16,
    c1: u16,
    c2: u16,
    r1: u64,
    r2: u64,
)
    requires
        t1 <= 0xFFFF_FFFF_FFFF,
        t2 <= 0xFFFF_FFFF_FFFF,
        c1 <= 0x3FFF,
        c2 <= 0x3FFF,
        t1 < t2 || (t1 == t2 && c1 < c2),
    ensures
        pack_fields(t1, worker_id, c1, r1) < pack_fields(t2, worker_id, c2, r2),
{
    assert({
        let p1 = (((t1 & 0xFFFF_FFFF_FFFF) as u128) << 80u128) | ((worker_id as u128) << 64u128)
            | (((c1 & 0x3FFF) as u128) << 50u128) | ((r1 & 0x3_FFFF_FFFF_FFFF) as u128);
        let p2 = (((t2 & 0xFFFF_FFFF_FFFF) as u128) << 80u128) | ((worker_id as u128) << 64u128)
            | (((c2 & 0x3FFF) as u128) << 50u128) | ((r2 & 0x3_FFFF_FFFF_FFFF) as u128);
        p1 < p2
    }) by (bit_vector)
        requires
            t1 <= 0xFFFF_FFFF_FFFF,
            t2 <= 0xFFFF_FFFF_FFFF,
            c1 <= 0x3FFF,
            c2 <= 0x3FFF,
            t1 < t2 || (t1 == t2 && c1 < c2),
    ;
}

/// The big-endian bytes of a number denote the number.
pub proof fn lemma_be_bytes_value(number: u128)
    ensures
        be_bytes(number).len() == 16,
        radix_value(be_bytes(number), 256) == number as nat,
{
    reveal_with_fuel(pow_nat, 17);
    assert(pow_nat(256, 16) == 0x100000000000000000000000000000000);
    lemma_digits_len(number as nat, 16, 256);
    lemma_value_of_digits(number as nat, 16, 256);
}

} // verus!
