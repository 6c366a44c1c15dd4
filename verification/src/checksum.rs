//! Checksums: CRC-16 (polynomial 0x1021, initial value 0xFFFF) and a check
//! character modulo 37.
use vstd::prelude::*;

verus! {

/// One bit step of CRC-16: shift left, folding in the polynomial 0x1021
/// when the top bit was set.
pub open spec fn crc16_bit_step(crc: u16) -> u16 {
    if crc & 0x8000 != 0 {
        ((crc << 1u16) ^ 0x1021u16) as u16
    } else {
        (crc << 1u16) as u16
    }
}

/// `k` bit steps of CRC-16.
pub open spec fn crc16_bit_steps(crc: u16, k: nat) -> u16
    decreases k,
{
    if k == 0 {
        crc
    } else {
        crc16_bit_steps(crc16_bit_step(crc), (k - 1) as nat)
    }
}

/// The CRC-16 register after taking in one byte.
pub open spec fn crc16_byte(crc: u16, byte: u8) -> u16 {
    crc16_bit_steps(crc ^ ((byte as u16) << 8u16) as u16, 8)
}

/// The CRC-16 of `data`, starting from 0xFFFF.
pub open spec fn crc16_spec(data: Seq<u8>) -> u16
    decreases data.len(),
{
    if data.len() == 0 {
        0xFFFFu16
    } else {
        crc16_byte(crc16_spec(data.drop_last()), data.last())
    }
}

/// Calculate CRC-16 (CCITT polynomial 0x1021, initial value 0xFFFF) of `data`.
pub fn crc16(data: &[u8]) -> (crc: u16)
    ensures
        crc == crc16_spec(data@),
{
    let mut crc: u16 = 0xFFFF;
    let mut i: usize = 0;
    while i < data.len()
        invariant
            i <= data@.len(),
            crc == crc16_spec(data@.take(i as int)),
        decreases data@.len() - i,
    {
        assert(data@.take(i + 1).drop_last() =~= data@.take(i as int));
        let byte = data[i];
        crc = crc ^ ((byte as u16) << 8u16);
        let ghost start = crc;
        let mut bit: u32 = 0;
        while bit < 8
            invariant
                bit <= 8,
                crc16_bit_steps(start, 8) == crc16_bit_steps(crc, (8 - bit) as nat),
            decreases 8 - bit,
        {
            if crc & 0x8000 != 0 {
                crc = (crc << 1u16) ^ 0x1021;
            } else {
                crc = crc << 1u16;
            }
            bit += 1;
        }
        i += 1;
    }
    assert(data@.take(data@.len() as int) =~= data@);
    crc
}

/// Eight bit steps take a register below 256 to itself shifted left by eight: its
/// top bit stays clear throughout, so the polynomial is never folded in.
proof fn lemma_crc16_steps_of_low_byte(x: u16)
    requires
        x < 256,
    ensures
        crc16_bit_steps(x, 8) == (x << 8u16),
{
    reveal_with_fuel(crc16_bit_steps, 9);
    assert({
        &&& crc16_bit_step(x) == (x << 1u16)
        &&& crc16_bit_step(x << 1u16) == (x << 2u16)
        &&& crc16_bit_step(x << 2u16) == (x << 3u16)
        &&& crc16_bit_step(x << 3u16) == (x << 4u16)
        &&& crc16_bit_step(x << 4u16) == (x << 5u16)
        &&& crc16_bit_step(x << 5u16) == (x << 6u16)
        &&& crc16_bit_step(x << 6u16) == (x << 7u16)
        &&& crc16_bit_step(x << 7u16) == (x << 8u16)
    }) by (bit_vector)
        requires
            x < 256,
    ;
}

/// Appending the CRC-16 of `data`, high byte first, to `data` gives a CRC of zero:
/// the check that a receiver makes on data followed by its checksum.
pub proof fn lemma_crc16_residue(data: Seq<u8>)
    ensures
        crc16_spec(
            data.push((crc16_spec(data) >> 8u16) as u8).push((crc16_spec(data) & 0xFFu16) as u8),
        ) == 0,
{
    let c = crc16_spec(data);
    let hi = (c >> 8u16) as u8;
    let lo = (c & 0xFFu16) as u8;
    let d1 = data.push(hi);
    let d2 = d1.push(lo);
    assert(d2.drop_last() =~= d1);
    assert(d1.drop_last() =~= data);
    let low = (c & 0xFFu16) as u16;
    assert((c ^ ((hi as u16) << 8u16)) as u16 == low && low < 256) by (bit_vector)
        requires
            hi == (c >> 8u16) as u8,
            low == c & 0xFFu16,
    ;
    lemma_crc16_steps_of_low_byte(low);
    let r = (low << 8u16) as u16;
    assert(crc16_spec(d1) == r);
    assert((r ^ ((lo as u16) << 8u16)) as u16 == 0) by (bit_vector)
        requires
            r == low << 8u16,
            low == c & 0xFFu16,
            lo == (c & 0xFFu16) as u8,
    ;
    lemma_crc16_steps_of_low_byte(0);
    assert((0u16 << 8u16) == 0u16) by (bit_vector);
    assert(crc16_spec(d2) == crc16_byte(r, lo));
}

/// The value a byte counts with in the check character: bytes from 10 up count 26 more.
pub open spec fn iso7064_value(byte: u8) -> int {
    if byte >= 10 {
        byte - 10 + 36
    } else {
        byte as int
    }
}

/// The running sum of the check character over `data`.
pub open spec fn iso7064_sum(data: Seq<u8>) -> int
    decreases data.len(),
{
    if data.len() == 0 {
        0
    } else {
        (((iso7064_sum(data.drop_last()) + iso7064_value(data.last())) % 37) * 36) % 37
    }
}

/// The check value of `data`, one of the 36 values 0 to 35: the final
/// remainder modulo 37, where a remainder of 36 counts as 0.
pub open spec fn iso7064_final(data: Seq<u8>) -> int {
    ((iso7064_sum(data) * 36) % 37) % 36
}

/// The check character of `data`: values 0 to 9 give `0`-`9`, 10 to 35 give `A`-`Z`.
pub open spec fn iso7064_char(data: Seq<u8>) -> u8 {
    let s = iso7064_final(data);
    if s < 10 {
        (s + 48) as u8
    } else {
        (s - 10 + 65) as u8
    }
}

/// The alternating sum of the byte values of `data`: the last byte counts plus,
/// the one before it minus, and so on.
pub open spec fn iso7064_alternating(data: Seq<u8>) -> int
    decreases data.len(),
{
    if data.len() == 0 {
        0
    } else {
        iso7064_value(data.last()) - iso7064_alternating(data.drop_last())
    }
}

/// The character of a check value: 0 to 9 give `0`-`9`, 10 to 35 give `A`-`Z`.
pub open spec fn check_value_char(v: int) -> u8 {
    if v < 10 {
        (v + 48) as u8
    } else {
        (v - 10 + 65) as u8
    }
}

/// Since 36 is -1 modulo 37, the running sum of the check character is minus the
/// alternating sum of the byte values, modulo 37.
proof fn lemma_iso7064_sum_alternating(data: Seq<u8>)
    ensures
        iso7064_sum(data) == (-iso7064_alternating(data)) % 37,
    decreases data.len(),
{
    if data.len() > 0 {
        let d = data.drop_last();
        lemma_iso7064_sum_alternating(d);
        let a = iso7064_alternating(d);
        let v = iso7064_value(data.last());
        let s0 = iso7064_sum(d);
        assert((((s0 + v) % 37) * 36) % 37 == (-(v - a)) % 37) by (nonlinear_arith)
            requires
                s0 == (-a) % 37,
        ;
    }
}

/// The check character is that of the alternating sum of the byte values modulo
/// 37, where a remainder of 36 counts as 0: each byte's value counts with sign
/// plus when an odd number of bytes end at it (it included), minus otherwise.
pub proof fn lemma_iso7064_char_alternating(data: Seq<u8>)
    ensures
        iso7064_char(data) == check_value_char((iso7064_alternating(data) % 37) % 36),
{
    lemma_iso7064_sum_alternating(data);
    let a = iso7064_alternating(data);
    let s = iso7064_sum(data);
    assert((s * 36) % 37 == a % 37) by (nonlinear_arith)
        requires
            s == (-a) % 37,
    ;
}

/// Bytes that the check character takes without overflow: all below 230.
pub open spec fn iso7064_accepts(data: Seq<u8>) -> bool {
    forall|i: int| 0 <= i < data.len() ==> #[trigger] data[i] < 230
}

/// Calculate the check character modulo 37 of `data`: always one of `0`-`9`
/// or `A`-`Z`.
///
/// A byte of 230 or more overflows the byte arithmetic that counts it; such
/// input is outside the contract.
pub fn iso7064_checksum(data: &[u8]) -> (c: u8)
    requires
        iso7064_accepts(data@),
    ensures
        c == iso7064_char(data@),
        c == check_value_char((iso7064_alternating(data@) % 37) % 36),
        (48 <= c <= 57) || (65 <= c <= 90),
{
    proof {
        lemma_iso7064_char_alternating(data@);
    }
    let mut sum: u16 = 0;
    let mut i: usize = 0;
    while i < data.len()
        invariant
            i <= data@.len(),
            iso7064_accepts(data@),
            sum as int == iso7064_sum(data@.take(i as int)),
            sum < 37,
        decreases data@.len() - i,
    {
        assert(data@.take(i + 1).drop_last() =~= data@.take(i as int));
        let byte = data[i];
        assert(byte < 230);
        let val = if byte >= 10 {
            (byte - 10 + 36) as u16
        } else {
            byte as u16
        };
        sum = (sum + val) % 37;
        sum = (sum * 36) % 37;
        i += 1;
    }
    assert(data@.take(data@.len() as int) =~= data@);
    sum = ((sum * 36) % 37) % 36;
    if sum < 10 {
        sum as u8 + 48
    } else {
        sum as u8 - 10 + 65
    }
}

} // verus!
