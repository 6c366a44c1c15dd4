//! Crockford Base32 encoding of 16 bytes into 26 characters, and decoding back.
use vstd::arithmetic::div_mod::*;
use vstd::prelude::*;

use crate::consts::{alphabet_char, lemma_alphabet_table, ALPHABET};
use crate::radix::{
    digits_below, lex_less, lemma_digit_at, lemma_digits_take, lemma_lex_strict, lemma_value_order_is_lex_order, lemma_digits_len, lemma_digits_of_value, lemma_pow_monotone,
    lemma_pow_positive, lemma_value_bound, lemma_value_of_digits, lemma_value_take_step, pow_nat,
    radix_digits, radix_value,
};
use crate::Error;

verus! {

/// `256^16`, that is `2^128`: the numbers that 16 bytes can hold.
pub open spec fn two_pow_128() -> nat {
    pow_nat(256, 16)
}

/// The 26 characters that encode `raw`: the 26 base-32 digits of the big-endian
/// number that `raw` holds, each written as its Crockford character.
pub open spec fn crockford_encode(raw: Seq<u8>) -> Seq<u8> {
    radix_digits(radix_value(raw, 256), 26, 32).map_values(|d: u8| alphabet_char(d as int))
}

/// The value of one Crockford character, if it has one. Lower case is accepted,
/// and `O`/`o` read as 0 and `I`/`i`/`L`/`l` as 1; `U`/`u` and all other bytes have none.
pub open spec fn crockford_value(c: u8) -> Option<u8> {
    if c == 48 || c == 79 || c == 111 {
        Some(0u8)
    } else if c == 49 || c == 73 || c == 105 || c == 76 || c == 108 {
        Some(1u8)
    } else if 50 <= c <= 57 {
        Some((c - 48) as u8)
    } else if 65 <= c <= 72 {
        Some((c - 55) as u8)
    } else if 97 <= c <= 104 {
        Some((c - 87) as u8)
    } else if c == 74 || c == 106 {
        Some(18u8)
    } else if c == 75 || c == 107 {
        Some(19u8)
    } else if c == 77 || c == 109 {
        Some(20u8)
    } else if c == 78 || c == 110 {
        Some(21u8)
    } else if 80 <= c <= 84 {
        Some((c - 58) as u8)
    } else if 112 <= c <= 116 {
        Some((c - 90) as u8)
    } else if 86 <= c <= 90 {
        Some((c - 59) as u8)
    } else if 118 <= c <= 122 {
        Some((c - 91) as u8)
    } else {
        None
    }
}

/// Every byte of `input` is a Crockford character.
pub open spec fn is_crockford_text(input: Seq<u8>) -> bool {
    forall|i: int| 0 <= i < input.len() ==> (#[trigger] crockford_value(input[i])) is Some
}

/// The digit values of the characters of `input`.
pub open spec fn crockford_digits(input: Seq<u8>) -> Seq<u8> {
    input.map_values(|c: u8| crockford_value(c).unwrap())
}

/// The number that Crockford text denotes, cut to its low 128 bits.
pub open spec fn crockford_number(input: Seq<u8>) -> nat {
    radix_value(crockford_digits(input), 32) % two_pow_128()
}

/// The 16 big-endian bytes that Crockford text decodes to.
pub open spec fn crockford_decode(input: Seq<u8>) -> Seq<u8> {
    radix_digits(crockford_number(input), 16, 256)
}

proof fn lemma_pow_constants()
    ensures
        pow_nat(256, 15) == 0x1000000000000000000000000000000,
        two_pow_128() == 0x100000000000000000000000000000000,
        pow_nat(32, 26) == 0x400000000000000000000000000000000,
{
    reveal_with_fuel(pow_nat, 27);
}

/// Encode 16 bytes into 26 Crockford Base32 characters.
pub fn encode_crockford32(raw: &[u8; 16], out: &mut [u8; 26])
    ensures
        final(out)@ == crockford_encode(raw@),
{
    proof {
        lemma_alphabet_table();
        lemma_pow_constants();
    }
    let mut n: u128 = 0;
    let mut i: usize = 0;
    while i < 16
        invariant
            i <= 16,
            n as nat == radix_value(raw@.take(i as int), 256),
            (n as nat) < pow_nat(256, i as nat),
            pow_nat(256, 15) == 0x1000000000000000000000000000000,
        decreases 16 - i,
    {
        proof {
            lemma_value_take_step(raw@, 256, i as int);
            lemma_pow_monotone(256, i as nat, 15);
            assert(pow_nat(256, (i + 1) as nat) == 256 * pow_nat(256, i as nat));
        }
        let byte = raw[i];
        assert((n << 8u32) | (byte as u128) == n * 256 + byte) by (bit_vector)
            requires
                n < 0x1000000000000000000000000000000u128,
        ;
        n = (n << 8u32) | (byte as u128);
        i += 1;
    }
    assert(raw@.take(16) =~= raw@);
    assert(pow_nat(32, 0) == 1);
    let ghost num = n as nat;
    let mut value: u128 = n;
    let mut k: usize = 0;
    while k < 26
        invariant
            k <= 26,
            num == n,
            value as nat == num / pow_nat(32, k as nat),
            forall|j: int|
                26 - k <= j < 26 ==> #[trigger] out@[j] == alphabet_char(
                    ((num / pow_nat(32, (25 - j) as nat)) % 32) as int,
                ),
            forall|d: int| 0 <= d < 32 ==> #[trigger] ALPHABET@[d] == alphabet_char(d),
        decreases 26 - k,
    {
        let d = (value & 0x1F) as usize;
        assert(value & 0x1F == value % 32) by (bit_vector);
        out[25 - k] = ALPHABET[d];
        proof {
            lemma_pow_positive(32, k as nat);
            lemma_div_denominator(num as int, pow_nat(32, k as nat) as int, 32);
            assert(pow_nat(32, (k + 1) as nat) == 32 * pow_nat(32, k as nat));
        }
        assert(value >> 5u32 == value / 32) by (bit_vector);
        value = value >> 5u32;
        k += 1;
    }
    proof {
        let digits = radix_digits(num, 26, 32);
        assert forall|j: int| 0 <= j < 26 implies out@[j] == crockford_encode(raw@)[j] by {
            lemma_digit_at(num, 26, 32, j);
        }
        lemma_digits_len(num, 26, 32);
        assert(out@ =~= crockford_encode(raw@));
    }
}

/// The value of one Crockford character (see `crockford_value`).
fn crockford_digit(byte: u8) -> (r: Option<u8>)
    ensures
        r == crockford_value(byte),
{
    match byte {
        // '0', 'O', 'o' (a letter O is read as zero)
        48 | 79 | 111 => Some(0),
        // '1', 'I', 'i', 'L', 'l' (letters I and L are read as one)
        49 | 73 | 105 | 76 | 108 => Some(1),
        // '2'..='9'
        50..=57 => Some(byte - 48),
        // 'A'..='H', 'a'..='h'
        65..=72 => Some(byte - 55),
        97..=104 => Some(byte - 87),
        // 'J', 'j' (I is skipped)
        74 | 106 => Some(18),
        // 'K', 'k'
        75 | 107 => Some(19),
        // 'M', 'm' (L is skipped)
        77 | 109 => Some(20),
        // 'N', 'n'
        78 | 110 => Some(21),
        // 'P'..='T', 'p'..='t' (O is skipped)
        80..=84 => Some(byte - 58),
        112..=116 => Some(byte - 90),
        // 'V'..='Z', 'v'..='z' (U is skipped)
        86..=90 => Some(byte - 59),
        118..=122 => Some(byte - 91),
        _ => None,
    }
}

/// Decode 26 Crockford Base32 characters into 16 bytes.
///
/// The text is read as a base-32 number; its low 128 bits are written to `out`
/// in big-endian order. `out` is written only on success.
pub fn decode_crockford32(input: &[u8], out: &mut [u8; 16]) -> (r: Result<(), Error>)
    ensures
        input@.len() != 26 ==> r == Err::<(), Error>(Error::InvalidLength),
        input@.len() == 26 && !is_crockford_text(input@) ==> r == Err::<(), Error>(
            Error::InvalidCharacter,
        ),
        input@.len() == 26 && is_crockford_text(input@) ==> r is Ok,
        r is Ok ==> final(out)@ == crockford_decode(input@),
        r is Err ==> final(out)@ == old(out)@,
{
    proof {
        lemma_pow_constants();
    }
    if input.len() != 26 {
        return Err(Error::InvalidLength);
    }
    let ghost digits = crockford_digits(input@);
    let ghost m: int = two_pow_128() as int;
    let mut n: u128 = 0;
    let mut i: usize = 0;
    while i < 26
        invariant
            i <= 26,
            input@.len() == 26,
            digits == crockford_digits(input@),
            m == two_pow_128(),
            m == 0x100000000000000000000000000000000,
            n as nat == radix_value(digits.take(i as int), 32) % (m as nat),
            forall|j: int| 0 <= j < i ==> (#[trigger] crockford_value(input@[j])) is Some,
            *out == *old(out),
        decreases 26 - i,
    {
        let byte = input[i];
        let val = match crockford_digit(byte) {
            Some(v) => v,
            None => {
                assert(!is_crockford_text(input@));
                return Err(Error::InvalidCharacter);
            },
        };
        proof {
            lemma_value_take_step(digits, 32, i as int);
            let prev = radix_value(digits.take(i as int), 32) as int;
            assert(digits[i as int] == val);
            lemma_mod_bound(prev, m);
            lemma_mul_mod_noop_left(prev, 32, m);
            lemma_add_mod_noop(prev * 32, val as int, m);
            lemma_small_mod(val as nat, m as nat);
            lemma_add_mod_noop((prev % m) * 32, val as int, m);
            lemma_mod_twice(prev * 32, m);
            lemma_mod_twice((prev % m) * 32, m);
        }
        let wide = val as u128;
        assert(((n << 5u32) | wide) as int == (n as int * 32 + wide as int) % 0x100000000000000000000000000000000int)
            by (bit_vector)
            requires
                wide < 32,
        ;
        n = (n << 5u32) | wide;
        i += 1;
    }
    assert(digits.take(26) =~= digits);
    assert(is_crockford_text(input@));
    let ghost num = n as nat;
    let mut bytes = [0u8; 16];
    let mut value: u128 = n;
    let mut k: usize = 0;
    assert(pow_nat(256, 0) == 1);
    while k < 16
        invariant
            k <= 16,
            num == n,
            value as nat == num / pow_nat(256, k as nat),
            forall|j: int|
                16 - k <= j < 16 ==> #[trigger] bytes@[j] as nat == (num / pow_nat(
                    256,
                    (15 - j) as nat,
                )) % 256,
        decreases 16 - k,
    {
        assert((value & 0xFF) as u8 as nat == value % 256) by (bit_vector);
        bytes[15 - k] = (value & 0xFF) as u8;
        proof {
            lemma_pow_positive(256, k as nat);
            lemma_div_denominator(num as int, pow_nat(256, k as nat) as int, 256);
            assert(pow_nat(256, (k + 1) as nat) == 256 * pow_nat(256, k as nat));
        }
        assert(value >> 8u32 == value / 256) by (bit_vector);
        value = value >> 8u32;
        k += 1;
    }
    proof {
        assert forall|j: int| 0 <= j < 16 implies bytes@[j] == crockford_decode(input@)[j] by {
            lemma_digit_at(num, 16, 256, j);
        }
        lemma_digits_len(num, 16, 256);
        assert(bytes@ =~= crockford_decode(input@));
    }
    *out = bytes;
    Ok(())
}

/// Each digit's character reads back as that digit.
pub proof fn lemma_alphabet_char_value(d: int)
    requires
        0 <= d < 32,
    ensures
        crockford_value(alphabet_char(d)) == Some(d as u8),
{
}

/// Every digit of a base-32 digit string is below 32.
pub proof fn lemma_base32_digits_below(n: nat, len: nat)
    ensures
        digits_below(radix_digits(n, len, 32), 32),
        radix_digits(n, len, 32).len() == len,
{
    lemma_digits_len(n, len, 32);
    assert forall|j: int| 0 <= j < len implies (#[trigger] radix_digits(n, len, 32)[j] as nat)
        < 32 by {
        lemma_digit_at(n, len, 32, j);
    }
}

/// Decoding the encoding of 16 bytes gives back the 16 bytes.
pub proof fn lemma_decode_encode(raw: Seq<u8>)
    requires
        raw.len() == 16,
    ensures
        crockford_encode(raw).len() == 26,
        is_crockford_text(crockford_encode(raw)),
        crockford_decode(crockford_encode(raw)) == raw,
{
    lemma_pow_constants();
    let n = radix_value(raw, 256);
    assert(digits_below(raw, 256));
    lemma_value_bound(raw, 256);
    let digits = radix_digits(n, 26, 32);
    lemma_base32_digits_below(n, 26);
    let text = crockford_encode(raw);
    assert forall|i: int| 0 <= i < 26 implies (#[trigger] crockford_value(text[i])) == Some(
        digits[i],
    ) by {
        lemma_alphabet_char_value(digits[i] as int);
    }
    assert(crockford_digits(text) =~= digits);
    lemma_value_of_digits(n, 26, 32);
    lemma_small_mod(n, two_pow_128());
    lemma_digits_of_value(raw, 256);
}

/// Text that writes each digit with its own alphabet character, and whose number
/// fits in 128 bits, is what encoding its decoded bytes gives.
pub open spec fn is_canonical_crockford(text: Seq<u8>) -> bool {
    &&& text.len() == 26
    &&& is_crockford_text(text)
    &&& forall|i: int|
        0 <= i < text.len() ==> alphabet_char(crockford_value(#[trigger] text[i]).unwrap() as int)
            == text[i]
    &&& radix_value(crockford_digits(text), 32) < two_pow_128()
}

/// Encoding the decoding of canonical text gives back the text.
pub proof fn lemma_encode_decode(text: Seq<u8>)
    requires
        is_canonical_crockford(text),
    ensures
        crockford_encode(crockford_decode(text)) == text,
{
    lemma_pow_constants();
    let digits = crockford_digits(text);
    let n = radix_value(digits, 32);
    lemma_small_mod(n, two_pow_128());
    lemma_value_of_digits(n, 16, 256);
    assert forall|i: int| 0 <= i < digits.len() implies (#[trigger] digits[i] as nat) < 32 by {
        assert(crockford_value(text[i]) is Some);
    }
    lemma_digits_of_value(digits, 32);
    lemma_base32_digits_below(n, 26);
    assert(crockford_encode(crockford_decode(text)) =~= text);
}

/// The number that the encoding of 16 bytes denotes is the big-endian number of the bytes.
pub proof fn lemma_number_of_encode(raw: Seq<u8>)
    requires
        raw.len() == 16,
    ensures
        crockford_number(crockford_encode(raw)) == radix_value(raw, 256),
        radix_value(raw, 256) < two_pow_128(),
{
    lemma_pow_constants();
    let n = radix_value(raw, 256);
    assert(digits_below(raw, 256));
    lemma_value_bound(raw, 256);
    let digits = radix_digits(n, 26, 32);
    lemma_base32_digits_below(n, 26);
    let text = crockford_encode(raw);
    assert forall|i: int| 0 <= i < 26 implies (#[trigger] crockford_value(text[i])) == Some(
        digits[i],
    ) by {
        lemma_alphabet_char_value(digits[i] as int);
    }
    assert(crockford_digits(text) =~= digits);
    lemma_value_of_digits(n, 26, 32);
    lemma_small_mod(n, two_pow_128());
}

/// The number that Crockford text denotes fits in 128 bits.
pub proof fn lemma_number_bound(text: Seq<u8>)
    ensures
        crockford_number(text) < two_pow_128(),
        two_pow_128() == 0x100000000000000000000000000000000,
{
    lemma_pow_constants();
    lemma_mod_bound(radix_value(crockford_digits(text), 32) as int, two_pow_128() as int);
}

/// The encoding of 16 bytes is canonical text.
pub proof fn lemma_encode_is_canonical(raw: Seq<u8>)
    requires
        raw.len() == 16,
    ensures
        is_canonical_crockford(crockford_encode(raw)),
{
    lemma_pow_constants();
    let n = radix_value(raw, 256);
    assert(digits_below(raw, 256));
    lemma_value_bound(raw, 256);
    let digits = radix_digits(n, 26, 32);
    lemma_base32_digits_below(n, 26);
    let text = crockford_encode(raw);
    assert forall|i: int| 0 <= i < 26 implies (#[trigger] crockford_value(text[i])) == Some(
        digits[i],
    ) by {
        lemma_alphabet_char_value(digits[i] as int);
    }
    assert(crockford_digits(text) =~= digits);
    lemma_value_of_digits(n, 26, 32);
}

/// Encoding keeps order: the encoding of a smaller 16-byte number comes first in
/// dictionary order, so identifier strings sort like their numbers.
pub proof fn lemma_encode_order(a: Seq<u8>, b: Seq<u8>)
    requires
        a.len() == 16,
        b.len() == 16,
        radix_value(a, 256) < radix_value(b, 256),
    ensures
        lex_less(crockford_encode(a), crockford_encode(b)),
{
    lemma_pow_constants();
    let m = radix_value(a, 256);
    let n = radix_value(b, 256);
    assert(digits_below(a, 256));
    assert(digits_below(b, 256));
    lemma_value_bound(a, 256);
    lemma_value_bound(b, 256);
    let da = radix_digits(m, 26, 32);
    let db = radix_digits(n, 26, 32);
    lemma_base32_digits_below(m, 26);
    lemma_base32_digits_below(n, 26);
    lemma_value_of_digits(m, 26, 32);
    lemma_value_of_digits(n, 26, 32);
    lemma_value_order_is_lex_order(da, db, 32);
    let i = choose|i: int| 0 <= i < da.len() && i < db.len() && da.take(i) == db.take(i) && #[trigger] da[i] < db[i];
    let ta = crockford_encode(a);
    let tb = crockford_encode(b);
    assert(ta.take(i) =~= tb.take(i)) by {
        assert forall|j: int| 0 <= j < i implies ta[j] == tb[j] by {
            assert(da.take(i)[j] == db.take(i)[j]);
        }
    }
    assert((da[i] as nat) < 32 && (db[i] as nat) < 32);
    assert(ta[i] < tb[i]);
}

/// Encoding keeps and reflects order and equality: of two 16-byte strings, one
/// comes before the other in dictionary order exactly when its encoding does, and
/// they are equal exactly when their encodings are.
pub proof fn lemma_encode_order_exact(a: Seq<u8>, b: Seq<u8>)
    requires
        a.len() == 16,
        b.len() == 16,
    ensures
        lex_less(a, b) <==> lex_less(crockford_encode(a), crockford_encode(b)),
        a == b <==> crockford_encode(a) == crockford_encode(b),
{
    let m = radix_value(a, 256);
    let n = radix_value(b, 256);
    assert(digits_below(a, 256));
    assert(digits_below(b, 256));
    lemma_decode_encode(a);
    lemma_decode_encode(b);
    lemma_lex_strict(a, b);
    lemma_lex_strict(crockford_encode(a), crockford_encode(b));
    if m < n {
        lemma_value_order_is_lex_order(a, b, 256);
        lemma_encode_order(a, b);
    } else if n < m {
        lemma_value_order_is_lex_order(b, a, 256);
        lemma_encode_order(b, a);
    } else {
        lemma_digits_of_value(a, 256);
        lemma_digits_of_value(b, 256);
        assert(a == b);
    }
}

/// The character that a typo or a lower-case letter stands for: `O`/`o` for `0`,
/// `I`/`i`/`L`/`l` for `1`, a lower-case letter for its upper-case form; others
/// stand for themselves.
pub open spec fn crockford_normal(c: u8) -> u8 {
    if c == 79 || c == 111 {
        48
    } else if c == 73 || c == 105 || c == 76 || c == 108 {
        49
    } else if 97 <= c <= 122 {
        (c - 32) as u8
    } else {
        c
    }
}

/// Decoding corrects typos and reads lower case as upper case: text with each
/// character replaced by the one it stands for decodes, or fails to decode,
/// exactly as the text itself does.
pub proof fn lemma_decode_normalized(input: Seq<u8>)
    ensures
        is_crockford_text(input.map_values(|c: u8| crockford_normal(c))) == is_crockford_text(
            input,
        ),
        crockford_decode(input.map_values(|c: u8| crockford_normal(c))) == crockford_decode(
            input,
        ),
{
    let t = input.map_values(|c: u8| crockford_normal(c));
    assert forall|i: int| 0 <= i < input.len() implies crockford_value(#[trigger] t[i])
        == crockford_value(input[i]) by {
        assert(t[i] == crockford_normal(input[i]));
    }
    assert(crockford_digits(t) =~= crockford_digits(input));
    if is_crockford_text(input) {
        assert forall|i: int| 0 <= i < t.len() implies (#[trigger] crockford_value(t[i])) is Some by {
            assert(crockford_value(input[i]) is Some);
        }
    }
    if is_crockford_text(t) {
        assert forall|i: int| 0 <= i < input.len() implies (#[trigger] crockford_value(input[i])) is Some by {
            assert(crockford_value(t[i]) is Some);
        }
    }
}

/// The first character of every encoding is one of `0` to `7`: 128 bits leave
/// three for the first of the 26 digits.
pub proof fn lemma_encode_first_char(raw: Seq<u8>)
    requires
        raw.len() == 16,
    ensures
        48 <= crockford_encode(raw)[0] <= 55,
{
    lemma_pow_constants();
    let n = radix_value(raw, 256);
    assert(digits_below(raw, 256));
    lemma_value_bound(raw, 256);
    reveal_with_fuel(pow_nat, 2);
    assert(pow_nat(32, 26) == 32 * pow_nat(32, 25));
    let p = pow_nat(32, 25);
    lemma_digit_at(n, 26, 32, 0);
    assert(n / p < 8) by {
        lemma_div_pos_is_pos(n as int, p as int);
        lemma_fundamental_div_mod(n as int, p as int);
        lemma_mod_bound(n as int, p as int);
        assert(n < 8 * p);
        assert(p * (n / p) <= n);
        assert((n / p) < 8) by (nonlinear_arith)
            requires
                p * (n / p) < 8 * p,
                p > 0,
        ;
    }
    lemma_small_mod((n / p) as nat, 32);
    lemma_base32_digits_below(n, 26);
}

/// Identifier text whose first character is at most `7` (its number fits in 128
/// bits) and whose characters are all their digits' own is canonical.
pub proof fn lemma_canonical_when_first_small(text: Seq<u8>)
    requires
        text.len() == 26,
        is_crockford_text(text),
        forall|i: int|
            0 <= i < text.len() ==> alphabet_char(crockford_value(#[trigger] text[i]).unwrap() as int)
                == text[i],
        crockford_value(text[0]).unwrap() < 8,
    ensures
        is_canonical_crockford(text),
{
    lemma_pow_constants();
    let d = crockford_digits(text);
    assert(digits_below(d, 32)) by {
        assert forall|i: int| 0 <= i < d.len() implies (#[trigger] d[i] as nat) < 32 by {
            assert(crockford_value(text[i]) is Some);
        }
    }
    let n = radix_value(d, 32);
    lemma_value_bound(d, 32);
    lemma_digits_of_value(d, 32);
    lemma_digit_at(n, 26, 32, 0);
    reveal_with_fuel(pow_nat, 2);
    assert(pow_nat(32, 26) == 32 * pow_nat(32, 25));
    let p = pow_nat(32, 25);
    lemma_pow_positive(32, 25);
    assert(n < 8 * p) by {
        lemma_fundamental_div_mod(n as int, p as int);
        lemma_mod_bound(n as int, p as int);
        assert(n / p < 32) by {
            assert(n < 32 * p);
            lemma_div_pos_is_pos(n as int, p as int);
            assert(p * (n / p) <= n);
            assert((n / p) < 32) by (nonlinear_arith)
                requires
                    p * (n / p) < 32 * p,
                    p > 0,
            ;
        }
        lemma_small_mod((n / p) as nat, 32);
        assert(n / p == d[0]);
        assert(n / p < 8);
        assert(p * (n / p) + n % p < 8 * p) by (nonlinear_arith)
            requires
                n / p < 8,
                n % p < p,
                p > 0,
        ;
    }
}

/// The first 16 characters of an encoding fix the number's bits from bit 50 up:
/// encodings whose first 16 characters agree come from numbers that agree there.
pub proof fn lemma_encode_prefix_high_bits(a: Seq<u8>, b: Seq<u8>)
    requires
        a.len() == 16,
        b.len() == 16,
        crockford_encode(a).take(16) == crockford_encode(b).take(16),
    ensures
        radix_value(a, 256) / pow_nat(32, 10) == radix_value(b, 256) / pow_nat(32, 10),
        pow_nat(32, 10) == 0x4000000000000,
{
    lemma_pow_constants();
    reveal_with_fuel(pow_nat, 17);
    let p10 = pow_nat(32, 10);
    let p16 = pow_nat(32, 16);
    assert(p10 == 0x4000000000000);
    assert(p16 == 0x100000000000000000000);
    let m = radix_value(a, 256);
    let n = radix_value(b, 256);
    assert(digits_below(a, 256));
    assert(digits_below(b, 256));
    lemma_value_bound(a, 256);
    lemma_value_bound(b, 256);
    let da = radix_digits(m, 26, 32);
    let db = radix_digits(n, 26, 32);
    lemma_base32_digits_below(m, 26);
    lemma_base32_digits_below(n, 26);
    assert(crockford_encode(a).len() == 26);
    assert(crockford_encode(b).len() == 26);
    assert(da.take(16) =~= db.take(16)) by {
        assert forall|j: int| 0 <= j < 16 implies da[j] == db[j] by {
            let ta = crockford_encode(a);
            let tb = crockford_encode(b);
            assert(ta.take(16)[j] == ta[j]);
            assert(tb.take(16)[j] == tb[j]);
            assert(ta.take(16)[j] == tb.take(16)[j]);
            assert(crockford_encode(a)[j] == alphabet_char(da[j] as int));
            assert(crockford_encode(b)[j] == alphabet_char(db[j] as int));
            assert((da[j] as nat) < 32 && (db[j] as nat) < 32);
            assert(crockford_encode(a)[j] == crockford_encode(b)[j]);
            lemma_alphabet_char_value(da[j] as int);
            lemma_alphabet_char_value(db[j] as int);
            assert(Some(da[j]) == crockford_value(crockford_encode(a)[j]));
            assert(Some(db[j]) == crockford_value(crockford_encode(b)[j]));
        }
    }
    lemma_digits_take(m, 16, 10, 32);
    lemma_digits_take(n, 16, 10, 32);
    assert(m / p10 < p16) by {
        lemma_div_pos_is_pos(m as int, p10 as int);
        lemma_fundamental_div_mod(m as int, p10 as int);
        lemma_mod_bound(m as int, p10 as int);
        assert((m / p10) < p16) by (nonlinear_arith)
            requires
                p10 * (m / p10) <= m,
                m < 0x100000000000000000000000000000000,
                p10 == 0x4000000000000,
                p16 == 0x100000000000000000000,
        ;
    }
    assert(n / p10 < p16) by {
        lemma_div_pos_is_pos(n as int, p10 as int);
        lemma_fundamental_div_mod(n as int, p10 as int);
        lemma_mod_bound(n as int, p10 as int);
        assert((n / p10) < p16) by (nonlinear_arith)
            requires
                p10 * (n / p10) <= n,
                n < 0x100000000000000000000000000000000,
                p10 == 0x4000000000000,
                p16 == 0x100000000000000000000,
        ;
    }
    lemma_value_of_digits(m / p10, 16, 32);
    lemma_value_of_digits(n / p10, 16, 32);
}

} // verus!
