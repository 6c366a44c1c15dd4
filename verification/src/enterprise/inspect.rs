//! Inspection of identifier strings: prefix, fields and check character.
use vstd::prelude::*;
use vstd::string::StrSliceExecFns;
use vstd::utf8::encode_utf8;

use crate::checksum::{iso7064_char, iso7064_checksum};
use crate::clock::{debug_system_time, duration_new, unix_epoch_checked_add};
use crate::consts::EPOCH;
use crate::encoder::crockford_value;
use crate::encoder::is_canonical_crockford;
use crate::id::{
    id_chars, id_number, is_id_text, lemma_id_chars_utf8, lemma_parse_to_string,
    lemma_parsed_is_crockford, parse_spec, SigId26,
};
use crate::consts::is_alphabet_byte;
use crate::text::lemma_encode_utf8_concat;
use crate::layout::{counter_field, random_field, timestamp_field, worker_field};

verus! {

/// Metadata extracted from an identifier string.
#[derive(Debug, Clone, PartialEq, Eq)]
pub struct InspectResult {
    /// The string inspected.
    pub raw: String,
    /// Timestamp (milliseconds since the Unix epoch).
    pub timestamp: u64,
    /// Worker id.
    pub worker_id: Option<u16>,
    /// Counter value.
    pub counter: u16,
    /// Random part.
    pub random: u64,
    /// The character read as check character, if any.
    pub checksum: Option<char>,
    /// Whether that character is the check character of the characters before it.
    pub checksum_valid: bool,
    /// Whether the string has a prefix.
    pub has_prefix: bool,
    /// The prefix, separator included.
    pub prefix: Option<String>,
}

/// A character that ends a prefix.
pub open spec fn is_separator(c: char) -> bool {
    c == '_' || c == '-' || c == '.'
}

/// The position of the last separator, if any.
pub open spec fn last_separator(chars: Seq<char>) -> Option<int>
    decreases chars.len(),
{
    if chars.len() == 0 {
        None
    } else if is_separator(chars.last()) {
        Some(chars.len() - 1)
    } else {
        last_separator(chars.drop_last())
    }
}

/// The last separator lies within the characters.
pub proof fn lemma_last_separator_in_range(chars: Seq<char>)
    ensures
        last_separator(chars) matches Some(k) ==> 0 <= k < chars.len() && is_separator(chars[k]),
    decreases chars.len(),
{
    if chars.len() > 0 && !is_separator(chars.last()) {
        lemma_last_separator_in_range(chars.drop_last());
    }
}

/// The prefix (up to and with the last separator), if there is one.
pub open spec fn prefix_of(chars: Seq<char>) -> Option<Seq<char>> {
    match last_separator(chars) {
        Some(k) => Some(chars.take(k + 1)),
        None => None,
    }
}

/// What follows the prefix.
pub open spec fn body_of(chars: Seq<char>) -> Seq<char> {
    match last_separator(chars) {
        Some(k) => chars.skip(k + 1),
        None => chars,
    }
}

/// What the body of an inspected string holds: the identifier text, the check
/// character if one is present, and whether it matches. A body that parses as an
/// identifier has no check character; a body of 27 characters whose first 26 parse
/// has its last character as check character, which matches when it is the check
/// character of the 26 before it. Any other body is no identifier.
pub open spec fn inspect_parse(body: Seq<char>) -> Option<(Seq<u8>, Option<char>, bool)> {
    match parse_spec(body) {
        Ok(text) => Some((text, None, true)),
        Err(_) => if body.len() == 27 {
            match parse_spec(body.take(26)) {
                Ok(text) => Some(
                    (
                        text,
                        Some(body[26]),
                        iso7064_char(encode_utf8(body.take(26))) as char == body[26],
                    ),
                ),
                Err(_) => None,
            }
        } else {
            None
        },
    }
}

/// `r` is the report on `id`, whose body holds identifier text `text`, check
/// character `checksum` and match `checksum_valid`.
pub open spec fn is_report(
    r: InspectResult,
    id: Seq<char>,
    text: Seq<u8>,
    checksum: Option<char>,
    checksum_valid: bool,
) -> bool {
    let number = id_number(text);
    &&& r.raw@ == id
    &&& r.timestamp == timestamp_field(number) + EPOCH
    &&& r.worker_id == Some(worker_field(number))
    &&& r.counter == counter_field(number)
    &&& r.random == random_field(number)
    &&& r.checksum == checksum
    &&& r.checksum_valid == checksum_valid
    &&& r.has_prefix == prefix_of(id) is Some
    &&& match prefix_of(id) {
        Some(p) => r.prefix matches Some(s) && s@ == p,
        None => r.prefix is None,
    }
}

/// The position of the last separator in `id`.
fn find_last_separator(id: &str) -> (k: Option<usize>)
    ensures
        match last_separator(id@) {
            Some(p) => k == Some(p as usize),
            None => k is None,
        },
        k matches Some(p) ==> p < id@.len(),
{
    proof {
        lemma_last_separator_in_range(id@);
    }
    let n = id.unicode_len();
    let mut j: usize = n;
    assert(id@.take(n as int) =~= id@);
    while j > 0
        invariant
            j <= n,
            n == id@.len(),
            last_separator(id@) == last_separator(id@.take(j as int)),
            last_separator(id@) matches Some(k) ==> 0 <= k < id@.len(),
        decreases j,
    {
        let c = id.get_char(j - 1);
        assert(id@.take(j as int).last() == c);
        if c == '_' || c == '-' || c == '.' {
            return Some(j - 1);
        }
        assert(id@.take(j as int).drop_last() =~= id@.take(j - 1));
        j -= 1;
    }
    None
}

/// Inspect an identifier string and extract its metadata: an optional prefix up
/// to the last `_`, `-` or `.`, then an identifier, optionally followed by its
/// check character. `None` when the part after the prefix is neither.
pub fn inspect(id: &str) -> (report: Option<InspectResult>)
    ensures
        match inspect_parse(body_of(id@)) {
            Some((text, checksum, valid)) => report matches Some(r) && is_report(
                r,
                id@,
                text,
                checksum,
                valid,
            ),
            None => report is None,
        },
{
    proof {
        assert(id@.take(id@.len() as int) =~= id@);
        assert(id@.skip(0) =~= id@);
        lemma_last_separator_in_range(id@);
    }
    let n = id.unicode_len();
    let split = find_last_separator(id);
    let (prefix, body) = match split {
        Some(k) => {
            let prefix = id.substring_char(0, k + 1);
            let body = id.substring_char(k + 1, n);
            assert(last_separator(id@) == Some(k as int));
            assert(body@ =~= body_of(id@));
            assert(prefix@ =~= id@.take(k + 1));
            (Some(prefix), body)
        },
        None => {
            let body = id.substring_char(0, n);
            assert(body@ =~= body_of(id@));
            (None, body)
        },
    };
    let (parsed, checksum, checksum_valid) = match SigId26::from_string(body) {
        Ok(parsed) => (parsed, None, true),
        Err(_) => {
            let m = body.unicode_len();
            if m != 27 {
                return None;
            }
            let head = body.substring_char(0, 26);
            assert(head@ =~= body@.take(26));
            let parsed = match SigId26::from_string(head) {
                Ok(parsed) => parsed,
                Err(_) => {
                    return None;
                },
            };
            let last = body.get_char(26);
            let head_bytes = head.as_bytes();
            proof {
                lemma_parsed_is_crockford(head@);
                assert forall|i: int| 0 <= i < head_bytes@.len() implies #[trigger] head_bytes@[i]
                    < 230 by {
                    assert(crockford_value(head_bytes@[i]) is Some);
                }
            }
            let expected = iso7064_checksum(head_bytes);
            (parsed, Some(last), expected as char == last)
        },
    };
    let timestamp = parsed.timestamp_ms();
    let prefix_string = match prefix {
        Some(p) => Some(p.to_owned()),
        None => None,
    };
    Some(
        InspectResult {
            raw: id.to_owned(),
            timestamp,
            worker_id: Some(parsed.worker_id()),
            counter: parsed.counter(),
            random: parsed.random(),
            checksum,
            checksum_valid,
            has_prefix: prefix_string.is_some(),
            prefix: prefix_string,
        },
    )
}

impl InspectResult {
    /// The timestamp split into whole seconds and the nanoseconds left over.
    pub fn timestamp_parts(&self) -> (parts: (u64, u32))
        ensures
            parts.0 == self.timestamp / 1000,
            parts.1 == (self.timestamp % 1000) * 1_000_000,
            parts.1 < 1_000_000_000,
    {
        let secs = self.timestamp / 1000;
        let nanos = ((self.timestamp % 1000) * 1_000_000) as u32;
        (secs, nanos)
    }

    /// The timestamp as a point in time, in std's `Debug` wording: the Unix epoch
    /// plus the seconds and nanoseconds of `timestamp_parts`. Empty when the
    /// platform's time type cannot hold it. The wording is std's and is not stated.
    pub fn timestamp_human(&self) -> String {
        let (secs, nanos) = self.timestamp_parts();
        match unix_epoch_checked_add(duration_new(secs, nanos)) {
            Some(time) => debug_system_time(&time),
            None => String::new(),
        }
    }

    /// The timestamp in milliseconds.
    pub fn timestamp_ms(&self) -> (ms: u64)
        ensures
            ms == self.timestamp,
    {
        self.timestamp
    }
}

/// Characters without separators leave the last separator where it was.
proof fn lemma_last_separator_append(s: Seq<char>, u: Seq<char>)
    requires
        forall|i: int| 0 <= i < u.len() ==> !is_separator(#[trigger] u[i]),
    ensures
        last_separator(s + u) == last_separator(s),
    decreases u.len(),
{
    if u.len() == 0 {
        assert(s + u =~= s);
    } else {
        assert((s + u).drop_last() =~= s + u.drop_last());
        assert((s + u).last() == u[u.len() - 1]);
        lemma_last_separator_append(s, u.drop_last());
    }
}

/// Inspecting the string of an identifier with canonical text, after a prefix that
/// ends in a separator (or none), reads back the prefix and the identifier: its
/// body parses into the identifier's own text, so the report carries its fields.
pub proof fn lemma_inspect_own_string(prefix: Seq<char>, text: Seq<u8>)
    requires
        is_id_text(text),
        is_canonical_crockford(text),
        prefix.len() == 0 || is_separator(prefix.last()),
    ensures
        body_of(prefix + id_chars(text)) == id_chars(text),
        prefix.len() == 0 ==> prefix_of(prefix + id_chars(text)) is None,
        prefix.len() > 0 ==> prefix_of(prefix + id_chars(text)) == Some(prefix),
        parse_spec(body_of(prefix + id_chars(text))) == Ok::<Seq<u8>, crate::id::ParseError>(text),
        inspect_parse(body_of(prefix + id_chars(text))) == Some((text, None::<char>, true)),
{
    let chars = id_chars(text);
    assert forall|i: int| 0 <= i < chars.len() implies !is_separator(#[trigger] chars[i]) by {
        assert(is_alphabet_byte(text[i]));
    }
    lemma_last_separator_append(prefix, chars);
    if prefix.len() == 0 {
        assert(prefix + chars =~= chars);
        assert(last_separator(prefix) is None);
    } else {
        assert(last_separator(prefix) == Some(prefix.len() - 1));
        assert((prefix + chars).skip(prefix.len() as int) =~= chars);
        assert((prefix + chars).take(prefix.len() as int) =~= prefix);
    }
    lemma_parse_to_string(text);
}

/// Inspecting the string of an identifier with canonical text followed by its
/// check character, after a prefix that ends in a separator (or none), reads back
/// the prefix, the identifier, and the check character as present and valid.
pub proof fn lemma_inspect_checked_string(prefix: Seq<char>, text: Seq<u8>)
    requires
        is_id_text(text),
        is_canonical_crockford(text),
        prefix.len() == 0 || is_separator(prefix.last()),
    ensures
        ({
            let c = iso7064_char(text) as char;
            let s = prefix + id_chars(text).push(c);
            &&& body_of(s) == id_chars(text).push(c)
            &&& prefix.len() == 0 ==> prefix_of(s) is None
            &&& prefix.len() > 0 ==> prefix_of(s) == Some(prefix)
            &&& inspect_parse(body_of(s)) == Some((text, Some(c), true))
        }),
{
    let c = iso7064_char(text) as char;
    let chars = id_chars(text);
    let body = chars.push(c);
    assert(48 <= iso7064_char(text) <= 57 || 65 <= iso7064_char(text) <= 90);
    assert forall|i: int| 0 <= i < body.len() implies !is_separator(#[trigger] body[i]) by {
        if i < 26 {
            assert(is_alphabet_byte(text[i]));
        }
    }
    lemma_last_separator_append(prefix, body);
    if prefix.len() == 0 {
        assert(prefix + body =~= body);
        assert(last_separator(prefix) is None);
    } else {
        assert(last_separator(prefix) == Some(prefix.len() - 1));
        assert((prefix + body).skip(prefix.len() as int) =~= body);
        assert((prefix + body).take(prefix.len() as int) =~= prefix);
    }
    lemma_id_chars_utf8(text);
    lemma_encode_utf8_concat(chars, seq![c]);
    assert(chars + seq![c] =~= body);
    assert(vstd::utf8::is_ascii_chars(seq![c]));
    vstd::utf8::is_ascii_chars_encode_utf8(seq![c]);
    assert(parse_spec(body) is Err);
    assert(body.take(26) =~= chars);
    lemma_parse_to_string(text);
}

/// Each of `_`, `-` and `.` ends a prefix, and no character of an identifier does:
/// inspecting a prefix ending in one of them, followed by an identifier with
/// canonical text, reads back that prefix and the identifier, with no check
/// character.
pub proof fn lemma_inspect_prefixed(prefix: Seq<char>, text: Seq<u8>)
    requires
        is_id_text(text),
        is_canonical_crockford(text),
        prefix.len() > 0,
        prefix.last() == '_' || prefix.last() == '-' || prefix.last() == '.',
    ensures
        prefix_of(prefix + id_chars(text)) == Some(prefix),
        body_of(prefix + id_chars(text)) == id_chars(text),
        inspect_parse(body_of(prefix + id_chars(text))) == Some((text, None::<char>, true)),
{
    lemma_inspect_own_string(prefix, text);
}

/// A string with none of `_`, `-` and `.` has no prefix: it is its own body.
pub proof fn lemma_no_separator_no_prefix(s: Seq<char>)
    requires
        forall|i: int| 0 <= i < s.len() ==> #[trigger] s[i] != '_' && s[i] != '-' && s[i] != '.',
    ensures
        prefix_of(s) is None,
        body_of(s) == s,
{
    lemma_last_separator_in_range(s);
}

} // verus!
