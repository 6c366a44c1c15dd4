//! Alphabets for identifiers.
use vstd::prelude::*;
use vstd::string::StrSliceExecFns;
use vstd::utf8::encode_utf8;

verus! {

/// Supported alphabets for identifier generation.
#[derive(Debug, Clone, Copy, PartialEq, Eq)]
pub enum Alphabet {
    /// Crockford Base32 (default): 0-9 A-Z without I, L, O, U.
    Crockford32,
    /// Base64 URL-safe: A-Z a-z 0-9 - _
    Base64,
    /// Hexadecimal: 0-9 A-F
    Hex,
    /// Digits only: 0-9
    Digits,
    /// Letters only: A-Z a-z
    Letters,
    /// Alphanumeric: A-Z a-z 0-9
    Alphanumeric,
    /// Custom alphabet (static string).
    Custom(&'static str),
}

/// The characters of an alphabet.
pub open spec fn alphabet_text(alphabet: Alphabet) -> Seq<char> {
    match alphabet {
        Alphabet::Crockford32 => "0123456789ABCDEFGHJKMNPQRSTVWXYZ"@,
        Alphabet::Base64 => "ABCDEFGHIJKLMNOPQRSTUVWXYZabcdefghijklmnopqrstuvwxyz0123456789-_"@,
        Alphabet::Hex => "0123456789ABCDEF"@,
        Alphabet::Digits => "0123456789"@,
        Alphabet::Letters => "ABCDEFGHIJKLMNOPQRSTUVWXYZabcdefghijklmnopqrstuvwxyz"@,
        Alphabet::Alphanumeric => "ABCDEFGHIJKLMNOPQRSTUVWXYZabcdefghijklmnopqrstuvwxyz0123456789"@,
        Alphabet::Custom(s) => s@,
    }
}

/// The UTF-8 bytes of an alphabet.
pub open spec fn alphabet_bytes(alphabet: Alphabet) -> Seq<u8> {
    encode_utf8(alphabet_text(alphabet))
}

impl Default for Alphabet {
    fn default() -> (alphabet: Self)
        ensures
            alphabet == Alphabet::Crockford32,
    {
        Alphabet::Crockford32
    }
}

impl Alphabet {
    /// The alphabet's string.
    pub fn chars(&self) -> (text: &'static str)
        ensures
            text@ == alphabet_text(*self),
    {
        match self {
            Alphabet::Crockford32 => "0123456789ABCDEFGHJKMNPQRSTVWXYZ",
            Alphabet::Base64 => "ABCDEFGHIJKLMNOPQRSTUVWXYZabcdefghijklmnopqrstuvwxyz0123456789-_",
            Alphabet::Hex => "0123456789ABCDEF",
            Alphabet::Digits => "0123456789",
            Alphabet::Letters => "ABCDEFGHIJKLMNOPQRSTUVWXYZabcdefghijklmnopqrstuvwxyz",
            Alphabet::Alphanumeric => "ABCDEFGHIJKLMNOPQRSTUVWXYZabcdefghijklmnopqrstuvwxyz0123456789",
            Alphabet::Custom(s) => s,
        }
    }

    /// The length of the alphabet's string in bytes.
    pub fn len(&self) -> (n: usize)
        ensures
            n == alphabet_bytes(*self).len(),
    {
        self.chars().as_bytes().len()
    }

    /// Whether the alphabet's string is empty.
    pub fn is_empty(&self) -> (empty: bool)
        ensures
            empty == (alphabet_bytes(*self).len() == 0),
    {
        self.len() == 0
    }

    /// Whether `c` is one of the alphabet's characters.
    pub fn contains(&self, c: char) -> (found: bool)
        ensures
            found == alphabet_text(*self).contains(c),
    {
        let text = self.chars();
        let n = text.unicode_len();
        let mut i: usize = 0;
        while i < n
            invariant
                i <= n,
                n == text@.len(),
                text@ == alphabet_text(*self),
                forall|j: int| 0 <= j < i ==> text@[j] != c,
            decreases n - i,
        {
            if text.get_char(i) == c {
                return true;
            }
            i += 1;
        }
        false
    }
}

} // verus!
