//! Prefixes for identifiers.
use vstd::prelude::*;
use vstd::string::StringExecFns;
use vstd::utf8::encode_utf8;

verus! {

/// A prefix fixed in the program text.
#[derive(Debug, Clone, Copy, PartialEq, Eq)]
pub struct Prefix {
    text: &'static str,
}

impl View for Prefix {
    type V = Seq<char>;

    closed spec fn view(&self) -> Seq<char> {
        self.text@
    }
}

impl Prefix {
    /// A prefix of the given text.
    pub fn new(text: &'static str) -> (prefix: Self)
        ensures
            prefix@ == text@,
    {
        Prefix { text }
    }

    /// The prefix text.
    pub fn as_str(&self) -> (text: &'static str)
        ensures
            text@ == self@,
    {
        self.text
    }

    /// The prefix length in bytes.
    pub fn len(&self) -> (n: usize)
        ensures
            n == encode_utf8(self@).len(),
    {
        self.text.as_bytes().len()
    }

    /// Whether the prefix is empty.
    pub fn is_empty(&self) -> (empty: bool)
        ensures
            empty == (self@.len() == 0),
    {
        self.text.is_empty()
    }
}

/// A prefix made at run time (allocates).
#[derive(Debug, Clone, PartialEq, Eq)]
pub struct RuntimePrefix {
    inner: String,
}

impl View for RuntimePrefix {
    type V = Seq<char>;

    closed spec fn view(&self) -> Seq<char> {
        self.inner@
    }
}

impl RuntimePrefix {
    /// A prefix holding a copy of `s`.
    pub fn new(s: &str) -> (prefix: Self)
        ensures
            prefix@ == s@,
    {
        RuntimePrefix { inner: String::from_str(s) }
    }

    /// The prefix text.
    pub fn as_str(&self) -> (text: &str)
        ensures
            text@ == self@,
    {
        self.inner.as_str()
    }

    /// The prefix length in bytes.
    pub fn len(&self) -> (n: usize)
        ensures
            n == encode_utf8(self@).len(),
    {
        self.inner.as_str().as_bytes().len()
    }

    /// Whether the prefix is empty.
    pub fn is_empty(&self) -> (empty: bool)
        ensures
            empty == (self@.len() == 0),
    {
        self.inner.as_str().is_empty()
    }
}

} // verus!
