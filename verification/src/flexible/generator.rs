//! The configurable generator: length, alphabet, prefix and check character.
use vstd::prelude::*;
use vstd::string::{StrSliceExecFns, StringExecFns};
use vstd::utf8::encode_utf8;

use crate::clock::unix_time_ms;
use crate::consts::{alphabet_char, is_alphabet_byte, lemma_alphabet_bytes, lemma_alphabet_table, ALPHABET};
use crate::flexible::alphabet::Alphabet;
use crate::flexible::checksum::{add_checksum, check_char};
use crate::encoder::{crockford_encode, lemma_decode_encode, lemma_encode_prefix_high_bits};
use crate::generator::{
    advance, counter_exhausted, generate_outcome, issued_number, resume_outcome, since_epoch,
    valid_state, Generator as CoreGenerator, GeneratorState,
};
use crate::layout::{be_bytes, counter_field, lemma_be_bytes_value, lemma_fields_of_pack};
use crate::id::{id_chars, is_id_text, SigId26};
use crate::rng::{xorshift64, Xorshift64, DEFAULT_SEED};
use crate::text::{is_ascii_bytes, lemma_ascii_utf8, str_from_utf8};
use crate::Error;

verus! {

/// The settings of a configurable generator.
#[derive(Debug, Clone, Copy)]
pub struct GeneratorConfig {
    /// The length the identifier is cut to.
    pub length: usize,
    /// The alphabet asked for.
    pub alphabet: Alphabet,
    /// The prefix put in front.
    pub prefix: Option<&'static str>,
    /// Whether a check character is appended.
    pub include_checksum: bool,
}

/// The seed of the generator of the characters that lengthen an identifier.
pub const PAD_SEED: u64 = 0x2545f4914f6cdd1d;

/// The `n` characters that lengthen an identifier, drawn from generator state
/// `seed`: each is the alphabet character of the low five bits of the next
/// Xorshift64 state.
pub open spec fn pad_bytes(seed: u64, n: nat) -> Seq<u8>
    decreases n,
{
    if n == 0 {
        Seq::empty()
    } else {
        let x = xorshift64(seed);
        seq![alphabet_char((x % 32) as int)] + pad_bytes(x, (n - 1) as nat)
    }
}

/// Drawing `n` characters gives `n` characters.
pub proof fn lemma_pad_bytes_len(seed: u64, n: nat)
    ensures
        pad_bytes(seed, n).len() == n,
    decreases n,
{
    if n > 0 {
        lemma_pad_bytes_len(xorshift64(seed), (n - 1) as nat);
    }
}

/// The state of that generator after drawing `n` characters.
pub open spec fn pad_after(seed: u64, n: nat) -> u64
    decreases n,
{
    if n == 0 {
        seed
    } else {
        pad_after(xorshift64(seed), (n - 1) as nat)
    }
}

/// How many characters lengthen a 26-character identifier to the configured length.
pub open spec fn pad_len(config: GeneratorConfig) -> nat {
    if config.length > 26 {
        (config.length - 26) as nat
    } else {
        0
    }
}

/// What a configurable generator makes of identifier text: cut to `length`
/// characters, or lengthened to it with characters drawn from `pad`; with the check
/// character of that text appended when asked, and the prefix put in front. The
/// alphabet is not applied.
pub open spec fn shaped_text(config: GeneratorConfig, text: Seq<u8>, pad: u64) -> Seq<char> {
    let full = text + pad_bytes(pad, pad_len(config));
    let sized = if full.len() > config.length {
        id_chars(full.take(config.length as int))
    } else {
        id_chars(full)
    };
    let checked = if config.include_checksum {
        sized.push(check_char(sized))
    } else {
        sized
    };
    match config.prefix {
        Some(p) => p@ + checked,
        None => checked,
    }
}

/// What the shaping does with what the core generator gave: an identifier is
/// shaped (drawing `pad_len` characters), an error is passed on.
pub open spec fn shaped_outcome(
    config: GeneratorConfig,
    pad: u64,
    core: Result<SigId26, Error>,
    pad2: u64,
    r: Result<String, Error>,
) -> bool {
    match core {
        Ok(id) => pad2 == pad_after(pad, pad_len(config)) && (r matches Ok(s) && s@ == shaped_text(
            config,
            id@,
            pad,
        )),
        Err(e) => pad2 == pad && r == Err::<String, Error>(e),
    }
}

/// The reading of a clock, or 0 when there is none.
pub open spec fn reading_or_zero(clock: Option<u64>) -> u64 {
    match clock {
        Some(t) => t,
        None => 0,
    }
}

/// `length` brought into 12..=64.
pub open spec fn clamp_length(length: usize) -> usize {
    if length < 12 {
        12
    } else if length > 64 {
        64
    } else {
        length
    }
}

/// Configurable identifier generator: settings, and the state of the core
/// generator and of the generator of lengthening characters, which persist from
/// one identifier to the next.
#[derive(Debug, Clone)]
pub struct Generator {
    length: usize,
    alphabet: Alphabet,
    prefix: Option<&'static str>,
    include_checksum: bool,
    core: CoreGenerator,
    pad: Xorshift64,
}

impl View for Generator {
    type V = GeneratorConfig;

    closed spec fn view(&self) -> GeneratorConfig {
        GeneratorConfig {
            length: self.length,
            alphabet: self.alphabet,
            prefix: self.prefix,
            include_checksum: self.include_checksum,
        }
    }
}

/// What `generate(ms)` does from `g1`, leaving `g2` and result `r`: the settings
/// stay; the core generator does what `generate_outcome` says, and its result is
/// shaped (see `shaped_outcome`).
pub open spec fn flexible_outcome(g1: Generator, ms: u64, g2: Generator, r: Result<String, Error>) -> bool {
    &&& g2@ == g1@
    &&& exists|core: Result<SigId26, Error>|
        {
            &&& generate_outcome(g1.core_state(), ms, g2.core_state(), core)
            &&& shaped_outcome(g1@, g1.pad_state(), core, g2.pad_state(), r)
        }
}

impl Default for Generator {
    fn default() -> (g: Self)
        ensures
            g@ == Self::new_spec(),
            g.core_state() == Self::new_core_spec(),
            g.pad_state() == PAD_SEED,
    {
        Self::new()
    }
}

impl Generator {
    /// The default settings.
    pub open spec fn new_spec() -> GeneratorConfig {
        GeneratorConfig {
            length: 26,
            alphabet: Alphabet::Crockford32,
            prefix: None,
            include_checksum: false,
        }
    }

    /// The state of a new core generator: seed `DEFAULT_SEED`, worker id 0.
    pub open spec fn new_core_spec() -> GeneratorState {
        GeneratorState { seed: DEFAULT_SEED, last_ms: 0, counter: 0, worker_id: 0 }
    }

    /// The state of the core generator.
    pub closed spec fn core_state(&self) -> GeneratorState {
        self.core@
    }

    /// The state of the generator of lengthening characters.
    pub closed spec fn pad_state(&self) -> u64 {
        self.pad@
    }

    /// A generator with the default settings (length 26, Crockford alphabet, no
    /// prefix, no check character), a new core generator and lengthening seed
    /// `PAD_SEED`.
    pub fn new() -> (g: Self)
        ensures
            g@ == Self::new_spec(),
            g.core_state() == Self::new_core_spec(),
            g.pad_state() == PAD_SEED,
    {
        Self {
            length: 26,
            alphabet: Alphabet::Crockford32,
            prefix: None,
            include_checksum: false,
            core: CoreGenerator::new(DEFAULT_SEED),
            pad: Xorshift64::new(PAD_SEED),
        }
    }

    /// Set the length, brought into 12..=64 (default 26).
    pub fn length(self, length: usize) -> (g: Self)
        ensures
            g@ == (GeneratorConfig { length: clamp_length(length), ..self@ }),
            g.core_state() == self.core_state(),
            g.pad_state() == self.pad_state(),
    {
        let mut g = self;
        g.length = if length < 12 {
            12
        } else if length > 64 {
            64
        } else {
            length
        };
        g
    }

    /// Set the alphabet (default Crockford).
    pub fn alphabet(self, alphabet: Alphabet) -> (g: Self)
        ensures
            g@ == (GeneratorConfig { alphabet: alphabet, ..self@ }),
            g.core_state() == self.core_state(),
            g.pad_state() == self.pad_state(),
    {
        let mut g = self;
        g.alphabet = alphabet;
        g
    }

    /// Set the prefix.
    pub fn prefix(self, prefix: &'static str) -> (g: Self)
        ensures
            g@ == (GeneratorConfig { prefix: Some(prefix), ..self@ }),
            g.core_state() == self.core_state(),
            g.pad_state() == self.pad_state(),
    {
        let mut g = self;
        g.prefix = Some(prefix);
        g
    }

    /// Turn the check character on or off.
    pub fn with_checksum(self, enabled: bool) -> (g: Self)
        ensures
            g@ == (GeneratorConfig { include_checksum: enabled, ..self@ }),
            g.core_state() == self.core_state(),
            g.pad_state() == self.pad_state(),
    {
        let mut g = self;
        g.include_checksum = enabled;
        g
    }

    /// Finish building.
    pub fn build(self) -> (g: Self)
        ensures
            g@ == self@,
            g.core_state() == self.core_state(),
            g.pad_state() == self.pad_state(),
    {
        self
    }

    /// Generate an identifier string for `ms` (milliseconds since the Unix epoch):
    /// the core generator issues an identifier (or an error, which is returned),
    /// which is then cut or lengthened to the configured length, given its check
    /// character when asked, and put after the prefix.
    pub fn generate(&mut self, ms: u64) -> (r: Result<String, Error>)
        ensures
            flexible_outcome(*old(self), ms, *final(self), r),
    {
        let core = self.core.generate(ms);
        let ghost mid = *self;
        let r = match core {
            Ok(id) => Ok(self.shape(&id)),
            Err(e) => Err(e),
        };
        proof {
            assert(generate_outcome(old(self).core_state(), ms, mid.core_state(), core));
            assert(self.core_state() == mid.core_state());
            assert(shaped_outcome(old(self)@, old(self).pad_state(), core, self.pad_state(), r));
        }
        r
    }

    /// The string that the settings make of `id`, drawing lengthening characters.
    fn shape(&mut self, id: &SigId26) -> (text: String)
        ensures
            final(self)@ == old(self)@,
            final(self).core_state() == old(self).core_state(),
            final(self).pad_state() == pad_after(old(self).pad_state(), pad_len(old(self)@)),
            text@ == shaped_text(old(self)@, id@, old(self).pad_state()),
    {
        let ghost pad0 = self.pad@;
        let ghost n = pad_len(self@);
        let id_bytes = id.as_bytes();
        proof {
            lemma_alphabet_table();
        }
        let keep = if self.length < 26 {
            self.length
        } else {
            26
        };
        let mut bytes: Vec<u8> = Vec::new();
        let mut i: usize = 0;
        while i < keep
            invariant
                i <= keep <= 26,
                id_bytes@ == id@,
                is_id_text(id@),
                bytes@ == id@.take(i as int),
                is_ascii_bytes(bytes@),
            decreases keep - i,
        {
            assert(is_alphabet_byte(id@[i as int]));
            bytes.push(id_bytes[i]);
            assert(bytes@ =~= id@.take(i + 1));
            i += 1;
        }
        let count: usize = if self.length > 26 {
            self.length - 26
        } else {
            0
        };
        let ghost head = bytes@;
        let mut k: usize = 0;
        while k < count
            invariant
                k <= count,
                count == n,
                bytes@ + pad_bytes(self.pad@, (n - k) as nat) == head + pad_bytes(pad0, n),
                pad_after(self.pad@, (n - k) as nat) == pad_after(pad0, n),
                is_ascii_bytes(bytes@),
                forall|d: int| 0 <= d < 32 ==> #[trigger] ALPHABET@[d] == alphabet_char(d),
                self@ == old(self)@,
                self.core_state() == old(self).core_state(),
            decreases count - k,
        {
            let ghost before = bytes@;
            let ghost prev = self.pad@;
            let ghost r = (n - k) as nat;
            let x = self.pad.next();
            let c = ALPHABET[(x % 32) as usize];
            assert(c < 128) by {
                assert(ALPHABET@[(x % 32) as int] == alphabet_char((x % 32) as int));
            }
            bytes.push(c);
            proof {
                assert(pad_bytes(prev, r) == seq![c] + pad_bytes(x, (r - 1) as nat))
                    by {
                    assert(ALPHABET@[(x % 32) as int] == alphabet_char((x % 32) as int));
                }
                assert(bytes@ + pad_bytes(x, (r - 1) as nat) =~= before + (seq![c] + pad_bytes(
                    x,
                    (r - 1) as nat,
                )));
            }
            k += 1;
        }
        proof {
            assert(pad_bytes(self.pad@, 0) =~= Seq::<u8>::empty());
            assert(bytes@ + pad_bytes(self.pad@, 0) =~= bytes@);
            lemma_pad_bytes_len(pad0, n);
            let full = id@ + pad_bytes(pad0, n);
            if n == 0 {
                assert(pad_bytes(pad0, 0) =~= Seq::<u8>::empty());
                assert(full =~= id@);
            }
            if full.len() > self.length {
                assert(bytes@ =~= full.take(self.length as int));
            } else {
                assert(head =~= id@);
            }
            lemma_ascii_utf8(bytes@);
        }
        let sized = match str_from_utf8(bytes.as_slice()) {
            Some(t) => t.to_owned(),
            None => String::new(),
        };
        proof {
            assert(sized@ =~= id_chars(if (id@ + pad_bytes(pad0, n)).len() > self.length {
                (id@ + pad_bytes(pad0, n)).take(self.length as int)
            } else {
                id@ + pad_bytes(pad0, n)
            }));
        }
        let result = match self.alphabet {
            Alphabet::Crockford32 => sized,
            _ => self.apply_alphabet(sized.as_str()),
        };
        proof {
            assert forall|j: int| 0 <= j < encode_utf8(result@).len() implies #[trigger] encode_utf8(
                result@,
            )[j] < 230 by {
                assert(encode_utf8(result@) == bytes@);
            }
        }
        let result = if self.include_checksum {
            add_checksum(result.as_str())
        } else {
            result
        };
        match self.prefix {
            Some(prefix) => {
                let mut prefixed = String::from_str(prefix);
                prefixed.append(result.as_str());
                prefixed
            },
            None => result,
        }
    }

    /// The alphabet is not applied: the text is returned as it is.
    fn apply_alphabet(&self, input: &str) -> (output: String)
        ensures
            output@ == input@,
    {
        input.to_owned()
    }

    /// Generate an identifier string for the clock reading `clock` (milliseconds
    /// since the Unix epoch; `None` when the clock reads before it, taken as 0).
    pub fn now_at(&mut self, clock: Option<u64>) -> (r: Result<String, Error>)
        ensures
            flexible_outcome(*old(self), reading_or_zero(clock), *final(self), r),
    {
        let ms = match clock {
            Some(ms) => ms,
            None => 0,
        };
        self.generate(ms)
    }

    /// Generate an identifier string for the present time of the system clock.
    pub fn now(&mut self) -> (r: Result<String, Error>)
        ensures
            exists|clock: Option<u64>| flexible_outcome(*old(self), reading_or_zero(clock), *final(self), r),
    {
        self.now_at(unix_time_ms())
    }
}

/// The number of characters the prefix puts in front.
pub open spec fn prefix_len(config: GeneratorConfig) -> int {
    match config.prefix {
        Some(p) => p@.len() as int,
        None => 0,
    }
}

/// The layout of a shaped identifier string: the prefix, then exactly `length`
/// characters that begin with the identifier's own first characters (all of them
/// when `length` is at least 26, the first `length` otherwise), then the check
/// character of those `length` characters when asked.
pub proof fn lemma_shaped_layout(config: GeneratorConfig, text: Seq<u8>, pad: u64)
    requires
        text.len() == 26,
    ensures
        ({
            let out = shaped_text(config, text, pad);
            let p = prefix_len(config);
            let body = out.subrange(p, p + config.length);
            &&& out.len() == p + config.length + (if config.include_checksum { 1int } else { 0 })
            &&& forall|j: int| 0 <= j < p ==> out[j] == (#[trigger] config.prefix->0@[j])
            &&& forall|j: int|
                0 <= j < config.length && j < 26 ==> #[trigger] out[p + j] == text[j] as char
            &&& config.length >= 26 ==> forall|j: int|
                26 <= j < config.length ==> is_alphabet_byte(#[trigger] out[p + j] as u8)
            &&& config.include_checksum ==> out[p + config.length] == check_char(body)
        }),
{
    lemma_pad_bytes_len(pad, pad_len(config));
    lemma_pad_bytes_alphabet(pad, pad_len(config));
    let full = text + pad_bytes(pad, pad_len(config));
    let sized = if full.len() > config.length {
        id_chars(full.take(config.length as int))
    } else {
        id_chars(full)
    };
    assert(sized.len() == config.length);
    assert forall|j: int| 0 <= j < config.length && j < 26 implies #[trigger] sized[j] == text[j] as char by {
        assert(full[j] == text[j]);
    }
    let checked = if config.include_checksum {
        sized.push(check_char(sized))
    } else {
        sized
    };
    let out = shaped_text(config, text, pad);
    let p = prefix_len(config);
    assert(out.subrange(p, p + config.length) =~= sized);
    if config.length >= 26 {
        assert forall|j: int| 26 <= j < config.length implies is_alphabet_byte(#[trigger] out[p + j] as u8) by {
            assert(out[p + j] == sized[j]);
            assert(full[j] == pad_bytes(pad, pad_len(config))[j - 26]);
        }
    }
}

/// Every lengthening character is a character of the Crockford alphabet.
pub proof fn lemma_pad_bytes_alphabet(seed: u64, n: nat)
    ensures
        forall|j: int| 0 <= j < pad_bytes(seed, n).len() ==> is_alphabet_byte(#[trigger] pad_bytes(seed, n)[j]),
    decreases n,
{
    if n > 0 {
        let x = xorshift64(seed);
        lemma_pad_bytes_alphabet(x, (n - 1) as nat);
        lemma_alphabet_bytes(alphabet_char((x % 32) as int));
        let rest = pad_bytes(x, (n - 1) as nat);
        assert forall|j: int| 0 <= j < pad_bytes(seed, n).len() implies is_alphabet_byte(#[trigger] pad_bytes(seed, n)[j]) by {
            if j > 0 {
                assert(pad_bytes(seed, n)[j] == rest[j - 1]);
            }
        }
    }
}

/// Two identifiers generated one after the other in the same millisecond differ,
/// when the length keeps at least 16 characters and the first call did not find
/// the millisecond's counter used up: their counters differ, and the first 16
/// characters hold the counter.
pub proof fn lemma_generate_twice_distinct(
    g0: Generator,
    g1: Generator,
    g2: Generator,
    ms: u64,
    r1: Result<String, Error>,
    r2: Result<String, Error>,
)
    requires
        valid_state(g0.core_state()),
        !counter_exhausted(g0.core_state(), ms),
        g0@.length >= 16,
        flexible_outcome(g0, ms, g1, r1),
        flexible_outcome(g1, ms, g2, r2),
    ensures
        r1 matches Ok(a) ==> (r2 matches Ok(b) ==> a@ != b@),
{
    if r1 is Ok && r2 is Ok {
        let s0 = g0.core_state();
        let s1 = g1.core_state();
        let s2 = g2.core_state();
        let c1 = choose|core: Result<SigId26, Error>|
            {
                &&& generate_outcome(s0, ms, s1, core)
                &&& shaped_outcome(g0@, g0.pad_state(), core, g1.pad_state(), r1)
            };
        let c2 = choose|core: Result<SigId26, Error>|
            {
                &&& generate_outcome(s1, ms, s2, core)
                &&& shaped_outcome(g1@, g1.pad_state(), core, g2.pad_state(), r2)
            };
        let id1 = c1->Ok_0;
        let id2 = c2->Ok_0;
        assert(s1 == advance(s0, ms));
        let n1 = issued_number(s1, ms);
        assert(id1@ == crockford_encode(be_bytes(n1)));
        let (n2, t2) = if !counter_exhausted(s1, ms) {
            (issued_number(s2, ms), ms)
        } else {
            let now = choose|now: Option<u64>| resume_outcome(s1, now, s2, c2);
            (issued_number(s2, now->0), now->0)
        };
        assert(id2@ == crockford_encode(be_bytes(n2)));
        assert(s2.counter != s1.counter);
        assert(s1.counter <= 0x3FFF && s2.counter <= 0x3FFF);
        lemma_fields_of_pack(since_epoch(ms), s1.worker_id, s1.counter, s1.seed);
        lemma_fields_of_pack(since_epoch(t2), s2.worker_id, s2.counter, s2.seed);
        let k1 = s1.counter;
        let k2 = s2.counter;
        assert(k1 & 0x3FFF == k1 && k2 & 0x3FFF == k2) by (bit_vector)
            requires
                k1 <= 0x3FFF,
                k2 <= 0x3FFF,
        ;
        assert(counter_field(n1) != counter_field(n2));
        assert(n1 / 0x4000000000000 != n2 / 0x4000000000000) by {
            assert(n1 >> 50u128 == n1 / 0x4000000000000 && n2 >> 50u128 == n2 / 0x4000000000000)
                by (bit_vector);
        }
        lemma_be_bytes_value(n1);
        lemma_be_bytes_value(n2);
        let t1 = crockford_encode(be_bytes(n1));
        let t2x = crockford_encode(be_bytes(n2));
        if t1.take(16) == t2x.take(16) {
            lemma_encode_prefix_high_bits(be_bytes(n1), be_bytes(n2));
        }
        lemma_decode_encode(be_bytes(n1));
        lemma_decode_encode(be_bytes(n2));
        let a = shaped_text(g0@, t1, g0.pad_state());
        let b = shaped_text(g1@, t2x, g1.pad_state());
        lemma_shaped_layout(g0@, t1, g0.pad_state());
        lemma_shaped_layout(g1@, t2x, g1.pad_state());
        if a == b {
            let p = prefix_len(g0@);
            assert forall|j: int| 0 <= j < 16 implies t1.take(16)[j] == t2x.take(16)[j] by {
                assert(a[p + j] == t1[j] as char);
                assert(b[p + j] == t2x[j] as char);
            }
            assert(t1.take(16) =~= t2x.take(16));
        }
    }
}

} // verus!
