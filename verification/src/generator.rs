//! The identifier generator: a state machine over (seed, last millisecond,
//! counter, worker id).
use vstd::prelude::*;

use crate::clock::unix_time_ms;
use crate::consts::{COUNTER_MAX, EPOCH, TIMESTAMP_MAX};
use crate::encoder::{crockford_encode, lemma_encode_order};
use crate::radix::lex_less;
use crate::id::SigId26;
use crate::layout::{
    be_bytes, counter_field, lemma_be_bytes_value, lemma_fields_of_pack, lemma_pack_order, pack_fields, random_field, timestamp_field,
    worker_field,
};
use crate::rng::{effective_seed, lemma_xorshift64_nonzero, xorshift64, DEFAULT_SEED};
use crate::Error;

verus! {

/// What a generator holds.
#[derive(Debug, Clone, Copy, PartialEq, Eq, Structural)]
pub struct GeneratorState {
    /// Xorshift64 state; never zero.
    pub seed: u64,
    /// The millisecond of the last identifier.
    pub last_ms: u64,
    /// The counter within `last_ms`; at most `COUNTER_MAX`.
    pub counter: u16,
    /// The worker id written into identifiers.
    pub worker_id: u16,
}

/// `ms` less `EPOCH`, or 0 before it.
pub open spec fn since_epoch(ms: u64) -> u64 {
    if ms >= EPOCH {
        (ms - EPOCH) as u64
    } else {
        0
    }
}

/// The counter of millisecond `ms` is used up: generating must wait for the clock.
pub open spec fn counter_exhausted(s: GeneratorState, ms: u64) -> bool {
    ms == s.last_ms && s.counter >= COUNTER_MAX
}

/// The state after issuing an identifier in millisecond `ms` (counter not used up):
/// the counter goes up within the same millisecond and restarts at 0 in a new one,
/// and the seed takes one Xorshift64 step.
pub open spec fn advance(s: GeneratorState, ms: u64) -> GeneratorState {
    GeneratorState {
        seed: xorshift64(s.seed),
        last_ms: ms,
        counter: if ms == s.last_ms {
            (s.counter + 1) as u16
        } else {
            0
        },
        worker_id: s.worker_id,
    }
}

/// The state after the clock has moved on to `now`.
pub open spec fn resumed(s: GeneratorState, now: u64) -> GeneratorState {
    GeneratorState { seed: xorshift64(s.seed), last_ms: now, counter: 0, worker_id: s.worker_id }
}

/// The number of the identifier issued in millisecond `ms` by a generator that is
/// now in state `s`: timestamp since the epoch, worker id, counter and the new seed
/// as random part.
pub open spec fn issued_number(s: GeneratorState, ms: u64) -> u128 {
    pack_fields(since_epoch(ms), s.worker_id, s.counter, s.seed)
}

/// What `resume_at(now)` does from state `s`, leaving state `s2` and result `r`.
pub open spec fn resume_outcome(
    s: GeneratorState,
    now: Option<u64>,
    s2: GeneratorState,
    r: Result<SigId26, Error>,
) -> bool {
    match now {
        None => r == Err::<SigId26, Error>(Error::TimestampOverflow) && s2 == s,
        Some(t) => if t <= s.last_ms {
            r == Err::<SigId26, Error>(Error::CounterOverflow) && s2 == s
        } else {
            s2 == resumed(s, t) && (r matches Ok(id) && id.number() == issued_number(s2, t)
                && id@ == crockford_encode(be_bytes(issued_number(s2, t))))
        },
    }
}

/// What `generate(ms)` does from state `s`, leaving state `s2` and result `r`: a
/// timestamp past 48 bits is refused; within the counter's range the state advances
/// and the identifier of the new state is issued; a used-up counter leaves it to
/// the system clock, read as some `now` (see `resume_outcome`).
pub open spec fn generate_outcome(
    s: GeneratorState,
    ms: u64,
    s2: GeneratorState,
    r: Result<SigId26, Error>,
) -> bool {
    if since_epoch(ms) > TIMESTAMP_MAX {
        r == Err::<SigId26, Error>(Error::TimestampOverflow) && s2 == s
    } else if !counter_exhausted(s, ms) {
        s2 == advance(s, ms) && (r matches Ok(id) && id.number() == issued_number(s2, ms) && id@
            == crockford_encode(be_bytes(issued_number(s2, ms))))
    } else {
        exists|now: Option<u64>| resume_outcome(s, now, s2, r)
    }
}

/// Identifier generator as a pure state machine.
#[derive(Debug)]
pub struct Generator {
    seed: u64,
    last_ms: u64,
    counter: u16,
    worker_id: u16,
}

impl View for Generator {
    type V = GeneratorState;

    closed spec fn view(&self) -> GeneratorState {
        GeneratorState {
            seed: self.seed,
            last_ms: self.last_ms,
            counter: self.counter,
            worker_id: self.worker_id,
        }
    }
}

/// A state that a generator can be in.
pub open spec fn valid_state(s: GeneratorState) -> bool {
    s.seed != 0 && s.counter <= COUNTER_MAX
}

impl Clone for Generator {
    fn clone(&self) -> (copy: Self)
        ensures
            copy@ == self@,
    {
        proof {
            use_type_invariant(self);
        }
        Generator {
            seed: self.seed,
            last_ms: self.last_ms,
            counter: self.counter,
            worker_id: self.worker_id,
        }
    }
}

impl Generator {
    #[verifier::type_invariant]
    spec fn well_formed(self) -> bool {
        self.seed != 0 && self.counter <= COUNTER_MAX
    }

    /// A generator with the given seed (zero is replaced by `DEFAULT_SEED`) and worker id 0.
    pub fn new(seed: u64) -> (g: Self)
        ensures
            g@ == (GeneratorState { seed: effective_seed(seed), last_ms: 0, counter: 0, worker_id: 0 }),
    {
        let seed = if seed == 0 {
            DEFAULT_SEED
        } else {
            seed
        };
        Self { seed, last_ms: 0, counter: 0, worker_id: 0 }
    }

    /// A generator with the given seed (zero is replaced by `DEFAULT_SEED`) and worker id.
    pub fn with_worker_id(seed: u64, worker_id: u16) -> (g: Self)
        ensures
            g@ == (GeneratorState {
                seed: effective_seed(seed),
                last_ms: 0,
                counter: 0,
                worker_id: worker_id,
            }),
    {
        let seed = if seed == 0 {
            DEFAULT_SEED
        } else {
            seed
        };
        assert(worker_id & 0xFFFF == worker_id) by (bit_vector);
        Self { seed, last_ms: 0, counter: 0, worker_id: worker_id & 0xFFFF }
    }

    /// The same generator with another worker id (16 bits).
    pub fn set_worker_id(self, worker_id: u16) -> (g: Self)
        ensures
            g@ == (GeneratorState { worker_id: worker_id, ..self@ }),
    {
        proof {
            use_type_invariant(&self);
        }
        assert(worker_id & 0xFFFF == worker_id) by (bit_vector);
        let mut g = self;
        g.worker_id = worker_id & 0xFFFF;
        g
    }

    /// The worker id.
    pub fn get_worker_id(&self) -> (worker_id: u16)
        ensures
            worker_id == self@.worker_id,
    {
        self.worker_id
    }

    /// Reset the counter and the last millisecond to 0.
    pub fn reset(&mut self)
        ensures
            final(self)@ == (GeneratorState { counter: 0, last_ms: 0, ..old(self)@ }),
    {
        proof {
            use_type_invariant(&*self);
        }
        self.counter = 0;
        self.last_ms = 0;
    }

    /// Generate an identifier for `ms`, milliseconds since the Unix epoch.
    ///
    /// The timestamp is `ms` less `EPOCH` (0 before it) and must fit in 48 bits.
    /// Within one millisecond the counter goes up; when it is used up, the system
    /// clock decides (see `resume_at`).
    pub fn generate(&mut self, ms: u64) -> (r: Result<SigId26, Error>)
        ensures
            generate_outcome(old(self)@, ms, final(self)@, r),
            valid_state(final(self)@),
            r matches Ok(id) ==> final(self)@.seed == xorshift64(old(self)@.seed) && random_field(
                id.number(),
            ) == xorshift64(old(self)@.seed) & 0x3_FFFF_FFFF_FFFF,
            r is Err ==> final(self)@ == old(self)@,
    {
        proof {
            use_type_invariant(&*self);
        }
        let timestamp = ms.saturating_sub(EPOCH);
        if timestamp > TIMESTAMP_MAX {
            return Err(Error::TimestampOverflow);
        }
        if ms == self.last_ms {
            if self.counter >= COUNTER_MAX {
                let r = self.wait_for_next_ms(ms);
                proof {
                    lemma_generate_steps_seed(old(self)@, ms, self@, r);
                }
                return r;
            }
            self.counter += 1;
        } else {
            self.last_ms = ms;
            self.counter = 0;
        }
        let random = self.next_random();
        proof {
            use_type_invariant(&*self);
        }
        let r = Ok(SigId26::raw_new_with_worker(timestamp, self.worker_id, self.counter, random));
        proof {
            lemma_generate_steps_seed(old(self)@, ms, self@, r);
        }
        r
    }

    /// Read the system clock once the counter of a millisecond is used up.
    fn wait_for_next_ms(&mut self, _ms: u64) -> (r: Result<SigId26, Error>)
        ensures
            exists|now: Option<u64>| resume_outcome(old(self)@, now, final(self)@, r),
            valid_state(final(self)@),
    {
        let now = unix_time_ms();
        self.resume_at(now)
    }

    /// Go on at `now` (milliseconds since the Unix epoch, as the clock read it; `None`
    /// when the clock read before the epoch). Only a clock past the last millisecond
    /// lets generation go on, with the counter restarted; the timestamp is `now` less
    /// `EPOCH` (0 before it), cut to 48 bits.
    pub fn resume_at(&mut self, now: Option<u64>) -> (r: Result<SigId26, Error>)
        ensures
            resume_outcome(old(self)@, now, final(self)@, r),
            valid_state(final(self)@),
    {
        proof {
            use_type_invariant(&*self);
        }
        let now_ms = match now {
            Some(t) => t,
            None => {
                return Err(Error::TimestampOverflow);
            },
        };
        if now_ms <= self.last_ms {
            return Err(Error::CounterOverflow);
        }
        self.last_ms = now_ms;
        self.counter = 0;
        let timestamp = now_ms.saturating_sub(EPOCH);
        let random = self.next_random();
        proof {
            use_type_invariant(&*self);
        }
        Ok(SigId26::raw_new_with_worker(timestamp, self.worker_id, self.counter, random))
    }

    /// One Xorshift64 step of the seed.
    fn next_random(&mut self) -> (x: u64)
        ensures
            x == xorshift64(old(self)@.seed),
            final(self)@ == (GeneratorState { seed: x, ..old(self)@ }),
    {
        proof {
            use_type_invariant(&*self);
            lemma_xorshift64_nonzero(self.seed);
        }
        let mut x = self.seed;
        x ^= x << 13u64;
        x ^= x >> 7u64;
        x ^= x << 17u64;
        self.seed = x;
        x
    }
}

impl Default for Generator {
    fn default() -> (g: Self)
        ensures
            g@ == (GeneratorState { seed: DEFAULT_SEED, last_ms: 0, counter: 0, worker_id: 0 }),
    {
        Self::new(DEFAULT_SEED)
    }
}

/// An identifier issued in millisecond `ms` by a generator now in state `s` carries
/// the timestamp `ms - EPOCH`, the generator's worker id and counter, and the low
/// 50 bits of its seed.
pub proof fn lemma_issued_fields(s: GeneratorState, ms: u64)
    requires
        valid_state(s),
        since_epoch(ms) <= TIMESTAMP_MAX,
    ensures
        timestamp_field(issued_number(s, ms)) == since_epoch(ms),
        worker_field(issued_number(s, ms)) == s.worker_id,
        counter_field(issued_number(s, ms)) == s.counter,
        random_field(issued_number(s, ms)) == s.seed & 0x3_FFFF_FFFF_FFFF,
{
    let t = since_epoch(ms);
    let c = s.counter;
    lemma_fields_of_pack(t, s.worker_id, c, s.seed);
    assert(t & 0xFFFF_FFFF_FFFF == t && c & 0x3FFF == c) by (bit_vector)
        requires
            t <= 0xFFFF_FFFF_FFFF,
            c <= 0x3FFF,
    ;
}

/// Two identifiers issued in one millisecond have consecutive counters.
pub proof fn lemma_counter_increments(s: GeneratorState, ms: u64)
    requires
        valid_state(s),
        since_epoch(ms) <= TIMESTAMP_MAX,
        !counter_exhausted(s, ms),
        advance(s, ms).counter < COUNTER_MAX,
    ensures
        !counter_exhausted(advance(s, ms), ms),
        counter_field(issued_number(advance(advance(s, ms), ms), ms)) == counter_field(
            issued_number(advance(s, ms), ms),
        ) + 1,
{
    let s1 = advance(s, ms);
    let s2 = advance(s1, ms);
    lemma_xorshift64_nonzero(s.seed);
    lemma_xorshift64_nonzero(s1.seed);
    lemma_issued_fields(s1, ms);
    lemma_issued_fields(s2, ms);
}

/// Each identifier a generator issues is greater than the one before, while the
/// clock does not go back: in the same millisecond, or in a later one when the
/// earlier was at or after `EPOCH`.
pub proof fn lemma_issued_increase(s1: GeneratorState, ms1: u64, ms2: u64)
    requires
        valid_state(s1),
        s1.last_ms == ms1,
        since_epoch(ms1) <= TIMESTAMP_MAX,
        since_epoch(ms2) <= TIMESTAMP_MAX,
        ms2 == ms1 || EPOCH <= ms1 < ms2,
        !counter_exhausted(s1, ms2),
    ensures
        issued_number(s1, ms1) < issued_number(advance(s1, ms2), ms2),
{
    let s2 = advance(s1, ms2);
    lemma_pack_order(
        since_epoch(ms1),
        since_epoch(ms2),
        s1.worker_id,
        s1.counter,
        s2.counter,
        s1.seed,
        s2.seed,
    );
}

/// When the clock has moved past the last millisecond (at or after `EPOCH`), the
/// identifier issued on resuming is greater than the one before.
pub proof fn lemma_resumed_increase(s1: GeneratorState, ms1: u64, now: u64)
    requires
        valid_state(s1),
        s1.last_ms == ms1,
        EPOCH <= ms1 < now,
        since_epoch(now) <= TIMESTAMP_MAX,
    ensures
        issued_number(s1, ms1) < issued_number(resumed(s1, now), now),
{
    let s2 = resumed(s1, now);
    lemma_pack_order(
        since_epoch(ms1),
        since_epoch(now),
        s1.worker_id,
        s1.counter,
        s2.counter,
        s1.seed,
        s2.seed,
    );
}

/// Identifier strings sort by creation: under the conditions of
/// `lemma_issued_increase`, the next identifier's text comes later in dictionary order.
pub proof fn lemma_issued_text_increase(s1: GeneratorState, ms1: u64, ms2: u64)
    requires
        valid_state(s1),
        s1.last_ms == ms1,
        since_epoch(ms1) <= TIMESTAMP_MAX,
        since_epoch(ms2) <= TIMESTAMP_MAX,
        ms2 == ms1 || EPOCH <= ms1 < ms2,
        !counter_exhausted(s1, ms2),
    ensures
        lex_less(
            crockford_encode(be_bytes(issued_number(s1, ms1))),
            crockford_encode(be_bytes(issued_number(advance(s1, ms2), ms2))),
        ),
{
    let a = issued_number(s1, ms1);
    let b = issued_number(advance(s1, ms2), ms2);
    lemma_issued_increase(s1, ms1, ms2);
    lemma_be_bytes_value(a);
    lemma_be_bytes_value(b);
    lemma_encode_order(be_bytes(a), be_bytes(b));
}

/// Once the counter of a millisecond is used up, generating in that millisecond
/// does what the clock's reading decides: a reading at or before the last
/// millisecond refuses with `CounterOverflow` and leaves the generator as it was,
/// still used up, so every later call with such readings refuses too.
pub proof fn lemma_exhausted_counter(
    s: GeneratorState,
    ms: u64,
    now: Option<u64>,
    s2: GeneratorState,
    r: Result<SigId26, Error>,
)
    requires
        counter_exhausted(s, ms),
        since_epoch(ms) <= TIMESTAMP_MAX,
        resume_outcome(s, now, s2, r),
    ensures
        generate_outcome(s, ms, s2, r),
        (now matches Some(t) && t <= ms) ==> (r == Err::<SigId26, Error>(Error::CounterOverflow)
            && s2 == s && counter_exhausted(s2, ms)),
{
}

/// Every identifier a generator issues takes a new Xorshift64 state: after any
/// successful `generate`, whatever the clock read, the seed is one Xorshift64 step
/// past the seed before, and the identifier's random part is the low 50 bits of
/// that new seed; a refused call changes nothing.
pub proof fn lemma_generate_steps_seed(
    s: GeneratorState,
    ms: u64,
    s2: GeneratorState,
    r: Result<SigId26, Error>,
)
    requires
        generate_outcome(s, ms, s2, r),
    ensures
        r matches Ok(id) ==> s2.seed == xorshift64(s.seed) && random_field(id.number())
            == xorshift64(s.seed) & 0x3_FFFF_FFFF_FFFF,
        r is Err ==> s2 == s,
        r matches Ok(id) ==> s2.worker_id == s.worker_id && worker_field(id.number())
            == s.worker_id,
{
    lemma_fields_of_pack(since_epoch(ms), s2.worker_id, s2.counter, s2.seed);
    if since_epoch(ms) <= TIMESTAMP_MAX && counter_exhausted(s, ms) {
        let now = choose|now: Option<u64>| resume_outcome(s, now, s2, r);
        if now is Some {
            lemma_fields_of_pack(since_epoch(now->0), s2.worker_id, s2.counter, s2.seed);
        }
    }
}

/// Two identifiers issued one after the other in the same millisecond, with the
/// counter not used up, have consecutive counters and the random parts of two
/// consecutive Xorshift64 states.
pub proof fn lemma_same_ms_pair(
    s0: GeneratorState,
    ms: u64,
    s1: GeneratorState,
    r1: Result<SigId26, Error>,
    s2: GeneratorState,
    r2: Result<SigId26, Error>,
)
    requires
        valid_state(s0),
        since_epoch(ms) <= TIMESTAMP_MAX,
        !counter_exhausted(s0, ms),
        generate_outcome(s0, ms, s1, r1),
        !counter_exhausted(s1, ms),
        generate_outcome(s1, ms, s2, r2),
    ensures
        r1 matches Ok(a) && r2 matches Ok(b) && counter_field(b.number()) == counter_field(
            a.number(),
        ) + 1 && random_field(a.number()) == xorshift64(s0.seed) & 0x3_FFFF_FFFF_FFFF
            && random_field(b.number()) == xorshift64(xorshift64(s0.seed)) & 0x3_FFFF_FFFF_FFFF,
{
    lemma_generate_steps_seed(s0, ms, s1, r1);
    lemma_generate_steps_seed(s1, ms, s2, r2);
    lemma_xorshift64_nonzero(s0.seed);
    lemma_xorshift64_nonzero(xorshift64(s0.seed));
    lemma_issued_fields(s1, ms);
    lemma_issued_fields(s2, ms);
}

} // verus!
