//! Worker IDs for distributed systems: 16 bits, up to 65,536 workers in a cluster.
use vstd::prelude::*;
use vstd::std_specs::convert::FromSpecImpl;
use vstd::std_specs::hash::DefaultHasherAdditionalSpecFns;
use vstd::string::StrSliceExecFns;

use std::collections::hash_map::DefaultHasher;
use std::hash::Hasher;

verus! {

/// Names the writes that hashing a string with `Hash` makes into a hasher; they
/// depend on the text alone.
pub uninterp spec fn str_hash_writes(text: Seq<char>) -> Seq<Seq<u8>>;

/// `<str as Hash>::hash`: feeds `text` into `state`. The writes it adds are named
/// `str_hash_writes`; what they are is std's own and not stated here.
#[verifier::external_body]
fn hash_str(text: &str, state: &mut DefaultHasher)
    ensures
        final(state)@ == old(state)@ + str_hash_writes(text@),
{
    std::hash::Hash::hash(text, state)
}

/// The worker id that a host name hashes to: the low 16 bits of the `DefaultHasher`
/// hash of the name.
pub open spec fn hostname_worker(hostname: Seq<char>) -> u16 {
    (DefaultHasher::spec_finish(Seq::<Seq<u8>>::empty() + str_hash_writes(hostname)) & 0xFFFF) as u16
}

/// The number that decimal digit characters denote, most significant first.
pub open spec fn decimal_value(digits: Seq<char>) -> int
    decreases digits.len(),
{
    if digits.len() == 0 {
        0
    } else {
        decimal_value(digits.drop_last()) * 10 + (digits.last() as int - '0' as int)
    }
}

/// What `u16::from_str` gives: an optional `+`, then one or more ASCII digits whose
/// value fits in 16 bits; anything else is an error.
pub open spec fn parse_u16_spec(text: Seq<char>) -> Option<u16> {
    let digits = if text.len() > 0 && text[0] == '+' {
        text.drop_first()
    } else {
        text
    };
    if digits.len() > 0 && all_digits(digits) && decimal_value(digits) <= 0xFFFF {
        Some(decimal_value(digits) as u16)
    } else {
        None
    }
}

/// ASCII decimal digits only.
pub open spec fn all_digits(s: Seq<char>) -> bool {
    forall|i: int| 0 <= i < s.len() ==> '0' <= #[trigger] s[i] <= '9'
}

/// The number of a digit string is at least that of each of its prefixes.
proof fn lemma_decimal_value_grows(s: Seq<char>, k: int)
    requires
        all_digits(s),
        0 <= k <= s.len(),
    ensures
        decimal_value(s.take(k)) <= decimal_value(s),
    decreases s.len() - k,
{
    if k < s.len() {
        lemma_decimal_value_grows(s, k + 1);
        assert(s.take(k + 1).drop_last() =~= s.take(k));
        assert(s.take(k + 1).last() == s[k]);
        lemma_decimal_value_nonneg(s.take(k));
    } else {
        assert(s.take(k) =~= s);
    }
}

/// The number of a digit string is not negative.
proof fn lemma_decimal_value_nonneg(s: Seq<char>)
    requires
        all_digits(s),
    ensures
        decimal_value(s) >= 0,
    decreases s.len(),
{
    if s.len() > 0 {
        assert(all_digits(s.drop_last()));
        lemma_decimal_value_nonneg(s.drop_last());
        assert(s.last() == s[s.len() - 1]);
    }
}

/// Parse a `u16` written in decimal, as `str::parse::<u16>` does: an optional `+`,
/// then one or more ASCII digits whose value fits in 16 bits.
fn parse_u16(text: &str) -> (value: Option<u16>)
    ensures
        value == parse_u16_spec(text@),
{
    let n = text.unicode_len();
    let start: usize = if n > 0 && text.get_char(0) == '+' {
        1
    } else {
        0
    };
    let ghost digits = text@.subrange(start as int, n as int);
    assert(digits =~= (if text@.len() > 0 && text@[0] == '+' {
        text@.drop_first()
    } else {
        text@
    }));
    if start == n {
        return None;
    }
    let mut v: u32 = 0;
    let mut i: usize = start;
    while i < n
        invariant
            start <= i <= n,
            n == text@.len(),
            digits == text@.subrange(start as int, n as int),
            digits == (if text@.len() > 0 && text@[0] == '+' {
                text@.drop_first()
            } else {
                text@
            }),
            all_digits(digits.take(i - start)),
            v as int == decimal_value(digits.take(i - start)),
            v <= 0xFFFF,
        decreases n - i,
    {
        let c = text.get_char(i);
        assert(digits[i - start] == c);
        if c < '0' || c > '9' {
            assert(!all_digits(digits));
            return None;
        }
        let d = (c as u32) - 48;
        assert(digits.take(i + 1 - start).drop_last() =~= digits.take(i - start));
        assert(digits.take(i + 1 - start).last() == c);
        v = v * 10 + d;
        proof {
            assert(all_digits(digits.take(i + 1 - start)));
        }
        if v > 0xFFFF {
            proof {
                if all_digits(digits) {
                    lemma_decimal_value_grows(digits, i + 1 - start);
                }
            }
            return None;
        }
        i += 1;
    }
    assert(digits.take(n - start) =~= digits);
    Some(v as u16)
}

/// 16-bit worker id (0-65535).
#[derive(Debug, Clone, Copy, PartialEq, Eq, PartialOrd, Ord, Hash, Structural)]
pub struct WorkerId(u16);

impl View for WorkerId {
    type V = u16;

    closed spec fn view(&self) -> u16 {
        self.0
    }
}

/// The characters of an optional string.
pub open spec fn text_of(s: Option<&str>) -> Option<Seq<char>> {
    match s {
        Some(s) => Some(s@),
        None => None,
    }
}

/// The worker id chosen from the environment's values: `SEED_WORKER_ID` when it
/// holds a number, else the hash of `POD_NAME`, else the hash of `HOSTNAME`.
pub open spec fn env_worker(
    seed_worker_id: Option<Seq<char>>,
    pod_name: Option<Seq<char>>,
    hostname: Option<Seq<char>>,
) -> Option<u16> {
    if seed_worker_id is Some && parse_u16_spec(seed_worker_id->0) is Some {
        parse_u16_spec(seed_worker_id->0)
    } else if pod_name is Some {
        Some(hostname_worker(pod_name->0))
    } else if hostname is Some {
        Some(hostname_worker(hostname->0))
    } else {
        None
    }
}

impl WorkerId {
    /// Maximum worker id value (16 bits).
    pub const MAX: u16 = 0xFFFF;

    /// A worker id; every 16-bit value is one.
    pub fn new(id: u16) -> (worker: Option<Self>)
        ensures
            worker matches Some(w) && w@ == id,
    {
        assert(id & 0xFFFF == id) by (bit_vector);
        Some(Self(id & Self::MAX))
    }

    /// A worker id without the check of `new` (which never fails).
    pub fn new_unchecked(id: u16) -> (worker: Self)
        ensures
            worker@ == id,
    {
        assert(id & 0xFFFF == id) by (bit_vector);
        Self(id & Self::MAX)
    }

    /// A worker id from a 16-bit value.
    pub fn from_u16(id: u16) -> (worker: Self)
        ensures
            worker@ == id,
    {
        assert(id & 0xFFFF == id) by (bit_vector);
        Self(id & Self::MAX)
    }

    /// The raw value.
    pub fn value(&self) -> (id: u16)
        ensures
            id == self@,
    {
        self.0
    }

    /// A worker id from the hash of a host name (deterministic).
    pub fn from_hostname(hostname: &str) -> (worker: Option<Self>)
        ensures
            worker matches Some(w) && w@ == hostname_worker(hostname@),
    {
        let mut hasher = DefaultHasher::new();
        hash_str(hostname, &mut hasher);
        let hash = hasher.finish();
        Self::new((hash & 0xFFFF) as u16)
    }

    /// A worker id from the low 16 bits of a seed.
    pub fn from_seed(seed: u64) -> (worker: Self)
        ensures
            worker@ == (seed & 0xFFFF) as u16,
    {
        Self::new_unchecked((seed & 0xFFFF) as u16)
    }

    /// The worker id chosen without configuration: the environment's, else the
    /// host name's, else the low 16 bits of a random number.
    pub fn zero_config_from(env: Option<Self>, host: Option<Self>, random: u64) -> (worker: Self)
        ensures
            env matches Some(w) ==> worker == w,
            env is None ==> (host matches Some(h) ==> worker == h),
            env is None && host is None ==> worker@ == (random & 0xFFFF) as u16,
    {
        match env {
            Some(w) => w,
            None => match host {
                Some(h) => h,
                None => Self::from_seed(random),
            },
        }
    }

    /// The worker id that the environment's values choose (see `env_worker`):
    /// `SEED_WORKER_ID`, `POD_NAME` and `HOSTNAME`, each `None` when unset.
    pub fn from_env_values(
        seed_worker_id: Option<&str>,
        pod_name: Option<&str>,
        hostname: Option<&str>,
    ) -> (worker: Option<Self>)
        ensures
            worker matches Some(w) ==> env_worker(
                text_of(seed_worker_id),
                text_of(pod_name),
                text_of(hostname),
            ) == Some(w@),
            worker is None ==> env_worker(
                text_of(seed_worker_id),
                text_of(pod_name),
                text_of(hostname),
            ) is None,
    {
        if let Some(val) = seed_worker_id {
            if let Some(id) = parse_u16(val) {
                return Self::new(id);
            }
        }
        if let Some(pod) = pod_name {
            return Self::from_hostname(pod);
        }
        if let Some(host) = hostname {
            return Self::from_hostname(host);
        }
        None
    }
}

impl From<u16> for WorkerId {
    fn from(id: u16) -> (worker: Self)
        ensures
            worker@ == id,
    {
        Self::from_u16(id)
    }
}

impl FromSpecImpl<u16> for WorkerId {
    open spec fn obeys_from_spec() -> bool {
        true
    }

    closed spec fn from_spec(id: u16) -> Self {
        WorkerId(id)
    }
}

impl From<WorkerId> for u16 {
    fn from(worker: WorkerId) -> (id: u16)
        ensures
            id == worker@,
    {
        worker.0
    }
}

impl FromSpecImpl<WorkerId> for u16 {
    open spec fn obeys_from_spec() -> bool {
        true
    }

    closed spec fn from_spec(worker: WorkerId) -> u16 {
        worker.0
    }
}

/// Worker ids with the same value are the same worker id.
pub proof fn lemma_worker_id_view_eq(a: WorkerId, b: WorkerId)
    requires
        a@ == b@,
    ensures
        a == b,
{
}

} // verus!
