//! The cluster generator: a core generator with a worker id, beside the
//! configurable settings.
use vstd::prelude::*;

use crate::clock::unix_time_ms;
use crate::enterprise::worker::WorkerId;
use crate::flexible::alphabet::Alphabet;
use crate::flexible::generator::{
    clamp_length, reading_or_zero, Generator as FlexibleGenerator, GeneratorConfig,
};
use crate::generator::{generate_outcome, Generator as CoreGenerator, GeneratorState};
use crate::id::SigId26;
use crate::rng::{effective_seed, DEFAULT_SEED};
use crate::Error;

verus! {

/// What a cluster generator holds.
pub struct ClusterState {
    /// The configurable settings.
    pub config: GeneratorConfig,
    /// The worker id.
    pub worker_id: u16,
    /// The state of the core generator that issues identifiers.
    pub core: GeneratorState,
}

/// Cluster generator builder with persistent state.
#[derive(Debug, Clone)]
pub struct Generator {
    flexible: FlexibleGenerator,
    worker_id: WorkerId,
    core: CoreGenerator,
}

impl View for Generator {
    type V = ClusterState;

    closed spec fn view(&self) -> ClusterState {
        ClusterState { config: self.flexible@, worker_id: self.worker_id@, core: self.core@ }
    }
}

impl Default for Generator {
    fn default() -> (g: Self)
        ensures
            g@.config == FlexibleGenerator::new_spec(),
            g@.worker_id == 0,
            g@.core == (GeneratorState { seed: DEFAULT_SEED, last_ms: 0, counter: 0, worker_id: 0 }),
    {
        Self::new()
    }
}

impl Generator {
    /// A generator with the default settings, worker id 0 and seed `DEFAULT_SEED`.
    pub fn new() -> (g: Self)
        ensures
            g@.config == FlexibleGenerator::new_spec(),
            g@.worker_id == 0,
            g@.core == (GeneratorState { seed: DEFAULT_SEED, last_ms: 0, counter: 0, worker_id: 0 }),
    {
        Self {
            flexible: FlexibleGenerator::new(),
            worker_id: WorkerId::from_u16(0),
            core: CoreGenerator::new(DEFAULT_SEED),
        }
    }

    /// Set the worker id written into identifiers.
    pub fn with_worker_id(self, worker_id: WorkerId) -> (g: Self)
        ensures
            g@.config == self@.config,
            g@.worker_id == worker_id@,
            g@.core == (GeneratorState { worker_id: worker_id@, ..self@.core }),
    {
        let Generator { flexible, worker_id: _, core } = self;
        Generator { flexible, worker_id, core: core.set_worker_id(worker_id.value()) }
    }

    /// Start over from `seed` (zero is replaced by `DEFAULT_SEED`), keeping the worker id.
    pub fn with_seed(self, seed: u64) -> (g: Self)
        ensures
            g@.config == self@.config,
            g@.worker_id == self@.worker_id,
            g@.core == (GeneratorState {
                seed: effective_seed(seed),
                last_ms: 0,
                counter: 0,
                worker_id: self@.worker_id,
            }),
    {
        let Generator { flexible, worker_id, core: _ } = self;
        Generator { flexible, worker_id, core: CoreGenerator::with_worker_id(seed, worker_id.value()) }
    }

    /// Set the identifier length, brought into 12..=64.
    pub fn length(self, length: usize) -> (g: Self)
        ensures
            g@.config == (GeneratorConfig { length: clamp_length(length), ..self@.config }),
            g@.worker_id == self@.worker_id,
            g@.core == self@.core,
    {
        let Generator { flexible, worker_id, core } = self;
        Generator { flexible: flexible.length(length), worker_id, core }
    }

    /// Set the alphabet.
    pub fn alphabet(self, alphabet: Alphabet) -> (g: Self)
        ensures
            g@.config == (GeneratorConfig { alphabet: alphabet, ..self@.config }),
            g@.worker_id == self@.worker_id,
            g@.core == self@.core,
    {
        let Generator { flexible, worker_id, core } = self;
        Generator { flexible: flexible.alphabet(alphabet), worker_id, core }
    }

    /// Turn the check character on or off.
    pub fn with_checksum(self, enabled: bool) -> (g: Self)
        ensures
            g@.config == (GeneratorConfig { include_checksum: enabled, ..self@.config }),
            g@.worker_id == self@.worker_id,
            g@.core == self@.core,
    {
        let Generator { flexible, worker_id, core } = self;
        Generator { flexible: flexible.with_checksum(enabled), worker_id, core }
    }

    /// Finish building.
    pub fn build(self) -> (g: Self)
        ensures
            g@ == self@,
    {
        self
    }

    /// Generate an identifier for `ms` (milliseconds since the Unix epoch) with the
    /// core generator.
    pub fn generate(&mut self, ms: u64) -> (r: Result<SigId26, Error>)
        ensures
            generate_outcome(old(self)@.core, ms, final(self)@.core, r),
            final(self)@.config == old(self)@.config,
            final(self)@.worker_id == old(self)@.worker_id,
    {
        self.core.generate(ms)
    }

    /// Generate an identifier for the clock reading `clock` (milliseconds since
    /// the Unix epoch as read, not less `EPOCH`; `None` when the clock reads before
    /// the epoch, taken as 0).
    pub fn now_at(&mut self, clock: Option<u64>) -> (r: Result<SigId26, Error>)
        ensures
            generate_outcome(old(self)@.core, reading_or_zero(clock), final(self)@.core, r),
            final(self)@.config == old(self)@.config,
            final(self)@.worker_id == old(self)@.worker_id,
    {
        let ms = match clock {
            Some(ms) => ms,
            None => 0,
        };
        self.generate(ms)
    }

    /// Generate an identifier for the present time of the system clock, as
    /// `now_at` does with the reading.
    pub fn now(&mut self) -> (r: Result<SigId26, Error>)
        ensures
            exists|clock: Option<u64>|
                generate_outcome(old(self)@.core, reading_or_zero(clock), final(self)@.core, r),
            final(self)@.config == old(self)@.config,
            final(self)@.worker_id == old(self)@.worker_id,
    {
        self.now_at(unix_time_ms())
    }

    /// The worker id.
    pub fn worker_id(&self) -> (worker_id: WorkerId)
        ensures
            worker_id@ == self@.worker_id,
    {
        self.worker_id
    }
}

} // verus!
