//! Choice of the cores that inference workers are pinned to.
//!
//! The library decides which core each worker belongs on; setting the
//! affinity of a running thread is left to the caller.

use vstd::prelude::*;

verus! {

/// How many workers to run and which cores to leave alone.
#[derive(Clone, Copy, Debug, PartialEq, Eq, Structural)]
pub struct ThreadPinnerConfig {
    pub num_threads: usize,
    pub reserve_cores: usize,
    pub enabled: bool,
}

/// The worker count chosen for a machine with `total_cores` cores: all but
/// one of them, and never fewer than one.
pub open spec fn auto_threads(total_cores: nat) -> nat {
    if total_cores <= 1 {
        1
    } else {
        (total_cores - 1) as nat
    }
}

/// The cores handed out on a machine with `total_cores` cores: consecutive
/// cores starting after the reserved ones, at most `num_threads` of them.
pub open spec fn available_cores(total_cores: nat, reserve_cores: nat, num_threads: nat) -> Seq<
    usize,
> {
    let start = if reserve_cores <= total_cores {
        reserve_cores
    } else {
        total_cores
    };
    let free = (total_cores - start) as nat;
    let count = if num_threads <= free {
        num_threads
    } else {
        free
    };
    Seq::new(count, |i: int| (start + i) as usize)
}

/// Calls `num_cpus::get`: the number of logical cores that the process may
/// use. The count depends on the machine, so nothing is claimed of it.
#[verifier::external_body]
fn logical_cores() -> usize {
    num_cpus::get()
}

impl ThreadPinnerConfig {
    pub fn new(num_threads: usize, reserve_cores: usize) -> (config: Self)
        ensures
            config == (ThreadPinnerConfig { num_threads, reserve_cores, enabled: true }),
    {
        ThreadPinnerConfig { num_threads, reserve_cores, enabled: true }
    }

    /// The configuration for a machine with `total_cores` cores: one core is
    /// left to the rest of the system, none is reserved.
    pub fn auto(total_cores: usize) -> (config: Self)
        ensures
            config.num_threads == auto_threads(total_cores as nat),
            config.reserve_cores == 0,
            config.enabled,
    {
        let num_threads: usize = if total_cores <= 1 {
            1
        } else {
            total_cores - 1
        };
        ThreadPinnerConfig { num_threads, reserve_cores: 0, enabled: true }
    }
}

impl Default for ThreadPinnerConfig {
    /// The automatic configuration for the machine the process runs on.
    fn default() -> (config: Self)
        ensures
            config.num_threads >= 1,
            config.reserve_cores == 0,
            config.enabled,
    {
        ThreadPinnerConfig::auto(logical_cores())
    }
}

/// A configuration together with the cores it resolved to.
#[derive(Debug)]
pub struct ThreadPinner {
    config: ThreadPinnerConfig,
    core_ids: Vec<usize>,
}

impl ThreadPinner {
    pub closed spec fn spec_config(&self) -> ThreadPinnerConfig {
        self.config
    }

    pub closed spec fn spec_core_ids(&self) -> Seq<usize> {
        self.core_ids@
    }

    /// The pinner was resolved from its configuration on a machine with
    /// `total_cores` cores.
    pub open spec fn resolved_on(&self, total_cores: nat) -> bool {
        self.spec_core_ids() == available_cores(
            total_cores,
            self.spec_config().reserve_cores as nat,
            self.spec_config().num_threads as nat,
        )
    }

    /// The pinner was resolved from its configuration on some machine.
    pub open spec fn wf(&self) -> bool {
        exists|total_cores: nat| total_cores <= usize::MAX && #[trigger] self.resolved_on(total_cores)
    }

    /// The core a worker with index `thread_index` belongs on, if any.
    pub open spec fn target_core(&self, thread_index: nat) -> Option<usize> {
        if !self.spec_config().enabled || self.spec_core_ids().len() == 0 {
            None
        } else {
            Some(self.spec_core_ids()[(thread_index % self.spec_core_ids().len()) as int])
        }
    }

    /// The cores available to `num_threads` workers on a machine with
    /// `total_cores` cores of which the first `reserve_cores` are kept free.
    pub fn cores_on(total_cores: usize, reserve_cores: usize, num_threads: usize) -> (cores: Vec<
        usize,
    >)
        ensures
            cores@ == available_cores(total_cores as nat, reserve_cores as nat, num_threads as nat),
    {
        let start: usize = if reserve_cores <= total_cores {
            reserve_cores
        } else {
            total_cores
        };
        let free: usize = total_cores - start;
        let count: usize = if num_threads <= free {
            num_threads
        } else {
            free
        };
        let mut cores: Vec<usize> = Vec::new();
        let mut i: usize = 0;
        while i < count
            invariant
                i <= count,
                start + count <= total_cores,
                cores@.len() == i,
                forall|j: int| 0 <= j < i ==> cores@[j] == (start + j) as usize,
            decreases count - i,
        {
            cores.push(start + i);
            i += 1;
        }
        assert(cores@ =~= available_cores(
            total_cores as nat,
            reserve_cores as nat,
            num_threads as nat,
        ));
        cores
    }

    /// A pinner for `config` on a machine with `total_cores` cores.
    pub fn resolve(config: ThreadPinnerConfig, total_cores: usize) -> (pinner: Self)
        ensures
            pinner.spec_config() == config,
            pinner.resolved_on(total_cores as nat),
            pinner.wf(),
    {
        let core_ids = Self::cores_on(total_cores, config.reserve_cores, config.num_threads);
        let pinner = ThreadPinner { config, core_ids };
        assert(pinner.resolved_on(total_cores as nat));
        pinner
    }

    /// Installs a pinner for `config` in `slot` unless one is installed
    /// already, and returns the installed one. A slot is set once: later
    /// calls leave it as it is, whatever configuration they bring.
    pub fn init(slot: &mut Option<ThreadPinner>, config: ThreadPinnerConfig) -> (pinner: ThreadPinner)
        requires
            *old(slot) matches Some(p) ==> p.wf(),
        ensures
            *old(slot) is Some ==> *final(slot) == *old(slot),
            *old(slot) is None ==> pinner.spec_config() == config,
            *final(slot) matches Some(p) && p.spec_config() == pinner.spec_config()
                && p.spec_core_ids() == pinner.spec_core_ids(),
            pinner.wf(),
    {
        match slot {
            Some(p) => p.clone(),
            None => {
                let built = Self::resolve(config, logical_cores());
                let copy = built.clone();
                *slot = Some(built);
                copy
            },
        }
    }

    /// The pinner installed in `slot`; an empty slot is first filled from
    /// the default configuration.
    pub fn get(slot: &mut Option<ThreadPinner>) -> (pinner: ThreadPinner)
        requires
            *old(slot) matches Some(p) ==> p.wf(),
        ensures
            *old(slot) is Some ==> *final(slot) == *old(slot),
            *old(slot) is None ==> pinner.spec_config().num_threads >= 1
                && pinner.spec_config().reserve_cores == 0 && pinner.spec_config().enabled,
            *final(slot) matches Some(p) && p.spec_config() == pinner.spec_config()
                && p.spec_core_ids() == pinner.spec_core_ids(),
            pinner.wf(),
    {
        match slot {
            Some(p) => p.clone(),
            None => {
                let built = Self::resolve(ThreadPinnerConfig::default(), logical_cores());
                let copy = built.clone();
                *slot = Some(built);
                copy
            },
        }
    }

    /// The core that the calling worker belongs on: the first one, unless
    /// pinning is switched off or no core is available.
    pub fn pin_current_thread(&self) -> (core: Option<usize>)
        ensures
            core == self.target_core(0),
    {
        if !self.config.enabled || self.core_ids.len() == 0 {
            None
        } else {
            Some(self.core_ids[0])
        }
    }

    /// The core that worker `thread_index` belongs on: workers are dealt
    /// round the available cores.
    pub fn pin_thread_by_index(&self, thread_index: usize) -> (core: Option<usize>)
        ensures
            core == self.target_core(thread_index as nat),
    {
        if !self.config.enabled || self.core_ids.len() == 0 {
            None
        } else {
            Some(self.core_ids[thread_index % self.core_ids.len()])
        }
    }

    pub fn num_threads(&self) -> (n: usize)
        ensures
            n == self.spec_core_ids().len(),
    {
        self.core_ids.len()
    }

    pub fn core_ids(&self) -> (ids: &[usize])
        ensures
            ids@ == self.spec_core_ids(),
    {
        self.core_ids.as_slice()
    }

    pub fn config(&self) -> (config: ThreadPinnerConfig)
        ensures
            config == self.spec_config(),
    {
        self.config
    }
}

impl Clone for ThreadPinner {
    /// A copy with the same configuration and the same cores.
    fn clone(&self) -> (copy: Self)
        ensures
            copy.spec_config() == self.spec_config(),
            copy.spec_core_ids() == self.spec_core_ids(),
            self.wf() ==> copy.wf(),
    {
        let mut core_ids: Vec<usize> = Vec::new();
        let mut i: usize = 0;
        while i < self.core_ids.len()
            invariant
                i <= self.core_ids.len(),
                core_ids@ == self.core_ids@.take(i as int),
            decreases self.core_ids.len() - i,
        {
            core_ids.push(self.core_ids[i]);
            proof {
                assert(self.core_ids@.take(i + 1) =~= self.core_ids@.take(i as int).push(
                    self.core_ids@[i as int],
                ));
            }
            i += 1;
        }
        assert(self.core_ids@.take(self.core_ids.len() as int) =~= self.core_ids@);
        let copy = ThreadPinner { config: self.config, core_ids };
        proof {
            if self.wf() {
                let total = choose|total: nat| total <= usize::MAX && #[trigger] self.resolved_on(total);
                assert(copy.resolved_on(total));
            }
        }
        copy
    }
}

/// Installs a pinner for `num_threads` workers with `reserve_cores` cores
/// kept free, unless `slot` holds one already, and returns the installed one.
pub fn pin_threads_to_cores(
    slot: &mut Option<ThreadPinner>,
    num_threads: usize,
    reserve_cores: usize,
) -> (pinner: ThreadPinner)
    requires
        *old(slot) matches Some(p) ==> p.wf(),
    ensures
        *old(slot) is Some ==> *final(slot) == *old(slot),
        *old(slot) is None ==> pinner.spec_config() == (ThreadPinnerConfig {
            num_threads,
            reserve_cores,
            enabled: true,
        }),
        *final(slot) matches Some(p) && p.spec_config() == pinner.spec_config()
            && p.spec_core_ids() == pinner.spec_core_ids(),
        pinner.wf(),
{
    ThreadPinner::init(slot, ThreadPinnerConfig::new(num_threads, reserve_cores))
}

/// Installs a pinner for `config` unless `slot` holds one already, and
/// returns the installed one.
pub fn init_thread_pinner(slot: &mut Option<ThreadPinner>, config: ThreadPinnerConfig) -> (pinner:
    ThreadPinner)
    requires
        *old(slot) matches Some(p) ==> p.wf(),
    ensures
        *old(slot) is Some ==> *final(slot) == *old(slot),
        *old(slot) is None ==> pinner.spec_config() == config,
        *final(slot) matches Some(p) && p.spec_config() == pinner.spec_config()
            && p.spec_core_ids() == pinner.spec_core_ids(),
        pinner.wf(),
{
    ThreadPinner::init(slot, config)
}

/// The pinner installed in `slot`, installing the default one first where
/// the slot is empty.
pub fn get_thread_pinner(slot: &mut Option<ThreadPinner>) -> (pinner: ThreadPinner)
    requires
        *old(slot) matches Some(p) ==> p.wf(),
    ensures
        *old(slot) is Some ==> *final(slot) == *old(slot),
        *old(slot) is None ==> pinner.spec_config().num_threads >= 1
            && pinner.spec_config().reserve_cores == 0 && pinner.spec_config().enabled,
        *final(slot) matches Some(p) && p.spec_config() == pinner.spec_config()
            && p.spec_core_ids() == pinner.spec_core_ids(),
        pinner.wf(),
{
    ThreadPinner::get(slot)
}

} // verus!
