//! Coalescing of generation requests into batches.
//!
//! Requests that arrive close together are answered by one pass of the
//! generator. This module holds the rules: when a batch is cut, which
//! settings it runs with, and how its outcome is shared out. Queues, timers
//! and the worker that runs the generator belong to the caller, who feeds
//! the coalescer with events and carries out what it answers.

use vstd::prelude::*;

verus! {

/// Limits of the batcher.
#[derive(Clone, Copy, Debug, PartialEq, Eq, Structural)]
pub struct BatchConfig {
    pub max_batch_size: usize,
    pub batch_window_ms: u64,
    pub max_queue_size: usize,
}

impl Default for BatchConfig {
    fn default() -> (config: Self)
        ensures
            config == (BatchConfig { max_batch_size: 8, batch_window_ms: 100, max_queue_size: 100 }),
    {
        BatchConfig { max_batch_size: 8, batch_window_ms: 100, max_queue_size: 100 }
    }
}

/// One request as the coalescer sees it. The repeat penalty travels as the
/// bit pattern of its single-precision value; the slot that the answer goes
/// to stays with the caller, who finds it again by `id`.
#[derive(Debug)]
pub struct BatchRequest {
    pub id: u64,
    pub prompt: String,
    pub max_tokens: usize,
    pub repeat_penalty_bits: u32,
    pub repeat_last_n: usize,
}

/// The answer to one request.
#[derive(Debug)]
pub struct BatchResult {
    pub id: u64,
    pub result: Result<String, String>,
}

/// Why a caller of the batcher got no text.
#[derive(Clone, Copy, Debug, PartialEq, Eq, Structural)]
pub enum BatcherError {
    /// The queue no longer takes requests.
    BatcherClosed,
    /// The answer slot was dropped before an answer came.
    BatcherCancelled,
    /// The batcher was built without a generator.
    GeneratorMissing,
}

impl BatcherError {
    /// The text that a caller is shown.
    pub fn message(&self) -> (text: String)
        ensures
            text@ == self.spec_message(),
    {
        match self {
            BatcherError::BatcherClosed => String::from_str("Batcher channel closed"),
            BatcherError::BatcherCancelled => String::from_str("Request cancelled"),
            BatcherError::GeneratorMissing => String::from_str("Generator not connected to batcher"),
        }
    }

    pub open spec fn spec_message(&self) -> Seq<char> {
        match self {
            BatcherError::BatcherClosed => "Batcher channel closed"@,
            BatcherError::BatcherCancelled => "Request cancelled"@,
            BatcherError::GeneratorMissing => "Generator not connected to batcher"@,
        }
    }
}

/// The bit pattern of the repeat penalty 1.1, which a batch without
/// requests would run with.
pub const DEFAULT_REPEAT_PENALTY_BITS: u32 = 0x3f8c_cccd;

/// The settings one batch runs with.
#[derive(Clone, Copy, Debug, PartialEq, Eq, Structural)]
pub struct BatchSettings {
    pub max_tokens: usize,
    pub repeat_penalty_bits: u32,
    pub repeat_last_n: usize,
}

/// The settings of a batch are those of its first request, whatever the
/// others ask for.
pub open spec fn settings_of(batch: Seq<BatchRequest>) -> BatchSettings {
    if batch.len() == 0 {
        BatchSettings {
            max_tokens: 512,
            repeat_penalty_bits: DEFAULT_REPEAT_PENALTY_BITS,
            repeat_last_n: 64,
        }
    } else {
        BatchSettings {
            max_tokens: batch[0].max_tokens,
            repeat_penalty_bits: batch[0].repeat_penalty_bits,
            repeat_last_n: batch[0].repeat_last_n,
        }
    }
}

/// The settings that `batch` runs with.
pub fn batch_settings(batch: &Vec<BatchRequest>) -> (settings: BatchSettings)
    ensures
        settings == settings_of(batch@),
{
    if batch.len() == 0 {
        BatchSettings {
            max_tokens: 512,
            repeat_penalty_bits: DEFAULT_REPEAT_PENALTY_BITS,
            repeat_last_n: 64,
        }
    } else {
        BatchSettings {
            max_tokens: batch[0].max_tokens,
            repeat_penalty_bits: batch[0].repeat_penalty_bits,
            repeat_last_n: batch[0].repeat_last_n,
        }
    }
}

/// The prompts of `batch`, in the order of its requests.
pub fn batch_prompts(batch: &Vec<BatchRequest>) -> (prompts: Vec<String>)
    ensures
        prompts@.len() == batch@.len(),
        forall|i: int| 0 <= i < batch@.len() ==> #[trigger] prompts@[i]@ == batch@[i].prompt@,
{
    let mut prompts: Vec<String> = Vec::new();
    let mut i: usize = 0;
    while i < batch.len()
        invariant
            i <= batch@.len(),
            prompts@.len() == i,
            forall|j: int| 0 <= j < i ==> #[trigger] prompts@[j]@ == batch@[j].prompt@,
        decreases batch@.len() - i,
    {
        prompts.push(batch[i].prompt.clone());
        i += 1;
    }
    prompts
}

/// What the generator made of a batch.
pub enum BatchOutcome {
    /// One text per prompt.
    Texts(Vec<String>),
    /// The generator failed; every request of the batch is told why.
    Failed(String),
    /// There is no generator.
    NoGenerator,
}

/// The answer that request `i` of a batch gets.
pub open spec fn answer_of(outcome: BatchOutcome, n: nat, i: int) -> Result<Seq<char>, Seq<char>> {
    match outcome {
        BatchOutcome::Texts(texts) => if texts@.len() == n {
            Ok(texts@[i]@)
        } else {
            Err("Batch output count mismatch"@)
        },
        BatchOutcome::Failed(why) => Err(why@),
        BatchOutcome::NoGenerator => Err(BatcherError::GeneratorMissing.spec_message()),
    }
}

/// What a result holds, as specifications see it.
pub open spec fn result_text(result: Result<String, String>) -> Result<Seq<char>, Seq<char>> {
    match result {
        Ok(s) => Ok(s@),
        Err(s) => Err(s@),
    }
}

/// Shares the outcome of a batch out to its requests: one result for each
/// request, in the order of the requests, each under its request's id. A
/// failure goes to every one of them.
pub fn process_batch(requests: &Vec<BatchRequest>, outcome: BatchOutcome) -> (results: Vec<
    BatchResult,
>)
    ensures
        results@.len() == requests@.len(),
        forall|i: int|
            0 <= i < requests@.len() ==> (#[trigger] results@[i]).id == requests@[i].id
                && result_text(results@[i].result) == answer_of(outcome, requests@.len(), i),
{
    let mut results: Vec<BatchResult> = Vec::new();
    let mut i: usize = 0;
    while i < requests.len()
        invariant
            i <= requests@.len(),
            results@.len() == i,
            forall|j: int|
                0 <= j < i ==> (#[trigger] results@[j]).id == requests@[j].id && result_text(
                    results@[j].result,
                ) == answer_of(outcome, requests@.len(), j),
        decreases requests@.len() - i,
    {
        let result: Result<String, String> = match &outcome {
            BatchOutcome::Texts(texts) => {
                if texts.len() == requests.len() {
                    Ok(texts[i].clone())
                } else {
                    Err(String::from_str("Batch output count mismatch"))
                }
            },
            BatchOutcome::Failed(why) => Err(why.clone()),
            BatchOutcome::NoGenerator => Err(BatcherError::GeneratorMissing.message()),
        };
        results.push(BatchResult { id: requests[i].id, result });
        i += 1;
    }
    results
}

/// What the queue gave the coalescer.
pub enum BatcherEvent {
    /// Nothing new: the loop comes round, a poll ran out, or a batch was
    /// answered.
    Idle,
    /// A request arrived.
    Request(BatchRequest),
    /// The queue is closed and empty.
    Closed,
}

/// What the caller is to do next.
pub enum BatcherAction {
    /// Block until the next request arrives.
    AwaitRequest,
    /// Poll the queue for one millisecond.
    Poll,
    /// Run this batch, answer it, and come back idle.
    Dispatch(Vec<BatchRequest>),
    /// Run this batch, answer it, and stop.
    DispatchAndStop(Vec<BatchRequest>),
    /// Stop.
    Stop,
}

/// The requests of an action that carries a batch.
pub open spec fn batch_of(action: BatcherAction) -> Option<Seq<BatchRequest>> {
    match action {
        BatcherAction::Dispatch(b) => Some(b@),
        BatcherAction::DispatchAndStop(b) => Some(b@),
        _ => None,
    }
}

/// The coalescer: the requests that wait for their batch, and the time the
/// first of them arrived.
pub struct BatchCoalescer {
    config: BatchConfig,
    pending: Vec<BatchRequest>,
    window_start: u64,
}

/// The coalescer as specifications see it.
pub struct CoalescerState {
    pub max_batch_size: nat,
    pub window_ms: nat,
    pub pending: Seq<BatchRequest>,
    pub window_start: nat,
}

/// What an event is, without the request that it may carry.
pub enum Arrival {
    Idle,
    Request(BatchRequest),
    Closed,
}

/// What is decided, as specifications see it.
pub enum Decision {
    AwaitRequest,
    Poll,
    Dispatch(Seq<BatchRequest>),
    DispatchAndStop(Seq<BatchRequest>),
    Stop,
}

impl CoalescerState {
    /// The window that opened at `window_start` is over at `now`.
    pub open spec fn expired(self, now: nat) -> bool {
        now >= self.window_start && now - self.window_start >= self.window_ms
    }

    /// A batch is due: the window is over, or the batch is full.
    pub open spec fn due(self, now: nat) -> bool {
        self.pending.len() > 0 && (self.expired(now) || self.pending.len() >= self.max_batch_size)
    }

    /// The decision taken on what waits, when nothing new has come.
    pub open spec fn settle(self, now: nat) -> (CoalescerState, Decision) {
        if self.pending.len() == 0 {
            (self, Decision::AwaitRequest)
        } else if self.due(now) {
            (CoalescerState { pending: Seq::empty(), ..self }, Decision::Dispatch(self.pending))
        } else {
            (self, Decision::Poll)
        }
    }

    /// The state and the decision after `event` at time `now`.
    pub open spec fn step(self, event: Arrival, now: nat) -> (CoalescerState, Decision) {
        match event {
            Arrival::Idle => self.settle(now),
            Arrival::Request(r) => {
                if self.pending.len() == 0 {
                    (CoalescerState { pending: seq![r], window_start: now, ..self }).settle(now)
                } else if self.pending.len() < self.max_batch_size {
                    (CoalescerState { pending: self.pending.push(r), ..self }).settle(now)
                } else {
                    (
                        CoalescerState { pending: seq![r], window_start: now, ..self },
                        Decision::Dispatch(self.pending),
                    )
                }
            },
            Arrival::Closed => {
                if self.pending.len() == 0 {
                    (self, Decision::Stop)
                } else {
                    (
                        CoalescerState { pending: Seq::empty(), ..self },
                        Decision::DispatchAndStop(self.pending),
                    )
                }
            },
        }
    }
}

impl View for BatcherEvent {
    type V = Arrival;

    open spec fn view(&self) -> Arrival {
        match self {
            BatcherEvent::Idle => Arrival::Idle,
            BatcherEvent::Request(r) => Arrival::Request(*r),
            BatcherEvent::Closed => Arrival::Closed,
        }
    }
}

impl View for BatcherAction {
    type V = Decision;

    open spec fn view(&self) -> Decision {
        match self {
            BatcherAction::AwaitRequest => Decision::AwaitRequest,
            BatcherAction::Poll => Decision::Poll,
            BatcherAction::Dispatch(b) => Decision::Dispatch(b@),
            BatcherAction::DispatchAndStop(b) => Decision::DispatchAndStop(b@),
            BatcherAction::Stop => Decision::Stop,
        }
    }
}

impl View for BatchCoalescer {
    type V = CoalescerState;

    closed spec fn view(&self) -> CoalescerState {
        CoalescerState {
            max_batch_size: self.config.max_batch_size as nat,
            window_ms: self.config.batch_window_ms as nat,
            pending: self.pending@,
            window_start: self.window_start as nat,
        }
    }
}

impl BatchCoalescer {
    pub closed spec fn spec_config(&self) -> BatchConfig {
        self.config
    }

    /// A coalescer with nothing waiting.
    pub fn new(config: BatchConfig) -> (coalescer: Self)
        ensures
            coalescer.spec_config() == config,
            coalescer@ == (CoalescerState {
                max_batch_size: config.max_batch_size as nat,
                window_ms: config.batch_window_ms as nat,
                pending: Seq::empty(),
                window_start: 0,
            }),
    {
        BatchCoalescer { config, pending: Vec::new(), window_start: 0 }
    }

    pub fn config(&self) -> (config: &BatchConfig)
        ensures
            *config == self.spec_config(),
    {
        &self.config
    }

    /// The number of requests that wait for their batch.
    pub fn pending_len(&self) -> (n: usize)
        ensures
            n == self@.pending.len(),
    {
        self.pending.len()
    }

    fn take_pending(&mut self) -> (batch: Vec<BatchRequest>)
        ensures
            batch@ == old(self)@.pending,
            final(self)@ == (CoalescerState { pending: Seq::empty(), ..old(self)@ }),
            final(self).spec_config() == old(self).spec_config(),
    {
        let mut batch: Vec<BatchRequest> = Vec::new();
        core::mem::swap(&mut batch, &mut self.pending);
        batch
    }

    fn settle(&mut self, now_ms: u64) -> (action: BatcherAction)
        ensures
            (final(self)@, action@) == old(self)@.settle(now_ms as nat),
            final(self).spec_config() == old(self).spec_config(),
    {
        if self.pending.len() == 0 {
            BatcherAction::AwaitRequest
        } else {
            let expired = now_ms >= self.window_start && now_ms - self.window_start
                >= self.config.batch_window_ms;
            if expired || self.pending.len() >= self.config.max_batch_size {
                BatcherAction::Dispatch(self.take_pending())
            } else {
                BatcherAction::Poll
            }
        }
    }

    /// Takes in what the queue gave at time `now_ms`, a reading of a clock
    /// that does not run backwards, and says what to do next.
    pub fn step(&mut self, event: BatcherEvent, now_ms: u64) -> (action: BatcherAction)
        ensures
            (final(self)@, action@) == old(self)@.step(event@, now_ms as nat),
            final(self).spec_config() == old(self).spec_config(),
    {
        match event {
            BatcherEvent::Idle => self.settle(now_ms),
            BatcherEvent::Request(r) => {
                if self.pending.len() == 0 {
                    self.pending.push(r);
                    self.window_start = now_ms;
                    assert(self.pending@ =~= seq![r]);
                    self.settle(now_ms)
                } else if self.pending.len() < self.config.max_batch_size {
                    self.pending.push(r);
                    self.settle(now_ms)
                } else {
                    let batch = self.take_pending();
                    self.pending.push(r);
                    self.window_start = now_ms;
                    assert(self.pending@ =~= seq![r]);
                    BatcherAction::Dispatch(batch)
                }
            },
            BatcherEvent::Closed => {
                if self.pending.len() == 0 {
                    BatcherAction::Stop
                } else {
                    BatcherAction::DispatchAndStop(self.take_pending())
                }
            },
        }
    }
}

/// The requests that a run of events brought, in the order of their
/// arrival.
pub open spec fn requests_of(trace: Seq<(Arrival, nat)>) -> Seq<BatchRequest>
    decreases trace.len(),
{
    if trace.len() == 0 {
        Seq::empty()
    } else {
        match trace.last().0 {
            Arrival::Request(r) => requests_of(trace.drop_last()).push(r),
            _ => requests_of(trace.drop_last()),
        }
    }
}

/// The batch that a decision hands out, if it hands one out.
pub open spec fn handed_out(decision: Decision) -> Option<Seq<BatchRequest>> {
    match decision {
        Decision::Dispatch(b) => Some(b),
        Decision::DispatchAndStop(b) => Some(b),
        _ => None,
    }
}

/// The state after a run of timed events, and the batches handed out on
/// the way, in the order in which they were handed out.
pub open spec fn run(state: CoalescerState, trace: Seq<(Arrival, nat)>) -> (
    CoalescerState,
    Seq<Seq<BatchRequest>>,
)
    decreases trace.len(),
{
    if trace.len() == 0 {
        (state, Seq::empty())
    } else {
        let (before, batches) = run(state, trace.drop_last());
        let (after, decision) = before.step(trace.last().0, trace.last().1);
        match handed_out(decision) {
            Some(b) => (after, batches.push(b)),
            None => (after, batches),
        }
    }
}

/// Every event of the run falls in the window that opens at `start`, and
/// the queue is not closed during the run.
pub open spec fn burst(trace: Seq<(Arrival, nat)>, start: nat, window_ms: nat) -> bool {
    forall|i: int|
        0 <= i < trace.len() ==> !((#[trigger] trace[i]).0 is Closed) && start <= trace[i].1
            < start + window_ms
}

/// The number of batches that `n` requests fill when a batch holds `size`.
pub open spec fn batches_for(n: nat, size: nat) -> nat {
    ((n + size - 1) / (size as int)) as nat
}

/// No request is lost, doubled or overtaken: the batches handed out, one
/// after the other, followed by what still waits, are the requests that
/// waited at the start followed by those that arrived, in their order.
pub proof fn lemma_requests_kept_in_order(state: CoalescerState, trace: Seq<(Arrival, nat)>)
    ensures
        run(state, trace).1.flatten() + run(state, trace).0.pending == state.pending + requests_of(
            trace,
        ),
        run(state, trace).0.max_batch_size == state.max_batch_size,
        run(state, trace).0.window_ms == state.window_ms,
    decreases trace.len(),
{
    broadcast use Seq::lemma_flatten_push;

    if trace.len() == 0 {
        assert(Seq::<Seq<BatchRequest>>::empty().flatten() =~= Seq::<BatchRequest>::empty());
        assert(Seq::<BatchRequest>::empty() + state.pending =~= state.pending + requests_of(trace));
    } else {
        lemma_requests_kept_in_order(state, trace.drop_last());
        let (before, batches) = run(state, trace.drop_last());
        let (after, decision) = before.step(trace.last().0, trace.last().1);
        let earlier = state.pending + requests_of(trace.drop_last());
        assert(batches.flatten() + before.pending == earlier);
        match trace.last().0 {
            Arrival::Request(r) => {
                assert(state.pending + requests_of(trace) =~= earlier.push(r));
                assert(run(state, trace).1.flatten() + after.pending =~= (batches.flatten()
                    + before.pending).push(r));
            },
            _ => {
                assert(run(state, trace).1.flatten() + after.pending =~= batches.flatten()
                    + before.pending);
            },
        }
    }
}

/// While a burst lasts, no window runs out: every batch handed out is
/// full, fewer requests wait than fill a batch, and batches and waiting
/// requests together account for every arrival.
pub proof fn lemma_burst_fills_batches(
    state: CoalescerState,
    trace: Seq<(Arrival, nat)>,
    start: nat,
)
    requires
        state.pending.len() == 0,
        state.max_batch_size >= 1,
        burst(trace, start, state.window_ms),
    ensures
        forall|j: int|
            0 <= j < run(state, trace).1.len() ==> (#[trigger] run(state, trace).1[j]).len()
                == state.max_batch_size,
        run(state, trace).0.pending.len() < state.max_batch_size,
        run(state, trace).1.len() * state.max_batch_size + run(state, trace).0.pending.len()
            == requests_of(trace).len(),
        run(state, trace).0.pending.len() > 0 ==> start <= run(state, trace).0.window_start < start
            + state.window_ms,
        run(state, trace).0.max_batch_size == state.max_batch_size,
        run(state, trace).0.window_ms == state.window_ms,
    decreases trace.len(),
{
    if trace.len() > 0 {
        let earlier = trace.drop_last();
        assert forall|i: int| 0 <= i < earlier.len() implies !((#[trigger] earlier[i]).0 is Closed)
            && start <= earlier[i].1 < start + state.window_ms by {
            assert(earlier[i] == trace[i]);
        }
        lemma_burst_fills_batches(state, earlier, start);
        let (before, batches) = run(state, earlier);
        let now = trace.last().1;
        assert(!(trace[trace.len() - 1].0 is Closed) && start <= now < start + state.window_ms);
        let size = state.max_batch_size;
        assert((batches.len() + 1) * size == batches.len() * size + size) by (nonlinear_arith);
    }
}

/// A burst of requests, all of them arriving within one window, is
/// answered in as many batches as the requests fill and no more: the full
/// batches cut while the burst lasts, and one more for what waits when it
/// is over.
pub proof fn lemma_burst_batch_count(
    state: CoalescerState,
    trace: Seq<(Arrival, nat)>,
    start: nat,
)
    requires
        state.pending.len() == 0,
        state.max_batch_size >= 1,
        burst(trace, start, state.window_ms),
    ensures
        run(state, trace).1.len() + (if run(state, trace).0.pending.len() > 0 {
            1nat
        } else {
            0nat
        }) == batches_for(requests_of(trace).len(), state.max_batch_size),
{
    lemma_burst_fills_batches(state, trace, start);
    let full = run(state, trace).1.len() as int;
    let waiting = run(state, trace).0.pending.len() as int;
    let size = state.max_batch_size as int;
    let n = requests_of(trace).len() as int;
    assert(n == full * size + waiting);
    if waiting > 0 {
        assert(n + size - 1 == (full + 1) * size + (waiting - 1)) by (nonlinear_arith)
            requires
                n == full * size + waiting,
        ;
        vstd::arithmetic::div_mod::lemma_fundamental_div_mod_converse(
            n + size - 1,
            size,
            full + 1,
            waiting - 1,
        );
    } else {
        vstd::arithmetic::div_mod::lemma_fundamental_div_mod_converse(
            n + size - 1,
            size,
            full,
            size - 1,
        );
    }
}

} // verus!
