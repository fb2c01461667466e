//! Batch proving: tasks are queued, proved in priority order, and their results collected with
//! timing statistics. Proofs are hash-based stand-ins.
//!
//! A proof is `BLAKE3("arc-batch-proof" || circuit_id || public_inputs || private_inputs)`; it is
//! verified by the tag `BLAKE3("arc-batch-verify" || circuit_id || public_inputs || proof)`.

use vstd::prelude::*;

use crate::clock;
use crate::encoding;
use crate::encoding::{bytes_eq, copy_bytes, push_bytes, push_text, push_u64, read_u64};
use crate::hash;
use crate::hash::blake3_hash;

verus! {

// ---------------------------------------------------------------------------
// Types
// ---------------------------------------------------------------------------

/// Configuration for the batch prover.
#[derive(Debug, Clone)]
pub struct BatchConfig {
    /// Maximum number of tasks in a single batch.
    pub max_batch_size: usize,
    /// Maximum number of proofs that can be generated in parallel.
    pub max_parallel_proofs: usize,
    /// Timeout per proof in milliseconds.
    pub timeout_ms: u64,
    /// Proof system identifier (e.g., "stark", "plonk", "groth16").
    pub proof_type: String,
}

impl Default for BatchConfig {
    fn default() -> (c: Self)
        ensures
            c.max_batch_size == 256,
            c.max_parallel_proofs == 4,
            c.timeout_ms == 30000,
            c.proof_type@ == "stark-mock"@,
    {
        BatchConfig {
            max_batch_size: 256,
            max_parallel_proofs: 4,
            timeout_ms: 30000,
            proof_type: "stark-mock".to_owned(),
        }
    }
}

/// A task submitted to the batch prover.
#[derive(Debug, Clone)]
pub struct ProveTask {
    /// Unique task identifier.
    pub id: [u8; 32],
    /// Identifier of the circuit to prove.
    pub circuit_id: [u8; 32],
    /// Public inputs to the circuit.
    pub public_inputs: Vec<u64>,
    /// Private (witness) inputs to the circuit.
    pub private_inputs: Vec<u64>,
    /// Priority (0 = lowest, 255 = highest). Higher priority tasks are proved first.
    pub priority: u8,
    /// Submission timestamp (unix millis).
    pub submitted_at: u64,
}

/// Status of a prove operation.
#[derive(Debug, PartialEq, Eq)]
pub enum ProveStatus {
    /// The proof verified.
    Success,
    /// The proof did not verify.
    Failed(String),
    /// Proving took too long.
    Timeout,
    /// Proving was called off.
    Cancelled,
}

/// What a status says.
pub enum ProveStatusView {
    Success,
    Failed(Seq<char>),
    Timeout,
    Cancelled,
}

impl View for ProveStatus {
    type V = ProveStatusView;

    open spec fn view(&self) -> ProveStatusView {
        match self {
            ProveStatus::Success => ProveStatusView::Success,
            ProveStatus::Failed(text) => ProveStatusView::Failed(text@),
            ProveStatus::Timeout => ProveStatusView::Timeout,
            ProveStatus::Cancelled => ProveStatusView::Cancelled,
        }
    }
}

impl Clone for ProveStatus {
    fn clone(&self) -> (r: Self)
        ensures
            r@ == self@,
    {
        match self {
            ProveStatus::Success => ProveStatus::Success,
            ProveStatus::Failed(text) => ProveStatus::Failed(text.as_str().to_owned()),
            ProveStatus::Timeout => ProveStatus::Timeout,
            ProveStatus::Cancelled => ProveStatus::Cancelled,
        }
    }
}

/// Result of proving a task.
#[derive(Debug)]
pub struct ProveResult {
    /// The task that was proved.
    pub task_id: [u8; 32],
    /// The generated proof bytes.
    pub proof_data: Vec<u8>,
    /// Public output values (derived from the proof).
    pub public_outputs: Vec<u64>,
    /// Time spent generating the proof in milliseconds.
    pub prove_time_ms: u64,
    /// Time spent verifying the proof in milliseconds.
    pub verify_time_ms: u64,
    /// Outcome status.
    pub status: ProveStatus,
}

/// What a result holds.
pub struct ProveResultView {
    pub task_id: [u8; 32],
    pub proof_data: Seq<u8>,
    pub public_outputs: Seq<u64>,
    pub prove_time_ms: u64,
    pub verify_time_ms: u64,
    pub status: ProveStatusView,
}

impl View for ProveResult {
    type V = ProveResultView;

    open spec fn view(&self) -> ProveResultView {
        ProveResultView {
            task_id: self.task_id,
            proof_data: self.proof_data@,
            public_outputs: self.public_outputs@,
            prove_time_ms: self.prove_time_ms,
            verify_time_ms: self.verify_time_ms,
            status: self.status@,
        }
    }
}

/// A copy of a list of numbers.
fn copy_numbers(items: &Vec<u64>) -> (out: Vec<u64>)
    ensures
        out@ == items@,
{
    let mut out: Vec<u64> = Vec::new();
    let mut i: usize = 0;
    while i < items.len()
        invariant
            i <= items@.len(),
            out@ == items@.subrange(0, i as int),
        decreases items@.len() - i,
    {
        out.push(items[i]);
        i = i + 1;
        assert(out@ =~= items@.subrange(0, i as int));
    }
    assert(out@ =~= items@);
    out
}

impl Clone for ProveResult {
    fn clone(&self) -> (r: Self)
        ensures
            r@ == self@,
    {
        ProveResult {
            task_id: self.task_id,
            proof_data: copy_bytes(self.proof_data.as_slice()),
            public_outputs: copy_numbers(&self.public_outputs),
            prove_time_ms: self.prove_time_ms,
            verify_time_ms: self.verify_time_ms,
            status: self.status.clone(),
        }
    }
}

/// Cumulative statistics for a batch prover instance.
#[derive(Debug, Clone, Copy)]
pub struct ProverStats {
    /// Number of tasks proved.
    pub total_proved: u64,
    /// Number of tasks that failed.
    pub total_failed: u64,
    /// Rolling average of the proving time in milliseconds.
    pub avg_prove_time_ms: u64,
    /// Longest proving time in milliseconds.
    pub peak_prove_time_ms: u64,
    /// Number of proofs verified.
    pub total_verified: u64,
}

impl Default for ProverStats {
    fn default() -> (s: Self)
        ensures
            s == no_stats(),
    {
        ProverStats {
            total_proved: 0,
            total_failed: 0,
            avg_prove_time_ms: 0,
            peak_prove_time_ms: 0,
            total_verified: 0,
        }
    }
}

/// The statistics of a prover that has proved nothing.
pub open spec fn no_stats() -> ProverStats {
    ProverStats {
        total_proved: 0,
        total_failed: 0,
        avg_prove_time_ms: 0,
        peak_prove_time_ms: 0,
        total_verified: 0,
    }
}

// ---------------------------------------------------------------------------
// Stand-in proofs
// ---------------------------------------------------------------------------

/// The first `n` numbers of a list as 64-bit little-endian integers, one after the other.
pub open spec fn packed_numbers(s: Seq<u64>, n: nat) -> Seq<u8>
    decreases n,
{
    if n == 0 {
        Seq::empty()
    } else {
        packed_numbers(s, (n - 1) as nat) + encoding::le_bytes(s[n - 1] as nat, 8)
    }
}

/// Appends numbers as 64-bit little-endian integers.
fn push_numbers(out: &mut Vec<u8>, values: &[u64])
    ensures
        final(out)@ == old(out)@ + packed_numbers(values@, values@.len()),
{
    let ghost before = out@;
    let mut i: usize = 0;
    assert(out@ =~= before + packed_numbers(values@, 0));
    while i < values.len()
        invariant
            i <= values.len(),
            out@ == before + packed_numbers(values@, i as nat),
        decreases values.len() - i,
    {
        push_u64(out, values[i]);
        i = i + 1;
        assert(out@ =~= before + packed_numbers(values@, i as nat));
    }
}

/// The proof of a task.
pub open spec fn task_proof(task: ProveTask) -> Seq<u8> {
    hash::blake3_digest(proof_input(task))
}

/// What the proof of a task hashes: its circuit and all its inputs.
pub open spec fn proof_input(task: ProveTask) -> Seq<u8> {
    encoding::text_bytes("arc-batch-proof"@) + task.circuit_id@ + packed_numbers(
        task.public_inputs@,
        task.public_inputs@.len(),
    ) + packed_numbers(task.private_inputs@, task.private_inputs@.len())
}

/// The tag by which a proof is verified.
pub open spec fn verify_tag(circuit_id: Seq<u8>, public_inputs: Seq<u64>, data: Seq<u8>) -> Seq<
    u8,
> {
    hash::blake3_digest(tag_input(circuit_id, public_inputs, data))
}

/// What the tag of a proof hashes: the circuit, all public inputs and the proof.
pub open spec fn tag_input(circuit_id: Seq<u8>, public_inputs: Seq<u64>, data: Seq<u8>) -> Seq<
    u8,
> {
    encoding::text_bytes("arc-batch-verify"@) + circuit_id + packed_numbers(
        public_inputs,
        public_inputs.len(),
    ) + data
}

/// Generates the proof of a task.
pub fn generate_mock_proof(task: &ProveTask) -> (r: Vec<u8>)
    ensures
        r@ == task_proof(*task),
        r@.len() == 32,
{
    let mut data: Vec<u8> = Vec::new();
    push_text(&mut data, "arc-batch-proof");
    push_bytes(&mut data, &task.circuit_id);
    push_numbers(&mut data, task.public_inputs.as_slice());
    push_numbers(&mut data, task.private_inputs.as_slice());
    assert(data@ =~= encoding::text_bytes("arc-batch-proof"@) + task.circuit_id@ + packed_numbers(
        task.public_inputs@,
        task.public_inputs@.len(),
    ) + packed_numbers(task.private_inputs@, task.private_inputs@.len()));
    let digest: [u8; 32] = blake3_hash(data.as_slice());
    copy_bytes(&digest)
}

/// Computes the tag by which a proof is verified.
pub fn compute_verify_tag(circuit_id: &[u8; 32], public_inputs: &[u64], data: &[u8]) -> (r:
    [u8; 32])
    ensures
        r@ == verify_tag(circuit_id@, public_inputs@, data@),
{
    let mut bytes: Vec<u8> = Vec::new();
    push_text(&mut bytes, "arc-batch-verify");
    push_bytes(&mut bytes, circuit_id);
    push_numbers(&mut bytes, public_inputs);
    push_bytes(&mut bytes, data);
    assert(bytes@ =~= encoding::text_bytes("arc-batch-verify"@) + circuit_id@ + packed_numbers(
        public_inputs@,
        public_inputs@.len(),
    ) + data@);
    blake3_hash(bytes.as_slice())
}

/// Verifies a proof: it must have the expected tag.
pub fn verify_mock_proof(
    circuit_id: &[u8; 32],
    public_inputs: &[u64],
    data: &[u8],
    expected_tag: &[u8; 32],
) -> (r: bool)
    ensures
        r == (verify_tag(circuit_id@, public_inputs@, data@) == expected_tag@),
{
    let tag: [u8; 32] = compute_verify_tag(circuit_id, public_inputs, data);
    bytes_eq(&tag, expected_tag)
}

// ---------------------------------------------------------------------------
// Order of proving
// ---------------------------------------------------------------------------

/// Whether task `i` is the next to be proved: none has a higher priority, and among those of
/// its priority it was submitted first.
pub open spec fn is_next(queue: Seq<ProveTask>, i: int) -> bool {
    &&& 0 <= i < queue.len()
    &&& forall|k: int| 0 <= k < queue.len() ==> (#[trigger] queue[k]).priority <= queue[i].priority
    &&& forall|k: int| 0 <= k < i ==> (#[trigger] queue[k]).priority < queue[i].priority
}

/// The next task to be proved.
pub open spec fn next_index(queue: Seq<ProveTask>) -> int {
    choose|i: int| is_next(queue, i)
}

/// A queue has one next task.
proof fn lemma_next_is_single(queue: Seq<ProveTask>, i: int)
    requires
        is_next(queue, i),
    ensures
        next_index(queue) == i,
{
    let j = next_index(queue);
    assert(is_next(queue, j));
    if i < j {
        assert(queue[i].priority < queue[j].priority);
    } else if j < i {
        assert(queue[j].priority < queue[i].priority);
    }
}

/// The queue after `n` tasks are proved.
pub open spec fn after_proving(queue: Seq<ProveTask>, n: nat) -> Seq<ProveTask>
    decreases n,
{
    if n == 0 {
        queue
    } else {
        let before = after_proving(queue, (n - 1) as nat);
        before.remove(next_index(before))
    }
}

/// The task that is proved after `n` others.
pub open spec fn nth_proved(queue: Seq<ProveTask>, n: nat) -> ProveTask {
    let before = after_proving(queue, n);
    before[next_index(before)]
}

/// A queue with tasks has a next task.
pub proof fn law_a_queue_has_a_next_task(queue: Seq<ProveTask>)
    requires
        queue.len() > 0,
    ensures
        is_next(queue, next_index(queue)),
    decreases queue.len(),
{
    let last = queue.len() - 1;
    let init = queue.subrange(0, last);
    if last == 0 {
        assert(is_next(queue, 0));
    } else {
        law_a_queue_has_a_next_task(init);
        let j = next_index(init);
        assert forall|k: int| 0 <= k < last implies queue[k] == #[trigger] init[k] by {}
        if queue[last].priority > queue[j].priority {
            assert forall|k: int| 0 <= k < queue.len() implies (#[trigger] queue[k]).priority
                <= queue[last].priority && (k < last ==> queue[k].priority
                < queue[last].priority) by {
                if k < last {
                    assert(init[k].priority <= init[j].priority);
                }
            }
            assert(is_next(queue, last));
        } else {
            assert forall|k: int| 0 <= k < queue.len() implies (#[trigger] queue[k]).priority
                <= queue[j].priority && (k < j ==> queue[k].priority < queue[j].priority) by {
                if k < last {
                    assert(init[k].priority <= init[j].priority);
                }
            }
            assert(is_next(queue, j));
        }
    }
}

/// Proving takes one task after the other out of the queue.
proof fn lemma_after_proving_len(queue: Seq<ProveTask>, n: nat)
    requires
        n <= queue.len(),
    ensures
        after_proving(queue, n).len() == queue.len() - n,
    decreases n,
{
    if n > 0 {
        lemma_after_proving_len(queue, (n - 1) as nat);
        law_a_queue_has_a_next_task(after_proving(queue, (n - 1) as nat));
    }
}

/// No task that is left has a higher priority than one that was proved.
proof fn lemma_left_is_lower(queue: Seq<ProveTask>, a: nat, b: nat, k: int)
    requires
        a <= b < queue.len(),
        0 <= k < queue.len() - b,
    ensures
        after_proving(queue, b)[k].priority <= nth_proved(queue, a).priority,
    decreases b,
{
    lemma_after_proving_len(queue, a);
    lemma_after_proving_len(queue, b);
    let before = after_proving(queue, a);
    law_a_queue_has_a_next_task(before);
    if a == b {
        assert(before[k].priority <= before[next_index(before)].priority);
    } else {
        let prior = after_proving(queue, (b - 1) as nat);
        lemma_after_proving_len(queue, (b - 1) as nat);
        law_a_queue_has_a_next_task(prior);
        let j = next_index(prior);
        if k < j {
            lemma_left_is_lower(queue, a, (b - 1) as nat, k);
            assert(prior.remove(j)[k] == prior[k]);
        } else {
            lemma_left_is_lower(queue, a, (b - 1) as nat, k + 1);
            assert(prior.remove(j)[k] == prior[k + 1]);
        }
    }
}

/// Tasks are proved in the order of their priority, highest first.
pub proof fn law_tasks_are_proved_in_priority_order(queue: Seq<ProveTask>, a: nat, b: nat)
    requires
        a <= b < queue.len(),
    ensures
        nth_proved(queue, a).priority >= nth_proved(queue, b).priority,
{
    let left = after_proving(queue, b);
    lemma_after_proving_len(queue, b);
    law_a_queue_has_a_next_task(left);
    lemma_left_is_lower(queue, a, b, next_index(left));
}

/// The public outputs of a proof: its hash as four 64-bit numbers.
pub open spec fn outputs_of(data: Seq<u8>) -> Seq<u64> {
    let digest = hash::blake3_digest(encoding::text_bytes("arc-batch-output"@) + data);
    Seq::new(4, |i: int| encoding::le_value(digest.subrange(8 * i, 8 * i + 8)) as u64)
}

/// Whether a result is that of a task.
pub open spec fn is_result_of(r: ProveResultView, task: ProveTask) -> bool {
    &&& r.task_id == task.id
    &&& r.proof_data == task_proof(task)
    &&& r.public_outputs == outputs_of(task_proof(task))
    &&& r.status == ProveStatusView::Success
}

/// The statistics after a proof that took the given time.
pub open spec fn stats_after(s: ProverStats, prove_time_ms: u64) -> ProverStats {
    let n = s.total_proved + 1 + s.total_failed;
    ProverStats {
        total_proved: (s.total_proved + 1) as u64,
        total_failed: s.total_failed,
        avg_prove_time_ms: ((s.avg_prove_time_ms * (n - 1) + prove_time_ms) / n) as u64,
        peak_prove_time_ms: if prove_time_ms > s.peak_prove_time_ms {
            prove_time_ms
        } else {
            s.peak_prove_time_ms
        },
        total_verified: (s.total_verified + 1) as u64,
    }
}

/// The statistics after the first `n` of the given results.
pub open spec fn stats_after_all(s: ProverStats, results: Seq<ProveResultView>, n: nat) -> ProverStats
    decreases n,
{
    if n == 0 {
        s
    } else {
        stats_after(
            stats_after_all(s, results, (n - 1) as nat),
            results[n - 1].prove_time_ms,
        )
    }
}

/// What results hold.
pub open spec fn result_views(v: Seq<ProveResult>) -> Seq<ProveResultView> {
    v.map_values(|r: ProveResult| r@)
}

/// Whether `k` more proofs can be counted.
pub open spec fn can_count(s: ProverStats, k: nat) -> bool {
    s.total_proved + s.total_failed + k <= u64::MAX && s.total_verified + k <= u64::MAX
}

/// The milliseconds since a moment. They depend on the time alone, so that nothing is promised of
/// them.
fn millis_since(start: &std::time::Instant) -> (ms: u64) {
    let spent: std::time::Duration = clock::elapsed(start);
    clock::low_word(clock::as_millis(&spent))
}

/// The rolling average after one more value.
fn rolling_average(avg: u64, n: u64, value: u64) -> (r: u64)
    requires
        n >= 1,
    ensures
        r == (avg * (n - 1) + value) / n as int,
{
    proof {
        assert(avg * (n - 1) + value <= u64::MAX * n) by (nonlinear_arith)
            requires
                n >= 1,
                0 <= avg <= u64::MAX,
                0 <= value <= u64::MAX,
        ;
        assert(0 <= avg * (n - 1) <= u64::MAX * u64::MAX) by (nonlinear_arith)
            requires
                1 <= n <= u64::MAX,
                0 <= avg <= u64::MAX,
        ;
        assert(u64::MAX * u64::MAX + u64::MAX <= u128::MAX) by (nonlinear_arith);
        assert((avg * (n - 1) + value) / n as int <= u64::MAX) by (nonlinear_arith)
            requires
                n >= 1,
                avg * (n - 1) + value <= u64::MAX * n,
        ;
    }
    ((avg as u128 * (n - 1) as u128 + value as u128) / n as u128) as u64
}

/// The batch prover: queues tasks, generates proofs, and tracks statistics.
pub struct BatchProver {
    /// Configuration.
    pub config: BatchConfig,
    queue: Vec<ProveTask>,
    completed: Vec<ProveResult>,
    stats: ProverStats,
}

impl BatchProver {
    /// The configuration.
    pub closed spec fn settings(&self) -> BatchConfig {
        self.config
    }

    /// The tasks that wait, in the order of submission.
    pub closed spec fn waiting(&self) -> Seq<ProveTask> {
        self.queue@
    }

    /// The results that have not been drained, oldest first.
    pub closed spec fn results(&self) -> Seq<ProveResultView> {
        result_views(self.completed@)
    }

    /// The statistics.
    pub closed spec fn totals(&self) -> ProverStats {
        self.stats
    }

    /// Creates a new batch prover with the given configuration.
    pub fn new(config: BatchConfig) -> (p: Self)
        ensures
            p.settings() == config,
            p.waiting() == Seq::<ProveTask>::empty(),
            p.results() == Seq::<ProveResultView>::empty(),
            p.totals() == no_stats(),
    {
        let p: BatchProver = BatchProver {
            config,
            queue: Vec::new(),
            completed: Vec::new(),
            stats: ProverStats::default(),
        };
        assert(p.results() =~= Seq::<ProveResultView>::empty());
        p
    }

    /// Submits a task to the proving queue. Returns the task ID.
    pub fn submit(&mut self, task: ProveTask) -> (id: [u8; 32])
        ensures
            id == task.id,
            completes(*old(self), Seq::<ProveResultView>::empty(), *final(self)),
            final(self).waiting() == old(self).waiting().push(task),
            final(self).results() == old(self).results(),
            final(self).totals() == old(self).totals(),
            final(self).settings() == old(self).settings(),
    {
        let id: [u8; 32] = task.id;
        self.queue.push(task);
        assert(self.results() + Seq::<ProveResultView>::empty() =~= self.results());
        id
    }

    /// The next task to be proved.
    fn find_next(&self) -> (best: usize)
        requires
            self.waiting().len() > 0,
        ensures
            is_next(self.waiting(), best as int),
    {
        let mut best: usize = 0;
        let mut i: usize = 1;
        while i < self.queue.len()
            invariant
                0 <= best < i <= self.queue@.len(),
                forall|k: int|
                    0 <= k < i ==> (#[trigger] self.queue@[k]).priority
                        <= self.queue@[best as int].priority,
                forall|k: int|
                    0 <= k < best ==> (#[trigger] self.queue@[k]).priority
                        < self.queue@[best as int].priority,
            decreases self.queue@.len() - i,
        {
            if self.queue[i].priority > self.queue[best].priority {
                best = i;
            }
            i = i + 1;
        }
        best
    }

    /// Proves the pending task of the highest priority; among equals, the one submitted first.
    ///
    /// Returns `None` if the queue is empty.
    pub fn prove_next(&mut self) -> (r: Option<ProveResult>)
        requires
            old(self).waiting().len() > 0 ==> can_count(old(self).totals(), 1),
        ensures
            final(self).settings() == old(self).settings(),
            completes(
                *old(self),
                match r {
                    None => Seq::empty(),
                    Some(result) => seq![result@],
                },
                *final(self),
            ),
            match r {
                None => {
                    &&& old(self).waiting().len() == 0
                    &&& *final(self) == *old(self)
                },
                Some(result) => {
                    &&& old(self).waiting().len() > 0
                    &&& is_result_of(result@, nth_proved(old(self).waiting(), 0))
                    &&& final(self).waiting() == after_proving(old(self).waiting(), 1)
                    &&& final(self).results() == old(self).results().push(result@)
                    &&& final(self).totals() == stats_after(
                        old(self).totals(),
                        result.prove_time_ms,
                    )
                },
            },
    {
        if self.queue.len() == 0 {
            assert(self.results() + Seq::<ProveResultView>::empty() =~= self.results());
            return None;
        }
        let best: usize = self.find_next();
        proof {
            lemma_next_is_single(self.queue@, best as int);
            reveal_with_fuel(after_proving, 2);
        }
        let task: ProveTask = self.queue.remove(best);
        let result: ProveResult = self.prove_task(&task);
        let ghost before = self.completed@;
        self.completed.push(result.clone());
        assert(result_views(self.completed@) =~= result_views(before).push(result@));
        assert(self.results() =~= result_views(before) + seq![result@]);
        Some(result)
    }

    /// Proves up to `max` tasks from the queue in priority order.
    pub fn prove_batch(&mut self, max: usize) -> (r: Vec<ProveResult>)
        requires
            can_count(
                old(self).totals(),
                if max <= old(self).waiting().len() {
                    max as nat
                } else {
                    old(self).waiting().len()
                },
            ),
        ensures
            final(self).settings() == old(self).settings(),
            r@.len() == if max <= old(self).waiting().len() {
                max as nat
            } else {
                old(self).waiting().len()
            },
            forall|i: int|
                0 <= i < r@.len() ==> is_result_of(
                    (#[trigger] r@[i])@,
                    nth_proved(old(self).waiting(), i as nat),
                ),
            final(self).waiting() == after_proving(old(self).waiting(), r@.len()),
            final(self).waiting().len() == old(self).waiting().len() - r@.len(),
            completes(*old(self), result_views(r@), *final(self)),
            final(self).totals() == stats_after_all(
                old(self).totals(),
                result_views(r@),
                r@.len(),
            ),
    {
        let ghost start = self.waiting();
        let ghost begun = self.totals();
        let ghost done = self.results();
        let count: usize = if max <= self.queue.len() {
            max
        } else {
            self.queue.len()
        };
        let mut results: Vec<ProveResult> = Vec::new();
        assert(self.results() =~= done + result_views(results@));
        let mut i: usize = 0;
        while i < count
            invariant
                i <= count,
                count <= start.len(),
                results@.len() == i,
                self.settings() == old(self).settings(),
                can_count(begun, count as nat),
                self.waiting() == after_proving(start, i as nat),
                self.waiting().len() == start.len() - i,
                self.results() == done + result_views(results@),
                self.totals() == stats_after_all(begun, result_views(results@), i as nat),
                self.totals().total_proved == begun.total_proved + i,
                self.totals().total_failed == begun.total_failed,
                self.totals().total_verified == begun.total_verified + i,
                forall|k: int|
                    0 <= k < i ==> is_result_of(
                        (#[trigger] results@[k])@,
                        nth_proved(start, k as nat),
                    ),
            decreases count - i,
        {
            let ghost queue = self.waiting();
            proof {
                reveal_with_fuel(after_proving, 2);
                law_a_queue_has_a_next_task(queue);
            }
            let next: Option<ProveResult> = self.prove_next();
            if let Some(result) = next {
                let ghost before = results@;
                results.push(result);
                proof {
                    assert(after_proving(queue, 0) == queue);
                    assert(result_views(results@) =~= result_views(before).push(result@));
                    assert(self.results() =~= done + result_views(results@));
                    lemma_stats_prefix(
                        begun,
                        result_views(before),
                        result_views(results@),
                        i as nat,
                    );
                }
            }
            i = i + 1;
        }
        results
    }

    /// Takes all completed results out of the prover.
    pub fn drain_completed(&mut self) -> (r: Vec<ProveResult>)
        ensures
            drains(*old(self), result_views(r@), *final(self)),
    {
        let mut r: Vec<ProveResult> = Vec::new();
        std::mem::swap(&mut r, &mut self.completed);
        assert(self.results() =~= Seq::<ProveResultView>::empty());
        r
    }

    /// Number of tasks waiting in the queue.
    pub fn pending_count(&self) -> (n: usize)
        ensures
            n == self.waiting().len(),
    {
        self.queue.len()
    }

    /// Cumulative prover statistics.
    pub fn stats(&self) -> (s: &ProverStats)
        ensures
            *s == self.totals(),
    {
        &self.stats
    }

    /// Proves a single task and updates the statistics.
    fn prove_task(&mut self, task: &ProveTask) -> (r: ProveResult)
        requires
            can_count(old(self).totals(), 1),
        ensures
            is_result_of(r@, *task),
            final(self).settings() == old(self).settings(),
            final(self).waiting() == old(self).waiting(),
            final(self).results() == old(self).results(),
            final(self).totals() == stats_after(old(self).totals(), r.prove_time_ms),
    {
        let start: std::time::Instant = clock::now();
        let data: Vec<u8> = generate_mock_proof(task);
        let prove_time_ms: u64 = millis_since(&start);
        let verify_start: std::time::Instant = clock::now();
        let tag: [u8; 32] = compute_verify_tag(
            &task.circuit_id,
            task.public_inputs.as_slice(),
            data.as_slice(),
        );
        let verified: bool = verify_mock_proof(
            &task.circuit_id,
            task.public_inputs.as_slice(),
            data.as_slice(),
            &tag,
        );
        let verify_time_ms: u64 = millis_since(&verify_start);
        let status: ProveStatus = if verified {
            self.stats.total_proved = self.stats.total_proved + 1;
            self.stats.total_verified = self.stats.total_verified + 1;
            ProveStatus::Success
        } else {
            self.stats.total_failed = self.stats.total_failed + 1;
            ProveStatus::Failed("verification mismatch".to_owned())
        };
        if prove_time_ms > self.stats.peak_prove_time_ms {
            self.stats.peak_prove_time_ms = prove_time_ms;
        }
        let total: u64 = self.stats.total_proved + self.stats.total_failed;
        self.stats.avg_prove_time_ms = rolling_average(
            self.stats.avg_prove_time_ms,
            total,
            prove_time_ms,
        );
        let public_outputs: Vec<u64> = public_outputs_of(data.as_slice());
        ProveResult {
            task_id: task.id,
            proof_data: data,
            public_outputs,
            prove_time_ms,
            verify_time_ms,
            status,
        }
    }
}

/// Whether a call that returns results keeps them, after those of the calls before it.
pub open spec fn completes(
    before: BatchProver,
    returned: Seq<ProveResultView>,
    after: BatchProver,
) -> bool {
    after.results() == before.results() + returned
}

/// What draining a prover returns and leaves.
pub open spec fn drains(
    before: BatchProver,
    drained: Seq<ProveResultView>,
    after: BatchProver,
) -> bool {
    &&& drained == before.results()
    &&& after.results() == Seq::<ProveResultView>::empty()
    &&& after.waiting() == before.waiting()
    &&& after.totals() == before.totals()
    &&& after.settings() == before.settings()
}

/// What the first `n` calls returned, one after the other.
pub open spec fn returned_by(
    returned: Seq<Seq<ProveResultView>>,
    n: nat,
) -> Seq<ProveResultView>
    decreases n,
{
    if n == 0 {
        Seq::empty()
    } else {
        returned_by(returned, (n - 1) as nat) + returned[n - 1]
    }
}

/// A drain returns the results of all calls since the prover was made or last drained, in order.
/// Another drain right after it returns none. Neither changes what waits or the statistics.
pub proof fn law_a_drain_returns_all_results(
    provers: Seq<BatchProver>,
    returned: Seq<Seq<ProveResultView>>,
    drained: Seq<ProveResultView>,
    after: BatchProver,
    again: Seq<ProveResultView>,
    last: BatchProver,
)
    requires
        provers.len() == returned.len() + 1,
        provers[0].results() == Seq::<ProveResultView>::empty(),
        forall|i: int|
            #![trigger returned[i]]
            0 <= i < returned.len() ==> completes(provers[i], returned[i], provers[i + 1]),
        drains(provers.last(), drained, after),
        drains(after, again, last),
    ensures
        drained == returned_by(returned, returned.len()),
        again == Seq::<ProveResultView>::empty(),
        last.waiting() == provers.last().waiting(),
        last.totals() == provers.last().totals(),
{
    lemma_results_add_up(provers, returned, returned.len());
}

proof fn lemma_results_add_up(
    provers: Seq<BatchProver>,
    returned: Seq<Seq<ProveResultView>>,
    n: nat,
)
    requires
        provers.len() == returned.len() + 1,
        n <= returned.len(),
        provers[0].results() == Seq::<ProveResultView>::empty(),
        forall|i: int|
            #![trigger returned[i]]
            0 <= i < returned.len() ==> completes(provers[i], returned[i], provers[i + 1]),
    ensures
        provers[n as int].results() == returned_by(returned, n),
    decreases n,
{
    if n > 0 {
        lemma_results_add_up(provers, returned, (n - 1) as nat);
        assert(completes(provers[n - 1], returned[n - 1], provers[n as int]));
    }
}

/// Computes the public outputs of a proof.
fn public_outputs_of(data: &[u8]) -> (out: Vec<u64>)
    ensures
        out@ == outputs_of(data@),
{
    let mut bytes: Vec<u8> = Vec::new();
    push_text(&mut bytes, "arc-batch-output");
    push_bytes(&mut bytes, data);
    assert(bytes@ =~= encoding::text_bytes("arc-batch-output"@) + data@);
    let digest: [u8; 32] = blake3_hash(bytes.as_slice());
    let mut out: Vec<u64> = Vec::new();
    let mut i: usize = 0;
    while i < 4
        invariant
            i <= 4,
            out@.len() == i,
            forall|k: int|
                0 <= k < i ==> #[trigger] out@[k] == encoding::le_value(
                    digest@.subrange(8 * k, 8 * k + 8),
                ),
        decreases 4 - i,
    {
        out.push(read_u64(vstd::slice::slice_subrange(&digest, 8 * i, 8 * i + 8)));
        i = i + 1;
    }
    assert(out@ =~= outputs_of(data@));
    out
}

/// Statistics depend on the results that they count alone.
proof fn lemma_stats_prefix(
    s: ProverStats,
    a: Seq<ProveResultView>,
    b: Seq<ProveResultView>,
    n: nat,
)
    requires
        n <= a.len(),
        n <= b.len(),
        forall|i: int| 0 <= i < n ==> a[i] == b[i],
    ensures
        stats_after_all(s, a, n) == stats_after_all(s, b, n),
    decreases n,
{
    if n > 0 {
        lemma_stats_prefix(s, a, b, (n - 1) as nat);
    }
}

/// The identifier of a name under a label.
pub open spec fn labelled_id(label: Seq<char>, name: Seq<char>) -> Seq<u8> {
    hash::blake3_digest(encoding::text_bytes(label) + encoding::text_bytes(name))
}

/// Creates a task ID from a seed string.
pub fn task_id_from_seed(seed: &str) -> (r: [u8; 32])
    ensures
        r@ == labelled_id("arc-task-id"@, seed@),
{
    let mut data: Vec<u8> = Vec::new();
    push_text(&mut data, "arc-task-id");
    push_text(&mut data, seed);
    assert(data@ =~= encoding::text_bytes("arc-task-id"@) + encoding::text_bytes(seed@));
    blake3_hash(data.as_slice())
}

/// Creates a circuit ID from a name.
pub fn circuit_id_from_name(name: &str) -> (r: [u8; 32])
    ensures
        r@ == labelled_id("arc-circuit-id"@, name@),
{
    let mut data: Vec<u8> = Vec::new();
    push_text(&mut data, "arc-circuit-id");
    push_text(&mut data, name);
    assert(data@ =~= encoding::text_bytes("arc-circuit-id"@) + encoding::text_bytes(name@));
    blake3_hash(data.as_slice())
}

// ---------------------------------------------------------------------------
// What proofs and tags bind
// ---------------------------------------------------------------------------

/// Packed numbers take eight bytes each, and hold the little-endian form of every number in its
/// place.
pub proof fn law_packed_numbers_hold_every_number(s: Seq<u64>, n: nat)
    requires
        n <= s.len(),
    ensures
        packed_numbers(s, n).len() == 8 * n,
        forall|i: int|
            0 <= i < n ==> packed_numbers(s, n).subrange(8 * i, 8 * i + 8) == encoding::le_bytes(
                #[trigger] s[i] as nat,
                8,
            ),
    decreases n,
{
    if n > 0 {
        let before = packed_numbers(s, (n - 1) as nat);
        let all = packed_numbers(s, n);
        law_packed_numbers_hold_every_number(s, (n - 1) as nat);
        encoding::lemma_le_u64_roundtrip(s[n - 1]);
        assert forall|i: int| 0 <= i < n implies all.subrange(8 * i, 8 * i + 8)
            == encoding::le_bytes(#[trigger] s[i] as nat, 8) by {
            if i < n - 1 {
                assert(all.subrange(8 * i, 8 * i + 8) =~= before.subrange(8 * i, 8 * i + 8));
            } else {
                assert(all.subrange(8 * i, 8 * i + 8) =~= encoding::le_bytes(s[i] as nat, 8));
            }
        }
    }
}

/// Lists of numbers with the same packed form are the same.
pub proof fn law_packed_numbers_are_injective(a: Seq<u64>, b: Seq<u64>)
    ensures
        packed_numbers(a, a.len()) == packed_numbers(b, b.len()) <==> a == b,
{
    law_packed_numbers_hold_every_number(a, a.len());
    law_packed_numbers_hold_every_number(b, b.len());
    if packed_numbers(a, a.len()) == packed_numbers(b, b.len()) {
        assert forall|i: int| 0 <= i < a.len() implies a[i] == b[i] by {
            let part = packed_numbers(a, a.len()).subrange(8 * i, 8 * i + 8);
            assert(part == encoding::le_bytes(a[i] as nat, 8));
            assert(part == encoding::le_bytes(b[i] as nat, 8));
            encoding::law_le_u64_injective(a[i], b[i]);
        }
        assert(a =~= b);
    }
}

/// Packing two lists one after the other is packing them as one.
pub proof fn law_packing_joins(a: Seq<u64>, b: Seq<u64>, n: nat)
    requires
        n <= b.len(),
    ensures
        packed_numbers(a + b, a.len() + n) == packed_numbers(a, a.len()) + packed_numbers(b, n),
    decreases n,
{
    if n == 0 {
        lemma_packed_prefix(a + b, a, a.len());
        assert(packed_numbers(a, a.len()) + Seq::<u8>::empty() =~= packed_numbers(a, a.len()));
    } else {
        law_packing_joins(a, b, (n - 1) as nat);
        assert((a + b)[a.len() + n - 1] == b[n - 1]);
        assert(packed_numbers(a + b, a.len() + n) =~= packed_numbers(a, a.len()) + packed_numbers(
            b,
            n,
        ));
    }
}

proof fn lemma_packed_prefix(a: Seq<u64>, b: Seq<u64>, n: nat)
    requires
        n <= a.len(),
        n <= b.len(),
        forall|i: int| 0 <= i < n ==> a[i] == b[i],
    ensures
        packed_numbers(a, n) == packed_numbers(b, n),
    decreases n,
{
    if n > 0 {
        lemma_packed_prefix(a, b, (n - 1) as nat);
    }
}

/// The proof of a task belongs to one circuit and one list of public and private inputs alone,
/// unless the digests of what is hashed collide.
pub proof fn law_proofs_bind_circuit_and_inputs(a: ProveTask, b: ProveTask)
    requires
        task_proof(a) == task_proof(b),
    ensures
        ({
            &&& a.circuit_id@ == b.circuit_id@
            &&& a.public_inputs@ + a.private_inputs@ == b.public_inputs@ + b.private_inputs@
            &&& a.public_inputs@.len() == b.public_inputs@.len() ==> a.public_inputs@
                == b.public_inputs@ && a.private_inputs@ == b.private_inputs@
        }) || hash::collides(proof_input(a), proof_input(b)),
{
    if proof_input(a) == proof_input(b) {
        let label = encoding::text_bytes("arc-batch-proof"@);
        let xa = a.public_inputs@ + a.private_inputs@;
        let xb = b.public_inputs@ + b.private_inputs@;
        law_packing_joins(a.public_inputs@, a.private_inputs@, a.private_inputs@.len());
        law_packing_joins(b.public_inputs@, b.private_inputs@, b.private_inputs@.len());
        assert(proof_input(a) =~= label + a.circuit_id@ + packed_numbers(xa, xa.len()));
        assert(proof_input(b) =~= label + b.circuit_id@ + packed_numbers(xb, xb.len()));
        encoding::lemma_split(
            label + a.circuit_id@,
            packed_numbers(xa, xa.len()),
            label + b.circuit_id@,
            packed_numbers(xb, xb.len()),
        );
        encoding::lemma_split(label, a.circuit_id@, label, b.circuit_id@);
        law_packed_numbers_are_injective(xa, xb);
        if a.public_inputs@.len() == b.public_inputs@.len() {
            encoding::lemma_split(
                a.public_inputs@,
                a.private_inputs@,
                b.public_inputs@,
                b.private_inputs@,
            );
        }
    }
}

/// A tag belongs to one circuit and one list of public inputs: a proof that verifies with a tag for
/// two lists of public inputs has the same public inputs in both, unless the digests of what is
/// hashed collide.
pub proof fn law_tags_bind_circuit_and_public_inputs(
    circuit_a: Seq<u8>,
    public_a: Seq<u64>,
    circuit_b: Seq<u8>,
    public_b: Seq<u64>,
    data: Seq<u8>,
)
    requires
        circuit_a.len() == circuit_b.len(),
        verify_tag(circuit_a, public_a, data) == verify_tag(circuit_b, public_b, data),
    ensures
        (circuit_a == circuit_b && public_a == public_b) || hash::collides(
            tag_input(circuit_a, public_a, data),
            tag_input(circuit_b, public_b, data),
        ),
{
    if tag_input(circuit_a, public_a, data) == tag_input(circuit_b, public_b, data) {
        let label = encoding::text_bytes("arc-batch-verify"@);
        let pa = packed_numbers(public_a, public_a.len());
        let pb = packed_numbers(public_b, public_b.len());
        assert((label + circuit_a + pa + data).len() == label.len() + circuit_a.len() + pa.len()
            + data.len());
        assert((label + circuit_b + pb + data).len() == label.len() + circuit_b.len() + pb.len()
            + data.len());
        encoding::lemma_split(label + circuit_a + pa, data, label + circuit_b + pb, data);
        encoding::lemma_split(label + circuit_a, pa, label + circuit_b, pb);
        encoding::lemma_split(label, circuit_a, label, circuit_b);
        law_packed_numbers_are_injective(public_a, public_b);
    }
}

/// A tag belongs to one proof, for one circuit and one list of public inputs, unless the digests of
/// what is hashed collide.
pub proof fn law_tags_bind_proofs(
    circuit_id: Seq<u8>,
    public_inputs: Seq<u64>,
    data_a: Seq<u8>,
    data_b: Seq<u8>,
)
    requires
        verify_tag(circuit_id, public_inputs, data_a) == verify_tag(
            circuit_id,
            public_inputs,
            data_b,
        ),
    ensures
        data_a == data_b || hash::collides(
            tag_input(circuit_id, public_inputs, data_a),
            tag_input(circuit_id, public_inputs, data_b),
        ),
{
    if tag_input(circuit_id, public_inputs, data_a) == tag_input(circuit_id, public_inputs, data_b) {
        let head = encoding::text_bytes("arc-batch-verify"@) + circuit_id + packed_numbers(
            public_inputs,
            public_inputs.len(),
        );
        encoding::lemma_split(head, data_a, head, data_b);
    }
}

/// The public outputs spell the whole digest of the proof under its label.
pub proof fn law_outputs_spell_a_digest(data: Seq<u8>)
    requires
        hash::blake3_digest(encoding::text_bytes("arc-batch-output"@) + data).len() == 32,
    ensures
        outputs_of(data).len() == 4,
        packed_numbers(outputs_of(data), 4) == hash::blake3_digest(
            encoding::text_bytes("arc-batch-output"@) + data,
        ),
{
    let digest = hash::blake3_digest(encoding::text_bytes("arc-batch-output"@) + data);
    let out = outputs_of(data);
    law_packed_numbers_hold_every_number(out, 4);
    assert forall|k: int| 0 <= k < 32 implies packed_numbers(out, 4)[k] == digest[k] by {
        let i = k / 8;
        let part = digest.subrange(8 * i, 8 * i + 8);
        encoding::lemma_le_value(part);
        encoding::lemma_le_value_u64(part);
        assert(out[i] == encoding::le_value(part));
        assert(packed_numbers(out, 4).subrange(8 * i, 8 * i + 8) == part);
        assert(packed_numbers(out, 4)[k] == packed_numbers(out, 4).subrange(8 * i, 8 * i + 8)[k - 8
            * i]);
        assert(digest[k] == part[k - 8 * i]);
    }
    assert(packed_numbers(out, 4) =~= digest);
}

/// An identifier belongs to one name under its label, unless the digests of what is hashed collide.
pub proof fn law_identifiers_bind_names(label: Seq<char>, a: Seq<char>, b: Seq<char>)
    requires
        labelled_id(label, a) == labelled_id(label, b),
    ensures
        a == b || hash::collides(
            encoding::text_bytes(label) + encoding::text_bytes(a),
            encoding::text_bytes(label) + encoding::text_bytes(b),
        ),
{
    let l = encoding::text_bytes(label);
    if l + encoding::text_bytes(a) == l + encoding::text_bytes(b) {
        encoding::lemma_split(l, encoding::text_bytes(a), l, encoding::text_bytes(b));
        encoding::law_text_bytes_injective(a, b);
    }
}

/// The first `n` tasks that are proved, in order.
pub open spec fn proved_first(queue: Seq<ProveTask>, n: nat) -> Seq<ProveTask> {
    Seq::new(n, |i: int| nth_proved(queue, i as nat))
}

/// No task is lost and none is proved twice: the tasks that were proved and those that wait are
/// together those of the queue.
pub proof fn law_no_task_is_lost(queue: Seq<ProveTask>, n: nat)
    requires
        n <= queue.len(),
    ensures
        after_proving(queue, n).len() == queue.len() - n,
        proved_first(queue, n).to_multiset().add(after_proving(queue, n).to_multiset())
            == queue.to_multiset(),
    decreases n,
{
    broadcast use vstd::multiset::group_multiset_axioms;

    lemma_after_proving_len(queue, n);
    if n == 0 {
        assert(proved_first(queue, 0) =~= Seq::<ProveTask>::empty());
        Seq::<ProveTask>::empty().to_multiset_ensures();
        assert(proved_first(queue, 0).to_multiset().len() == 0);
        assert(proved_first(queue, 0).to_multiset().add(queue.to_multiset())
            =~= queue.to_multiset());
    } else {
        let m = (n - 1) as nat;
        law_no_task_is_lost(queue, m);
        let before = after_proving(queue, m);
        law_a_queue_has_a_next_task(before);
        let i = next_index(before);
        before.to_multiset_ensures();
        let done = proved_first(queue, m);
        done.to_multiset_ensures();
        assert(proved_first(queue, n) =~= done.push(before[i]));
        assert(before.contains(before[i]));
        assert(before.remove(i).to_multiset() =~= before.to_multiset().remove(before[i]));
        assert(proved_first(queue, n).to_multiset() =~= done.to_multiset().insert(before[i]));
        assert(proved_first(queue, n).to_multiset().add(after_proving(queue, n).to_multiset())
            =~= done.to_multiset().add(before.to_multiset()));
    }
}

/// The statistics count every proof, keep the longest time, and hold the mean of the times rounded
/// down at each step.
pub proof fn law_statistics_count(s: ProverStats, prove_time_ms: u64)
    requires
        can_count(s, 1),
    ensures
        ({
            let after = stats_after(s, prove_time_ms);
            let n = after.total_proved + after.total_failed;
            let sum = s.avg_prove_time_ms * (n - 1) + prove_time_ms;
            &&& after.total_proved == s.total_proved + 1
            &&& after.total_verified == s.total_verified + 1
            &&& after.total_failed == s.total_failed
            &&& after.peak_prove_time_ms >= s.peak_prove_time_ms
            &&& after.peak_prove_time_ms >= prove_time_ms
            &&& after.peak_prove_time_ms == s.peak_prove_time_ms || after.peak_prove_time_ms
                == prove_time_ms
            &&& after.avg_prove_time_ms * n <= sum < (after.avg_prove_time_ms + 1) * n
        }),
{
    let after = stats_after(s, prove_time_ms);
    let n = (s.total_proved + 1 + s.total_failed) as int;
    let avg = s.avg_prove_time_ms as int;
    let sum = avg * (n - 1) + prove_time_ms;
    assert(0 <= sum <= u64::MAX * n) by (nonlinear_arith)
        requires
            sum == avg * (n - 1) + prove_time_ms,
            n >= 1,
            0 <= avg <= u64::MAX,
            0 <= prove_time_ms <= u64::MAX,
    ;
    assert(0 <= sum / n <= u64::MAX) by (nonlinear_arith)
        requires
            n >= 1,
            0 <= sum <= u64::MAX * n,
    ;
    assert((sum / n) * n <= sum < (sum / n + 1) * n) by (nonlinear_arith)
        requires
            n >= 1,
    ;
}

/// The result of a task names the task, holds its proof and the outputs of that proof, and says that
/// it succeeded.
pub proof fn law_results_hold_their_proof(r: ProveResultView, task: ProveTask)
    requires
        is_result_of(r, task),
        hash::blake3_digest(encoding::text_bytes("arc-batch-output"@) + task_proof(task)).len()
            == 32,
    ensures
        r.task_id == task.id,
        r.proof_data == hash::blake3_digest(proof_input(task)),
        packed_numbers(r.public_outputs, 4) == hash::blake3_digest(
            encoding::text_bytes("arc-batch-output"@) + r.proof_data,
        ),
        r.status is Success,
{
    law_outputs_spell_a_digest(task_proof(task));
}

/// Nothing is counted at the start.
pub proof fn law_nothing_is_counted_at_the_start()
    ensures
        no_stats().total_proved == 0,
        no_stats().total_failed == 0,
        no_stats().total_verified == 0,
        no_stats().avg_prove_time_ms == 0,
        no_stats().peak_prove_time_ms == 0,
{
}

} // verus!
