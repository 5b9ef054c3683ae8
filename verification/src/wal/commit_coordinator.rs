//! Group commit: batches of records from several writers are gathered and
//! written together, each record taking the next place in one global
//! sequence.
//!
//! The coordinator makes the decisions: when to commit, which sequence
//! numbers and which of the written positions each batch gets. Writing,
//! syncing, waiting and answering the writers are left to the caller. The
//! statistics counters wrap around on overflow.
use std::cmp::Ordering;
use vstd::prelude::*;
use vstd::wrapping::u64_specs::wrapping_add;

verus! {

/// The size of a record header, counted for each record written.
pub const RECORD_HEADER_BYTES: u64 = 12u64;

/// When pending batches are committed.
#[derive(Debug, Clone, Copy, PartialEq, Eq, Structural)]
pub struct CommitConfig {
    /// Total size, in bytes, at which the pending batches are committed.
    pub max_batch_size: usize,
    /// Time, in milliseconds, that the oldest batch waits at most.
    pub max_wait_time_ms: u64,
    /// Number of batches at which they are committed.
    pub max_batch_count: usize,
    /// Number of batches needed for a commit on time-out.
    pub min_batches_for_commit: usize,
}

impl CommitConfig {
    /// 64 KiB, 5 ms, 100 batches, and a single batch may be committed.
    pub fn new() -> (r: Self)
        ensures
            r == CommitConfig::default_spec(),
    {
        CommitConfig {
            max_batch_size: 65536,
            max_wait_time_ms: 5,
            max_batch_count: 100,
            min_batches_for_commit: 1,
        }
    }

    /// The default configuration.
    pub open spec fn default_spec() -> CommitConfig {
        CommitConfig {
            max_batch_size: 65536,
            max_wait_time_ms: 5,
            max_batch_count: 100,
            min_batches_for_commit: 1,
        }
    }
}

impl Default for CommitConfig {
    fn default() -> (r: Self)
        ensures
            r == CommitConfig::default_spec(),
    {
        CommitConfig::new()
    }
}

/// A place in the global sequence: a commit group (high half of the packed
/// form) and a sequence within it (low half).
#[derive(Debug, Clone, Copy, PartialEq, Eq, PartialOrd, Structural)]
pub struct SequenceNumber {
    commit_group: u64,
    sequence: u64,
}

impl View for SequenceNumber {
    type V = (u64, u64);

    closed spec fn view(&self) -> (u64, u64) {
        (self.commit_group, self.sequence)
    }
}

/// Whether `a` comes before `b`: by commit group, then by sequence.
pub open spec fn seq_num_less(a: (u64, u64), b: (u64, u64)) -> bool {
    a.0 < b.0 || (a.0 == b.0 && a.1 < b.1)
}

/// The packed form of a commit group and a sequence.
pub open spec fn packed(commit_group: u64, sequence: u64) -> u64 {
    (commit_group << 32u64) | sequence
}

impl SequenceNumber {
    /// The place `sequence` of commit group `commit_group`.
    pub fn new(commit_group: u64, sequence: u64) -> (r: Self)
        ensures
            r@ == (commit_group, sequence),
    {
        SequenceNumber { commit_group, sequence }
    }

    /// The commit group.
    pub fn commit_group(&self) -> (r: u64)
        ensures
            r == self@.0,
    {
        self.commit_group
    }

    /// The sequence within the commit group.
    pub fn sequence(&self) -> (r: u64)
        ensures
            r == self@.1,
    {
        self.sequence
    }

    /// The packed form: the commit group shifted into the high half, or-ed
    /// with the sequence.
    pub fn to_u64(&self) -> (r: u64)
        ensures
            r == packed(self@.0, self@.1),
    {
        (self.commit_group << 32u64) | self.sequence
    }

    /// The place whose packed form is `val`.
    pub fn from_u64(val: u64) -> (r: Self)
        ensures
            r@ == (val >> 32u64, val & 0xFFFF_FFFFu64),
    {
        SequenceNumber { commit_group: val >> 32u64, sequence: val & 0xFFFF_FFFFu64 }
    }

    /// Compares by commit group, then by sequence.
    pub fn cmp(&self, other: &Self) -> (r: Ordering)
        ensures
            (r == Ordering::Less) == seq_num_less(self@, other@),
            (r == Ordering::Equal) == (self@ == other@),
            (r == Ordering::Greater) == seq_num_less(other@, self@),
    {
        if self.commit_group < other.commit_group {
            Ordering::Less
        } else if self.commit_group > other.commit_group {
            Ordering::Greater
        } else if self.sequence < other.sequence {
            Ordering::Less
        } else if self.sequence > other.sequence {
            Ordering::Greater
        } else {
            Ordering::Equal
        }
    }
}

/// Every packed value unpacks into parts that pack back into it.
pub proof fn lemma_unpack_pack(val: u64)
    ensures
        packed(val >> 32u64, val & 0xFFFF_FFFFu64) == val,
{
    assert(((val >> 32u64) << 32u64) | (val & 0xFFFF_FFFFu64) == val) by (bit_vector);
}

/// Parts that fit in 32 bits pack into a value that unpacks into them.
pub proof fn lemma_pack_unpack(commit_group: u64, sequence: u64)
    requires
        commit_group < 0x1_0000_0000,
        sequence < 0x1_0000_0000,
    ensures
        packed(commit_group, sequence) >> 32u64 == commit_group,
        packed(commit_group, sequence) & 0xFFFF_FFFFu64 == sequence,
{
    assert(((commit_group << 32u64) | sequence) >> 32u64 == commit_group) by (bit_vector)
        requires
            commit_group < 0x1_0000_0000u64,
            sequence < 0x1_0000_0000u64,
    ;
    assert(((commit_group << 32u64) | sequence) & 0xFFFF_FFFFu64 == sequence) by (bit_vector)
        requires
            commit_group < 0x1_0000_0000u64,
            sequence < 0x1_0000_0000u64,
    ;
}

/// For parts that fit in 32 bits, packed values order as the places do.
pub proof fn lemma_packed_order(a: (u64, u64), b: (u64, u64))
    requires
        a.0 < 0x1_0000_0000,
        a.1 < 0x1_0000_0000,
        b.0 < 0x1_0000_0000,
        b.1 < 0x1_0000_0000,
    ensures
        (packed(a.0, a.1) < packed(b.0, b.1)) == seq_num_less(a, b),
        (packed(a.0, a.1) == packed(b.0, b.1)) == (a == b),
{
    let (x0, x1, y0, y1) = (a.0, a.1, b.0, b.1);
    assert((((x0 << 32u64) | x1) < ((y0 << 32u64) | y1)) == (x0 < y0 || (x0 == y0 && x1 < y1))) by (bit_vector)
        requires
            x0 < 0x1_0000_0000u64,
            x1 < 0x1_0000_0000u64,
            y0 < 0x1_0000_0000u64,
            y1 < 0x1_0000_0000u64,
    ;
    assert((((x0 << 32u64) | x1) == ((y0 << 32u64) | y1)) == (x0 == y0 && x1 == y1)) by (bit_vector)
        requires
            x0 < 0x1_0000_0000u64,
            x1 < 0x1_0000_0000u64,
            y0 < 0x1_0000_0000u64,
            y1 < 0x1_0000_0000u64,
    ;
}

/// What commits have done so far.
#[derive(Debug, Clone, Copy, PartialEq, Eq, Structural)]
pub struct CommitStats {
    /// Batches committed.
    pub total_batches: u64,
    /// Records committed.
    pub total_records: u64,
    /// Bytes of data committed.
    pub total_bytes: u64,
    /// Commits performed.
    pub group_commits: u64,
    /// Commits of a single batch.
    pub single_commits: u64,
}

impl Default for CommitStats {
    fn default() -> (r: Self)
        ensures
            r == (CommitStats {
                total_batches: 0,
                total_records: 0,
                total_bytes: 0,
                group_commits: 0,
                single_commits: 0,
            }),
    {
        CommitStats { total_batches: 0, total_records: 0, total_bytes: 0, group_commits: 0, single_commits: 0 }
    }
}

/// The sum of `s`.
pub open spec fn sum(s: Seq<usize>) -> nat
    decreases s.len(),
{
    if s.len() == 0 {
        0
    } else {
        sum(s.drop_last()) + s.last() as nat
    }
}

proof fn lemma_sum_prefix(s: Seq<usize>, k: int)
    requires
        0 <= k <= s.len(),
    ensures
        sum(s.take(k)) <= sum(s),
    decreases s.len() - k,
{
    if k < s.len() {
        lemma_sum_prefix(s, k + 1);
        assert(s.take(k + 1).drop_last() =~= s.take(k));
    } else {
        assert(s.take(k) =~= s);
    }
}

/// The batches waiting to be committed: how many records and bytes each
/// holds, in the order they came.
pub struct PendingBatches {
    record_counts: Vec<usize>,
    byte_counts: Vec<usize>,
}

impl PendingBatches {
    /// Records of each batch.
    pub closed spec fn spec_records(&self) -> Seq<usize> {
        self.record_counts@
    }

    /// Bytes of each batch.
    pub closed spec fn spec_bytes(&self) -> Seq<usize> {
        self.byte_counts@
    }

    /// Each batch has a record count and a byte count, and neither total
    /// exceeds the address space.
    pub open spec fn wf(&self) -> bool {
        &&& self.spec_records().len() == self.spec_bytes().len()
        &&& sum(self.spec_records()) <= usize::MAX
        &&& sum(self.spec_bytes()) <= usize::MAX
    }

    /// No batch.
    pub fn new() -> (r: Self)
        ensures
            r.wf(),
            r.spec_records() == Seq::<usize>::empty(),
            r.spec_bytes() == Seq::<usize>::empty(),
    {
        PendingBatches { record_counts: Vec::new(), byte_counts: Vec::new() }
    }

    /// Adds a batch of `records` records and `bytes` bytes.
    pub fn push(&mut self, records: usize, bytes: usize)
        requires
            old(self).wf(),
            sum(old(self).spec_records()) + records <= usize::MAX,
            sum(old(self).spec_bytes()) + bytes <= usize::MAX,
        ensures
            final(self).wf(),
            final(self).spec_records() == old(self).spec_records().push(records),
            final(self).spec_bytes() == old(self).spec_bytes().push(bytes),
    {
        let ghost r0 = self.record_counts@;
        let ghost b0 = self.byte_counts@;
        self.record_counts.push(records);
        self.byte_counts.push(bytes);
        assert(self.record_counts@.drop_last() =~= r0);
        assert(self.byte_counts@.drop_last() =~= b0);
    }

    /// Whether there is no batch.
    pub fn is_empty(&self) -> (r: bool)
        requires
            self.wf(),
        ensures
            r == (self.spec_records().len() == 0),
    {
        self.record_counts.len() == 0
    }

    /// The number of batches.
    pub fn len(&self) -> (r: usize)
        requires
            self.wf(),
        ensures
            r == self.spec_records().len(),
    {
        self.record_counts.len()
    }

    /// Records of batch `i`.
    pub fn records_of(&self, i: usize) -> (r: usize)
        requires
            self.wf(),
            i < self.spec_records().len(),
        ensures
            r == self.spec_records()[i as int],
    {
        self.record_counts[i]
    }

    /// Records of all batches.
    pub fn total_records(&self) -> (r: usize)
        requires
            self.wf(),
        ensures
            r == sum(self.spec_records()),
    {
        total(&self.record_counts)
    }

    /// Bytes of all batches.
    pub fn total_bytes(&self) -> (r: usize)
        requires
            self.wf(),
        ensures
            r == sum(self.spec_bytes()),
    {
        total(&self.byte_counts)
    }
}

/// The sum of `v`, which fits.
fn total(v: &Vec<usize>) -> (r: usize)
    requires
        sum(v@) <= usize::MAX,
    ensures
        r == sum(v@),
{
    let mut acc: usize = 0;
    let mut i: usize = 0;
    while i < v.len()
        invariant
            i <= v@.len(),
            sum(v@) <= usize::MAX,
            acc == sum(v@.take(i as int)),
        decreases v@.len() - i,
    {
        proof {
            assert(v@.take(i + 1).drop_last() =~= v@.take(i as int));
            lemma_sum_prefix(v@, i + 1);
        }
        acc = acc + v[i];
        i = i + 1;
    }
    assert(v@.take(i as int) =~= v@);
    acc
}

/// Whether `count` batches holding `bytes` bytes are committed now, the
/// oldest having waited its time out or not.
pub open spec fn commit_due(c: CommitConfig, count: nat, bytes: nat, first_timed_out: bool) -> bool {
    count > 0 && (count >= c.max_batch_count || bytes >= c.max_batch_size || (count
        >= c.min_batches_for_commit && first_timed_out))
}

/// When pending batches are committed: never with none pending; with some
/// pending, as soon as there are `max_batch_count` batches, or
/// `max_batch_size` bytes, whatever else holds, or at least
/// `min_batches_for_commit` batches once the oldest has timed out; and in
/// no other case.
pub proof fn lemma_commit_triggers(c: CommitConfig, count: nat, bytes: nat, first_timed_out: bool)
    ensures
        count == 0 ==> !commit_due(c, count, bytes, first_timed_out),
        count > 0 && count >= c.max_batch_count ==> commit_due(c, count, bytes, first_timed_out),
        count > 0 && bytes >= c.max_batch_size ==> commit_due(c, count, bytes, first_timed_out),
        count > 0 && count >= c.min_batches_for_commit && first_timed_out ==> commit_due(c, count, bytes, first_timed_out),
        commit_due(c, count, bytes, first_timed_out) ==> count > 0 && (count >= c.max_batch_count || bytes
            >= c.max_batch_size || (count >= c.min_batches_for_commit && first_timed_out)),
        count > 0 && count >= c.max_batch_count ==> commit_due(c, count, bytes, true) == commit_due(c, count, bytes, false),
{
}

/// Whether the pending batches are committed now, `first_timed_out` telling
/// whether the oldest one has waited `config.max_wait_time_ms`.
pub fn should_commit(pending: &PendingBatches, config: &CommitConfig, first_timed_out: bool) -> (r: bool)
    requires
        pending.wf(),
    ensures
        r == commit_due(*config, pending.spec_records().len(), sum(pending.spec_bytes()), first_timed_out),
{
    if pending.is_empty() {
        return false;
    }
    if pending.len() >= config.max_batch_count {
        return true;
    }
    let total_size = pending.total_bytes();
    if total_size >= config.max_batch_size {
        return true;
    }
    if pending.len() >= config.min_batches_for_commit {
        if first_timed_out {
            return true;
        }
    }
    false
}

/// What the commit loop does next.
pub enum CommitStep {
    /// Shut down with nothing pending: stop.
    Stop,
    /// Nothing to commit yet: wait for a batch or a time-out.
    Wait,
    /// Commit these batches, taken out of the pending ones.
    Flush(PendingBatches),
}

/// How a commit of several batches is carried out.
pub struct FlushPlan {
    /// The first sequence number of the commit.
    pub base_sequence: u64,
    /// For each batch, the range of the written positions that are its own.
    pub ranges: Vec<(usize, usize)>,
    /// For each batch, its first sequence number.
    pub sequences: Vec<u64>,
    /// Bytes written, record headers included.
    pub written_bytes: u64,
    /// Batches committed.
    pub batch_count: usize,
    /// Records committed.
    pub total_records: usize,
    /// Bytes of data committed.
    pub total_bytes: usize,
}

/// The plan of a commit of `records` (records per batch) and `bytes` (bytes
/// per batch) starting at sequence `base`.
pub open spec fn plan_matches(p: FlushPlan, base: u64, records: Seq<usize>, bytes: Seq<usize>) -> bool {
    &&& p.base_sequence == base
    &&& p.batch_count == records.len()
    &&& p.total_records == sum(records)
    &&& p.total_bytes == sum(bytes)
    &&& p.written_bytes == sum(bytes) + sum(records) * RECORD_HEADER_BYTES
    &&& p.ranges@.len() == records.len()
    &&& p.sequences@.len() == records.len()
    &&& forall|i: int|
        0 <= i < records.len() ==> #[trigger] p.ranges@[i] == (
            sum(records.take(i)) as usize,
            sum(records.take(i + 1)) as usize,
        )
    &&& forall|i: int| 0 <= i < records.len() ==> #[trigger] p.sequences@[i] == base + sum(records.take(i))
}

/// The state of a group-commit coordinator.
pub struct CommitCoordinator {
    config: CommitConfig,
    next_sequence: u64,
    pending: PendingBatches,
    shutdown: bool,
    stats: CommitStats,
}

impl CommitCoordinator {
    /// The configuration.
    pub closed spec fn spec_config(&self) -> CommitConfig {
        self.config
    }

    /// The next sequence number to hand out.
    pub closed spec fn spec_next_sequence(&self) -> u64 {
        self.next_sequence
    }

    /// The batches waiting.
    pub closed spec fn spec_pending(&self) -> PendingBatches {
        self.pending
    }

    /// Whether shutdown was requested.
    pub closed spec fn spec_shutdown(&self) -> bool {
        self.shutdown
    }

    /// The statistics.
    pub closed spec fn spec_stats(&self) -> CommitStats {
        self.stats
    }

    /// The pending batches are well formed.
    pub open spec fn wf(&self) -> bool {
        self.spec_pending().wf()
    }

    /// A coordinator with nothing pending, starting the sequence at 0.
    pub fn new(config: CommitConfig) -> (r: Self)
        ensures
            r.wf(),
            r.spec_config() == config,
            r.spec_next_sequence() == 0,
            r.spec_pending().spec_records().len() == 0,
            !r.spec_shutdown(),
            r.spec_stats() == (CommitStats {
                total_batches: 0,
                total_records: 0,
                total_bytes: 0,
                group_commits: 0,
                single_commits: 0,
            }),
    {
        CommitCoordinator {
            config,
            next_sequence: 0,
            pending: PendingBatches::new(),
            shutdown: false,
            stats: CommitStats::default(),
        }
    }

    /// Queues a batch of `records` records and `bytes` bytes.
    pub fn add_batch(&mut self, records: usize, bytes: usize)
        requires
            old(self).wf(),
            sum(old(self).spec_pending().spec_records()) + records <= usize::MAX,
            sum(old(self).spec_pending().spec_bytes()) + bytes <= usize::MAX,
        ensures
            final(self).wf(),
            final(self).spec_pending().spec_records() == old(self).spec_pending().spec_records().push(records),
            final(self).spec_pending().spec_bytes() == old(self).spec_pending().spec_bytes().push(bytes),
            final(self).spec_next_sequence() == old(self).spec_next_sequence(),
            final(self).spec_shutdown() == old(self).spec_shutdown(),
            final(self).spec_stats() == old(self).spec_stats(),
            final(self).spec_config() == old(self).spec_config(),
    {
        self.pending.push(records, bytes);
    }

    /// Hands out the next sequence number.
    pub fn next_sequence(&mut self) -> (r: SequenceNumber)
        ensures
            r@ == (old(self).spec_next_sequence() >> 32u64, old(self).spec_next_sequence() & 0xFFFF_FFFFu64),
            final(self).spec_next_sequence() == wrapping_add(old(self).spec_next_sequence(), 1),
            final(self).spec_pending() == old(self).spec_pending(),
            final(self).spec_shutdown() == old(self).spec_shutdown(),
            final(self).spec_stats() == old(self).spec_stats(),
            final(self).spec_config() == old(self).spec_config(),
    {
        let seq = self.next_sequence;
        self.next_sequence = self.next_sequence.wrapping_add(1);
        SequenceNumber::from_u64(seq)
    }

    /// Hands out `count` sequence numbers and returns the first.
    pub fn next_sequence_batch(&mut self, count: usize) -> (r: SequenceNumber)
        ensures
            r@ == (old(self).spec_next_sequence() >> 32u64, old(self).spec_next_sequence() & 0xFFFF_FFFFu64),
            final(self).spec_next_sequence() == wrapping_add(old(self).spec_next_sequence(), count as u64),
            final(self).spec_pending() == old(self).spec_pending(),
            final(self).spec_shutdown() == old(self).spec_shutdown(),
            final(self).spec_stats() == old(self).spec_stats(),
            final(self).spec_config() == old(self).spec_config(),
    {
        let base = self.next_sequence;
        self.next_sequence = self.next_sequence.wrapping_add(count as u64);
        SequenceNumber::from_u64(base)
    }

    /// Whether the loop has nothing to do but wait: nothing pending and no
    /// shutdown requested.
    pub fn is_idle(&self) -> (r: bool)
        requires
            self.wf(),
        ensures
            r == (self.spec_pending().spec_records().len() == 0 && !self.spec_shutdown()),
    {
        self.pending.is_empty() && !self.shutdown
    }

    /// What the commit loop does next, `first_timed_out` telling whether the
    /// oldest pending batch has waited its time out. Committed batches are
    /// taken out of the pending ones.
    pub fn next_step(&mut self, first_timed_out: bool) -> (r: CommitStep)
        requires
            old(self).wf(),
        ensures
            final(self).wf(),
            final(self).spec_next_sequence() == old(self).spec_next_sequence(),
            final(self).spec_shutdown() == old(self).spec_shutdown(),
            final(self).spec_stats() == old(self).spec_stats(),
            final(self).spec_config() == old(self).spec_config(),
            ({
                let n = old(self).spec_pending().spec_records().len();
                let due = commit_due(
                    old(self).spec_config(),
                    n,
                    sum(old(self).spec_pending().spec_bytes()),
                    first_timed_out,
                );
                &&& (old(self).spec_shutdown() && n == 0) ==> r is Stop
                &&& !(old(self).spec_shutdown() && n == 0) && due ==> (r matches CommitStep::Flush(p)
                    && p == old(self).spec_pending() && final(self).spec_pending().spec_records().len() == 0
                    && final(self).spec_pending().spec_bytes().len() == 0)
                &&& !(old(self).spec_shutdown() && n == 0) && !due ==> (r is Wait && final(self).spec_pending()
                    == old(self).spec_pending())
            }),
    {
        if self.shutdown && self.pending.is_empty() {
            return CommitStep::Stop;
        }
        let due = should_commit(&self.pending, &self.config, first_timed_out);
        if due && !self.pending.is_empty() {
            let mut taken = PendingBatches::new();
            std::mem::swap(&mut taken, &mut self.pending);
            CommitStep::Flush(taken)
        } else {
            CommitStep::Wait
        }
    }

    /// Hands out the sequence numbers of a commit of `pending` and works out
    /// which positions and sequence numbers each batch gets; `None` when
    /// there is no batch.
    pub fn plan_flush(&mut self, pending: &PendingBatches) -> (r: Option<FlushPlan>)
        requires
            pending.wf(),
            old(self).spec_next_sequence() + sum(pending.spec_records()) <= u64::MAX,
            sum(pending.spec_bytes()) + sum(pending.spec_records()) * RECORD_HEADER_BYTES <= u64::MAX,
        ensures
            pending.spec_records().len() == 0 ==> r is None && *final(self) == *old(self),
            pending.spec_records().len() > 0 ==> (r matches Some(p) && plan_matches(
                p,
                old(self).spec_next_sequence(),
                pending.spec_records(),
                pending.spec_bytes(),
            )) && final(self).spec_next_sequence() == old(self).spec_next_sequence() + sum(
                pending.spec_records(),
            ),
            final(self).spec_pending() == old(self).spec_pending(),
            final(self).spec_shutdown() == old(self).spec_shutdown(),
            final(self).spec_stats() == old(self).spec_stats(),
            final(self).spec_config() == old(self).spec_config(),
    {
        if pending.is_empty() {
            return None;
        }
        let batch_count = pending.len();
        let total_records = pending.total_records();
        let total_bytes = pending.total_bytes();
        let base_sequence = self.next_sequence;
        self.next_sequence = self.next_sequence + total_records as u64;
        let ghost recs = pending.spec_records();
        let mut ranges: Vec<(usize, usize)> = Vec::new();
        let mut sequences: Vec<u64> = Vec::new();
        let mut pos_index: usize = 0;
        let mut i: usize = 0;
        while i < batch_count
            invariant
                pending.wf(),
                recs == pending.spec_records(),
                batch_count == recs.len(),
                i <= batch_count,
                total_records == sum(recs),
                base_sequence + sum(recs) <= u64::MAX,
                pos_index == sum(recs.take(i as int)),
                ranges@.len() == i,
                sequences@.len() == i,
                forall|k: int|
                    0 <= k < i ==> #[trigger] ranges@[k] == (
                        sum(recs.take(k)) as usize,
                        sum(recs.take(k + 1)) as usize,
                    ),
                forall|k: int| 0 <= k < i ==> #[trigger] sequences@[k] == base_sequence + sum(recs.take(k)),
            decreases batch_count - i,
        {
            proof {
                assert(recs.take(i + 1).drop_last() =~= recs.take(i as int));
                lemma_sum_prefix(recs, i + 1);
            }
            let count = pending.records_of(i);
            ranges.push((pos_index, pos_index + count));
            sequences.push(base_sequence + pos_index as u64);
            pos_index = pos_index + count;
            i = i + 1;
        }
        let written_bytes = total_bytes as u64 + total_records as u64 * RECORD_HEADER_BYTES;
        Some(
            FlushPlan {
                base_sequence,
                ranges,
                sequences,
                written_bytes,
                batch_count,
                total_records,
                total_bytes,
            },
        )
    }

    /// Counts a commit carried out by `plan`.
    pub fn record_flush(&mut self, plan: &FlushPlan)
        ensures
            final(self).spec_stats() == (CommitStats {
                total_batches: wrapping_add(old(self).spec_stats().total_batches, plan.batch_count as u64),
                total_records: wrapping_add(old(self).spec_stats().total_records, plan.total_records as u64),
                total_bytes: wrapping_add(old(self).spec_stats().total_bytes, plan.total_bytes as u64),
                group_commits: wrapping_add(old(self).spec_stats().group_commits, 1),
                single_commits: if plan.batch_count == 1 {
                    wrapping_add(old(self).spec_stats().single_commits, 1)
                } else {
                    old(self).spec_stats().single_commits
                },
            }),
            final(self).spec_next_sequence() == old(self).spec_next_sequence(),
            final(self).spec_pending() == old(self).spec_pending(),
            final(self).spec_shutdown() == old(self).spec_shutdown(),
            final(self).spec_config() == old(self).spec_config(),
    {
        self.stats.total_batches = self.stats.total_batches.wrapping_add(plan.batch_count as u64);
        self.stats.total_records = self.stats.total_records.wrapping_add(plan.total_records as u64);
        self.stats.total_bytes = self.stats.total_bytes.wrapping_add(plan.total_bytes as u64);
        self.stats.group_commits = self.stats.group_commits.wrapping_add(1);
        if plan.batch_count == 1 {
            self.stats.single_commits = self.stats.single_commits.wrapping_add(1);
        }
    }

    /// Requests shutdown: the loop stops once nothing is pending.
    pub fn shutdown(&mut self)
        ensures
            final(self).spec_shutdown(),
            final(self).spec_next_sequence() == old(self).spec_next_sequence(),
            final(self).spec_pending() == old(self).spec_pending(),
            final(self).spec_stats() == old(self).spec_stats(),
            final(self).spec_config() == old(self).spec_config(),
    {
        self.shutdown = true;
    }

    /// The statistics.
    pub fn stats(&self) -> (r: CommitStats)
        ensures
            r == self.spec_stats(),
    {
        self.stats
    }

    /// The batches waiting.
    pub fn pending(&self) -> (r: &PendingBatches)
        ensures
            *r == self.spec_pending(),
    {
        &self.pending
    }

    /// The next sequence number to hand out, in its packed form.
    pub fn peek_next_sequence(&self) -> (r: u64)
        ensures
            r == self.spec_next_sequence(),
    {
        self.next_sequence
    }

    /// The configuration.
    pub fn config(&self) -> (r: CommitConfig)
        ensures
            r == self.spec_config(),
    {
        self.config
    }
}

/// The ranges of a commit plan split the written positions into runs, one
/// per batch and as long as the batch, that follow one another from 0 and
/// cover all positions; each batch's sequence numbers follow those of the
/// batch before.
pub proof fn lemma_plan_partitions(p: FlushPlan, base: u64, records: Seq<usize>, bytes: Seq<usize>)
    requires
        plan_matches(p, base, records, bytes),
        records.len() > 0,
    ensures
        p.ranges@[0].0 == 0,
        p.ranges@[records.len() - 1].1 == p.total_records,
        forall|i: int| 0 <= i < records.len() - 1 ==> (#[trigger] p.ranges@[i]).1 == p.ranges@[i + 1].0,
        forall|i: int| 0 <= i < records.len() ==> (#[trigger] p.ranges@[i]).1 - p.ranges@[i].0 == records[i],
        p.sequences@[0] == base,
        forall|i: int|
            0 <= i < records.len() - 1 ==> p.sequences@[i + 1] == (#[trigger] p.sequences@[i]) + records[i],
{
    assert(records.take(0) =~= Seq::<usize>::empty());
    assert(records.take(records.len() as int) =~= records);
    assert(p.ranges@[0] == (sum(records.take(0)) as usize, sum(records.take(1)) as usize));
    assert forall|i: int| 0 <= i < records.len() implies sum(records.take(i + 1)) == sum(records.take(i)) + records[i] by {
        assert(records.take(i + 1).drop_last() =~= records.take(i));
    }
    assert forall|i: int| 0 <= i <= records.len() implies sum(records.take(i)) <= sum(records) by {
        lemma_sum_prefix(records, i);
    }
    assert forall|i: int| 0 <= i < records.len() - 1 implies (#[trigger] p.ranges@[i]).1 == p.ranges@[i + 1].0 by {
        assert(p.ranges@[i + 1] == (sum(records.take(i + 1)) as usize, sum(records.take(i + 2)) as usize));
    }
    assert forall|i: int| 0 <= i < records.len() - 1 implies p.sequences@[i + 1] == (#[trigger] p.sequences@[i]) + records[i] by {
        assert(p.sequences@[i + 1] == base + sum(records.take(i + 1)));
    }
    let n = records.len() - 1;
    assert(p.ranges@[n] == (sum(records.take(n)) as usize, sum(records.take(n + 1)) as usize));
}

} // verus!
