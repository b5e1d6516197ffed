//! Collection of test vectors (a full snapshot followed by the blocks that
//! come after it, several times over) as a state machine: the caller performs
//! each action (an RPC query, a download, a file write, a sleep) and reports
//! what came of it as the next event.

use vstd::prelude::*;

use crate::text::{append_decimal, decimal, lemma_decimal_digits};

verus! {

/// Where the collection stands.
#[derive(Debug, Clone, Copy, PartialEq, Eq, Structural)]
pub enum CollectorPhase {
    /// Waiting for the height of the newest full snapshot.
    AwaitHeight,
    /// Sleeping before asking again for the newest snapshot.
    PauseBeforeQuery,
    /// Waiting for the snapshot download to finish.
    AwaitSnapshot,
    /// Waiting for a block download.
    AwaitBlock,
    /// Sleeping before retrying a failed block download.
    PauseBeforeRetry,
    /// Waiting for a block to be written to its file.
    AwaitWrite,
    /// All snapshots were collected.
    Done,
    /// A block did not follow its predecessor, or a slot number overflowed.
    Failed,
}

/// What the caller observed after performing the last action.
#[derive(Debug, Clone, Copy, PartialEq, Eq, Structural)]
pub enum CollectorEvent {
    /// The newest full snapshot is at slot `full`.
    HighestSnapshot { full: u64 },
    /// The snapshot was downloaded into its directory.
    SnapshotDownloaded,
    /// The requested block was downloaded; its parent slot is `parent_slot`.
    BlockDownloaded { parent_slot: u64 },
    /// The block download failed.
    BlockDownloadFailed,
    /// The block was written to its file.
    BlockWritten,
    /// The requested sleep is over.
    Woke,
}

/// What the caller has to do next.
#[derive(Debug, Clone, Copy, PartialEq, Eq, Structural)]
pub enum CollectorAction {
    /// Ask the node for its newest full snapshot.
    QueryHighestSnapshot,
    /// Sleep for `seconds` seconds.
    Sleep { seconds: u64 },
    /// Download the full snapshot at `height` into the directory of
    /// snapshot number `index` (see `snapshot_dir_name`).
    DownloadSnapshot { index: usize, height: u64 },
    /// Download the block at `slot`, the `offset`-th after the snapshot.
    DownloadBlock { slot: u64, offset: u64 },
    /// Write the block just downloaded to the file of `offset` (see
    /// `block_file_name`).
    WriteBlock { offset: u64 },
    /// The block downloaded does not follow the previous slot: its parent
    /// is `found` where `expected` was required. Collection stops.
    ParentSlotMismatch { expected: u64, found: u64 },
    /// The slot `height + offset` does not fit in 64 bits. Collection stops.
    SlotOverflow { height: u64, offset: u64 },
    /// All snapshots and their blocks were collected.
    Finish,
}

/// The seconds to wait before asking again when no new snapshot appeared.
pub open spec fn no_new_snapshot_wait() -> u64 {
    30
}

/// The seconds to wait before retrying a failed block download.
pub open spec fn block_retry_wait() -> u64 {
    5
}

/// The state of a test-vector collection.
#[derive(Debug, Clone, Copy, PartialEq, Eq)]
pub struct TestVectorCollector {
    /// How many snapshots to collect.
    pub n_loop: usize,
    /// How many blocks to collect after each snapshot.
    pub n_blocks: usize,
    /// How many snapshots were collected so far.
    pub collected: usize,
    /// The offset after the snapshot of the block being collected (from 1).
    pub next_block: u64,
    /// The height of the snapshot collected last, if any.
    pub latest: Option<u64>,
    /// The height of the snapshot being collected, or collected last.
    pub height: u64,
    /// Where the collection stands.
    pub phase: CollectorPhase,
}

/// Whether the phase is one in which a snapshot's blocks are collected.
pub open spec fn in_blocks(p: CollectorPhase) -> bool {
    p == CollectorPhase::AwaitBlock || p == CollectorPhase::PauseBeforeRetry || p
        == CollectorPhase::AwaitWrite
}

/// Whether the phase is one in which the next snapshot is looked for.
pub open spec fn looking(p: CollectorPhase) -> bool {
    p == CollectorPhase::AwaitHeight || p == CollectorPhase::PauseBeforeQuery
}

impl TestVectorCollector {
    /// The invariant that every step keeps.
    pub open spec fn wf(self) -> bool {
        &&& self.collected <= self.n_loop
        &&& self.n_blocks < usize::MAX
        &&& (self.phase == CollectorPhase::Done) == (self.collected == self.n_loop)
        &&& (self.phase != CollectorPhase::Failed ==> self.collected < self.n_loop || self.phase
            == CollectorPhase::Done)
        &&& (self.collected > 0 <==> self.latest is Some)
        &&& (looking(self.phase) && self.collected > 0 ==> self.latest == Some(self.height))
        &&& (self.phase == CollectorPhase::AwaitSnapshot || in_blocks(self.phase) ==> self.latest
            != Some(self.height))
        &&& (in_blocks(self.phase) ==> 1 <= self.next_block <= self.n_blocks && self.height
            + self.next_block <= u64::MAX)
    }

    /// Whether `e` answers the action that the collector asked for last.
    pub open spec fn expects(self, e: CollectorEvent) -> bool {
        match self.phase {
            CollectorPhase::AwaitHeight => e is HighestSnapshot,
            CollectorPhase::PauseBeforeQuery => e == CollectorEvent::Woke,
            CollectorPhase::AwaitSnapshot => e == CollectorEvent::SnapshotDownloaded,
            CollectorPhase::AwaitBlock => e is BlockDownloaded || e
                == CollectorEvent::BlockDownloadFailed,
            CollectorPhase::PauseBeforeRetry => e == CollectorEvent::Woke,
            CollectorPhase::AwaitWrite => e == CollectorEvent::BlockWritten,
            _ => false,
        }
    }

    /// The state after the snapshot being collected is complete.
    pub open spec fn snapshot_completed(self) -> Self {
        let collected = (self.collected + 1) as usize;
        TestVectorCollector {
            collected,
            latest: Some(self.height),
            phase: if collected == self.n_loop {
                CollectorPhase::Done
            } else {
                CollectorPhase::AwaitHeight
            },
            ..self
        }
    }

    /// The action after the snapshot being collected is complete.
    pub open spec fn snapshot_completed_action(self) -> CollectorAction {
        if self.collected + 1 == self.n_loop {
            CollectorAction::Finish
        } else {
            CollectorAction::QueryHighestSnapshot
        }
    }

    /// The state when block `offset` of the current snapshot is to be
    /// fetched (`1 <= offset <= n_blocks`).
    pub open spec fn fetch_block(self, offset: u64) -> Self {
        TestVectorCollector {
            next_block: offset,
            phase: if self.height + offset <= u64::MAX {
                CollectorPhase::AwaitBlock
            } else {
                CollectorPhase::Failed
            },
            ..self
        }
    }

    /// The action when block `offset` of the current snapshot is to be fetched.
    pub open spec fn fetch_block_action(self, offset: u64) -> CollectorAction {
        if self.height + offset <= u64::MAX {
            CollectorAction::DownloadBlock { slot: (self.height + offset) as u64, offset }
        } else {
            CollectorAction::SlotOverflow { height: self.height, offset }
        }
    }

    /// The state after event `e`.
    pub open spec fn transition(self, e: CollectorEvent) -> Self {
        match (self.phase, e) {
            (CollectorPhase::AwaitHeight, CollectorEvent::HighestSnapshot { full }) => {
                if self.latest == Some(full) {
                    TestVectorCollector { phase: CollectorPhase::PauseBeforeQuery, ..self }
                } else {
                    TestVectorCollector {
                        height: full,
                        phase: CollectorPhase::AwaitSnapshot,
                        ..self
                    }
                }
            },
            (CollectorPhase::PauseBeforeQuery, CollectorEvent::Woke) => {
                TestVectorCollector { phase: CollectorPhase::AwaitHeight, ..self }
            },
            (CollectorPhase::AwaitSnapshot, CollectorEvent::SnapshotDownloaded) => {
                if self.n_blocks == 0 {
                    self.snapshot_completed()
                } else {
                    self.fetch_block(1)
                }
            },
            (CollectorPhase::AwaitBlock, CollectorEvent::BlockDownloadFailed) => {
                TestVectorCollector { phase: CollectorPhase::PauseBeforeRetry, ..self }
            },
            (CollectorPhase::PauseBeforeRetry, CollectorEvent::Woke) => {
                TestVectorCollector { phase: CollectorPhase::AwaitBlock, ..self }
            },
            (CollectorPhase::AwaitBlock, CollectorEvent::BlockDownloaded { parent_slot }) => {
                if parent_slot == self.height + self.next_block - 1 {
                    TestVectorCollector { phase: CollectorPhase::AwaitWrite, ..self }
                } else {
                    TestVectorCollector { phase: CollectorPhase::Failed, ..self }
                }
            },
            (CollectorPhase::AwaitWrite, CollectorEvent::BlockWritten) => {
                if self.next_block == self.n_blocks {
                    self.snapshot_completed()
                } else {
                    self.fetch_block((self.next_block + 1) as u64)
                }
            },
            _ => self,
        }
    }

    /// The action that the collector asks for after event `e`.
    pub open spec fn reaction(self, e: CollectorEvent) -> CollectorAction {
        match (self.phase, e) {
            (CollectorPhase::AwaitHeight, CollectorEvent::HighestSnapshot { full }) => {
                if self.latest == Some(full) {
                    CollectorAction::Sleep { seconds: no_new_snapshot_wait() }
                } else {
                    CollectorAction::DownloadSnapshot { index: self.collected, height: full }
                }
            },
            (CollectorPhase::PauseBeforeQuery, CollectorEvent::Woke) => {
                CollectorAction::QueryHighestSnapshot
            },
            (CollectorPhase::AwaitSnapshot, CollectorEvent::SnapshotDownloaded) => {
                if self.n_blocks == 0 {
                    self.snapshot_completed_action()
                } else {
                    self.fetch_block_action(1)
                }
            },
            (CollectorPhase::AwaitBlock, CollectorEvent::BlockDownloadFailed) => {
                CollectorAction::Sleep { seconds: block_retry_wait() }
            },
            (CollectorPhase::PauseBeforeRetry, CollectorEvent::Woke) => {
                CollectorAction::DownloadBlock {
                    slot: (self.height + self.next_block) as u64,
                    offset: self.next_block,
                }
            },
            (CollectorPhase::AwaitBlock, CollectorEvent::BlockDownloaded { parent_slot }) => {
                if parent_slot == self.height + self.next_block - 1 {
                    CollectorAction::WriteBlock { offset: self.next_block }
                } else {
                    CollectorAction::ParentSlotMismatch {
                        expected: (self.height + self.next_block - 1) as u64,
                        found: parent_slot,
                    }
                }
            },
            (CollectorPhase::AwaitWrite, CollectorEvent::BlockWritten) => {
                if self.next_block == self.n_blocks {
                    self.snapshot_completed_action()
                } else {
                    self.fetch_block_action((self.next_block + 1) as u64)
                }
            },
            _ => CollectorAction::Finish,
        }
    }

    /// Starts a collection of `n_loop` snapshots, each followed by
    /// `n_blocks` blocks, and returns the first action.
    pub fn new(n_loop: usize, n_blocks: usize) -> (r: (Self, CollectorAction))
        requires
            n_blocks < usize::MAX,
        ensures
            r.0.wf(),
            r.0.n_loop == n_loop,
            r.0.n_blocks == n_blocks,
            r.0.collected == 0,
            r.0.latest is None,
            n_loop == 0 ==> r.0.phase == CollectorPhase::Done && r.1 == CollectorAction::Finish,
            n_loop > 0 ==> r.0.phase == CollectorPhase::AwaitHeight && r.1
                == CollectorAction::QueryHighestSnapshot,
    {
        let phase = if n_loop == 0 {
            CollectorPhase::Done
        } else {
            CollectorPhase::AwaitHeight
        };
        let action = if n_loop == 0 {
            CollectorAction::Finish
        } else {
            CollectorAction::QueryHighestSnapshot
        };
        (
            TestVectorCollector {
                n_loop,
                n_blocks,
                collected: 0,
                next_block: 1,
                latest: None,
                height: 0,
                phase,
            },
            action,
        )
    }

    fn complete_snapshot(&mut self) -> (a: CollectorAction)
        requires
            old(self).collected < old(self).n_loop,
        ensures
            *final(self) == old(self).snapshot_completed(),
            a == old(self).snapshot_completed_action(),
    {
        self.collected = self.collected + 1;
        self.latest = Some(self.height);
        if self.collected == self.n_loop {
            self.phase = CollectorPhase::Done;
            CollectorAction::Finish
        } else {
            self.phase = CollectorPhase::AwaitHeight;
            CollectorAction::QueryHighestSnapshot
        }
    }

    fn start_block(&mut self, offset: u64) -> (a: CollectorAction)
        ensures
            *final(self) == old(self).fetch_block(offset),
            a == old(self).fetch_block_action(offset),
    {
        self.next_block = offset;
        if self.height <= u64::MAX - offset {
            self.phase = CollectorPhase::AwaitBlock;
            CollectorAction::DownloadBlock { slot: self.height + offset, offset }
        } else {
            self.phase = CollectorPhase::Failed;
            CollectorAction::SlotOverflow { height: self.height, offset }
        }
    }

    /// Takes the outcome of the last action and returns the next one.
    pub fn step(&mut self, e: CollectorEvent) -> (a: CollectorAction)
        requires
            old(self).wf(),
            old(self).expects(e),
        ensures
            final(self).wf(),
            *final(self) == old(self).transition(e),
            a == old(self).reaction(e),
    {
        match e {
            CollectorEvent::HighestSnapshot { full } => {
                if self.latest == Some(full) {
                    self.phase = CollectorPhase::PauseBeforeQuery;
                    CollectorAction::Sleep { seconds: 30 }
                } else {
                    self.height = full;
                    self.phase = CollectorPhase::AwaitSnapshot;
                    CollectorAction::DownloadSnapshot { index: self.collected, height: full }
                }
            },
            CollectorEvent::Woke => {
                if self.phase == CollectorPhase::PauseBeforeQuery {
                    self.phase = CollectorPhase::AwaitHeight;
                    CollectorAction::QueryHighestSnapshot
                } else {
                    self.phase = CollectorPhase::AwaitBlock;
                    CollectorAction::DownloadBlock {
                        slot: self.height + self.next_block,
                        offset: self.next_block,
                    }
                }
            },
            CollectorEvent::SnapshotDownloaded => {
                if self.n_blocks == 0 {
                    self.complete_snapshot()
                } else {
                    self.start_block(1)
                }
            },
            CollectorEvent::BlockDownloadFailed => {
                self.phase = CollectorPhase::PauseBeforeRetry;
                CollectorAction::Sleep { seconds: 5 }
            },
            CollectorEvent::BlockDownloaded { parent_slot } => {
                let expected = self.height + self.next_block - 1;
                if parent_slot == expected {
                    self.phase = CollectorPhase::AwaitWrite;
                    CollectorAction::WriteBlock { offset: self.next_block }
                } else {
                    self.phase = CollectorPhase::Failed;
                    CollectorAction::ParentSlotMismatch { expected, found: parent_slot }
                }
            },
            CollectorEvent::BlockWritten => {
                if self.next_block == self.n_blocks as u64 {
                    self.complete_snapshot()
                } else {
                    self.start_block(self.next_block + 1)
                }
            },
        }
    }
}


/// Whether every event of `es` answers the action asked for before it,
/// starting from `s`.
pub open spec fn accepts_run(s: TestVectorCollector, es: Seq<CollectorEvent>) -> bool
    decreases es.len(),
{
    es.len() == 0 || (s.expects(es[0]) && accepts_run(s.transition(es[0]), es.drop_first()))
}

/// The state after the events `es`, starting from `s`.
pub open spec fn after_run(s: TestVectorCollector, es: Seq<CollectorEvent>) -> TestVectorCollector
    decreases es.len(),
{
    if es.len() == 0 {
        s
    } else {
        after_run(s.transition(es[0]), es.drop_first())
    }
}

/// The heights of the snapshots downloaded during the events `es`,
/// starting from `s`, in order.
pub open spec fn downloaded_heights(s: TestVectorCollector, es: Seq<CollectorEvent>) -> Seq<u64>
    decreases es.len(),
{
    if es.len() == 0 {
        Seq::empty()
    } else {
        let rest = downloaded_heights(s.transition(es[0]), es.drop_first());
        match s.reaction(es[0]) {
            CollectorAction::DownloadSnapshot { index, height } => seq![height] + rest,
            _ => rest,
        }
    }
}

/// The height that the next snapshot downloaded must differ from: that of
/// the snapshot collected last, or of the one being collected.
pub open spec fn previous_height(s: TestVectorCollector) -> Option<u64> {
    if looking(s.phase) || s.phase == CollectorPhase::Done {
        s.latest
    } else {
        Some(s.height)
    }
}

/// Every step keeps the invariant.
pub proof fn lemma_transition_keeps_wf(s: TestVectorCollector, e: CollectorEvent)
    requires
        s.wf(),
        s.expects(e),
    ensures
        s.transition(e).wf(),
        s.transition(e).n_loop == s.n_loop,
        s.transition(e).n_blocks == s.n_blocks,
        s.transition(e).collected >= s.collected,
{
}

/// Over any run of answered actions the invariant holds throughout, the
/// targets do not change, and the count of collected snapshots never goes
/// down.
pub proof fn lemma_run_keeps_wf(s: TestVectorCollector, es: Seq<CollectorEvent>)
    requires
        s.wf(),
        accepts_run(s, es),
    ensures
        after_run(s, es).wf(),
        after_run(s, es).n_loop == s.n_loop,
        after_run(s, es).n_blocks == s.n_blocks,
        after_run(s, es).collected >= s.collected,
    decreases es.len(),
{
    if es.len() > 0 {
        lemma_transition_keeps_wf(s, es[0]);
        lemma_run_keeps_wf(s.transition(es[0]), es.drop_first());
    }
}

/// A new snapshot is collected only when the node offers one whose height
/// differs from the one collected before it: over any run, no snapshot
/// downloaded has the height of the snapshot downloaded just before it.
pub proof fn lemma_no_snapshot_twice_in_a_row(s: TestVectorCollector, es: Seq<CollectorEvent>)
    requires
        s.wf(),
        accepts_run(s, es),
    ensures
        downloaded_heights(s, es).len() > 0 ==> previous_height(s) != Some(
            downloaded_heights(s, es)[0],
        ),
        forall|k: int|
            0 <= k < downloaded_heights(s, es).len() - 1 ==> #[trigger] downloaded_heights(
                s,
                es,
            )[k] != downloaded_heights(s, es)[k + 1],
    decreases es.len(),
{
    if es.len() > 0 {
        let e = es[0];
        let t = s.transition(e);
        lemma_transition_keeps_wf(s, e);
        lemma_no_snapshot_twice_in_a_row(t, es.drop_first());
        let rest = downloaded_heights(t, es.drop_first());
        match s.reaction(e) {
            CollectorAction::DownloadSnapshot { index, height } => {
                let hs = seq![height] + rest;
                assert(downloaded_heights(s, es) == hs);
                assert(previous_height(t) == Some(height));
                assert forall|k: int| 0 <= k < hs.len() - 1 implies #[trigger] hs[k] != hs[k + 1] by {
                    if k > 0 {
                        assert(hs[k] == rest[k - 1]);
                        assert(hs[k + 1] == rest[k]);
                    }
                }
            },
            _ => {
                assert(downloaded_heights(s, es) == rest);
                assert(previous_height(t) == previous_height(s));
            },
        }
    }
}


/// The snapshot height that `e` makes the collector download from `s`, if any.
pub open spec fn download_of(s: TestVectorCollector, e: CollectorEvent) -> Seq<u64> {
    match s.reaction(e) {
        CollectorAction::DownloadSnapshot { index, height } => seq![height],
        _ => Seq::empty(),
    }
}

/// The parent slot that `e` reports for a downloaded block.
pub open spec fn event_parent(e: CollectorEvent) -> int {
    match e {
        CollectorEvent::BlockDownloaded { parent_slot } => parent_slot as int,
        _ => -1,
    }
}

/// The block that `e` makes the collector write from `s`, if any, as
/// (round, slot, parent slot of the block).
pub open spec fn write_of(s: TestVectorCollector, e: CollectorEvent) -> Seq<(int, int, int)> {
    match s.reaction(e) {
        CollectorAction::WriteBlock { offset } => seq![
            (s.collected as int, s.height + offset, event_parent(e)),
        ],
        _ => Seq::empty(),
    }
}

/// The blocks written during the events `es`, starting from `s`, in order,
/// each as (round, slot, parent slot of the block).
pub open spec fn block_writes(s: TestVectorCollector, es: Seq<CollectorEvent>) -> Seq<(int, int, int)>
    decreases es.len(),
{
    if es.len() == 0 {
        Seq::empty()
    } else {
        write_of(s, es[0]) + block_writes(s.transition(es[0]), es.drop_first())
    }
}

/// The first `k` blocks of round `round`, whose snapshot is at `height`:
/// slots `height + 1 ..= height + k`, each with the slot before it as parent.
pub open spec fn round_writes(round: int, height: int, k: int) -> Seq<(int, int, int)> {
    Seq::new(k as nat, |i: int| (round, height + i + 1, height + i))
}

/// The blocks that collecting `n` blocks after each snapshot at the heights
/// `hs`, round after round, writes.
pub open spec fn expected_writes(hs: Seq<u64>, n: int) -> Seq<(int, int, int)>
    decreases hs.len(),
{
    if hs.len() == 0 {
        Seq::empty()
    } else {
        expected_writes(hs.drop_last(), n) + round_writes(hs.len() - 1, hs.last() as int, n)
    }
}

/// How many blocks of the current round were written or are being written.
pub open spec fn written_in_round(t: TestVectorCollector) -> int {
    match t.phase {
        CollectorPhase::AwaitWrite => t.next_block as int,
        CollectorPhase::AwaitBlock => t.next_block - 1,
        CollectorPhase::PauseBeforeRetry => t.next_block - 1,
        _ => 0,
    }
}

/// How the heights downloaded and the blocks written so far relate to the
/// state `t` reached: every completed round wrote its `n_blocks` blocks in
/// order, and the round under way wrote its first ones.
pub open spec fn collection_progress(
    t: TestVectorCollector,
    hs: Seq<u64>,
    ws: Seq<(int, int, int)>,
) -> bool {
    let n = t.n_blocks as int;
    if looking(t.phase) || t.phase == CollectorPhase::Done {
        hs.len() == t.collected && ws == expected_writes(hs, n)
    } else if t.phase == CollectorPhase::AwaitSnapshot || in_blocks(t.phase) {
        &&& hs.len() == t.collected + 1
        &&& hs.last() == t.height
        &&& ws == expected_writes(hs.drop_last(), n) + round_writes(
            t.collected as int,
            t.height as int,
            written_in_round(t),
        )
    } else {
        true
    }
}

proof fn lemma_run_push(s: TestVectorCollector, es: Seq<CollectorEvent>, e: CollectorEvent)
    ensures
        after_run(s, es.push(e)) == after_run(s, es).transition(e),
        accepts_run(s, es.push(e)) ==> accepts_run(s, es) && after_run(s, es).expects(e),
        downloaded_heights(s, es.push(e)) == downloaded_heights(s, es) + download_of(
            after_run(s, es),
            e,
        ),
        block_writes(s, es.push(e)) == block_writes(s, es) + write_of(after_run(s, es), e),
    decreases es.len(),
{
    let ese = es.push(e);
    if es.len() == 0 {
        assert(ese.drop_first() =~= Seq::<CollectorEvent>::empty());
        assert(ese[0] == e);
        let t = s.transition(e);
        assert(after_run(t, ese.drop_first()) == t);
        assert(downloaded_heights(t, ese.drop_first()) == Seq::<u64>::empty());
        assert(block_writes(t, ese.drop_first()) == Seq::<(int, int, int)>::empty());
        match s.reaction(e) {
            CollectorAction::DownloadSnapshot { index, height } => {
                assert(seq![height] + Seq::<u64>::empty() =~= seq![height]);
            },
            _ => {},
        }
        assert(downloaded_heights(s, ese) =~= download_of(s, e));
        assert(downloaded_heights(s, es) + download_of(s, e) =~= download_of(s, e));
        assert(block_writes(s, ese) =~= write_of(s, e));
        assert(block_writes(s, es) + write_of(s, e) =~= write_of(s, e));
    } else {
        let t = s.transition(es[0]);
        assert(ese[0] == es[0]);
        assert(ese.drop_first() =~= es.drop_first().push(e));
        lemma_run_push(t, es.drop_first(), e);
        let rest = downloaded_heights(t, es.drop_first());
        let d = download_of(after_run(s, es), e);
        match s.reaction(es[0]) {
            CollectorAction::DownloadSnapshot { index, height } => {
                assert(seq![height] + (rest + d) =~= (seq![height] + rest) + d);
            },
            _ => {},
        }
        assert(write_of(s, es[0]) + (block_writes(t, es.drop_first()) + write_of(after_run(s, es), e))
            =~= (write_of(s, es[0]) + block_writes(t, es.drop_first())) + write_of(after_run(s, es), e));
    }
}

proof fn lemma_progress_step(
    t: TestVectorCollector,
    hs: Seq<u64>,
    ws: Seq<(int, int, int)>,
    e: CollectorEvent,
)
    requires
        t.wf(),
        t.expects(e),
        collection_progress(t, hs, ws),
    ensures
        collection_progress(t.transition(e), hs + download_of(t, e), ws + write_of(t, e)),
{
    let u = t.transition(e);
    let n = t.n_blocks as int;
    let hs2 = hs + download_of(t, e);
    let ws2 = ws + write_of(t, e);
    let r = t.collected as int;
    let h = t.height as int;
    lemma_transition_keeps_wf(t, e);
    match t.reaction(e) {
        CollectorAction::DownloadSnapshot { index, height } => {
            assert(hs2 =~= hs.push(height));
            assert(hs2.drop_last() =~= hs);
            assert(ws2 =~= ws);
            assert(round_writes(r, height as int, 0) =~= Seq::<(int, int, int)>::empty());
            assert(ws2 =~= expected_writes(hs2.drop_last(), n) + round_writes(r, height as int, 0));
        },
        CollectorAction::WriteBlock { offset } => {
            assert(hs2 =~= hs);
            let k = t.next_block as int;
            assert(round_writes(r, h, k - 1).push((r, h + k, h + k - 1)) =~= round_writes(r, h, k));
            assert(ws2 =~= expected_writes(hs.drop_last(), n) + round_writes(r, h, k));
        },
        _ => {
            assert(hs2 =~= hs);
            assert(ws2 =~= ws);
            if (u.phase == CollectorPhase::Done || u.phase == CollectorPhase::AwaitHeight)
                && u.collected == t.collected + 1 {
                assert(hs.len() == r + 1);
                assert(written_in_round(t) == n);
                assert(expected_writes(hs, n) == expected_writes(hs.drop_last(), n) + round_writes(
                    hs.len() - 1,
                    hs.last() as int,
                    n,
                ));
            }
            if t.phase == CollectorPhase::AwaitSnapshot && u.phase == CollectorPhase::AwaitBlock {
                assert(round_writes(r, h, 0) =~= Seq::<(int, int, int)>::empty());
            }
        },
    }
}

/// Over any run that starts from a collector that has collected nothing
/// yet, the heights downloaded and the blocks written relate to the state
/// reached as `collection_progress` says: each completed round wrote the
/// blocks at slots `s + 1 ..= s + n_blocks` after its snapshot `s`, in
/// order, each checked to have the slot before it as parent.
pub proof fn lemma_collection_progress(s: TestVectorCollector, es: Seq<CollectorEvent>)
    requires
        s.wf(),
        s.collected == 0,
        looking(s.phase) || s.phase == CollectorPhase::Done,
        accepts_run(s, es),
    ensures
        after_run(s, es).wf(),
        collection_progress(after_run(s, es), downloaded_heights(s, es), block_writes(s, es)),
    decreases es.len(),
{
    if es.len() == 0 {
        assert(downloaded_heights(s, es) =~= Seq::<u64>::empty());
        assert(block_writes(s, es) =~= Seq::<(int, int, int)>::empty());
    } else {
        let front = es.drop_last();
        let e = es.last();
        assert(es =~= front.push(e));
        lemma_run_push(s, front, e);
        lemma_collection_progress(s, front);
        lemma_progress_step(after_run(s, front), downloaded_heights(s, front), block_writes(s, front), e);
    }
}

/// A collection run from the start to its end downloads `n_loop` snapshots,
/// no two in a row at the same height, and writes, round after round, the
/// `n_blocks` blocks after each snapshot `s`: the blocks at slots
/// `s + 1 ..= s + n_blocks`, in order, each with the slot before it as its
/// parent.
pub proof fn lemma_complete_collection(s: TestVectorCollector, es: Seq<CollectorEvent>)
    requires
        s.wf(),
        s.collected == 0,
        looking(s.phase) || s.phase == CollectorPhase::Done,
        accepts_run(s, es),
        after_run(s, es).phase == CollectorPhase::Done,
    ensures
        downloaded_heights(s, es).len() == s.n_loop,
        block_writes(s, es) == expected_writes(downloaded_heights(s, es), s.n_blocks as int),
        forall|k: int|
            0 <= k < downloaded_heights(s, es).len() - 1 ==> #[trigger] downloaded_heights(
                s,
                es,
            )[k] != downloaded_heights(s, es)[k + 1],
        downloaded_indices(s, es) == Seq::new(s.n_loop as nat, |k: int| k),
{
    lemma_collection_progress(s, es);
    lemma_run_keeps_wf(s, es);
    lemma_no_snapshot_twice_in_a_row(s, es);
    lemma_snapshot_indices(s, es);
}

/// The directory index that `e` makes the collector download a snapshot
/// into from `s`, if any.
pub open spec fn index_of(s: TestVectorCollector, e: CollectorEvent) -> Seq<int> {
    match s.reaction(e) {
        CollectorAction::DownloadSnapshot { index, height } => seq![index as int],
        _ => Seq::empty(),
    }
}

/// The directory indices of the snapshots downloaded during the events
/// `es`, starting from `s`, in order.
pub open spec fn downloaded_indices(s: TestVectorCollector, es: Seq<CollectorEvent>) -> Seq<int>
    decreases es.len(),
{
    if es.len() == 0 {
        Seq::empty()
    } else {
        index_of(s, es[0]) + downloaded_indices(s.transition(es[0]), es.drop_first())
    }
}

/// How many snapshots were downloaded, or are being downloaded or
/// collected, once the state `t` is reached.
pub open spec fn snapshots_started(t: TestVectorCollector) -> int {
    if looking(t.phase) || t.phase == CollectorPhase::Done {
        t.collected as int
    } else {
        t.collected + 1
    }
}

/// Each snapshot is downloaded into the directory of its round: the
/// snapshot downloaded when `k` snapshots have been collected gets index
/// `k`, so no snapshot goes into the directory of an earlier one.
pub proof fn lemma_snapshot_index_is_round(s: TestVectorCollector, e: CollectorEvent)
    requires
        s.wf(),
        s.expects(e),
    ensures
        s.reaction(e) matches CollectorAction::DownloadSnapshot { index, height } ==> index
            == s.collected && s.collected < s.n_loop,
{
}

proof fn lemma_indices_push(s: TestVectorCollector, es: Seq<CollectorEvent>, e: CollectorEvent)
    ensures
        downloaded_indices(s, es.push(e)) == downloaded_indices(s, es) + index_of(
            after_run(s, es),
            e,
        ),
    decreases es.len(),
{
    let ese = es.push(e);
    if es.len() == 0 {
        assert(ese.drop_first() =~= Seq::<CollectorEvent>::empty());
        assert(ese[0] == e);
        let t = s.transition(e);
        assert(downloaded_indices(t, ese.drop_first()) == Seq::<int>::empty());
        assert(downloaded_indices(s, ese) =~= index_of(s, e));
        assert(downloaded_indices(s, es) + index_of(s, e) =~= index_of(s, e));
    } else {
        let t = s.transition(es[0]);
        assert(ese[0] == es[0]);
        assert(ese.drop_first() =~= es.drop_first().push(e));
        lemma_indices_push(t, es.drop_first(), e);
        assert(index_of(s, es[0]) + (downloaded_indices(t, es.drop_first()) + index_of(
            after_run(s, es),
            e,
        )) =~= (index_of(s, es[0]) + downloaded_indices(t, es.drop_first())) + index_of(
            after_run(s, es),
            e,
        ));
    }
}

/// Over any run from a collector that has collected nothing yet, the
/// snapshots are downloaded into the directories `0, 1, 2, ...`, in order.
pub proof fn lemma_snapshot_indices(s: TestVectorCollector, es: Seq<CollectorEvent>)
    requires
        s.wf(),
        s.collected == 0,
        looking(s.phase) || s.phase == CollectorPhase::Done,
        accepts_run(s, es),
    ensures
        after_run(s, es).phase != CollectorPhase::Failed ==> downloaded_indices(s, es)
            == Seq::new(snapshots_started(after_run(s, es)) as nat, |k: int| k),
    decreases es.len(),
{
    if es.len() == 0 {
        assert(downloaded_indices(s, es) =~= Seq::new(0, |k: int| k));
    } else {
        let front = es.drop_last();
        let e = es.last();
        assert(es =~= front.push(e));
        lemma_run_push(s, front, e);
        lemma_indices_push(s, front, e);
        lemma_snapshot_indices(s, front);
        lemma_run_keeps_wf(s, front);
        let t = after_run(s, front);
        lemma_transition_keeps_wf(t, e);
        let u = t.transition(e);
        if u.phase != CollectorPhase::Failed {
            assert(t.phase != CollectorPhase::Failed);
            let old_is = downloaded_indices(s, front);
            match t.reaction(e) {
                CollectorAction::DownloadSnapshot { index, height } => {
                    assert(old_is.push(index as int) =~= Seq::new(
                        snapshots_started(u) as nat,
                        |k: int| k,
                    ));
                },
                _ => {
                    assert(index_of(t, e) =~= Seq::<int>::empty());
                    assert(old_is + index_of(t, e) =~= old_is);
                    assert(snapshots_started(u) == snapshots_started(t));
                },
            }
        }
    }
}

/// The blocks of a snapshot are requested in order: the first one right
/// after the snapshot, a failed one again, and after each block written the
/// one after it. Every request is for slot `height + offset` with
/// `1 <= offset <= n_blocks`.
pub proof fn lemma_blocks_requested_in_order(s: TestVectorCollector, e: CollectorEvent)
    requires
        s.wf(),
        s.expects(e),
    ensures
        s.reaction(e) matches CollectorAction::DownloadBlock { slot, offset } ==> {
            &&& 1 <= offset <= s.n_blocks
            &&& slot == s.transition(e).height + offset
            &&& s.transition(e).height == s.height
            &&& (s.phase == CollectorPhase::AwaitSnapshot ==> offset == 1)
            &&& (s.phase == CollectorPhase::PauseBeforeRetry ==> offset == s.next_block)
            &&& (s.phase == CollectorPhase::AwaitWrite ==> offset == s.next_block + 1)
        },
        s.reaction(e) matches CollectorAction::WriteBlock { offset } ==> {
            &&& offset == s.next_block
            &&& e == CollectorEvent::BlockDownloaded { parent_slot: (s.height + offset - 1) as u64 }
        },
{
}

/// The collection finishes exactly when the last of the `n_loop` snapshots
/// has all of its blocks written; a snapshot counts as collected only after
/// its last block was written.
pub proof fn lemma_finish_when_all_collected(s: TestVectorCollector, e: CollectorEvent)
    requires
        s.wf(),
        s.expects(e),
    ensures
        (s.reaction(e) == CollectorAction::Finish) == (s.transition(e).collected == s.n_loop),
        s.transition(e).collected > s.collected ==> {
            &&& s.transition(e).collected == s.collected + 1
            &&& (s.n_blocks == 0 ==> e == CollectorEvent::SnapshotDownloaded)
            &&& (s.n_blocks > 0 ==> e == CollectorEvent::BlockWritten && s.next_block
                == s.n_blocks)
        },
{
}

/// The name of the directory that snapshot number `index` goes to.
pub open spec fn snapshot_dir_name_spec(index: nat) -> Seq<char> {
    "snapshots_"@ + decimal(index)
}

/// The name of the file that the block `offset` slots after a snapshot
/// goes to.
pub open spec fn block_file_name_spec(offset: nat) -> Seq<char> {
    "block_plus_"@ + decimal(offset) + ".json"@
}

/// Distinct snapshots of a collection go to distinct directories, and the
/// blocks after a snapshot to distinct files, so no download overwrites
/// another.
pub proof fn lemma_collected_names_distinct(i: nat, j: nat)
    ensures
        snapshot_dir_name_spec(i) == snapshot_dir_name_spec(j) ==> i == j,
        block_file_name_spec(i) == block_file_name_spec(j) ==> i == j,
{
    lemma_decimal_digits(i);
    lemma_decimal_digits(j);
    let p = "snapshots_"@;
    if snapshot_dir_name_spec(i) == snapshot_dir_name_spec(j) {
        assert(snapshot_dir_name_spec(i).skip(p.len() as int) =~= decimal(i));
        assert(snapshot_dir_name_spec(j).skip(p.len() as int) =~= decimal(j));
    }
    let q = "block_plus_"@;
    let r = ".json"@;
    if block_file_name_spec(i) == block_file_name_spec(j) {
        let a = block_file_name_spec(i);
        let b = block_file_name_spec(j);
        assert(a.len() == b.len());
        assert(decimal(i).len() == decimal(j).len());
        assert(a.subrange(q.len() as int, a.len() - r.len()) =~= decimal(i));
        assert(b.subrange(q.len() as int, b.len() - r.len()) =~= decimal(j));
    }
}

/// Snapshot `i` goes to the directory `snapshots_<i>` and the block `j`
/// slots after a snapshot to the file `block_plus_<j>.json`, the numbers in
/// decimal; the collector waits 30 seconds before asking again for a new
/// snapshot and 5 seconds before retrying a block.
pub proof fn lemma_collected_file_names(i: nat, j: nat)
    ensures
        snapshot_dir_name_spec(i) == "snapshots_"@ + decimal(i),
        block_file_name_spec(j) == "block_plus_"@ + decimal(j) + ".json"@,
        no_new_snapshot_wait() == 30,
        block_retry_wait() == 5,
{
}

/// The name of the directory that snapshot number `index` goes to,
/// `snapshots_{index}`.
pub fn snapshot_dir_name(index: usize) -> (r: String)
    ensures
        r@ == snapshot_dir_name_spec(index as nat),
{
    let mut r = "snapshots_".to_owned();
    append_decimal(&mut r, index as u64);
    r
}

/// The name of the file that the block `offset` slots after a snapshot
/// goes to, `block_plus_{offset}.json`.
pub fn block_file_name(offset: u64) -> (r: String)
    ensures
        r@ == block_file_name_spec(offset as nat),
{
    let mut r = "block_plus_".to_owned();
    append_decimal(&mut r, offset);
    r.append(".json");
    r
}


/// The lines that list a node's newest snapshots: a heading, the full
/// snapshot slot, and the incremental one when there is one.
pub fn snapshot_listing(full: u64, incremental: Option<u64>) -> (r: Vec<String>)
    ensures
        r@.len() == if incremental is Some { 3int } else { 2int },
        r@[0]@ == "Last snapshots:"@,
        r@[1]@ == "\tFull: "@ + decimal(full as nat),
        incremental matches Some(x) ==> r@[2]@ == "\tIncremental: "@ + decimal(x as nat),
{
    let mut r: Vec<String> = Vec::new();
    r.push("Last snapshots:".to_owned());
    let mut line = "\tFull: ".to_owned();
    append_decimal(&mut line, full);
    r.push(line);
    match incremental {
        Some(x) => {
            let mut line = "\tIncremental: ".to_owned();
            append_decimal(&mut line, x);
            r.push(line);
        },
        None => {},
    }
    r
}

} // verus!
