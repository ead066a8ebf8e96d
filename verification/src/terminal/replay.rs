//! Bounded in-memory replay history of raw terminal events.
//!
//! The ring stores what a late-attaching client needs to rebuild terminal
//! state from scratch: the raw output bytes and the geometry ordering.
//! Every stored event carries the size it was produced at, so eviction of
//! the oldest events can never lose the geometry context a replier needs.
//!
//! Eviction policy (predictable, by bytes):
//! - the oldest whole event is dropped first, repeatedly, until the ring is
//!   within its byte budget;
//! - the most recent event is never dropped;
//! - if the ring holds a single event over budget, that event's bytes are
//!   trimmed from the front (the tail of the stream survives, as in a
//!   `history-limit`-style scrollback).
//!
//! `ReplayBegin` consumers read [`ReplayRing::first_seq`] /
//! [`ReplayRing::first_size`] to learn the replay start point.
use std::collections::VecDeque;
use std::sync::Arc;

use vstd::prelude::*;
use vstd::slice::*;
use vstd::string::*;

use super::snapshot::TerminalSize;
use super::stream::{StreamEvent, TerminalSeq, TerminalStreamEvent};
use crate::num::{clamp_usize, clamped};
use crate::shared::share;
use crate::text::{contains_bytes, has_run};

verus! {

/// Hard byte ceiling for one terminal's ring (clamped at construction).
/// Kept below the control protocol's 16 MiB frame ceiling after base64
/// expansion, since protocol v2 transfers replay in one
/// attach response before switching to live event frames.
pub const MAX_REPLAY_BYTES: usize = 8 * 1024 * 1024;

/// Conservative charge for the deque slot, sequence/geometry, enum, and
/// allocator bookkeeping of every retained event. Charging metadata as well
/// as output prevents a resize-only stream from growing without bound.
pub const EVENT_OVERHEAD_BYTES: usize = 64;

#[derive(Debug)]
enum StoredKind {
    Output(Arc<[u8]>),
    Resize,
    Exit(Option<i32>),
}

/// What a retained event records besides its sequence and geometry.
#[verifier::ext_equal]
pub enum RetainedKind {
    Output(Seq<u8>),
    Resize,
    Exit(Option<i32>),
}

impl View for StoredKind {
    type V = RetainedKind;

    closed spec fn view(&self) -> RetainedKind {
        match self {
            StoredKind::Output(bytes) => RetainedKind::Output(bytes@),
            StoredKind::Resize => RetainedKind::Resize,
            StoredKind::Exit(code) => RetainedKind::Exit(*code),
        }
    }
}

impl StoredKind {
    fn output_bytes(&self) -> (length: usize)
        ensures
            length == self@.output().len(),
    {
        match self {
            Self::Output(bytes) => bytes.len(),
            _ => 0,
        }
    }
}

impl RetainedKind {
    pub open spec fn output(self) -> Seq<u8> {
        match self {
            RetainedKind::Output(bytes) => bytes,
            _ => Seq::empty(),
        }
    }
}

#[derive(Debug)]
struct StoredEvent {
    seq: TerminalSeq,
    size: TerminalSize,
    kind: StoredKind,
}

/// One event of the history.
#[verifier::ext_equal]
pub struct RetainedEvent {
    pub seq: u64,
    pub size: TerminalSize,
    pub kind: RetainedKind,
}

impl RetainedEvent {
    /// What the event counts for against the budget.
    pub open spec fn charge(self) -> int {
        EVENT_OVERHEAD_BYTES + self.kind.output().len()
    }

    /// The event as it is replayed.
    pub open spec fn stream_event(self) -> StreamEvent {
        match self.kind {
            RetainedKind::Output(bytes) => StreamEvent::Output {
                seq: self.seq,
                size: self.size,
                bytes,
            },
            RetainedKind::Resize => StreamEvent::Resize { seq: self.seq, size: self.size },
            RetainedKind::Exit(code) => StreamEvent::Exit { seq: self.seq, code },
        }
    }

    /// The event with only the last bytes of its output that fit in `budget`.
    pub open spec fn trimmed(self, budget: int) -> RetainedEvent {
        match self.kind {
            RetainedKind::Output(bytes) => if self.charge() > budget {
                RetainedEvent {
                    kind: RetainedKind::Output(bytes.skip(self.charge() - budget)),
                    ..self
                }
            } else {
                self
            },
            _ => self,
        }
    }
}

impl View for StoredEvent {
    type V = RetainedEvent;

    closed spec fn view(&self) -> RetainedEvent {
        RetainedEvent { seq: self.seq, size: self.size, kind: self.kind@ }
    }
}

impl StoredEvent {
    fn retained_bytes(&self) -> (bytes: usize)
        requires
            self@.charge() <= usize::MAX,
        ensures
            bytes == self@.charge(),
    {
        EVENT_OVERHEAD_BYTES + self.kind.output_bytes()
    }

    fn to_stream(&self) -> (event: TerminalStreamEvent)
        ensures
            event@ == self@.stream_event(),
    {
        match &self.kind {
            StoredKind::Output(bytes) => TerminalStreamEvent::Output {
                seq: self.seq,
                size: self.size,
                bytes: bytes.clone(),
            },
            StoredKind::Resize => TerminalStreamEvent::Resize { seq: self.seq, size: self.size },
            StoredKind::Exit(code) => TerminalStreamEvent::Exit { seq: self.seq, code: *code },
        }
    }
}

/// What a run of events counts for against the budget.
pub open spec fn charged(events: Seq<RetainedEvent>) -> int
    decreases events.len(),
{
    if events.len() == 0 {
        0
    } else {
        events[0].charge() + charged(events.drop_first())
    }
}

/// What is left of a run of events once it is brought within `budget`: whole
/// events go from the front, and the last one standing keeps its tail.
pub open spec fn evicted(events: Seq<RetainedEvent>, budget: int) -> Seq<RetainedEvent>
    decreases events.len(),
{
    if charged(events) <= budget || events.len() == 0 {
        events
    } else if events.len() == 1 {
        seq![events[0].trimmed(budget)]
    } else {
        evicted(events.drop_first(), budget)
    }
}

/// The contents of a ring.
#[verifier::ext_equal]
pub struct RingView {
    pub events: Seq<RetainedEvent>,
    pub next_seq: int,
    pub budget: int,
}

impl RingView {
    /// What holds of every ring: at least one event is retained, the charge
    /// of all of them is within the budget, and their sequences lead up to the
    /// next one to be assigned without a gap.
    pub open spec fn valid(self) -> bool {
        &&& self.events.len() >= 1
        &&& EVENT_OVERHEAD_BYTES <= self.budget <= MAX_REPLAY_BYTES
        &&& charged(self.events) <= self.budget
        &&& forall|i: int|
            0 <= i < self.events.len() ==> (#[trigger] self.events[i]).seq == self.next_seq
                - self.events.len() + i
    }

    /// The ring after one more event of the given kind.
    pub open spec fn appended(self, size: TerminalSize, kind: RetainedKind) -> RingView {
        let event = RetainedEvent { seq: self.next_seq as u64, size, kind };
        RingView {
            events: evicted(self.events.push(event), self.budget),
            next_seq: self.next_seq + 1,
            budget: self.budget,
        }
    }

    /// The ring brought within a smaller budget.
    pub open spec fn trimmed_to(self, bytes: int) -> RingView {
        let budget = clamped(bytes, EVENT_OVERHEAD_BYTES as int, self.budget);
        RingView { events: evicted(self.events, budget), next_seq: self.next_seq, budget }
    }

    /// Some retained output holds `needle`.
    pub open spec fn output_contains(self, needle: Seq<u8>) -> bool {
        exists|i: int|
            0 <= i < self.events.len() && (#[trigger] self.events[i]).kind is Output && has_run(
                self.events[i].kind.output(),
                needle,
            )
    }
}

pub proof fn lemma_charged_nonnegative(events: Seq<RetainedEvent>)
    ensures
        charged(events) >= EVENT_OVERHEAD_BYTES * events.len(),
    decreases events.len(),
{
    if events.len() > 0 {
        lemma_charged_nonnegative(events.drop_first());
    }
}

proof fn lemma_charged_push(events: Seq<RetainedEvent>, event: RetainedEvent)
    ensures
        charged(events.push(event)) == charged(events) + event.charge(),
    decreases events.len(),
{
    if events.len() == 0 {
        assert(events.push(event).drop_first() =~= events);
    } else {
        assert(events.push(event).drop_first() =~= events.drop_first().push(event));
        lemma_charged_push(events.drop_first(), event);
    }
}

proof fn lemma_charged_one(event: RetainedEvent)
    ensures
        charged(seq![event]) == event.charge(),
{
    assert(seq![event].drop_first() =~= Seq::empty());
    assert(charged(seq![event].drop_first()) == 0);
}

/// Eviction keeps a run of the newest events: they are the events from some
/// point on, whole, except that a single survivor may have lost the front of
/// its output.  What is left fits the budget.
pub proof fn eviction_keeps_the_newest(events: Seq<RetainedEvent>, budget: int)
    requires
        events.len() >= 1,
        budget >= EVENT_OVERHEAD_BYTES,
    ensures
        ({
            let kept = evicted(events, budget);
            let first = events.len() - kept.len();
            &&& 1 <= kept.len() <= events.len()
            &&& charged(kept) <= budget
            &&& kept == events.skip(first) || kept == seq![events.last().trimmed(budget)]
            &&& kept.last().seq == events.last().seq
            &&& kept.last().size == events.last().size
            &&& forall|i: int|
                0 <= i < kept.len() ==> (#[trigger] kept[i]).seq == events[first + i].seq
        }),
    decreases events.len(),
{
    let kept = evicted(events, budget);
    if charged(events) <= budget {
        assert(events.skip(0) =~= events);
    } else if events.len() == 1 {
        let event = events[0];
        assert(events =~= seq![event]);
        lemma_charged_one(event);
        lemma_charged_one(event.trimmed(budget));
    } else {
        let rest = events.drop_first();
        eviction_keeps_the_newest(rest, budget);
        let first = events.len() - kept.len();
        assert(rest.skip(first - 1) =~= events.skip(first));
        assert(rest.last() == events.last());
        assert forall|i: int| 0 <= i < kept.len() implies (#[trigger] kept[i]).seq == events[first
            + i].seq by {
            assert(kept[i].seq == rest[first - 1 + i].seq);
        }
    }
}

/// The ring stays valid over one more event, and the new event is its newest.
pub proof fn appending_keeps_the_ring_valid(ring: RingView, size: TerminalSize, kind: RetainedKind)
    requires
        ring.valid(),
        0 <= ring.next_seq < u64::MAX,
    ensures
        ring.appended(size, kind).valid(),
        ring.appended(size, kind).events.last().seq == ring.next_seq,
        ring.appended(size, kind).events.last().size == size,
{
    let event = RetainedEvent { seq: ring.next_seq as u64, size, kind };
    eviction_keeps_the_newest(ring.events.push(event), ring.budget);
}

/// Trimming keeps the ring valid, keeps its newest event and never makes the
/// budget larger.
pub proof fn trimming_keeps_the_ring_valid(ring: RingView, bytes: int)
    requires
        ring.valid(),
    ensures
        ring.trimmed_to(bytes).valid(),
        ring.trimmed_to(bytes).budget <= ring.budget,
        charged(ring.trimmed_to(bytes).events) <= clamped(
            bytes,
            EVENT_OVERHEAD_BYTES as int,
            ring.budget,
        ),
        ring.trimmed_to(bytes).events.last().seq == ring.events.last().seq,
{
    let budget = clamped(bytes, EVENT_OVERHEAD_BYTES as int, ring.budget);
    eviction_keeps_the_newest(ring.events, budget);
}

/// A valid ring holds no more events than its budget pays overhead for.
pub proof fn a_ring_is_bounded_in_events(ring: RingView)
    requires
        ring.valid(),
    ensures
        ring.events.len() * EVENT_OVERHEAD_BYTES <= ring.budget,
{
    lemma_charged_nonnegative(ring.events);
}

/// Replay history of one terminal. The PTY worker appends; attach and capture
/// paths read.
#[derive(Debug)]
pub struct ReplayRing {
    events: VecDeque<StoredEvent>,
    next_seq: TerminalSeq,
    bytes: usize,
    budget: usize,
}

impl View for ReplayRing {
    type V = RingView;

    closed spec fn view(&self) -> RingView {
        RingView {
            events: stored_view(self.events@),
            next_seq: self.next_seq as int,
            budget: self.budget as int,
        }
    }
}

spec fn stored_view(events: Seq<StoredEvent>) -> Seq<RetainedEvent> {
    events.map_values(|event: StoredEvent| event@)
}

impl ReplayRing {
    /// The ring is valid and its byte count is the charge of its events.
    pub closed spec fn wf(&self) -> bool {
        self@.valid() && self.bytes == charged(self@.events)
    }

    /// A ring whose first event, sequence 1, is the initial geometry anchor,
    /// so a client replaying from the start always learns the spawn size
    /// first.
    pub fn new(size: TerminalSize, budget: usize) -> (ring: Self)
        ensures
            ring.wf(),
            ring@.valid(),
            ring@.events == seq![RetainedEvent { seq: 1, size, kind: RetainedKind::Resize }],
            ring@.next_seq == 2,
            ring@.budget == clamped(
                budget as int,
                EVENT_OVERHEAD_BYTES as int,
                MAX_REPLAY_BYTES as int,
            ),
    {
        let budget: usize = clamp_usize(budget, EVENT_OVERHEAD_BYTES, MAX_REPLAY_BYTES);
        let mut events: VecDeque<StoredEvent> = VecDeque::new();
        events.push_back(StoredEvent { seq: 1, size, kind: StoredKind::Resize });
        let ring = Self { events, next_seq: 2, bytes: EVENT_OVERHEAD_BYTES, budget };
        proof {
            let anchor = RetainedEvent { seq: 1, size, kind: RetainedKind::Resize };
            assert(ring@.events =~= seq![anchor]);
            lemma_charged_one(anchor);
        }
        ring
    }

    fn reserve_seq(&mut self) -> (seq: TerminalSeq)
        requires
            old(self)@.next_seq < u64::MAX,
        ensures
            seq == old(self)@.next_seq,
            final(self)@ == (RingView { next_seq: old(self)@.next_seq + 1, ..old(self)@ }),
            final(self).bytes == old(self).bytes,
    {
        let seq: u64 = self.next_seq;
        self.next_seq = self.next_seq + 1;
        seq
    }

    fn push(&mut self, event: StoredEvent)
        requires
            old(self).bytes == charged(old(self)@.events),
            old(self).bytes + event@.charge() <= usize::MAX,
            old(self)@.budget >= EVENT_OVERHEAD_BYTES,
        ensures
            final(self)@ == (RingView {
                events: evicted(old(self)@.events.push(event@), old(self)@.budget),
                ..old(self)@
            }),
            final(self).bytes == charged(final(self)@.events),
    {
        let charge: usize = event.retained_bytes();
        proof {
            lemma_charged_push(self@.events, event@);
        }
        let ghost pushed = self@.events.push(event@);
        self.events.push_back(event);
        self.bytes = self.bytes + charge;
        assert(self@.events =~= pushed);
        self.evict();
    }

    fn evict(&mut self)
        requires
            old(self).bytes == charged(old(self)@.events),
            old(self)@.budget >= EVENT_OVERHEAD_BYTES,
        ensures
            final(self)@ == (RingView {
                events: evicted(old(self)@.events, old(self)@.budget),
                ..old(self)@
            }),
            final(self).bytes == charged(final(self)@.events),
    {
        while self.bytes > self.budget && self.events.len() > 1
            invariant
                self.bytes == charged(self@.events),
                self.budget == old(self).budget,
                self.next_seq == old(self).next_seq,
                self@.budget >= EVENT_OVERHEAD_BYTES,
                evicted(self@.events, self@.budget) == evicted(
                    old(self)@.events,
                    old(self)@.budget,
                ),
            decreases self.events@.len(),
        {
            let ghost before = self@.events;
            proof {
                lemma_charged_nonnegative(before.drop_first());
            }
            match self.events.pop_front() {
                Some(oldest) => {
                    assert(self@.events =~= before.drop_first());
                    self.bytes = self.bytes - oldest.retained_bytes();
                },
                None => {},
            }
        }
        if self.bytes > self.budget && self.events.len() == 1 {
            let ghost before = self@.events;
            proof {
                assert(before =~= seq![before[0]]);
                lemma_charged_one(before[0]);
            }
            let keep: usize = self.budget - EVENT_OVERHEAD_BYTES;
            match self.events.pop_front() {
                Some(event) => {
                    let StoredEvent { seq, size, kind } = event;
                    let kind: StoredKind = match kind {
                        StoredKind::Output(bytes) => {
                            let drop: usize = bytes.len() - keep;
                            let tail: Vec<u8> = slice_to_vec(
                                slice_subrange(&*bytes, drop, bytes.len()),
                            );
                            self.bytes = self.bytes - drop;
                            assert(tail@ =~= bytes@.skip(drop as int));
                            StoredKind::Output(share(tail))
                        },
                        other => other,
                    };
                    self.events.push_back(StoredEvent { seq, size, kind });
                },
                None => {},
            }
            proof {
                assert(self@.events =~= seq![before[0].trimmed(self@.budget)]);
                lemma_charged_one(before[0].trimmed(self@.budget));
            }
        } else {
            assert(self@.events.len() == self.events@.len());
        }
    }

    /// Appends output produced at `size` and returns its sequence.
    pub fn push_output(&mut self, size: TerminalSize, bytes: Arc<[u8]>) -> (seq: TerminalSeq)
        requires
            old(self).wf(),
            old(self)@.next_seq < u64::MAX,
            bytes@.len() + MAX_REPLAY_BYTES + EVENT_OVERHEAD_BYTES <= usize::MAX,
        ensures
            final(self).wf(),
            final(self)@.valid(),
            final(self)@ == old(self)@.appended(size, RetainedKind::Output(bytes@)),
            seq == old(self)@.next_seq,
    {
        proof {
            appending_keeps_the_ring_valid(self@, size, RetainedKind::Output(bytes@));
        }
        let seq: u64 = self.reserve_seq();
        self.push(StoredEvent { seq, size, kind: StoredKind::Output(bytes) });
        seq
    }

    /// Appends a change of geometry and returns its sequence.
    pub fn push_resize(&mut self, size: TerminalSize) -> (seq: TerminalSeq)
        requires
            old(self).wf(),
            old(self)@.next_seq < u64::MAX,
        ensures
            final(self).wf(),
            final(self)@.valid(),
            final(self)@ == old(self)@.appended(size, RetainedKind::Resize),
            seq == old(self)@.next_seq,
    {
        proof {
            appending_keeps_the_ring_valid(self@, size, RetainedKind::Resize);
        }
        let seq: u64 = self.reserve_seq();
        self.push(StoredEvent { seq, size, kind: StoredKind::Resize });
        seq
    }

    /// Records the exit and returns the Exit event's sequence. The exit is
    /// stored at the geometry of the event before it.
    pub fn finish(&mut self, code: Option<i32>) -> (seq: TerminalSeq)
        requires
            old(self).wf(),
            old(self)@.next_seq < u64::MAX,
        ensures
            final(self).wf(),
            final(self)@.valid(),
            final(self)@ == old(self)@.appended(
                old(self)@.events.last().size,
                RetainedKind::Exit(code),
            ),
            seq == old(self)@.next_seq,
    {
        proof {
            appending_keeps_the_ring_valid(
                self@,
                self@.events.last().size,
                RetainedKind::Exit(code),
            );
        }
        let size: TerminalSize = self.events[self.events.len() - 1].size;
        let seq: u64 = self.reserve_seq();
        self.push(StoredEvent { seq, size, kind: StoredKind::Exit(code) });
        seq
    }

    /// Whether the newest event is the exit.
    pub fn is_finished(&self) -> (finished: bool)
        requires
            self.wf(),
        ensures
            finished == (self@.events.last().kind is Exit),
    {
        self.exit_code().is_some()
    }

    /// The exit code, once the newest event is the exit.
    pub fn exit_code(&self) -> (code: Option<Option<i32>>)
        requires
            self.wf(),
        ensures
            code == match self@.events.last().kind {
                RetainedKind::Exit(code) => Some(code),
                _ => None,
            },
    {
        match &self.events[self.events.len() - 1].kind {
            StoredKind::Exit(code) => Some(*code),
            _ => None,
        }
    }

    /// Sequence of the newest stored event.
    pub fn last_seq(&self) -> (seq: TerminalSeq)
        requires
            self.wf(),
        ensures
            seq == self@.events.last().seq,
            seq + 1 == self@.next_seq,
    {
        self.events[self.events.len() - 1].seq
    }

    /// Sequence of the oldest surviving event (the replay start point).
    pub fn first_seq(&self) -> (seq: Option<TerminalSeq>)
        requires
            self.wf(),
        ensures
            seq == Some(self@.events[0].seq),
    {
        Some(self.events[0].seq)
    }

    /// Geometry of the oldest surviving event (the replay start geometry).
    pub fn first_size(&self) -> (size: Option<TerminalSize>)
        requires
            self.wf(),
        ensures
            size == Some(self@.events[0].size),
    {
        Some(self.events[0].size)
    }

    /// Geometry of the newest event (the terminal's current size).
    pub fn last_size(&self) -> (size: Option<TerminalSize>)
        requires
            self.wf(),
        ensures
            size == Some(self@.events.last().size),
    {
        Some(self.events[self.events.len() - 1].size)
    }

    /// The charge of the retained events.
    pub fn total_bytes(&self) -> (bytes: usize)
        requires
            self.wf(),
        ensures
            bytes == charged(self@.events),
            bytes <= self@.budget,
    {
        self.bytes
    }

    pub fn event_count(&self) -> (count: usize)
        ensures
            count == self@.events.len(),
    {
        self.events.len()
    }

    /// O(n) byte search over the retained raw output events; a match does not
    /// span two events. The empty needle is always found.
    pub fn raw_contains(&self, needle: &str) -> (found: bool)
        ensures
            found == (needle@.len() == 0 || self@.output_contains(needle.spec_bytes())),
    {
        if needle.is_empty() {
            return true;
        }
        let pattern: &[u8] = needle.as_bytes();
        let mut i: usize = 0;
        while i < self.events.len()
            invariant
                i <= self.events@.len(),
                pattern@ == needle.spec_bytes(),
                forall|k: int|
                    0 <= k < i ==> !((#[trigger] self@.events[k]).kind is Output && has_run(
                        self@.events[k].kind.output(),
                        pattern@,
                    )),
            decreases self.events@.len() - i,
        {
            let ghost event = self@.events[i as int];
            match &self.events[i].kind {
                StoredKind::Output(bytes) => if contains_bytes(&*bytes, pattern) {
                    assert(event.kind is Output && has_run(event.kind.output(), pattern@));
                    return true;
                },
                _ => {},
            }
            i = i + 1;
        }
        false
    }

    /// The full ordered history as stream events (replay for a new client).
    pub fn to_stream(&self) -> (events: Vec<TerminalStreamEvent>)
        ensures
            events@.len() == self@.events.len(),
            forall|i: int|
                0 <= i < events@.len() ==> (#[trigger] events@[i])@
                    == self@.events[i].stream_event(),
    {
        let mut events: Vec<TerminalStreamEvent> = Vec::new();
        let mut i: usize = 0;
        while i < self.events.len()
            invariant
                i <= self.events@.len(),
                events@.len() == i,
                forall|k: int|
                    0 <= k < i ==> (#[trigger] events@[k])@ == self@.events[k].stream_event(),
            decreases self.events@.len() - i,
        {
            events.push(self.events[i].to_stream());
            i = i + 1;
        }
        events
    }

    /// Keeps only the newest events that fit in `bytes`; used when a
    /// terminal is retired so closed tabs cannot pin full history.
    pub fn trim_to(&mut self, bytes: usize)
        requires
            old(self).wf(),
        ensures
            final(self).wf(),
            final(self)@.valid(),
            final(self)@ == old(self)@.trimmed_to(bytes as int),
    {
        proof {
            trimming_keeps_the_ring_valid(self@, bytes as int);
        }
        self.budget = clamp_usize(bytes, EVENT_OVERHEAD_BYTES, self.budget);
        self.evict();
    }
}

proof fn lemma_charged_split(front: Seq<RetainedEvent>, back: Seq<RetainedEvent>)
    ensures
        charged(front + back) == charged(front) + charged(back),
    decreases front.len(),
{
    if front.len() == 0 {
        assert(front + back =~= back);
    } else {
        assert((front + back).drop_first() =~= front.drop_first() + back);
        lemma_charged_split(front.drop_first(), back);
    }
}

/// Every retained event is charged for its output and for a fixed overhead;
/// the charge of a history is that of its parts.
pub proof fn a_history_is_charged_by_its_parts(
    front: Seq<RetainedEvent>,
    event: RetainedEvent,
    back: Seq<RetainedEvent>,
)
    ensures
        charged(front + seq![event] + back) == charged(front) + 64 + event.kind.output().len()
            + charged(back),
        charged(Seq::<RetainedEvent>::empty()) == 0,
{
    lemma_charged_one(event);
    lemma_charged_split(front, seq![event]);
    lemma_charged_split(front + seq![event], back);
}

proof fn lemma_charged_tail(events: Seq<RetainedEvent>, from: int, to: int)
    requires
        0 <= from <= to <= events.len(),
    ensures
        charged(events.skip(to)) <= charged(events.skip(from)),
{
    let part = events.subrange(from, to);
    lemma_charged_nonnegative(part);
    lemma_charged_split(part, events.skip(to));
    assert(part + events.skip(to) =~= events.skip(from));
}

/// Eviction drops no more than it must: what stays is the longest run of the
/// newest events that fits the budget. Where not even the newest event fits,
/// it stays alone, with as much of the end of its output as fits.
pub proof fn eviction_keeps_all_that_fits(events: Seq<RetainedEvent>, budget: int, run: int)
    requires
        0 <= run <= events.len(),
        budget >= 64,
    ensures
        ({
            let kept = evicted(events, budget);
            let fits = charged(events.skip(events.len() - run)) <= budget;
            &&& fits ==> kept.len() >= run
            &&& kept.len() <= events.len()
            &&& fits && run > 0 ==> kept == events.skip(events.len() - kept.len())
            &&& fits && run > 0 ==> charged(kept) <= budget
            &&& !fits ==> kept.len() < run || kept.len() == 1
            &&& events.len() > 0 && charged(seq![events.last()]) > budget ==> {
                let newest = events.last();
                let bytes = newest.kind.output();
                &&& kept.len() == 1
                &&& kept[0].seq == newest.seq
                &&& kept[0].size == newest.size
                &&& newest.kind is Output
                &&& kept[0].kind == RetainedKind::Output(bytes.skip(bytes.len() - (budget - 64)))
            }
        }),
    decreases events.len(),
{
    let kept = evicted(events, budget);
    let tail = events.skip(events.len() - run);
    assert(events.skip(0) =~= events);
    lemma_charged_tail(events, 0, events.len() - run);
    if events.len() > 0 {
        let newest = events.last();
        lemma_charged_one(newest);
        assert(events.skip(events.len() - 1) =~= seq![newest]);
        lemma_charged_tail(events, 0, events.len() - 1);
        if run > 0 {
            lemma_charged_tail(events, events.len() - run, events.len() - 1);
        }
    }
    if charged(events) <= budget || events.len() == 0 {
    } else if events.len() == 1 {
        assert(events =~= seq![events[0]]);
    } else {
        let rest = events.drop_first();
        assert(rest.last() == events.last());
        eviction_keeps_the_newest(rest, budget);
        if run < events.len() {
            assert(rest.skip(rest.len() - run) =~= tail);
            eviction_keeps_all_that_fits(rest, budget, run);
        } else {
            eviction_keeps_all_that_fits(rest, budget, 0);
        }
        assert(events.skip(events.len() - kept.len()) =~= rest.skip(rest.len() - kept.len()));
    }
}

/// The history after one more event: where all of it fits, it is what it was
/// with the new event behind it; the new event is numbered next and is what
/// was handed in, with as much of the end of its output as fits the budget.
pub proof fn the_newest_event_is_retained(ring: RingView, size: TerminalSize, kind: RetainedKind)
    requires
        ring.valid(),
        0 <= ring.next_seq < u64::MAX,
    ensures
        ({
            let after = ring.appended(size, kind);
            let event = RetainedEvent { seq: ring.next_seq as u64, size, kind };
            let newest = after.events.last();
            &&& after.next_seq == ring.next_seq + 1
            &&& after.budget == ring.budget
            &&& charged(ring.events) + 64 + kind.output().len() <= ring.budget ==> after.events
                == ring.events.push(event)
            &&& 64 + kind.output().len() <= ring.budget ==> newest == event
            &&& 64 + kind.output().len() > ring.budget ==> after.events.len() == 1 && newest.seq
                == ring.next_seq && newest.size == size && newest.kind == RetainedKind::Output(
                kind.output().skip(kind.output().len() - (ring.budget - 64)),
            )
            &&& forall|run: int|
                0 < run <= ring.events.len() && charged(
                    #[trigger] ring.events.skip(ring.events.len() - run),
                ) + 64 + kind.output().len() <= ring.budget ==> after.events.len() > run
        }),
{
    let event = RetainedEvent { seq: ring.next_seq as u64, size, kind };
    let all = ring.events.push(event);
    let after = ring.appended(size, kind);
    lemma_charged_push(ring.events, event);
    lemma_charged_one(event);
    eviction_keeps_the_newest(all, ring.budget);
    eviction_keeps_all_that_fits(all, ring.budget, 1);
    assert(all.skip(all.len() - 1) =~= seq![event]);
    assert forall|run: int|
        0 < run <= ring.events.len() && charged(
            #[trigger] ring.events.skip(ring.events.len() - run),
        ) + 64 + kind.output().len() <= ring.budget implies after.events.len() > run by {
        lemma_charged_push(ring.events.skip(ring.events.len() - run), event);
        assert(all.skip(all.len() - (run + 1)) =~= ring.events.skip(
            ring.events.len() - run,
        ).push(event));
        eviction_keeps_all_that_fits(all, ring.budget, run + 1);
    }
}

/// A retired history keeps what fits the smaller budget, which is never
/// smaller than one event's overhead and never larger than it was.
pub proof fn a_trimmed_history_keeps_what_fits(ring: RingView, bytes: int, run: int)
    requires
        ring.valid(),
        0 < run <= ring.events.len(),
    ensures
        ({
            let after = ring.trimmed_to(bytes);
            &&& after.next_seq == ring.next_seq
            &&& 64 <= bytes <= ring.budget ==> after.budget == bytes
            &&& bytes < 64 ==> after.budget == 64
            &&& bytes > ring.budget ==> after.budget == ring.budget
            &&& charged(after.events) <= after.budget
            &&& charged(ring.events.skip(ring.events.len() - run)) <= after.budget ==> run
                <= after.events.len() && after.events == ring.events.skip(
                ring.events.len() - after.events.len(),
            )
            &&& bytes >= ring.budget ==> after.events == ring.events
        }),
{
    let after = ring.trimmed_to(bytes);
    eviction_keeps_the_newest(ring.events, after.budget);
    eviction_keeps_all_that_fits(ring.events, after.budget, run);
}

/// What a client is replayed is what was retained: every event has its
/// number, and output and resizes have their size and their bytes.
pub proof fn events_are_replayed_as_retained(event: RetainedEvent)
    ensures
        event.stream_event().seq() == event.seq,
        event.kind is Output ==> event.stream_event() is Output && event.stream_event().output()
            == event.kind.output(),
        event.kind is Resize ==> event.stream_event() is Resize,
        !(event.kind is Exit) ==> event.stream_event().size() == Some(event.size),
        event.kind matches RetainedKind::Exit(code) ==> (event.stream_event() matches
            StreamEvent::Exit { code: replayed, .. } && replayed == code),
{
}

} // verus!
