//! The blocks that the reader thread hands to the worker.
//!
//! The macOS slave->master PTY queue holds only ~1KB ahead of the reader, so
//! a reader that does work while reading makes the writer wait once per 1KB.
//! The reader spin-reads while a burst is flowing (catches the
//! microsecond-scale refills without a poll round trip), waits once the
//! writer goes quiet (zero idle CPU), and hands over byte blocks. Times are
//! nanoseconds since the reader was started.
use vstd::prelude::*;
use vstd::slice::*;

use crate::num::{max_of, min_of};

verus! {

pub const READER_BLOCK_BYTES: usize = 128 * 1024;

/// The reader keeps spin-reading while data has been seen within this
/// window; afterwards it waits until the next chunk (zero idle
/// CPU). macOS refills land within tens of microseconds of a drain, so the
/// spin catches them without a poll round trip.
pub const READER_BURST_IDLE_NANOS: u64 = 1_000_000;

/// A partially filled batch older than this is flushed even though the
/// stream has not paused (protects slow-but-continuous output, which
/// would otherwise wait for the push threshold).
pub const READER_MAX_BATCH_AGE_NANOS: u64 = 5_000_000;

/// A reader by its values.
#[verifier::ext_equal]
pub struct ReaderView {
    /// What waits to be handed over.
    pub batch: Seq<u8>,
    /// Since when, where the batch was begun with what was read.
    pub batch_started: Option<u64>,
    /// Since when there was nothing to read.
    pub spin_started: Option<u64>,
}

pub open spec fn elapsed(now: u64, earlier: u64) -> int {
    max_of(now - earlier, 0)
}

impl ReaderView {
    pub open spec fn started() -> ReaderView {
        ReaderView { batch: Seq::empty(), batch_started: None, spin_started: None }
    }

    /// How much of what was read the block still takes.
    pub open spec fn room(self, length: int) -> int {
        min_of(max_of(READER_BLOCK_BYTES - self.batch.len(), 0), length)
    }

    /// The reader with as much of what was read as its block takes.
    pub open spec fn filled(self, data: Seq<u8>, now: u64) -> ReaderView {
        ReaderView {
            batch: self.batch + data.take(self.room(data.len() as int)),
            batch_started: if self.batch.len() == 0 {
                Some(now)
            } else {
                self.batch_started
            },
            ..self
        }
    }

    /// What waits has waited long enough.
    pub open spec fn is_stale(self, now: u64) -> bool {
        self.batch_started is Some && elapsed(now, self.batch_started->0)
            >= READER_MAX_BATCH_AGE_NANOS
    }

    /// There was nothing to read: the reader goes on spinning, or rests.
    pub open spec fn rests(self, now: u64) -> bool {
        self.spin_started is Some && (elapsed(now, self.spin_started->0)
            >= READER_BURST_IDLE_NANOS || self.is_stale(now))
    }
}

/// What the reader thread keeps between reads.
#[derive(Debug)]
pub struct PtyReader {
    batch: Vec<u8>,
    batch_started: Option<u64>,
    spin_started: Option<u64>,
}

impl View for PtyReader {
    type V = ReaderView;

    closed spec fn view(&self) -> ReaderView {
        ReaderView {
            batch: self.batch@,
            batch_started: self.batch_started,
            spin_started: self.spin_started,
        }
    }
}

impl PtyReader {
    pub fn new() -> (reader: Self)
        ensures
            reader@ == ReaderView::started(),
    {
        let reader = Self { batch: Vec::new(), batch_started: None, spin_started: None };
        assert(reader@ =~= ReaderView::started());
        reader
    }

    /// A burst begins, or goes on with new data.
    pub fn spin(&mut self)
        ensures
            final(self)@ == (ReaderView { spin_started: None, ..old(self)@ }),
    {
        self.spin_started = None;
    }

    /// Takes as much of what was read as the block has room for; returns how
    /// much.
    pub fn fill(&mut self, data: &[u8], now: u64) -> (taken: usize)
        ensures
            final(self)@ == old(self)@.filled(data@, now),
            taken == old(self)@.room(data@.len() as int),
    {
        if self.batch.len() == 0 {
            self.batch_started = Some(now);
        }
        let room: usize = READER_BLOCK_BYTES.saturating_sub(self.batch.len());
        let taken: usize = room.min(data.len());
        let part: &[u8] = slice_subrange(data, 0, taken);
        let ghost before = self.batch@;
        self.batch.extend_from_slice(part);
        assert(self.batch@ =~= before + data@.take(taken as int));
        taken
    }

    /// Whether the block is to be handed over at once.
    pub fn is_full(&self) -> (full: bool)
        ensures
            full == (self@.batch.len() == READER_BLOCK_BYTES),
    {
        self.batch.len() == READER_BLOCK_BYTES
    }

    /// Whether there is anything to hand over.
    pub fn is_empty(&self) -> (empty: bool)
        ensures
            empty == (self@.batch.len() == 0),
    {
        self.batch.len() == 0
    }

    /// Hands the block over and goes on with another.
    pub fn hand_over(&mut self, replacement: Vec<u8>) -> (block: Vec<u8>)
        ensures
            block@ == old(self)@.batch,
            final(self)@ == (ReaderView {
                batch: replacement@,
                batch_started: None,
                ..old(self)@
            }),
    {
        let mut block: Vec<u8> = replacement;
        std::mem::swap(&mut block, &mut self.batch);
        self.batch_started = None;
        block
    }

    /// There was nothing to read; returns whether the reader hands over what
    /// it has and waits.
    pub fn nothing_read(&mut self, now: u64) -> (rests: bool)
        ensures
            rests == old(self)@.rests(now),
            final(self)@ == (ReaderView {
                spin_started: match old(self)@.spin_started {
                    Some(at) => Some(at),
                    None => Some(now),
                },
                ..old(self)@
            }),
    {
        let stale: bool = match self.batch_started {
            Some(at) => now.saturating_sub(at) >= READER_MAX_BATCH_AGE_NANOS,
            None => false,
        };
        match self.spin_started {
            None => {
                self.spin_started = Some(now);
                false
            },
            Some(at) => !(now.saturating_sub(at) < READER_BURST_IDLE_NANOS && !stale),
        }
    }
}

/// Filling a block loses nothing: what it held, what it took and what is left
/// of the data are the data behind what it held.
pub proof fn filling_loses_nothing(reader: ReaderView, data: Seq<u8>, now: u64)
    ensures
        reader.filled(data, now).batch + data.skip(reader.room(data.len() as int))
            == reader.batch + data,
        reader.batch.len() <= READER_BLOCK_BYTES ==> reader.filled(data, now).batch.len()
            <= READER_BLOCK_BYTES,
{
    let taken = reader.room(data.len() as int);
    assert(reader.batch + data.take(taken) + data.skip(taken) =~= reader.batch + data);
}

/// A block is filled as far as it takes: it has all of the data where that fits,
/// and is full where it does not.
pub proof fn a_block_is_filled_up(reader: ReaderView, data: Seq<u8>, now: u64)
    requires
        reader.batch.len() <= READER_BLOCK_BYTES,
    ensures
        reader.batch.len() + data.len() <= READER_BLOCK_BYTES ==> reader.filled(data, now).batch
            == reader.batch + data,
        reader.batch.len() + data.len() >= READER_BLOCK_BYTES ==> reader.filled(
            data,
            now,
        ).batch.len() == READER_BLOCK_BYTES,
        reader.batch.len() == 0 ==> reader.filled(data, now).batch_started == Some(now),
        reader.batch.len() > 0 ==> reader.filled(data, now).batch_started == reader.batch_started,
        reader.filled(data, now).spin_started == reader.spin_started,
{
    assert(data.take(data.len() as int) =~= data);
}

/// The reader looks again and again for a millisecond before it rests, and no
/// longer once its block is five milliseconds old.
pub proof fn the_reader_rests_after_a_pause(reader: ReaderView, now: u64)
    requires
        reader.spin_started is Some ==> reader.spin_started->0 <= now,
        reader.batch_started is Some ==> reader.batch_started->0 <= now,
    ensures
        reader.spin_started is None ==> !reader.rests(now),
        reader.spin_started is Some ==> reader.rests(now) == (now - reader.spin_started->0
            >= 1_000_000 || (reader.batch_started is Some && now - reader.batch_started->0
            >= 5_000_000)),
{
}

} // verus!
