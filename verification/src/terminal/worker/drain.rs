//! Collecting what the reader thread has read.
use std::sync::atomic::{AtomicBool, Ordering};
use std::sync::mpsc::{Receiver, SyncSender, TryRecvError};

use vstd::prelude::*;

verus! {

/// The receiving end of a channel of the standard library. What it yields
/// depends on other threads and is left unsaid.
#[verifier::external_type_specification]
#[verifier::external_body]
#[verifier::reject_recursive_types(T)]
pub struct ExReceiver<T>(std::sync::mpsc::Receiver<T>);

/// The sending end of a bounded channel of the standard library. What becomes
/// of a value depends on other threads and is left unsaid.
#[verifier::external_type_specification]
#[verifier::external_body]
#[verifier::reject_recursive_types(T)]
pub struct ExSyncSender<T>(std::sync::mpsc::SyncSender<T>);

/// What a look into the channel gave.
#[derive(Debug)]
pub enum Received {
    Block(Vec<u8>),
    Empty,
    Closed,
}

/// What a look into the channel gave, by its values.
pub enum Reply {
    Block(Seq<u8>),
    Empty,
    Closed,
}

impl View for Received {
    type V = Reply;

    open spec fn view(&self) -> Reply {
        match self {
            Received::Block(block) => Reply::Block(block@),
            Received::Empty => Reply::Empty,
            Received::Closed => Reply::Closed,
        }
    }
}

/// Takes a block with `Receiver::try_recv`, which does not wait. Nothing is
/// claimed of what comes: it depends on the other threads.
#[verifier::external_body]
fn receive(blocks: &Receiver<Vec<u8>>) -> (received: Received)
{
    match blocks.try_recv() {
        Ok(block) => Received::Block(block),
        Err(TryRecvError::Empty) => Received::Empty,
        Err(TryRecvError::Disconnected) => Received::Closed,
    }
}

/// Offers a block for reuse with `SyncSender::try_send`, which does not wait.
/// Nothing is claimed of whether it is taken.
#[verifier::external_body]
fn give_back(free: &SyncSender<Vec<u8>>, block: Vec<u8>)
{
    let _ = free.try_send(block);
}

fn tell_reader(flag: &AtomicBool, pending: bool) {
    flag.store(pending, Ordering::Release);
}

#[derive(Debug, Clone, Copy, PartialEq, Eq, Structural)]
pub enum ReadEffect {
    Continue,
    BudgetExhausted,
    Eof,
}

/// How far a drain has come: what is collected, the block that is held back
/// because it did not fit, whether the channel was just found empty, and how
/// the drain ended, once it has.
#[verifier::ext_equal]
pub struct DrainView {
    pub batch: Seq<u8>,
    pub held: Option<Seq<u8>>,
    pub rechecking: bool,
    pub effect: Option<ReadEffect>,
}

/// The bytes of a block that is held back.
pub open spec fn held_bytes(held: Option<Seq<u8>>) -> Seq<u8> {
    match held {
        Some(block) => block,
        None => Seq::empty(),
    }
}

/// A block that is held back, by its bytes.
pub open spec fn held_view(held: Option<Vec<u8>>) -> Option<Seq<u8>> {
    match held {
        Some(block) => Some(block@),
        None => None,
    }
}

impl DrainView {
    pub open spec fn empty(batch: Seq<u8>) -> DrainView {
        DrainView { batch, held: None, rechecking: false, effect: None }
    }

    /// The drain with one more block, which is held back for the next drain
    /// where it does not fit the budget.
    pub open spec fn offered(self, block: Seq<u8>, budget: int) -> DrainView {
        if self.batch.len() + block.len() > budget {
            DrainView {
                held: Some(block),
                effect: Some(ReadEffect::BudgetExhausted),
                ..self
            }
        } else {
            DrainView { batch: self.batch + block, rechecking: false, ..self }
        }
    }

    /// A drain begins with the block that the one before it held back.
    pub open spec fn started(batch: Seq<u8>, held: Option<Seq<u8>>, budget: int) -> DrainView {
        match held {
            Some(block) => DrainView::empty(batch).offered(block, budget),
            None => DrainView::empty(batch),
        }
    }

    /// The drain after one more look into the channel. It goes on while
    /// blocks come that fit the budget, and looks twice before it takes the
    /// channel to be empty.
    pub open spec fn seen(self, reply: Reply, budget: int) -> DrainView {
        match (self.effect, reply) {
            (Some(_), _) => self,
            (None, Reply::Block(block)) => self.offered(block, budget),
            (None, Reply::Empty) => if self.rechecking {
                DrainView { effect: Some(ReadEffect::Continue), ..self }
            } else {
                DrainView { rechecking: true, ..self }
            },
            (None, Reply::Closed) => DrainView { effect: Some(ReadEffect::Eof), ..self },
        }
    }

    /// The drain after several looks.
    pub open spec fn seen_all(self, replies: Seq<Reply>, budget: int) -> DrainView
        decreases replies.len(),
    {
        if replies.len() == 0 {
            self
        } else {
            self.seen_all(replies.drop_last(), budget).seen(replies.last(), budget)
        }
    }

    /// The drain looks into the channel just these times: it has not ended
    /// before the last one.
    pub open spec fn looks(self, replies: Seq<Reply>, budget: int) -> bool {
        replies.len() > 0 ==> self.seen_all(replies.drop_last(), budget).effect is None
    }
}

/// The bytes of the blocks that came, one after the other.
pub open spec fn delivered(replies: Seq<Reply>) -> Seq<u8>
    decreases replies.len(),
{
    if replies.len() == 0 {
        Seq::empty()
    } else {
        delivered(replies.drop_last()) + match replies.last() {
            Reply::Block(block) => block,
            _ => Seq::empty(),
        }
    }
}

/// What is to be done after a look into the channel.
#[derive(Debug)]
pub struct DrainStep {
    /// What the reader is told of whether it has woken the worker.
    pub wakeup_pending: Option<bool>,
    /// The emptied block that goes back to the reader.
    pub release: Option<Vec<u8>>,
    /// The block that did not fit and is kept for the next drain.
    pub held: Option<Vec<u8>>,
    /// Whether the next look is the second one at an empty channel.
    pub rechecking: bool,
    /// How the drain ended, where it did.
    pub effect: Option<ReadEffect>,
}

/// Takes a block into the batch where it fits the budget.
fn take_block(batch: &mut Vec<u8>, byte_budget: usize, block: Vec<u8>) -> (taken: Result<
    Vec<u8>,
    Vec<u8>,
>)
    ensures
        match taken {
            Ok(emptied) => old(batch)@.len() + block@.len() <= byte_budget && final(batch)@ == old(
                batch,
            )@ + block@ && emptied@.len() == 0,
            Err(held) => old(batch)@.len() + block@.len() > byte_budget && final(batch)@ == old(
                batch,
            )@ && held@ == block@,
        },
{
    if block.len() > byte_budget || batch.len() > byte_budget - block.len() {
        return Err(block);
    }
    let mut block: Vec<u8> = block;
    batch.extend_from_slice(block.as_slice());
    assert(batch@ =~= old(batch)@ + block@);
    block.clear();
    Ok(block)
}

/// Decides on what one look into the channel gave.
pub fn drain_step(
    batch: &mut Vec<u8>,
    byte_budget: usize,
    received: Received,
    rechecking: bool,
) -> (step: DrainStep)
    ensures
        ({
            let before = DrainView { rechecking, ..DrainView::empty(old(batch)@) };
            let after = before.seen(received@, byte_budget as int);
            &&& final(batch)@ == after.batch
            &&& held_view(step.held) == after.held
            &&& step.effect == after.effect
            &&& step.rechecking == after.rechecking
            &&& step.wakeup_pending == match received {
                Received::Block(_) => if rechecking {
                    Some(true)
                } else {
                    None
                },
                _ => if rechecking {
                    None
                } else {
                    Some(false)
                },
            }
            &&& step.release is Some <==> received is Block && after.held is None
            &&& step.release is Some ==> (step.release->0)@.len() == 0
        }),
{
    match received {
        Received::Block(block) => {
            let wakeup_pending: Option<bool> = if rechecking {
                Some(true)
            } else {
                None
            };
            match take_block(batch, byte_budget, block) {
                Err(held) => DrainStep {
                    wakeup_pending,
                    release: None,
                    held: Some(held),
                    rechecking,
                    effect: Some(ReadEffect::BudgetExhausted),
                },
                Ok(emptied) => DrainStep {
                    wakeup_pending,
                    release: Some(emptied),
                    held: None,
                    rechecking: false,
                    effect: None,
                },
            }
        },
        Received::Empty => if rechecking {
            DrainStep {
                wakeup_pending: None,
                release: None,
                held: None,
                rechecking,
                effect: Some(ReadEffect::Continue),
            }
        } else {
            // Clear only after observing the queue empty, and recheck
            // to close the producer-wakeup race.
            DrainStep {
                wakeup_pending: Some(false),
                release: None,
                held: None,
                rechecking: true,
                effect: None,
            }
        },
        Received::Closed => DrainStep {
            wakeup_pending: if rechecking {
                None
            } else {
                Some(false)
            },
            release: None,
            held: None,
            rechecking,
            effect: Some(ReadEffect::Eof),
        },
    }
}

/// The looks into the channel bring the drain to its end, with what it has
/// collected and held back.
pub open spec fn leads_to_end(
    start: DrainView,
    replies: Seq<Reply>,
    budget: int,
    batch: Seq<u8>,
    held: Option<Seq<u8>>,
    effect: ReadEffect,
) -> bool {
    let outcome = start.seen_all(replies, budget);
    &&& start.looks(replies, budget)
    &&& start.effect is Some ==> replies.len() == 0
    &&& batch == outcome.batch
    &&& held == outcome.held
    &&& match outcome.effect {
        Some(ended) => effect == ended,
        None => effect == ReadEffect::Continue && replies.len() == u64::MAX,
    }
}

/// Consume reader-thread batches from the channel into `batch` until the tick
/// byte budget is exhausted or the channel is empty. A block that does not fit
/// is kept in `held`, from which the next drain takes it first; only emptied
/// blocks go back to the reader. What the channel holds depends on the reader
/// thread: the outcome is the one that the looks into the channel lead to,
/// whatever they gave. One drain looks at most `u64::MAX` times.
pub fn drain_data(
    blocks: &Receiver<Vec<u8>>,
    held: &mut Option<Vec<u8>>,
    free: &SyncSender<Vec<u8>>,
    wakeup_pending: &AtomicBool,
    batch: &mut Vec<u8>,
    byte_budget: usize,
) -> (effect: ReadEffect)
    ensures
        exists|replies: Seq<Reply>| #[trigger]
            leads_to_end(
                DrainView::started(old(batch)@, held_view(*old(held)), byte_budget as int),
                replies,
                byte_budget as int,
                final(batch)@,
                held_view(*final(held)),
                effect,
            ),
{
    let ghost start = DrainView::started(batch@, held_view(*held), byte_budget as int);
    let ghost mut replies: Seq<Reply> = Seq::empty();
    assert(start.seen_all(replies, byte_budget as int) == start);
    if let Some(block) = held.take() {
        match take_block(batch, byte_budget, block) {
            Err(kept) => {
                *held = Some(kept);
                assert(leads_to_end(
                    start,
                    replies,
                    byte_budget as int,
                    batch@,
                    held_view(*held),
                    ReadEffect::BudgetExhausted,
                ));
                return ReadEffect::BudgetExhausted;
            },
            Ok(emptied) => {
                give_back(free, emptied);
            },
        }
    }
    let mut rechecking: bool = false;
    let mut looks: u64 = 0;
    while looks < u64::MAX
        invariant
            start == DrainView::started(old(batch)@, held_view(*old(held)), byte_budget as int),
            start.effect is None,
            replies.len() == looks,
            *held is None,
            start.looks(replies, byte_budget as int),
            start.seen_all(replies, byte_budget as int) == (DrainView {
                rechecking,
                ..DrainView::empty(batch@)
            }),
        decreases u64::MAX - looks,
    {
        let received: Received = receive(blocks);
        proof {
            let earlier = replies;
            replies = replies.push(received@);
            assert(replies.drop_last() =~= earlier);
        }
        let step: DrainStep = drain_step(batch, byte_budget, received, rechecking);
        if let Some(pending) = step.wakeup_pending {
            tell_reader(wakeup_pending, pending);
        }
        if let Some(block) = step.release {
            give_back(free, block);
        }
        looks = looks + 1;
        rechecking = step.rechecking;
        *held = step.held;
        if let Some(effect) = step.effect {
            assert(leads_to_end(
                start,
                replies,
                byte_budget as int,
                batch@,
                held_view(*held),
                effect,
            ));
            return effect;
        }
    }
    assert(leads_to_end(
        start,
        replies,
        byte_budget as int,
        batch@,
        held_view(*held),
        ReadEffect::Continue,
    ));
    ReadEffect::Continue
}

/// A drain stays within its budget.
pub proof fn a_drain_stays_within_its_budget(
    batch: Seq<u8>,
    held: Option<Seq<u8>>,
    replies: Seq<Reply>,
    budget: int,
)
    requires
        batch.len() <= budget,
    ensures
        DrainView::started(batch, held, budget).seen_all(replies, budget).batch.len() <= budget,
    decreases replies.len(),
{
    if replies.len() > 0 {
        a_drain_stays_within_its_budget(batch, held, replies.drop_last(), budget);
    }
}

/// A drain loses nothing and reorders nothing: what was collected, what was
/// held back and what came are, in this order, what is collected and what is
/// held back now.
pub proof fn a_drain_loses_nothing(
    batch: Seq<u8>,
    held: Option<Seq<u8>>,
    replies: Seq<Reply>,
    budget: int,
)
    requires
        DrainView::started(batch, held, budget).effect is Some ==> replies.len() == 0,
        DrainView::started(batch, held, budget).looks(replies, budget),
    ensures
        ({
            let outcome = DrainView::started(batch, held, budget).seen_all(replies, budget);
            &&& outcome.batch + held_bytes(outcome.held) == batch + held_bytes(held) + delivered(
                replies,
            )
            &&& outcome.held is Some ==> outcome.effect == Some(ReadEffect::BudgetExhausted)
        }),
    decreases replies.len(),
{
    let start = DrainView::started(batch, held, budget);
    let outcome = start.seen_all(replies, budget);
    if replies.len() == 0 {
        assert(outcome.batch + held_bytes(outcome.held) =~= batch + held_bytes(held) + delivered(
            replies,
        ));
    } else {
        let earlier = replies.drop_last();
        let before = start.seen_all(earlier, budget);
        if earlier.len() > 0 {
            assert(before == start.seen_all(earlier.drop_last(), budget).seen(
                earlier.last(),
                budget,
            ));
        }
        a_drain_loses_nothing(batch, held, earlier, budget);
        assert(before.held is None);
        assert(before.batch + Seq::empty() =~= before.batch);
        assert(outcome.batch + held_bytes(outcome.held) =~= batch + held_bytes(held) + delivered(
            replies,
        ));
    }
}

/// What two drains collect, one after the other, and what the second holds
/// back, is what the channel delivered to both.
pub proof fn drains_continue_each_other(
    first: Seq<Reply>,
    second: Seq<Reply>,
    budget: int,
    later_budget: int,
)
    requires
        0 <= budget,
        DrainView::empty(Seq::empty()).looks(first, budget),
        ({
            let held = DrainView::empty(Seq::empty()).seen_all(first, budget).held;
            let later = DrainView::started(Seq::empty(), held, later_budget);
            later.looks(second, later_budget) && (later.effect is Some ==> second.len() == 0)
        }),
    ensures
        ({
            let drained = DrainView::empty(Seq::empty()).seen_all(first, budget);
            let later = DrainView::started(Seq::empty(), drained.held, later_budget).seen_all(
                second,
                later_budget,
            );
            drained.batch + later.batch + held_bytes(later.held) == delivered(first) + delivered(
                second,
            )
        }),
{
    a_drain_loses_nothing(Seq::empty(), None, first, budget);
    let drained = DrainView::empty(Seq::empty()).seen_all(first, budget);
    a_drain_loses_nothing(Seq::empty(), drained.held, second, later_budget);
    let later = DrainView::started(Seq::empty(), drained.held, later_budget).seen_all(
        second,
        later_budget,
    );
    assert(Seq::<u8>::empty() + held_bytes(None) + delivered(first) =~= delivered(first));
    assert(Seq::<u8>::empty() + held_bytes(drained.held) + delivered(second) =~= held_bytes(
        drained.held,
    ) + delivered(second));
    assert(drained.batch + later.batch + held_bytes(later.held) =~= drained.batch + (later.batch
        + held_bytes(later.held)));
    assert(drained.batch + (held_bytes(drained.held) + delivered(second)) =~= (drained.batch
        + held_bytes(drained.held)) + delivered(second));
}

/// A drain goes on while blocks come that fit, ends where one does not, where the
/// channel is closed, and where it is found empty twice in a row.
pub proof fn a_drain_goes_on_while_there_is_something(
    drain: DrainView,
    block: Seq<u8>,
    budget: int,
)
    requires
        drain.effect is None,
    ensures
        ({
            let after = drain.seen(Reply::Block(block), budget);
            let fits = drain.batch.len() + block.len() <= budget;
            &&& fits ==> after.effect is None && after.batch == drain.batch + block
                && !after.rechecking
            &&& !fits ==> after.effect == Some(ReadEffect::BudgetExhausted) && after.batch
                == drain.batch && after.held == Some(block)
        }),
        ({
            let once = drain.seen(Reply::Empty, budget);
            let twice = once.seen(Reply::Empty, budget);
            &&& !drain.rechecking ==> once.effect is None
            &&& twice.effect == Some(ReadEffect::Continue)
            &&& twice.batch == drain.batch
        }),
        drain.seen(Reply::Closed, budget).effect == Some(ReadEffect::Eof),
        drain.seen(Reply::Closed, budget).batch == drain.batch,
{
}

} // verus!
