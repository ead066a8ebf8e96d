//! Those who wait for something of a terminal.
//!
//! A waiter keeps looking at the terminal that it asked for. Where that goes
//! meanwhile, what it showed last is kept for those who wait for it, so that
//! what it printed and whether it exited are still found.
use std::sync::Arc;

use vstd::prelude::*;

use super::registry::{EntryView, TerminalEntry};
use crate::idmap::{lemma_entry, map_of, ordered, IdMap};
use crate::ids::TerminalId;

verus! {

/// Someone who waits for a terminal.
#[derive(Debug)]
struct Wait {
    terminal_id: TerminalId,
    /// What the terminal showed last, once it is gone.
    left: Option<Arc<TerminalEntry>>,
}

/// Someone who waits, by their values.
#[verifier::ext_equal]
pub struct WaitView {
    pub terminal_id: TerminalId,
    pub left: Option<EntryView>,
}

impl View for Wait {
    type V = WaitView;

    closed spec fn view(&self) -> WaitView {
        WaitView {
            terminal_id: self.terminal_id,
            left: match self.left {
                Some(entry) => Some(entry@),
                None => None,
            },
        }
    }
}

impl WaitView {
    /// The wait once a terminal is gone that showed this last.
    pub open spec fn parted(self, id: TerminalId, last: EntryView) -> WaitView {
        if self.terminal_id == id && self.left is None {
            WaitView { left: Some(last), ..self }
        } else {
            self
        }
    }
}

/// Those who wait, once a terminal is gone that showed this last.
pub open spec fn parted(waits: Map<u64, WaitView>, id: TerminalId, last: EntryView) -> Map<
    u64,
    WaitView,
> {
    waits.map_values(|wait: WaitView| wait.parted(id, last))
}

/// Those who wait, each under a number.
#[derive(Debug)]
pub struct Waits {
    waits: IdMap<Wait>,
}

impl View for Waits {
    type V = Map<u64, WaitView>;

    closed spec fn view(&self) -> Map<u64, WaitView> {
        self.waits@.map_values(|wait: Wait| wait@)
    }
}

impl Waits {
    pub closed spec fn wf(&self) -> bool {
        forall|number: u64| #[trigger]
            self.waits@.contains_key(number) ==> match self.waits@[number].left {
                Some(entry) => entry.wf(),
                None => true,
            }
    }

    pub fn new() -> (waits: Self)
        ensures
            waits.wf(),
            waits@ == Map::<u64, WaitView>::empty(),
    {
        let waits = Self { waits: IdMap::new() };
        assert(waits@ =~= Map::empty());
        waits
    }

    /// The smallest number under which nobody waits.
    fn free_number(&self) -> (number: u64)
        ensures
            !self@.contains_key(number),
            forall|smaller: u64| smaller < number ==> #[trigger] self@.contains_key(smaller),
    {
        let taken: Vec<u64> = self.waits.ids();
        let ghost entries = self.waits.entries();
        let mut number: u64 = 0;
        let mut at: usize = 0;
        while at < taken.len() && taken[at] == number
            invariant
                at <= taken@.len(),
                number == at,
                ordered(entries),
                map_of(entries) == self.waits@,
                taken@.len() == entries.len(),
                forall|i: int| 0 <= i < taken@.len() ==> (#[trigger] taken@[i]) == entries[i].0,
                forall|i: int| 0 <= i < at ==> (#[trigger] entries[i]).0 == i,
            decreases taken@.len() - at,
        {
            assert(entries[at as int].0 == number);
            at = at + 1;
            number = at as u64;
        }
        proof {
            assert forall|smaller: u64| smaller < number implies #[trigger] self@.contains_key(
                smaller,
            ) by {
                lemma_entry(entries, smaller as int);
            }
            if self.waits@.contains_key(number) {
                let i = choose|i: int|
                    0 <= i < entries.len() && (#[trigger] entries[i]).0 == number;
                if i < at {
                    assert(entries[i].0 == i);
                } else {
                    assert(taken@[at as int] == entries[at as int].0);
                    if at > 0 {
                        assert(entries[at - 1].0 < entries[at as int].0);
                    }
                    assert(i > at ==> entries[at as int].0 < entries[i].0);
                }
            }
        }
        number
    }

    /// Someone starts to wait for a terminal; returns their number.
    pub fn start(&mut self, terminal_id: TerminalId) -> (number: u64)
        requires
            old(self).wf(),
        ensures
            final(self).wf(),
            !old(self)@.contains_key(number),
            forall|smaller: u64|
                smaller < number ==> #[trigger] old(self)@.contains_key(smaller),
            final(self)@ == old(self)@.insert(number, (WaitView { terminal_id, left: None })),
    {
        let number: u64 = self.free_number();
        let _ = self.waits.insert(number, Wait { terminal_id, left: None });
        assert(self@ =~= old(self)@.insert(number, (WaitView { terminal_id, left: None })));
        number
    }

    /// Someone stops to wait.
    pub fn end(&mut self, number: u64)
        requires
            old(self).wf(),
        ensures
            final(self).wf(),
            final(self)@ == old(self)@.remove(number),
    {
        let _ = self.waits.remove(number);
        assert(self@ =~= old(self)@.remove(number));
    }

    /// The terminal that someone waits for.
    pub fn terminal_id(&self, number: u64) -> (id: Option<TerminalId>)
        ensures
            match id {
                Some(id) => self@.contains_key(number) && id == self@[number].terminal_id,
                None => !self@.contains_key(number),
            },
    {
        match self.waits.get(number) {
            Some(wait) => Some(wait.terminal_id),
            None => None,
        }
    }

    /// What the terminal that someone waits for showed last, where it is gone.
    pub fn left(&self, number: u64) -> (left: Option<&TerminalEntry>)
        requires
            self.wf(),
            self@.contains_key(number),
        ensures
            match left {
                Some(entry) => entry.wf() && self@[number].left == Some(entry@),
                None => self@[number].left is None,
            },
    {
        match self.waits.get(number) {
            Some(wait) => match &wait.left {
                Some(entry) => Some(&**entry),
                None => None,
            },
            None => None,
        }
    }

    /// Keeps what a terminal showed last for those who wait for it.
    pub fn part(&mut self, terminal_id: TerminalId, last: TerminalEntry)
        requires
            old(self).wf(),
            last.wf(),
        ensures
            final(self).wf(),
            final(self)@ == parted(old(self)@, terminal_id, last@),
    {
        let last: Arc<TerminalEntry> = Arc::new(last);
        let numbers: Vec<u64> = self.waits.ids();
        let ghost entries = self.waits.entries();
        let ghost begun = self.waits@;
        let mut at: usize = 0;
        while at < numbers.len()
            invariant
                self.wf(),
                last.wf(),
                at <= numbers@.len(),
                ordered(entries),
                map_of(entries) == begun,
                numbers@.len() == entries.len(),
                forall|i: int| 0 <= i < numbers@.len() ==> (#[trigger] numbers@[i]) == entries[i].0,
                self.waits@.dom() == begun.dom(),
                forall|i: int|
                    0 <= i < at ==> self.waits@[(#[trigger] entries[i]).0]@
                        == begun[entries[i].0]@.parted(terminal_id, last@),
                forall|i: int|
                    at <= i < entries.len() ==> self.waits@[(#[trigger] entries[i]).0]
                        == begun[entries[i].0],
            decreases numbers@.len() - at,
        {
            let number: u64 = numbers[at];
            let ghost before = self.waits@;
            assert(number == entries[at as int].0);
            proof {
                lemma_entry(entries, at as int);
            }
            if let Some(wait) = self.waits.remove(number) {
                let mut wait: Wait = wait;
                if wait.terminal_id == terminal_id && wait.left.is_none() {
                    wait.left = Some(last.clone());
                }
                let _ = self.waits.insert(number, wait);
            }
            assert(self.waits@.dom() =~= begun.dom());
            assert forall|i: int| 0 <= i < entries.len() && i != at implies self.waits@[(
            #[trigger] entries[i]).0] == before[entries[i].0] by {
                assert(i < at ==> entries[i].0 < entries[at as int].0);
                assert(at < i ==> entries[at as int].0 < entries[i].0);
            }
            at = at + 1;
        }
        assert forall|number: u64| #[trigger] self.waits@.contains_key(number) implies self.waits@[number]@
            == begun[number]@.parted(terminal_id, last@) by {
            let i = choose|i: int| 0 <= i < entries.len() && (#[trigger] entries[i]).0 == number;
            assert(entries[i].0 == number);
        }
        assert(self@ =~= parted(old(self)@, terminal_id, last@));
    }
}

/// Those who wait for a terminal that goes keep what it showed last, once; all
/// others go on as before.
pub proof fn waiters_keep_what_was_shown_last(
    waits: Map<u64, WaitView>,
    number: u64,
    id: TerminalId,
    last: EntryView,
)
    requires
        waits.contains_key(number),
    ensures
        ({
            let after = parted(waits, id, last);
            let wait = waits[number];
            &&& after.dom() == waits.dom()
            &&& after[number].terminal_id == wait.terminal_id
            &&& wait.terminal_id == id && wait.left is None ==> after[number].left == Some(last)
            &&& wait.terminal_id != id || wait.left is Some ==> after[number] == wait
        }),
{
    assert(parted(waits, id, last).dom() =~= waits.dom());
}

} // verus!
