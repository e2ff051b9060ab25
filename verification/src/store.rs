//! The value store: slots, each holding one value and one ownership state.

use vstd::prelude::*;
use crate::fault::{FaultKind, value_result};
use crate::value::{Value, ValueView};

verus! {

/// The ownership state of a slot. A slot is in exactly one state at a time,
/// so shared borrows and an exclusive borrow cannot be outstanding together.
#[derive(Clone, Copy, Debug, PartialEq, Eq, Structural, Hash)]
pub enum OwnState {
    /// The slot owns its value and nothing borrows it.
    Owned,
    /// The value has been moved elsewhere.
    MovedOut,
    /// This many shared borrows are outstanding.
    BorrowedShared(u64),
    /// One exclusive borrow is outstanding.
    BorrowedExclusive,
    /// The slot has been dropped. Nothing follows this state.
    Dropped,
}

impl OwnState {
    /// A count of shared borrows is never zero.
    pub open spec fn valid(self) -> bool {
        self matches OwnState::BorrowedShared(n) ==> n >= 1
    }

    /// Whether a borrow of the slot, shared or exclusive, is outstanding.
    pub open spec fn borrowed(self) -> bool {
        self is BorrowedShared || self is BorrowedExclusive
    }
}

/// A storage cell: one value and its ownership state.
#[derive(Debug, PartialEq, Eq)]
pub struct Slot {
    pub value: Value,
    pub state: OwnState,
}

/// The mathematical content of a [`Slot`].
pub struct SlotView {
    pub value: ValueView,
    pub state: OwnState,
}

impl View for Slot {
    type V = SlotView;

    open spec fn view(&self) -> SlotView {
        SlotView { value: self.value@, state: self.state }
    }
}

/// Whether `id` names a slot that has been allocated and not yet dropped.
pub open spec fn live(slots: Seq<SlotView>, id: int) -> bool {
    0 <= id < slots.len() && !(slots[id].state is Dropped)
}

/// Whether every slot is in a valid state: wherever shared borrows are
/// outstanding, their count is at least one.
pub open spec fn sound(slots: Seq<SlotView>) -> bool {
    forall|i: int| 0 <= i < slots.len() ==> (#[trigger] slots[i]).state.valid()
}

/// The store after a value has been allocated: a new slot, at the end, that
/// owns the value.
pub open spec fn allocated(slots: Seq<SlotView>, value: ValueView) -> Seq<SlotView> {
    slots.push(SlotView { value, state: OwnState::Owned })
}

/// What a read yields. A slot that is not live gives `InvalidSlot`, a
/// moved-out one `UseAfterMove`, and a mutating read under an exclusive
/// borrow `UseWhileBorrowed`; any other read gives the slot's value.
pub open spec fn read_outcome(slots: Seq<SlotView>, id: int, mutating: bool) -> Result<ValueView, FaultKind> {
    if !live(slots, id) {
        Err(FaultKind::InvalidSlot)
    } else if slots[id].state is MovedOut {
        Err(FaultKind::UseAfterMove)
    } else if slots[id].state is BorrowedExclusive && mutating {
        Err(FaultKind::UseWhileBorrowed)
    } else {
        Ok(slots[id].value)
    }
}

/// What a write does. A slot that is not live gives `InvalidSlot` and a
/// borrowed one `WriteWhileBorrowed`; otherwise the slot holds the new value
/// and owns it, also where its former value had been moved out.
pub open spec fn write_outcome(slots: Seq<SlotView>, id: int, value: ValueView) -> Result<
    Seq<SlotView>,
    FaultKind,
> {
    if !live(slots, id) {
        Err(FaultKind::InvalidSlot)
    } else if slots[id].state.borrowed() {
        Err(FaultKind::WriteWhileBorrowed)
    } else {
        Ok(slots.update(id, SlotView { value, state: OwnState::Owned }))
    }
}

/// What a drop does. A slot that was never allocated gives `InvalidSlot`, a
/// dropped one `DoubleDrop`; any other slot gives up its value and is
/// dropped from then on.
pub open spec fn drop_outcome(slots: Seq<SlotView>, id: int) -> Result<Seq<SlotView>, FaultKind> {
    if !(0 <= id < slots.len()) {
        Err(FaultKind::InvalidSlot)
    } else if slots[id].state is Dropped {
        Err(FaultKind::DoubleDrop)
    } else {
        Ok(slots.update(id, SlotView { value: ValueView::Unit, state: OwnState::Dropped }))
    }
}

/// Allocating, writing and dropping keep a sound store sound.
pub proof fn lemma_store_stays_sound(slots: Seq<SlotView>, id: int, value: ValueView)
    requires
        sound(slots),
    ensures
        sound(allocated(slots, value)),
        write_outcome(slots, id, value) matches Ok(s) ==> sound(s),
        drop_outcome(slots, id) matches Ok(s) ==> sound(s),
{
}

/// Relates the result of an operation that changes the store to the outcome
/// that its contract names: on success the store is the one named, on
/// failure the fault is the one named and the store is unchanged.
pub open spec fn store_result(
    r: Result<(), FaultKind>,
    before: Seq<SlotView>,
    after: Seq<SlotView>,
    outcome: Result<Seq<SlotView>, FaultKind>,
) -> bool {
    match outcome {
        Ok(s) => r is Ok && after == s,
        Err(k) => r == Err::<(), FaultKind>(k) && after == before,
    }
}

/// The value store. A slot is named by its position, which never changes.
pub struct ValueStore {
    slots: Vec<Slot>,
}

impl View for ValueStore {
    type V = Seq<SlotView>;

    closed spec fn view(&self) -> Seq<SlotView> {
        Seq::new(self.slots.len() as nat, |i: int| self.slots[i]@)
    }
}

impl ValueStore {
    /// An empty store.
    pub fn new() -> (store: ValueStore)
        ensures
            store@ == Seq::<SlotView>::empty(),
    {
        let store = ValueStore { slots: Vec::new() };
        assert(store@ =~= Seq::<SlotView>::empty());
        store
    }

    /// The number of slots allocated so far, dropped ones included.
    pub fn len(&self) -> (n: usize)
        ensures
            n == self@.len(),
    {
        self.slots.len()
    }

    /// Puts a value into a new slot, which owns it, and returns the slot's
    /// id.
    pub fn allocate(&mut self, value: Value) -> (id: usize)
        ensures
            id == old(self)@.len(),
            final(self)@ == allocated(old(self)@, value@),
    {
        let id = self.slots.len();
        self.slots.push(Slot { value, state: OwnState::Owned });
        assert(self@ =~= allocated(old(self)@, value@));
        id
    }

    /// The ownership state of a slot, if it was ever allocated.
    pub fn state(&self, id: usize) -> (r: Option<OwnState>)
        ensures
            r == if id < self@.len() {
                Some(self@[id as int].state)
            } else {
                None
            },
    {
        if id < self.slots.len() {
            Some(self.slots[id].state)
        } else {
            None
        }
    }

    /// A copy of the value of a slot: see [`read_outcome`]. A read leaves the
    /// store as it is; `mutating` announces that the caller means to change
    /// the slot on the strength of what it read.
    pub fn read(&self, id: usize, mutating: bool) -> (r: Result<Value, FaultKind>)
        ensures
            value_result(r) == read_outcome(self@, id as int, mutating),
    {
        if id >= self.slots.len() {
            return Err(FaultKind::InvalidSlot);
        }
        match self.slots[id].state {
            OwnState::Dropped => Err(FaultKind::InvalidSlot),
            OwnState::MovedOut => Err(FaultKind::UseAfterMove),
            OwnState::BorrowedExclusive => {
                if mutating {
                    Err(FaultKind::UseWhileBorrowed)
                } else {
                    Ok(self.slots[id].value.duplicate())
                }
            },
            _ => Ok(self.slots[id].value.duplicate()),
        }
    }

    /// Replaces the value of a slot: see [`write_outcome`].
    pub fn write(&mut self, id: usize, value: Value) -> (r: Result<(), FaultKind>)
        ensures
            store_result(r, old(self)@, final(self)@, write_outcome(old(self)@, id as int, value@)),
    {
        if id >= self.slots.len() {
            return Err(FaultKind::InvalidSlot);
        }
        match self.slots[id].state {
            OwnState::Dropped => Err(FaultKind::InvalidSlot),
            OwnState::BorrowedShared(_) => Err(FaultKind::WriteWhileBorrowed),
            OwnState::BorrowedExclusive => Err(FaultKind::WriteWhileBorrowed),
            _ => {
                self.slots[id] = Slot { value, state: OwnState::Owned };
                assert(self@ =~= write_outcome(old(self)@, id as int, value@)->Ok_0);
                Ok(())
            },
        }
    }

    /// Drops a slot: see [`drop_outcome`]. Dropping a dropped slot changes
    /// nothing and is reported as `DoubleDrop`.
    pub fn drop(&mut self, id: usize) -> (r: Result<(), FaultKind>)
        ensures
            store_result(r, old(self)@, final(self)@, drop_outcome(old(self)@, id as int)),
    {
        if id >= self.slots.len() {
            return Err(FaultKind::InvalidSlot);
        }
        match self.slots[id].state {
            OwnState::Dropped => Err(FaultKind::DoubleDrop),
            _ => {
                self.slots[id] = Slot { value: Value::Unit, state: OwnState::Dropped };
                assert(self@ =~= drop_outcome(old(self)@, id as int)->Ok_0);
                Ok(())
            },
        }
    }

    /// The value of an allocated slot, whatever its state.
    pub(crate) fn peek(&self, id: usize) -> (v: &Value)
        requires
            id < self@.len(),
        ensures
            v@ == self@[id as int].value,
    {
        &self.slots[id].value
    }

    /// Sets the state of an allocated slot and leaves its value.
    pub(crate) fn set_state(&mut self, id: usize, state: OwnState)
        requires
            id < old(self)@.len(),
        ensures
            final(self)@ == old(self)@.update(id as int, SlotView { value: old(self)@[id as int].value, state }),
    {
        self.slots[id].state = state;
        assert(self@ =~= old(self)@.update(id as int, SlotView { value: old(self)@[id as int].value, state }));
    }

    /// Replaces the value of an allocated slot, leaves its state, and
    /// returns the former value.
    pub(crate) fn swap_value(&mut self, id: usize, value: Value) -> (former: Value)
        requires
            id < old(self)@.len(),
        ensures
            former@ == old(self)@[id as int].value,
            final(self)@ == old(self)@.update(
                id as int,
                SlotView { value: value@, state: old(self)@[id as int].state },
            ),
    {
        let mut held = value;
        core::mem::swap(&mut self.slots[id].value, &mut held);
        assert(self@ =~= old(self)@.update(
            id as int,
            SlotView { value: value@, state: old(self)@[id as int].state },
        ));
        held
    }
}

} // verus!
