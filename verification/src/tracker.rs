//! The ownership tracker: every access to a slot is checked against the
//! slot's ownership state at the moment of the access, and changes it.

use vstd::prelude::*;
use crate::fault::{FaultKind, value_result};
use crate::store::{OwnState, SlotView, ValueStore, allocated, sound, store_result};
use crate::value::{Value, ValueView};

verus! {

/// The kinds of access to a slot.
#[derive(Clone, Copy, Debug, PartialEq, Eq, Structural, Hash)]
pub enum AccessKind {
    /// Reads a copyable value and leaves the slot as it is.
    ReadCopy,
    /// Reads a value that cannot be copied, by moving it out of the slot.
    ReadMove,
    /// Takes one more shared borrow.
    BorrowShared,
    /// Takes the exclusive borrow.
    BorrowExclusive,
    /// Gives back one borrow.
    ReleaseBorrow,
    /// Replaces the value in place.
    Reassign,
}

/// The state machine of a slot: the state that follows an access, or the
/// fault that the access is. `holder` says that the request comes through
/// the binding that holds the slot's exclusive borrow; it matters to
/// `Reassign` alone.
pub open spec fn next_state(state: OwnState, kind: AccessKind, holder: bool) -> Result<OwnState, FaultKind> {
    match state {
        OwnState::Dropped => Err(FaultKind::InvalidSlot),
        OwnState::MovedOut => match kind {
            AccessKind::ReadCopy | AccessKind::ReadMove | AccessKind::Reassign => Err(FaultKind::UseAfterMove),
            _ => Err(FaultKind::BorrowConflict),
        },
        OwnState::Owned => match kind {
            AccessKind::ReadCopy => Ok(OwnState::Owned),
            AccessKind::ReadMove => Ok(OwnState::MovedOut),
            AccessKind::BorrowShared => Ok(OwnState::BorrowedShared(1)),
            AccessKind::BorrowExclusive => Ok(OwnState::BorrowedExclusive),
            AccessKind::ReleaseBorrow => Err(FaultKind::BorrowConflict),
            AccessKind::Reassign => Ok(OwnState::Owned),
        },
        OwnState::BorrowedShared(n) => match kind {
            AccessKind::ReadCopy => Ok(OwnState::BorrowedShared(n)),
            AccessKind::ReadMove => Err(FaultKind::UseWhileBorrowed),
            AccessKind::BorrowShared => if n < u64::MAX {
                Ok(OwnState::BorrowedShared((n + 1) as u64))
            } else {
                Err(FaultKind::BorrowConflict)
            },
            AccessKind::BorrowExclusive => Err(FaultKind::BorrowConflict),
            AccessKind::ReleaseBorrow => if n <= 1 {
                Ok(OwnState::Owned)
            } else {
                Ok(OwnState::BorrowedShared((n - 1) as u64))
            },
            AccessKind::Reassign => Err(FaultKind::WriteWhileBorrowed),
        },
        OwnState::BorrowedExclusive => match kind {
            AccessKind::ReadCopy | AccessKind::ReadMove => Err(FaultKind::UseWhileBorrowed),
            AccessKind::BorrowShared | AccessKind::BorrowExclusive => Err(FaultKind::BorrowConflict),
            AccessKind::ReleaseBorrow => Ok(OwnState::Owned),
            AccessKind::Reassign => if holder {
                Ok(OwnState::BorrowedExclusive)
            } else {
                Err(FaultKind::WriteWhileBorrowed)
            },
        },
    }
}

/// One step of the state machine: see [`next_state`].
pub fn transition(state: OwnState, kind: AccessKind, holder: bool) -> (r: Result<OwnState, FaultKind>)
    ensures
        r == next_state(state, kind, holder),
{
    match state {
        OwnState::Dropped => Err(FaultKind::InvalidSlot),
        OwnState::MovedOut => match kind {
            AccessKind::ReadCopy | AccessKind::ReadMove | AccessKind::Reassign => Err(FaultKind::UseAfterMove),
            _ => Err(FaultKind::BorrowConflict),
        },
        OwnState::Owned => match kind {
            AccessKind::ReadCopy => Ok(OwnState::Owned),
            AccessKind::ReadMove => Ok(OwnState::MovedOut),
            AccessKind::BorrowShared => Ok(OwnState::BorrowedShared(1)),
            AccessKind::BorrowExclusive => Ok(OwnState::BorrowedExclusive),
            AccessKind::ReleaseBorrow => Err(FaultKind::BorrowConflict),
            AccessKind::Reassign => Ok(OwnState::Owned),
        },
        OwnState::BorrowedShared(n) => match kind {
            AccessKind::ReadCopy => Ok(OwnState::BorrowedShared(n)),
            AccessKind::ReadMove => Err(FaultKind::UseWhileBorrowed),
            AccessKind::BorrowShared => if n < u64::MAX {
                Ok(OwnState::BorrowedShared(n + 1))
            } else {
                Err(FaultKind::BorrowConflict)
            },
            AccessKind::BorrowExclusive => Err(FaultKind::BorrowConflict),
            AccessKind::ReleaseBorrow => if n <= 1 {
                Ok(OwnState::Owned)
            } else {
                Ok(OwnState::BorrowedShared(n - 1))
            },
            AccessKind::Reassign => Err(FaultKind::WriteWhileBorrowed),
        },
        OwnState::BorrowedExclusive => match kind {
            AccessKind::ReadCopy | AccessKind::ReadMove => Err(FaultKind::UseWhileBorrowed),
            AccessKind::BorrowShared | AccessKind::BorrowExclusive => Err(FaultKind::BorrowConflict),
            AccessKind::ReleaseBorrow => Ok(OwnState::Owned),
            AccessKind::Reassign => if holder {
                Ok(OwnState::BorrowedExclusive)
            } else {
                Err(FaultKind::WriteWhileBorrowed)
            },
        },
    }
}

/// Whether a read of this kind suits a value: copying is for copyable
/// values, moving for the others. The other kinds suit every value.
pub open spec fn suits(kind: AccessKind, value: ValueView) -> bool {
    match kind {
        AccessKind::ReadCopy => value.copyable(),
        AccessKind::ReadMove => !value.copyable(),
        _ => true,
    }
}

/// What an access does. A slot that was never allocated gives
/// `InvalidSlot`. Otherwise the slot's state decides, by [`next_state`];
/// where the state allows the access, a read that does not suit the
/// slot's value gives `TypeMismatch`. An access that is allowed leaves the
/// slot in the next state, and a read yields the slot's value; a move
/// leaves the unit value behind.
pub open spec fn access_outcome(slots: Seq<SlotView>, id: int, kind: AccessKind, holder: bool) -> Result<
    (Seq<SlotView>, Option<ValueView>),
    FaultKind,
> {
    if !(0 <= id < slots.len()) {
        Err(FaultKind::InvalidSlot)
    } else {
        match next_state(slots[id].state, kind, holder) {
            Err(k) => Err(k),
            Ok(state) => if !suits(kind, slots[id].value) {
                Err(FaultKind::TypeMismatch)
            } else {
                match kind {
                    AccessKind::ReadCopy => Ok((slots, Some(slots[id].value))),
                    AccessKind::ReadMove => Ok(
                        (slots.update(id, SlotView { value: ValueView::Unit, state }), Some(slots[id].value)),
                    ),
                    _ => Ok((slots.update(id, SlotView { value: slots[id].value, state }), None)),
                }
            },
        }
    }
}

/// Relates the result of an access to the outcome that its contract names.
pub open spec fn access_result(
    r: Result<Option<Value>, FaultKind>,
    before: Seq<SlotView>,
    after: Seq<SlotView>,
    outcome: Result<(Seq<SlotView>, Option<ValueView>), FaultKind>,
) -> bool {
    match outcome {
        Ok((s, read)) => {
            &&& after == s
            &&& r is Ok
            &&& match read {
                Some(v) => r->Ok_0 is Some && r->Ok_0->Some_0@ == v,
                None => r->Ok_0 is None,
            }
        },
        Err(k) => r == Err::<Option<Value>, FaultKind>(k) && after == before,
    }
}

/// Performs an access: see [`access_outcome`]. A `Reassign` here checks
/// that the slot may be written and changes nothing; [`reassign`] writes.
pub fn access(store: &mut ValueStore, id: usize, kind: AccessKind, holder: bool) -> (r: Result<
    Option<Value>,
    FaultKind,
>)
    ensures
        access_result(r, old(store)@, final(store)@, access_outcome(old(store)@, id as int, kind, holder)),
{
    let state = match store.state(id) {
        Some(s) => s,
        None => {
            return Err(FaultKind::InvalidSlot);
        },
    };
    let next = match transition(state, kind, holder) {
        Ok(s) => s,
        Err(k) => {
            return Err(k);
        },
    };
    match kind {
        AccessKind::ReadCopy => {
            if store.peek(id).is_copy() {
                Ok(Some(store.peek(id).duplicate()))
            } else {
                Err(FaultKind::TypeMismatch)
            }
        },
        AccessKind::ReadMove => {
            if store.peek(id).is_copy() {
                Err(FaultKind::TypeMismatch)
            } else {
                let value = store.swap_value(id, Value::Unit);
                store.set_state(id, next);
                assert(store@ =~= old(store)@.update(
                    id as int,
                    SlotView { value: ValueView::Unit, state: next },
                ));
                Ok(Some(value))
            }
        },
        _ => {
            store.set_state(id, next);
            Ok(None)
        },
    }
}

/// What a reassignment does: the slot holds the new value, in the state it
/// was in, where [`next_state`] allows a `Reassign`; else the fault that
/// it names.
pub open spec fn reassign_outcome(slots: Seq<SlotView>, id: int, value: ValueView, holder: bool) -> Result<
    Seq<SlotView>,
    FaultKind,
> {
    if !(0 <= id < slots.len()) {
        Err(FaultKind::InvalidSlot)
    } else {
        match next_state(slots[id].state, AccessKind::Reassign, holder) {
            Err(k) => Err(k),
            Ok(state) => Ok(slots.update(id, SlotView { value, state })),
        }
    }
}

/// Replaces the value of a slot in place: see [`reassign_outcome`].
pub fn reassign(store: &mut ValueStore, id: usize, value: Value, holder: bool) -> (r: Result<(), FaultKind>)
    ensures
        store_result(r, old(store)@, final(store)@, reassign_outcome(old(store)@, id as int, value@, holder)),
{
    match access(store, id, AccessKind::Reassign, holder) {
        Err(k) => Err(k),
        Ok(_) => {
            let _ = store.swap_value(id, value);
            assert(store@ =~= reassign_outcome(old(store)@, id as int, value@, holder)->Ok_0);
            Ok(())
        },
    }
}

/// The kind of read that takes a value by value: a copy where the value is
/// copyable, a move where it is not.
pub open spec fn by_value(value: ValueView) -> AccessKind {
    if value.copyable() {
        AccessKind::ReadCopy
    } else {
        AccessKind::ReadMove
    }
}

/// What taking the value of a slot does: the access of the kind
/// [`by_value`] that the slot's value calls for.
pub open spec fn take_outcome(slots: Seq<SlotView>, id: int) -> Result<(Seq<SlotView>, Option<ValueView>), FaultKind> {
    if !(0 <= id < slots.len()) {
        Err(FaultKind::InvalidSlot)
    } else {
        access_outcome(slots, id, by_value(slots[id].value), false)
    }
}

/// Takes the value of a slot by value: see [`take_outcome`].
pub fn take(store: &mut ValueStore, id: usize) -> (r: Result<Value, FaultKind>)
    ensures
        match take_outcome(old(store)@, id as int) {
            Ok((s, v)) => final(store)@ == s && v is Some && value_result(r) == Ok::<ValueView, FaultKind>(
                v->Some_0,
            ),
            Err(k) => r == Err::<Value, FaultKind>(k) && final(store)@ == old(store)@,
        },
{
    if id >= store.len() {
        return Err(FaultKind::InvalidSlot);
    }
    let kind = if store.peek(id).is_copy() {
        AccessKind::ReadCopy
    } else {
        AccessKind::ReadMove
    };
    match access(store, id, kind, false) {
        Err(k) => Err(k),
        Ok(read) => match read {
            Some(v) => Ok(v),
            None => Err(FaultKind::TypeMismatch),
        },
    }
}

/// What handing the value of a slot on to a new slot does: the value is
/// taken by value, and a new slot, at the end of the store, owns it.
pub open spec fn transfer_outcome(slots: Seq<SlotView>, from: int) -> Result<Seq<SlotView>, FaultKind> {
    match take_outcome(slots, from) {
        Err(k) => Err(k),
        Ok((s, v)) => Ok(allocated(s, v->Some_0)),
    }
}

/// Hands the value of a slot on to a new slot, in one step, and returns
/// the id of the new slot: see [`transfer_outcome`]. A value that cannot be
/// copied leaves its slot moved out.
pub fn transfer(store: &mut ValueStore, from: usize) -> (r: Result<usize, FaultKind>)
    ensures
        match transfer_outcome(old(store)@, from as int) {
            Ok(s) => final(store)@ == s && r == Ok::<usize, FaultKind>(old(store)@.len() as usize),
            Err(k) => r == Err::<usize, FaultKind>(k) && final(store)@ == old(store)@,
        },
{
    match take(store, from) {
        Err(k) => Err(k),
        Ok(value) => Ok(store.allocate(value)),
    }
}

/// What borrowing part of an array does: one more shared borrow of the
/// slot, and the elements of its array from `from` up to, not including,
/// `to`. Where the borrow is not allowed, or the slot holds no array, or
/// the range does not lie within it, nothing is borrowed.
pub open spec fn slice_outcome(slots: Seq<SlotView>, id: int, from: int, to: int) -> Result<
    (Seq<SlotView>, ValueView),
    FaultKind,
> {
    match access_outcome(slots, id, AccessKind::BorrowShared, false) {
        Err(k) => Err(k),
        Ok((s, _)) => match slots[id].value.slice(from, to) {
            Err(k) => Err(k),
            Ok(part) => Ok((s, part)),
        },
    }
}

/// Borrows part of an array, shared: see [`slice_outcome`]. The borrow is
/// given back by a `ReleaseBorrow`.
pub fn borrow_slice(store: &mut ValueStore, id: usize, from: usize, to: usize) -> (r: Result<Value, FaultKind>)
    ensures
        match slice_outcome(old(store)@, id as int, from as int, to as int) {
            Ok((s, part)) => final(store)@ == s && value_result(r) == Ok::<ValueView, FaultKind>(part),
            Err(k) => r == Err::<Value, FaultKind>(k) && final(store)@ == old(store)@,
        },
{
    let state = match store.state(id) {
        Some(s) => s,
        None => {
            return Err(FaultKind::InvalidSlot);
        },
    };
    match transition(state, AccessKind::BorrowShared, false) {
        Err(k) => Err(k),
        Ok(next) => match store.peek(id).slice(from, to) {
            Err(k) => Err(k),
            Ok(part) => {
                store.set_state(id, next);
                Ok(part)
            },
        },
    }
}

/// A state that is valid stays valid under every access that is allowed: a
/// count of shared borrows never falls to zero.
pub proof fn lemma_next_state_valid(state: OwnState, kind: AccessKind, holder: bool)
    requires
        state.valid(),
    ensures
        next_state(state, kind, holder) matches Ok(s) ==> s.valid(),
{
}

/// Every operation of the tracker keeps a sound store sound.
pub proof fn lemma_tracker_stays_sound(
    slots: Seq<SlotView>,
    id: int,
    kind: AccessKind,
    holder: bool,
    value: ValueView,
    from: int,
    to: int,
)
    requires
        sound(slots),
    ensures
        access_outcome(slots, id, kind, holder) matches Ok((s, _)) ==> sound(s),
        reassign_outcome(slots, id, value, holder) matches Ok(s) ==> sound(s),
        take_outcome(slots, id) matches Ok((s, _)) ==> sound(s),
        transfer_outcome(slots, id) matches Ok(s) ==> sound(s),
        slice_outcome(slots, id, from, to) matches Ok((s, _)) ==> sound(s),
{
    if 0 <= id < slots.len() {
        lemma_next_state_valid(slots[id].state, kind, holder);
        lemma_next_state_valid(slots[id].state, AccessKind::Reassign, holder);
        lemma_next_state_valid(slots[id].state, AccessKind::ReadCopy, false);
        lemma_next_state_valid(slots[id].state, AccessKind::ReadMove, false);
        lemma_next_state_valid(slots[id].state, AccessKind::BorrowShared, false);
    }
}

/// Moved-out and dropped are final for the tracker: no access leads out of
/// either. (A write to the store gives a moved-out slot a value again.)
pub proof fn lemma_terminal_states(state: OwnState, kind: AccessKind, holder: bool)
    requires
        state is MovedOut || state is Dropped,
    ensures
        next_state(state, kind, holder) is Err,
{
}

/// A copying read never changes the store, whether it is allowed or not.
pub proof fn lemma_read_copy_keeps_store(slots: Seq<SlotView>, id: int, holder: bool)
    ensures
        access_outcome(slots, id, AccessKind::ReadCopy, holder) matches Ok((s, _)) ==> s == slots,
{
}

/// A copyable value in a slot that is owned, or borrowed shared, can be
/// read by copy any number of times: each read is allowed, yields the
/// slot's value, and leaves the store as it was, so that a second read
/// yields the same value as the first.
pub proof fn lemma_read_copy_repeatable(slots: Seq<SlotView>, id: int, holder: bool)
    requires
        0 <= id < slots.len(),
        slots[id].value.copyable(),
        slots[id].state is Owned || slots[id].state is BorrowedShared,
    ensures
        access_outcome(slots, id, AccessKind::ReadCopy, holder) == Ok::<
            (Seq<SlotView>, Option<ValueView>),
            FaultKind,
        >((slots, Some(slots[id].value))),
{
}

/// A value that has been moved out cannot be moved again: after a move
/// that was allowed, a second move of the same slot is `UseAfterMove`.
pub proof fn lemma_second_move_fails(slots: Seq<SlotView>, id: int, holder: bool)
    requires
        access_outcome(slots, id, AccessKind::ReadMove, holder) is Ok,
    ensures
        access_outcome(
            access_outcome(slots, id, AccessKind::ReadMove, holder)->Ok_0.0,
            id,
            AccessKind::ReadMove,
            holder,
        ) == Err::<(Seq<SlotView>, Option<ValueView>), FaultKind>(FaultKind::UseAfterMove),
{
}

/// Every read and every reassignment of a moved-out slot is
/// `UseAfterMove`, whatever the slot holds.
pub proof fn lemma_use_after_move(slots: Seq<SlotView>, id: int, kind: AccessKind, holder: bool)
    requires
        0 <= id < slots.len(),
        slots[id].state is MovedOut,
        kind is ReadCopy || kind is ReadMove || kind is Reassign,
    ensures
        access_outcome(slots, id, kind, holder) == Err::<(Seq<SlotView>, Option<ValueView>), FaultKind>(
            FaultKind::UseAfterMove,
        ),
{
}

/// The exclusivity law on states: while a shared borrow is outstanding an
/// exclusive borrow is a `BorrowConflict`, and while the exclusive borrow is
/// outstanding a shared borrow is one.
pub proof fn lemma_exclusivity(state: OwnState, holder: bool)
    ensures
        state is BorrowedShared ==> next_state(state, AccessKind::BorrowExclusive, holder) == Err::<
            OwnState,
            FaultKind,
        >(FaultKind::BorrowConflict),
        state is BorrowedExclusive ==> next_state(state, AccessKind::BorrowShared, holder) == Err::<
            OwnState,
            FaultKind,
        >(FaultKind::BorrowConflict),
        state is BorrowedExclusive ==> next_state(state, AccessKind::BorrowExclusive, holder) == Err::<
            OwnState,
            FaultKind,
        >(FaultKind::BorrowConflict),
{
}

/// The exclusivity law on the store: right after a shared borrow that was
/// allowed, an exclusive borrow of the same slot is a `BorrowConflict`, and
/// right after an exclusive borrow that was allowed, a shared borrow is.
pub proof fn lemma_borrows_exclude(slots: Seq<SlotView>, id: int, holder: bool)
    ensures
        access_outcome(slots, id, AccessKind::BorrowShared, holder) matches Ok((s, _)) ==> access_outcome(
            s,
            id,
            AccessKind::BorrowExclusive,
            holder,
        ) == Err::<(Seq<SlotView>, Option<ValueView>), FaultKind>(FaultKind::BorrowConflict),
        access_outcome(slots, id, AccessKind::BorrowExclusive, holder) matches Ok((s, _)) ==> access_outcome(
            s,
            id,
            AccessKind::BorrowShared,
            holder,
        ) == Err::<(Seq<SlotView>, Option<ValueView>), FaultKind>(FaultKind::BorrowConflict),
{
}

/// A borrow that is taken and given back leaves the slot in the state it
/// was in.
pub proof fn lemma_borrow_then_release(state: OwnState, kind: AccessKind, holder: bool)
    requires
        state.valid(),
        kind is BorrowShared || kind is BorrowExclusive,
    ensures
        next_state(state, kind, holder) matches Ok(s) ==> next_state(s, AccessKind::ReleaseBorrow, holder) == Ok::<
            OwnState,
            FaultKind,
        >(state),
{
}

} // verus!
