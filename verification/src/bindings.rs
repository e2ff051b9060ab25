//! The binding table: names, scope by scope, and what becomes of their
//! slots when a scope ends.

use vstd::prelude::*;
use crate::fault::FaultKind;
use crate::store::{OwnState, SlotView, ValueStore, drop_outcome, lemma_store_stays_sound, live, sound};
use crate::tracker::{AccessKind, access, access_outcome, lemma_tracker_stays_sound};
use crate::value::ValueView;

verus! {

/// What a binding is to its slot.
#[derive(Clone, Copy, Debug, PartialEq, Eq, Structural, Hash)]
pub enum Role {
    /// The binding owns the slot: the slot is dropped with it.
    Owner,
    /// The binding holds one shared borrow of the slot.
    Shared,
    /// The binding holds the exclusive borrow of the slot.
    Exclusive,
}

/// A name bound to a slot.
#[derive(Debug, PartialEq, Eq)]
pub struct Binding {
    pub name: String,
    pub slot: usize,
    pub role: Role,
}

/// The mathematical content of a [`Binding`].
pub struct BindingView {
    pub name: Seq<char>,
    pub slot: usize,
    pub role: Role,
}

impl View for Binding {
    type V = BindingView;

    open spec fn view(&self) -> BindingView {
        BindingView { name: self.name@, slot: self.slot, role: self.role }
    }
}

/// The views of the bindings of one scope, in the order of declaration.
pub open spec fn scope_view(scope: Seq<Binding>) -> Seq<BindingView> {
    Seq::new(scope.len(), |j: int| scope[j]@)
}

/// The table after a declaration: the binding is the last of the innermost
/// scope. A table without a scope gets one.
pub open spec fn declared(scopes: Seq<Seq<BindingView>>, b: BindingView) -> Seq<Seq<BindingView>> {
    if scopes.len() == 0 {
        seq![seq![b]]
    } else {
        scopes.update(scopes.len() - 1, scopes.last().push(b))
    }
}

/// The binding of a name within one scope: the one declared last.
pub open spec fn find_in(scope: Seq<BindingView>, name: Seq<char>) -> Option<BindingView>
    decreases scope.len(),
{
    if scope.len() == 0 {
        None
    } else if scope.last().name == name {
        Some(scope.last())
    } else {
        find_in(scope.drop_last(), name)
    }
}

/// The binding that a name resolves to: that of the innermost scope that
/// has one.
pub open spec fn find(scopes: Seq<Seq<BindingView>>, name: Seq<char>) -> Option<BindingView>
    decreases scopes.len(),
{
    if scopes.len() == 0 {
        None
    } else {
        match find_in(scopes.last(), name) {
            Some(b) => Some(b),
            None => find(scopes.drop_last(), name),
        }
    }
}

/// Whether a binding of one of these scopes owns the slot.
pub open spec fn owned_in(scopes: Seq<Seq<BindingView>>, slot: usize) -> bool {
    exists|i: int, j: int|
        0 <= i < scopes.len() && 0 <= j < scopes[i].len() && (#[trigger] scopes[i][j]).role is Owner
            && scopes[i][j].slot == slot
}

/// What the end of one binding does to the store, and the slot that it
/// drops, if any. An owner drops its slot, unless the slot is not live, has
/// been moved out, or has an owner in one of the enclosing scopes `outer`.
/// A borrow is given back, where the slot has one to give back.
pub open spec fn released(slots: Seq<SlotView>, b: BindingView, outer: Seq<Seq<BindingView>>) -> (
    Seq<SlotView>,
    Seq<usize>,
) {
    match b.role {
        Role::Owner => if live(slots, b.slot as int) && !(slots[b.slot as int].state is MovedOut) && !owned_in(
            outer,
            b.slot,
        ) {
            (drop_outcome(slots, b.slot as int)->Ok_0, seq![b.slot])
        } else {
            (slots, Seq::empty())
        },
        _ => match access_outcome(slots, b.slot as int, AccessKind::ReleaseBorrow, false) {
            Ok((s, _)) => (s, Seq::empty()),
            Err(_) => (slots, Seq::empty()),
        },
    }
}

/// What the end of a scope does to the store, and the slots that it drops,
/// in the order in which they are dropped: the bindings end one by one, the
/// one declared last first.
pub open spec fn teardown(slots: Seq<SlotView>, scope: Seq<BindingView>, outer: Seq<Seq<BindingView>>) -> (
    Seq<SlotView>,
    Seq<usize>,
)
    decreases scope.len(),
{
    if scope.len() == 0 {
        (slots, Seq::empty())
    } else {
        let (s1, d1) = released(slots, scope.last(), outer);
        let (s2, d2) = teardown(s1, scope.drop_last(), outer);
        (s2, d1 + d2)
    }
}

/// The binding table: a stack of scopes, each an ordered list of bindings.
pub struct BindingTable {
    scopes: Vec<Vec<Binding>>,
}

impl View for BindingTable {
    type V = Seq<Seq<BindingView>>;

    closed spec fn view(&self) -> Seq<Seq<BindingView>> {
        Seq::new(self.scopes.len() as nat, |i: int| scope_view(self.scopes[i]@))
    }
}

impl BindingTable {
    /// A table without a scope.
    pub fn new() -> (table: BindingTable)
        ensures
            table@ == Seq::<Seq<BindingView>>::empty(),
    {
        let table = BindingTable { scopes: Vec::new() };
        assert(table@ =~= Seq::<Seq<BindingView>>::empty());
        table
    }

    /// The number of open scopes.
    pub fn depth(&self) -> (n: usize)
        ensures
            n == self@.len(),
    {
        self.scopes.len()
    }

    /// Opens a scope.
    pub fn push_scope(&mut self)
        ensures
            final(self)@ == old(self)@.push(Seq::empty()),
    {
        self.scopes.push(Vec::new());
        assert(self@ =~= old(self)@.push(Seq::empty())) by {
            assert(scope_view(self.scopes[self.scopes.len() - 1]@) =~= Seq::<BindingView>::empty());
        }
    }

    /// Declares a name in the innermost scope: see [`declared`]. A binding
    /// of the same name is shadowed from then on; it stays in its scope,
    /// and its slot stays as it is until that scope ends.
    pub fn declare(&mut self, name: String, slot: usize, role: Role)
        ensures
            final(self)@ == declared(old(self)@, BindingView { name: name@, slot, role }),
    {
        let ghost b = BindingView { name: name@, slot, role };
        let mut scope = match self.scopes.pop() {
            Some(s) => s,
            None => Vec::new(),
        };
        let ghost before = scope_view(scope@);
        scope.push(Binding { name, slot, role });
        assert(scope_view(scope@) =~= before.push(b));
        self.scopes.push(scope);
        proof {
            if old(self)@.len() == 0 {
                assert(before =~= Seq::<BindingView>::empty());
                assert(self@ =~= seq![seq![b]]);
            } else {
                assert(before == old(self)@.last());
                assert(self@ =~= old(self)@.update(old(self)@.len() - 1, old(self)@.last().push(b)));
            }
        }
    }

    /// The slot and the role of the binding that a name resolves to: see
    /// [`find`].
    #[verifier::loop_isolation(false)]
    pub fn lookup(&self, name: &String) -> (r: Option<(usize, Role)>)
        ensures
            match find(self@, name@) {
                Some(b) => r == Some((b.slot, b.role)),
                None => r is None,
            },
    {
        let mut i: usize = self.scopes.len();
        assert(self@.take(i as int) =~= self@);
        while i > 0
            invariant
                i <= self.scopes.len(),
                find(self@, name@) == find(self@.take(i as int), name@),
            decreases i,
        {
            i -= 1;
            let scope = &self.scopes[i];
            let ghost sv = scope_view(scope@);
            assert(self@.take(i + 1).last() == sv);
            assert(self@.take(i + 1).drop_last() =~= self@.take(i as int));
            let mut j: usize = scope.len();
            assert(sv.take(j as int) =~= sv);
            while j > 0
                invariant
                    j <= scope.len(),
                    sv == scope_view(scope@),
                    find_in(sv, name@) == find_in(sv.take(j as int), name@),
                decreases j,
            {
                j -= 1;
                assert(sv.take(j + 1).last() == scope[j as int]@);
                assert(sv.take(j + 1).drop_last() =~= sv.take(j as int));
                if scope[j].name == *name {
                    return Some((scope[j].slot, scope[j].role));
                }
            }
        }
        None
    }

    /// The slot that a name resolves to, or `UnknownName` where no scope
    /// has a binding of it.
    pub fn resolve(&self, name: &String) -> (r: Result<usize, FaultKind>)
        ensures
            match find(self@, name@) {
                Some(b) => r == Ok::<usize, FaultKind>(b.slot),
                None => r == Err::<usize, FaultKind>(FaultKind::UnknownName),
            },
    {
        match self.lookup(name) {
            Some(found) => Ok(found.0),
            None => Err(FaultKind::UnknownName),
        }
    }

    /// Whether a binding of an open scope owns the slot.
    pub fn owns(&self, slot: usize) -> (r: bool)
        ensures
            r == owned_in(self@, slot),
    {
        let mut i: usize = 0;
        while i < self.scopes.len()
            invariant
                i <= self.scopes.len(),
                forall|a: int, b: int|
                    0 <= a < i && 0 <= b < self@[a].len() ==> !((#[trigger] self@[a][b]).role is Owner
                        && self@[a][b].slot == slot),
            decreases self.scopes.len() - i,
        {
            let scope = &self.scopes[i];
            let mut j: usize = 0;
            while j < scope.len()
                invariant
                    j <= scope.len(),
                    i < self.scopes.len(),
                    self@[i as int] == scope_view(scope@),
                    forall|b: int|
                        0 <= b < j ==> !((#[trigger] self@[i as int][b]).role is Owner && self@[i as int][b].slot
                            == slot),
                decreases scope.len() - j,
            {
                match scope[j].role {
                    Role::Owner => {
                        if scope[j].slot == slot {
                            assert(self@[i as int][j as int].role is Owner && self@[i as int][j as int].slot
                                == slot);
                            return true;
                        }
                    },
                    _ => {},
                }
                j += 1;
            }
            i += 1;
        }
        false
    }

    /// Closes the innermost scope: see [`teardown`]. Its bindings end one
    /// by one, the one declared last first, and the slots that this drops
    /// are returned in the order in which they were dropped. A table
    /// without a scope, and the store with it, stays as it is.
    pub fn pop_scope(&mut self, store: &mut ValueStore) -> (dropped: Vec<usize>)
        ensures
            old(self)@.len() == 0 ==> final(self)@ == old(self)@ && final(store)@ == old(store)@ && dropped@
                == Seq::<usize>::empty(),
            old(self)@.len() > 0 ==> final(self)@ == old(self)@.drop_last() && (final(store)@, dropped@)
                == teardown(old(store)@, old(self)@.last(), old(self)@.drop_last()),
    {
        let mut dropped: Vec<usize> = Vec::new();
        let scope = match self.scopes.pop() {
            Some(s) => s,
            None => {
                return dropped;
            },
        };
        let ghost sv = scope_view(scope@);
        let ghost outer = self@;
        assert(outer =~= old(self)@.drop_last());
        assert(sv == old(self)@.last());
        let mut k: usize = scope.len();
        assert(sv.take(k as int) =~= sv);
        assert(dropped@ + teardown(store@, sv, outer).1 =~= teardown(store@, sv, outer).1);
        while k > 0
            invariant
                k <= scope.len(),
                sv == scope_view(scope@),
                outer == self@,
                teardown(old(store)@, sv, outer) == (
                    teardown(store@, sv.take(k as int), outer).0,
                    dropped@ + teardown(store@, sv.take(k as int), outer).1,
                ),
            decreases k,
        {
            k -= 1;
            let ghost b = sv[k as int];
            let ghost before = store@;
            let ghost had = dropped@;
            assert(sv.take(k + 1).last() == b);
            assert(sv.take(k + 1).drop_last() =~= sv.take(k as int));
            let slot = scope[k].slot;
            match scope[k].role {
                Role::Owner => {
                    let keep = match store.state(slot) {
                        None => true,
                        Some(OwnState::Dropped) => true,
                        Some(OwnState::MovedOut) => true,
                        Some(_) => self.owns(slot),
                    };
                    if !keep {
                        let _ = store.drop(slot);
                        dropped.push(slot);
                    }
                },
                _ => {
                    let _ = access(store, slot, AccessKind::ReleaseBorrow, false);
                },
            }
            assert(store@ == released(before, b, outer).0);
            assert(dropped@ =~= had + released(before, b, outer).1);
            assert(had + (released(before, b, outer).1 + teardown(store@, sv.take(k as int), outer).1) =~= dropped@
                + teardown(store@, sv.take(k as int), outer).1);
        }
        assert(dropped@ + Seq::<usize>::empty() =~= dropped@);
        dropped
    }
}

/// A name resolves to its latest declaration.
pub proof fn lemma_declare_resolves(scopes: Seq<Seq<BindingView>>, b: BindingView)
    ensures
        find(declared(scopes, b), b.name) == Some(b),
{
    let after = declared(scopes, b);
    if scopes.len() > 0 {
        assert(after.last() == scopes.last().push(b));
    }
    assert(after.last().last() == b);
}

/// A declaration leaves what every other name resolves to.
pub proof fn lemma_declare_keeps_others(scopes: Seq<Seq<BindingView>>, b: BindingView, name: Seq<char>)
    requires
        name != b.name,
    ensures
        find(declared(scopes, b), name) == find(scopes, name),
{
    let after = declared(scopes, b);
    if scopes.len() == 0 {
        assert(after.last() == seq![b]);
        assert(after.last().drop_last() =~= Seq::<BindingView>::empty());
        assert(after.drop_last() =~= scopes);
        assert(find_in(after.last(), name) == find_in(after.last().drop_last(), name));
        assert(find_in(Seq::<BindingView>::empty(), name) is None);
    } else {
        assert(after.last() == scopes.last().push(b));
        assert(after.last().drop_last() =~= scopes.last());
        assert(after.drop_last() =~= scopes.drop_last());
    }
}

/// A scope that has just been opened hides nothing.
pub proof fn lemma_push_scope_keeps_names(scopes: Seq<Seq<BindingView>>, name: Seq<char>)
    ensures
        find(scopes.push(Seq::empty()), name) == find(scopes, name),
{
    let after = scopes.push(Seq::<BindingView>::empty());
    assert(after.drop_last() =~= scopes);
    assert(find_in(after.last(), name) is None);
}

/// The slots that the end of a scope drops are dropped in the reverse of
/// the order in which their owners were declared. The result gives, for
/// each slot dropped, the position in the scope of the owner whose end
/// dropped it: these positions fall strictly along the drop order.
pub proof fn lemma_drop_order(
    slots: Seq<SlotView>,
    scope: Seq<BindingView>,
    outer: Seq<Seq<BindingView>>,
) -> (at: Seq<int>)
    ensures
        at.len() == teardown(slots, scope, outer).1.len(),
        forall|p: int|
            0 <= p < at.len() ==> 0 <= #[trigger] at[p] < scope.len() && scope[at[p]].role is Owner
                && scope[at[p]].slot == teardown(slots, scope, outer).1[p],
        forall|p: int, q: int| 0 <= p < q < at.len() ==> #[trigger] at[p] > #[trigger] at[q],
    decreases scope.len(),
{
    if scope.len() == 0 {
        Seq::empty()
    } else {
        let (s1, d1) = released(slots, scope.last(), outer);
        let rest = lemma_drop_order(s1, scope.drop_last(), outer);
        let d2 = teardown(s1, scope.drop_last(), outer).1;
        let first: Seq<int> = if d1.len() == 0 {
            Seq::empty()
        } else {
            seq![scope.len() - 1]
        };
        let at = first + rest;
        assert(teardown(slots, scope, outer).1 == d1 + d2);
        assert(d1.len() <= 1);
        assert forall|p: int| 0 <= p < at.len() implies 0 <= #[trigger] at[p] < scope.len() && scope[at[p]].role
            is Owner && scope[at[p]].slot == (d1 + d2)[p] by {
            if p < first.len() {
                assert(at[p] == scope.len() - 1);
                assert(d1[0] == scope.last().slot);
            } else {
                assert(at[p] == rest[p - first.len()]);
                assert(scope.drop_last()[rest[p - first.len()]] == scope[rest[p - first.len()]]);
            }
        }
        assert forall|p: int, q: int| 0 <= p < q < at.len() implies #[trigger] at[p] > #[trigger] at[q] by {
            assert(at[q] == rest[q - first.len()]);
            if p >= first.len() {
                assert(at[p] == rest[p - first.len()]);
            }
        }
        at
    }
}

/// Where every binding of a scope owns a slot of its own that is live, not
/// moved out, and without an owner in an enclosing scope, the end of the
/// scope drops all these slots, in the reverse of the order of declaration.
pub proof fn lemma_owners_drop_in_reverse(
    slots: Seq<SlotView>,
    scope: Seq<BindingView>,
    outer: Seq<Seq<BindingView>>,
)
    requires
        forall|i: int|
            0 <= i < scope.len() ==> (#[trigger] scope[i]).role is Owner && live(slots, scope[i].slot as int)
                && !(slots[scope[i].slot as int].state is MovedOut) && !owned_in(outer, scope[i].slot),
        forall|i: int, j: int| 0 <= i < j < scope.len() ==> (#[trigger] scope[i]).slot != (#[trigger] scope[j]).slot,
    ensures
        teardown(slots, scope, outer).1 == Seq::new(scope.len(), |p: int| scope[scope.len() - 1 - p].slot),
    decreases scope.len(),
{
    let expected = Seq::new(scope.len(), |p: int| scope[scope.len() - 1 - p].slot);
    if scope.len() == 0 {
        assert(teardown(slots, scope, outer).1 =~= expected);
    } else {
        let last = scope.last();
        let rest = scope.drop_last();
        let (s1, d1) = released(slots, last, outer);
        assert(d1 == seq![last.slot]);
        assert forall|i: int| 0 <= i < rest.len() implies (#[trigger] rest[i]).role is Owner && live(
            s1,
            rest[i].slot as int,
        ) && !(s1[rest[i].slot as int].state is MovedOut) && !owned_in(outer, rest[i].slot) by {
            assert(rest[i] == scope[i]);
            assert(scope[i].slot != scope[scope.len() - 1].slot);
        }
        assert forall|i: int, j: int| 0 <= i < j < rest.len() implies (#[trigger] rest[i]).slot != (
        #[trigger] rest[j]).slot by {
            assert(rest[i] == scope[i] && rest[j] == scope[j]);
        }
        lemma_owners_drop_in_reverse(s1, rest, outer);
        assert(d1 + teardown(s1, rest, outer).1 =~= expected);
    }
}

/// The end of a binding, and so the end of a scope, keeps a sound store
/// sound.
pub proof fn lemma_teardown_stays_sound(slots: Seq<SlotView>, scope: Seq<BindingView>, outer: Seq<Seq<BindingView>>)
    requires
        sound(slots),
    ensures
        scope.len() > 0 ==> sound(released(slots, scope.last(), outer).0),
        sound(teardown(slots, scope, outer).0),
    decreases scope.len(),
{
    if scope.len() > 0 {
        let b = scope.last();
        lemma_store_stays_sound(slots, b.slot as int, ValueView::Unit);
        lemma_tracker_stays_sound(slots, b.slot as int, AccessKind::ReleaseBorrow, false, ValueView::Unit, 0, 0);
        lemma_teardown_stays_sound(released(slots, b, outer).0, scope.drop_last(), outer);
    }
}

/// A slot that has an owner in an enclosing scope outlives the scope: the
/// end of the scope does not drop it.
pub proof fn lemma_outer_owner_keeps_slot(
    slots: Seq<SlotView>,
    scope: Seq<BindingView>,
    outer: Seq<Seq<BindingView>>,
    slot: usize,
)
    requires
        owned_in(outer, slot),
    ensures
        !teardown(slots, scope, outer).1.contains(slot),
    decreases scope.len(),
{
    if scope.len() > 0 {
        let (s1, d1) = released(slots, scope.last(), outer);
        let d2 = teardown(s1, scope.drop_last(), outer).1;
        lemma_outer_owner_keeps_slot(s1, scope.drop_last(), outer, slot);
        assert(teardown(slots, scope, outer).1 == d1 + d2);
        if (d1 + d2).contains(slot) {
            let i = choose|i: int| 0 <= i < (d1 + d2).len() && (d1 + d2)[i] == slot;
            if i < d1.len() {
                assert(d1[i] == slot);
            } else {
                assert(d2[i - d1.len()] == slot);
            }
        }
    }
}

} // verus!
