//! The evaluator: instruction trees run against the store, the binding
//! table and the ownership rules.

use vstd::prelude::*;
use crate::bindings::{BindingTable, BindingView, Role, declared, find, teardown};
use crate::fault::{Fault, FaultKind, FaultView, RunResult, RunResultView, extract, extracted};
use crate::store::{SlotView, ValueStore, allocated, read_outcome, write_outcome};
use crate::tracker::{AccessKind, access, access_outcome, reassign, reassign_outcome, take, take_outcome, transition};
use crate::value::{Value, ValueView, lemma_items_view, views_of};

verus! {

/// What an arm of a match accepts.
#[derive(Debug, PartialEq, Eq)]
pub enum Pattern {
    /// Every variant.
    Wildcard,
    /// The variant `tag`. With a name in `bind`, the payload is bound to
    /// that name within the arm: taken by value, which consumes the matched
    /// value where it cannot be copied, or, with `by_ref`, seen through a
    /// shared borrow that lasts as long as the arm.
    Variant { tag: u32, bind: Option<String>, by_ref: bool },
}

impl Pattern {
    /// Whether the pattern accepts the variant `tag`.
    pub open spec fn admits(self, tag: nat) -> bool {
        match self {
            Pattern::Wildcard => true,
            Pattern::Variant { tag: t, .. } => t == tag,
        }
    }
}

/// One arm of a match.
#[derive(Debug, PartialEq, Eq)]
pub struct Arm {
    pub pattern: Pattern,
    pub body: Vec<Instr>,
}

/// An instruction. Every instruction yields a value; those that are run
/// for their effect yield the unit value.
#[derive(Debug, PartialEq, Eq)]
pub enum Instr {
    /// Yields the value.
    Literal(Value),
    /// Takes the value of a binding by value: copies it where it is
    /// copyable, moves it out otherwise.
    Use(String),
    /// Yields a copy of the value of a binding, seen through a shared
    /// borrow that ends at once. This never consumes the value.
    Peek(String),
    /// Declares a name for a new slot that owns the value of the
    /// instruction.
    Let(String, Box<Instr>),
    /// Declares `name` as a borrow, shared or exclusive, of the slot that
    /// `target` resolves to. The borrow lasts until the scope of `name`
    /// ends.
    Borrow { name: String, target: String, exclusive: bool },
    /// Replaces the value of the slot that the name resolves to.
    Assign(String, Box<Instr>),
    /// Appends a text value to the output.
    Print(Box<Instr>),
    /// Runs the instructions in a scope of their own and yields the value
    /// of the last.
    Block(Vec<Instr>),
    /// Runs the first block where the condition yields true, the second
    /// where it yields false.
    If(Box<Instr>, Vec<Instr>, Vec<Instr>),
    /// Runs the block as long as the condition, evaluated before each
    /// round, yields true.
    While(Box<Instr>, Vec<Instr>),
    /// Runs the block again and again. A break is its only exit, and the
    /// value of the break is the value of the loop.
    Loop(Vec<Instr>),
    /// Leaves the innermost loop, with the value of the instruction or with
    /// the unit value.
    Break(Option<Box<Instr>>),
    /// Runs the block once for each element of the array that the second
    /// name resolves to, with the first name bound to the element. The
    /// array is read by copy where it is copyable and held by a shared
    /// borrow otherwise: it is never consumed.
    For(String, String, Vec<Instr>),
    /// Runs the first arm that accepts the variant held by the binding.
    Match(String, Vec<Arm>),
    /// Extracts the payload of a success, unchecked.
    Extract(Box<Instr>),
    /// Ends the run with the message.
    Abort(String),
}

/// The mathematical content of a [`Machine`].
pub struct MachineView {
    pub slots: Seq<SlotView>,
    pub scopes: Seq<Seq<BindingView>>,
    pub output: Seq<Seq<char>>,
}

/// How the evaluation of an instruction ended.
pub enum FlowView {
    /// It yielded a value.
    Normal(ValueView),
    /// It left the innermost loop with a value.
    Broke(ValueView),
    /// It faulted.
    Faulted(FaultView),
}

/// A machine and the fault of the given kind, with its default message.
pub open spec fn fail(m: MachineView, kind: FaultKind) -> (MachineView, FlowView) {
    (m, FlowView::Faulted(FaultView::of(kind)))
}

impl MachineView {
    /// The machine before anything has run.
    pub open spec fn empty() -> MachineView {
        MachineView { slots: Seq::empty(), scopes: Seq::empty(), output: Seq::empty() }
    }

    /// The machine with another store.
    pub open spec fn with_slots(self, slots: Seq<SlotView>) -> MachineView {
        MachineView { slots, ..self }
    }

    /// The machine after a scope has been opened.
    pub open spec fn enter(self) -> MachineView {
        MachineView { scopes: self.scopes.push(Seq::empty()), ..self }
    }

    /// The machine after the innermost scope has ended: its bindings end,
    /// the one declared last first, each dropping the slot it owns or
    /// giving back the borrow it holds.
    pub open spec fn leave(self) -> MachineView {
        if self.scopes.len() == 0 {
            self
        } else {
            MachineView {
                slots: teardown(self.slots, self.scopes.last(), self.scopes.drop_last()).0,
                scopes: self.scopes.drop_last(),
                ..self
            }
        }
    }

    /// The machine after a name has been declared for a slot.
    pub open spec fn declare(self, name: Seq<char>, slot: usize, role: Role) -> MachineView {
        MachineView { scopes: declared(self.scopes, BindingView { name, slot, role }), ..self }
    }

    /// The machine after a value has been put into a new slot and a name
    /// declared as the owner of that slot.
    pub open spec fn bind(self, name: Seq<char>, value: ValueView) -> MachineView {
        MachineView {
            slots: allocated(self.slots, value),
            scopes: declared(self.scopes, BindingView { name, slot: self.slots.len() as usize, role: Role::Owner }),
            ..self
        }
    }

    /// The machine after an optional binding has been made.
    pub open spec fn bind_opt(self, pre: Option<(Seq<char>, ValueView)>) -> MachineView {
        match pre {
            Some((name, value)) => self.bind(name, value),
            None => self,
        }
    }
}

/// Taking the value of a binding by value.
pub open spec fn sem_use(m: MachineView, name: Seq<char>) -> (MachineView, FlowView) {
    match find(m.scopes, name) {
        None => fail(m, FaultKind::UnknownName),
        Some(b) => match take_outcome(m.slots, b.slot as int) {
            Err(k) => fail(m, k),
            Ok((s, v)) => (m.with_slots(s), FlowView::Normal(v->Some_0)),
        },
    }
}

/// Seeing the value of a binding through a shared borrow that ends at
/// once: allowed where a shared borrow is, and without effect on the store.
pub open spec fn sem_peek(m: MachineView, name: Seq<char>) -> (MachineView, FlowView) {
    match find(m.scopes, name) {
        None => fail(m, FaultKind::UnknownName),
        Some(b) => match access_outcome(m.slots, b.slot as int, AccessKind::BorrowShared, false) {
            Err(k) => fail(m, k),
            Ok(_) => (m, FlowView::Normal(m.slots[b.slot as int].value)),
        },
    }
}

/// Declaring a borrow of the slot of `target`.
pub open spec fn sem_borrow(m: MachineView, name: Seq<char>, target: Seq<char>, exclusive: bool) -> (
    MachineView,
    FlowView,
) {
    match find(m.scopes, target) {
        None => fail(m, FaultKind::UnknownName),
        Some(b) => {
            let kind = if exclusive {
                AccessKind::BorrowExclusive
            } else {
                AccessKind::BorrowShared
            };
            let role = if exclusive {
                Role::Exclusive
            } else {
                Role::Shared
            };
            match access_outcome(m.slots, b.slot as int, kind, false) {
                Err(k) => fail(m, k),
                Ok((s, _)) => (m.with_slots(s).declare(name, b.slot, role), FlowView::Normal(ValueView::Unit)),
            }
        },
    }
}

/// Assigning a value to a name. Through an owner this is a write to the
/// slot, which also gives a slot whose value was moved out a value again;
/// through a borrow it is a reassignment in place, which only the holder of
/// the exclusive borrow is allowed.
pub open spec fn sem_assign(m: MachineView, name: Seq<char>, value: ValueView) -> (MachineView, FlowView) {
    match find(m.scopes, name) {
        None => fail(m, FaultKind::UnknownName),
        Some(b) => {
            let outcome = if b.role is Owner {
                write_outcome(m.slots, b.slot as int, value)
            } else {
                reassign_outcome(m.slots, b.slot as int, value, b.role is Exclusive)
            };
            match outcome {
                Err(k) => fail(m, k),
                Ok(s) => (m.with_slots(s), FlowView::Normal(ValueView::Unit)),
            }
        },
    }
}

/// Printing a value: text is appended to the output, anything else is a
/// `TypeMismatch`.
pub open spec fn sem_print(m: MachineView, value: ValueView) -> (MachineView, FlowView) {
    match value {
        ValueView::Text(s) => (MachineView { output: m.output.push(s), ..m }, FlowView::Normal(ValueView::Unit)),
        _ => fail(m, FaultKind::TypeMismatch),
    }
}

/// Whether one of the arms accepts the variant `tag`.
pub open spec fn accepted(arms: Seq<Arm>, tag: nat) -> bool {
    exists|k: int| 0 <= k < arms.len() && (#[trigger] arms[k]).pattern.admits(tag)
}

/// Whether the arms cover every one of `variants` variants.
pub open spec fn covers(arms: Seq<Arm>, variants: nat) -> bool {
    forall|t: nat| t < variants ==> #[trigger] accepted(arms, t)
}

/// The position of the first arm, from `from` on, that accepts the variant
/// `tag`; the number of arms where none does.
pub open spec fn first_admitting(arms: Seq<Arm>, tag: nat, from: int) -> int
    decreases arms.len() - from,
{
    if from < 0 || from >= arms.len() {
        arms.len() as int
    } else if arms[from].pattern.admits(tag) {
        from
    } else {
        first_admitting(arms, tag, from + 1)
    }
}

/// How the value of a loop body decides on the loop: a value means another
/// round, a break ends the loop with the value of the break, or with the
/// unit value where the loop has no value of its own.
pub open spec fn after_round(flow: FlowView, valued: bool) -> Option<FlowView> {
    match flow {
        FlowView::Normal(_) => None,
        FlowView::Broke(v) => Some(
            FlowView::Normal(
                if valued {
                    v
                } else {
                    ValueView::Unit
                },
            ),
        ),
        FlowView::Faulted(f) => Some(FlowView::Faulted(f)),
    }
}

/// The meaning of an instruction: the machine after it has run, and how it
/// ended. `limit` is the number of rounds that any one loop may run.
pub open spec fn sem(m: MachineView, instr: Instr, limit: nat) -> (MachineView, FlowView)
    decreases instr, 1nat, 0nat,
{
    match instr {
        Instr::Literal(v) => (m, FlowView::Normal(v@)),
        Instr::Use(name) => sem_use(m, name@),
        Instr::Peek(name) => sem_peek(m, name@),
        Instr::Let(name, init) => {
            let (m1, f1) = sem(m, *init, limit);
            match f1 {
                FlowView::Normal(v) => (m1.bind(name@, v), FlowView::Normal(ValueView::Unit)),
                _ => (m1, f1),
            }
        },
        Instr::Borrow { name, target, exclusive } => sem_borrow(m, name@, target@, exclusive),
        Instr::Assign(name, value) => {
            let (m1, f1) = sem(m, *value, limit);
            match f1 {
                FlowView::Normal(v) => sem_assign(m1, name@, v),
                _ => (m1, f1),
            }
        },
        Instr::Print(value) => {
            let (m1, f1) = sem(m, *value, limit);
            match f1 {
                FlowView::Normal(v) => sem_print(m1, v),
                _ => (m1, f1),
            }
        },
        Instr::Block(body) => sem_scoped(m, body, None, limit),
        Instr::If(cond, then_body, else_body) => {
            let (m1, f1) = sem(m, *cond, limit);
            match f1 {
                FlowView::Normal(ValueView::Boolean(b)) => if b {
                    sem_scoped(m1, then_body, None, limit)
                } else {
                    sem_scoped(m1, else_body, None, limit)
                },
                FlowView::Normal(_) => fail(m1, FaultKind::TypeMismatch),
                _ => (m1, f1),
            }
        },
        Instr::While(_, _) => sem_while(m, instr, limit, limit),
        Instr::Loop(_) => sem_loop(m, instr, limit, limit),
        Instr::Break(value) => match value {
            None => (m, FlowView::Broke(ValueView::Unit)),
            Some(e) => {
                let (m1, f1) = sem(m, *e, limit);
                match f1 {
                    FlowView::Normal(v) => (m1, FlowView::Broke(v)),
                    _ => (m1, f1),
                }
            },
        },
        Instr::For(_, over, _) => match find(m.scopes, over@) {
            None => fail(m, FaultKind::UnknownName),
            Some(b) => if b.slot >= m.slots.len() {
                fail(m, FaultKind::InvalidSlot)
            } else {
                let held = m.slots[b.slot as int].value;
                let kind = if held.copyable() {
                    AccessKind::ReadCopy
                } else {
                    AccessKind::BorrowShared
                };
                match access_outcome(m.slots, b.slot as int, kind, false) {
                    Err(k) => fail(m, k),
                    Ok((s, _)) => match held {
                        ValueView::Array(items) => {
                            let m1 = if held.copyable() {
                                m.enter()
                            } else {
                                m.with_slots(s).enter().declare(over@, b.slot, Role::Shared)
                            };
                            let (m2, f2) = sem_for(m1, instr, items, 0, limit);
                            (m2.leave(), f2)
                        },
                        _ => fail(m, FaultKind::TypeMismatch),
                    },
                }
            },
        },
        Instr::Match(_, _) => sem_match(m, instr, limit),
        Instr::Extract(value) => {
            let (m1, f1) = sem(m, *value, limit);
            match f1 {
                FlowView::Normal(v) => match extracted(v) {
                    Ok(p) => (m1, FlowView::Normal(p)),
                    Err(k) => fail(m1, k),
                },
                _ => (m1, f1),
            }
        },
        Instr::Abort(message) => (
            m,
            FlowView::Faulted(FaultView { kind: FaultKind::Abort, message: message@ }),
        ),
    }
}

/// The meaning of the instructions of a block from position `from` on:
/// they run in order until one does not yield a value. `last` is the value
/// of the instruction before `from`.
pub open spec fn sem_seq(m: MachineView, body: Vec<Instr>, from: nat, last: ValueView, limit: nat) -> (
    MachineView,
    FlowView,
)
    decreases body, 0nat, body.len() - from,
{
    if from >= body.len() {
        (m, FlowView::Normal(last))
    } else {
        let (m1, f1) = sem(m, body[from as int], limit);
        match f1 {
            FlowView::Normal(v) => sem_seq(m1, body, from + 1, v, limit),
            _ => (m1, f1),
        }
    }
}

/// The meaning of a block: a scope is opened, a binding made in it where
/// `pre` gives one, the instructions run, and the scope ends, however the
/// instructions ended.
pub open spec fn sem_scoped(m: MachineView, body: Vec<Instr>, pre: Option<(Seq<char>, ValueView)>, limit: nat) -> (
    MachineView,
    FlowView,
)
    decreases body, 1nat, 0nat,
{
    let (m1, f1) = sem_seq(m.enter().bind_opt(pre), body, 0, ValueView::Unit, limit);
    (m1.leave(), f1)
}

/// The meaning of a while loop that may run `rounds` more rounds.
pub open spec fn sem_while(m: MachineView, instr: Instr, limit: nat, rounds: nat) -> (MachineView, FlowView)
    decreases instr, 0nat, rounds,
{
    match instr {
        Instr::While(cond, body) => {
            let (m1, f1) = sem(m, *cond, limit);
            match f1 {
                FlowView::Normal(ValueView::Boolean(b)) => if !b {
                    (m1, FlowView::Normal(ValueView::Unit))
                } else if rounds == 0 {
                    fail(m1, FaultKind::LimitExceeded)
                } else {
                    let (m2, f2) = sem_scoped(m1, body, None, limit);
                    match after_round(f2, false) {
                        None => sem_while(m2, instr, limit, (rounds - 1) as nat),
                        Some(f) => (m2, f),
                    }
                },
                FlowView::Normal(_) => fail(m1, FaultKind::TypeMismatch),
                _ => (m1, f1),
            }
        },
        _ => (m, FlowView::Normal(ValueView::Unit)),
    }
}

/// The meaning of an unconditional loop that may run `rounds` more rounds.
pub open spec fn sem_loop(m: MachineView, instr: Instr, limit: nat, rounds: nat) -> (MachineView, FlowView)
    decreases instr, 0nat, rounds,
{
    match instr {
        Instr::Loop(body) => if rounds == 0 {
            fail(m, FaultKind::LimitExceeded)
        } else {
            let (m1, f1) = sem_scoped(m, body, None, limit);
            match after_round(f1, true) {
                None => sem_loop(m1, instr, limit, (rounds - 1) as nat),
                Some(f) => (m1, f),
            }
        },
        _ => (m, FlowView::Normal(ValueView::Unit)),
    }
}

/// The meaning of a for loop over `items` from position `from` on.
pub open spec fn sem_for(m: MachineView, instr: Instr, items: Seq<ValueView>, from: nat, limit: nat) -> (
    MachineView,
    FlowView,
)
    decreases instr, 0nat, items.len() - from,
{
    match instr {
        Instr::For(var, _, body) => if from >= items.len() {
            (m, FlowView::Normal(ValueView::Unit))
        } else {
            let (m1, f1) = sem_scoped(m, body, Some((var@, items[from as int])), limit);
            match after_round(f1, false) {
                None => sem_for(m1, instr, items, from + 1, limit),
                Some(f) => (m1, f),
            }
        },
        _ => (m, FlowView::Normal(ValueView::Unit)),
    }
}

/// The meaning of a match. The binding must hold an enum value that can be
/// read; the arms must cover its variants, else the match is a
/// `NonExhaustiveMatch`; the first arm that accepts the variant runs.
pub open spec fn sem_match(m: MachineView, instr: Instr, limit: nat) -> (MachineView, FlowView)
    decreases instr, 0nat, 0nat,
{
    match instr {
        Instr::Match(on, arms) => match find(m.scopes, on@) {
            None => fail(m, FaultKind::UnknownName),
            Some(b) => match read_outcome(m.slots, b.slot as int, false) {
                Err(k) => fail(m, k),
                Ok(ValueView::Enum { variants, tag, payload }) => {
                    let k = first_admitting(arms@, tag, 0);
                    if !covers(arms@, variants) || k < 0 || k >= arms.len() {
                        fail(m, FaultKind::NonExhaustiveMatch)
                    } else {
                        match arms[k].pattern {
                            Pattern::Variant { bind: Some(name), by_ref, .. } => match payload {
                                None => fail(m, FaultKind::TypeMismatch),
                                Some(p) => if by_ref {
                                    match access_outcome(m.slots, b.slot as int, AccessKind::BorrowShared, false) {
                                        Err(e) => fail(m, e),
                                        Ok((s, _)) => {
                                            let m1 = m.with_slots(s).enter().declare(on@, b.slot, Role::Shared);
                                            let (m2, f2) = sem_scoped(m1, arms[k].body, Some((name@, *p)), limit);
                                            (m2.leave(), f2)
                                        },
                                    }
                                } else {
                                    match take_outcome(m.slots, b.slot as int) {
                                        Err(e) => fail(m, e),
                                        Ok((s, _)) => sem_scoped(
                                            m.with_slots(s),
                                            arms[k].body,
                                            Some((name@, *p)),
                                            limit,
                                        ),
                                    }
                                },
                            },
                            _ => sem_scoped(m, arms[k].body, None, limit),
                        }
                    }
                },
                Ok(_) => fail(m, FaultKind::TypeMismatch),
            },
        },
        _ => (m, FlowView::Normal(ValueView::Unit)),
    }
}

/// How the evaluation of an instruction ended.
#[derive(Debug, PartialEq, Eq)]
pub enum Flow {
    /// It yielded a value.
    Normal(Value),
    /// It left the innermost loop with a value.
    Broke(Value),
    /// It faulted.
    Faulted(Fault),
}

impl View for Flow {
    type V = FlowView;

    open spec fn view(&self) -> FlowView {
        match self {
            Flow::Normal(v) => FlowView::Normal(v@),
            Flow::Broke(v) => FlowView::Broke(v@),
            Flow::Faulted(f) => FlowView::Faulted(f@),
        }
    }
}

/// The lines of the output, as sequences of characters.
pub open spec fn lines(output: Seq<String>) -> Seq<Seq<char>> {
    Seq::new(output.len(), |i: int| output[i]@)
}

/// The view of an optional binding.
pub open spec fn pre_view(pre: Option<(String, Value)>) -> Option<(Seq<char>, ValueView)> {
    match pre {
        Some((name, value)) => Some((name@, value@)),
        None => None,
    }
}

/// How a run ends where its instructions ended with `flow`. A break that
/// no loop encloses ends the run with its value.
pub open spec fn ended(flow: FlowView) -> RunResultView {
    match flow {
        FlowView::Normal(v) => RunResultView::Completed(v),
        FlowView::Broke(v) => RunResultView::Completed(v),
        FlowView::Faulted(f) => RunResultView::Faulted(f.kind, f.message),
    }
}

/// The meaning of a run: the instructions run as one block, in a scope of
/// their own.
pub open spec fn ran(m: MachineView, program: Vec<Instr>, limit: nat) -> (MachineView, RunResultView) {
    let (m1, f1) = sem_scoped(m, program, None, limit);
    (m1, ended(f1))
}

/// The number of rounds that a loop may run where the caller sets no limit.
pub const DEFAULT_LIMIT: usize = 1_000_000;

/// The flow of a fault of the given kind, with its default message.
fn fault(kind: FaultKind) -> (flow: Flow)
    ensures
        flow@ == FlowView::Faulted(FaultView::of(kind)),
{
    Flow::Faulted(Fault::of(kind))
}

/// From `from` on, the first arm that accepts the variant is at the
/// position that [`first_admitting`] gives, and no arm before it accepts
/// the variant.
pub proof fn lemma_first_admitting(arms: Seq<Arm>, tag: nat, from: int)
    requires
        0 <= from <= arms.len(),
    ensures
        from <= first_admitting(arms, tag, from) <= arms.len(),
        first_admitting(arms, tag, from) < arms.len() ==> arms[first_admitting(arms, tag, from)].pattern.admits(
            tag,
        ),
        forall|j: int| from <= j < first_admitting(arms, tag, from) ==> !(#[trigger] arms[j]).pattern.admits(tag),
    decreases arms.len() - from,
{
    if from < arms.len() && !arms[from].pattern.admits(tag) {
        lemma_first_admitting(arms, tag, from + 1);
    }
}

/// Among `n` numbers from zero on there is one that a shorter sequence
/// does not hold.
proof fn lemma_free_tag(tags: Seq<nat>, n: nat) -> (t: nat)
    requires
        tags.len() < n,
    ensures
        t < n,
        forall|k: int| 0 <= k < tags.len() ==> tags[k] != t,
    decreases tags.len(),
{
    let top = (n - 1) as nat;
    if exists|k: int| 0 <= k < tags.len() && tags[k] == top {
        let k = choose|k: int| 0 <= k < tags.len() && tags[k] == top;
        let rest = tags.remove(k);
        let t = lemma_free_tag(rest, top);
        assert forall|j: int| 0 <= j < tags.len() implies tags[j] != t by {
            if j < k {
                assert(tags[j] == rest[j]);
            } else if j > k {
                assert(tags[j] == rest[j - 1]);
            }
        }
        t
    } else {
        top
    }
}

/// A match with fewer arms than its value has variants, and no wildcard
/// among them, does not cover the variants.
pub proof fn lemma_too_few_arms(arms: Seq<Arm>, variants: nat)
    requires
        arms.len() < variants,
        forall|k: int| 0 <= k < arms.len() ==> (#[trigger] arms[k]).pattern is Variant,
    ensures
        !covers(arms, variants),
{
    let tags = Seq::new(arms.len(), |k: int| arms[k].pattern->tag as nat);
    let t = lemma_free_tag(tags, variants);
    assert(!accepted(arms, t)) by {
        if accepted(arms, t) {
            let k = choose|k: int| 0 <= k < arms.len() && (#[trigger] arms[k]).pattern.admits(t);
            assert(tags[k] == t);
        }
    }
}

/// Whether a pattern accepts a variant.
fn admits(pattern: &Pattern, tag: u32) -> (r: bool)
    ensures
        r == pattern.admits(tag as nat),
{
    match pattern {
        Pattern::Wildcard => true,
        Pattern::Variant { tag: t, .. } => *t == tag,
    }
}

/// The position of the first arm that accepts the variant: see
/// [`first_admitting`].
pub fn first_arm(arms: &Vec<Arm>, tag: u32) -> (k: usize)
    ensures
        k == first_admitting(arms@, tag as nat, 0),
        k <= arms.len(),
{
    let mut k: usize = 0;
    while k < arms.len()
        invariant
            k <= arms.len(),
            first_admitting(arms@, tag as nat, 0) == first_admitting(arms@, tag as nat, k as int),
        decreases arms.len() - k,
    {
        if admits(&arms[k].pattern, tag) {
            return k;
        }
        k += 1;
    }
    k
}

/// Whether the arms cover every variant of a value with `variants`
/// variants: see [`covers`].
pub fn exhaustive(arms: &Vec<Arm>, variants: u32) -> (r: bool)
    ensures
        r == covers(arms@, variants as nat),
{
    let mut k: usize = 0;
    while k < arms.len()
        invariant
            k <= arms.len(),
            forall|j: int| 0 <= j < k ==> (#[trigger] arms@[j]).pattern is Variant,
        decreases arms.len() - k,
    {
        match arms[k].pattern {
            Pattern::Wildcard => {
                assert forall|t: nat| t < variants implies #[trigger] accepted(arms@, t) by {
                    assert(arms@[k as int].pattern.admits(t));
                }
                return true;
            },
            _ => {},
        }
        k += 1;
    }
    if arms.len() < variants as usize {
        proof {
            lemma_too_few_arms(arms@, variants as nat);
        }
        return false;
    }
    let mut t: u32 = 0;
    while t < variants
        invariant
            t <= variants,
            forall|u: nat| u < t ==> #[trigger] accepted(arms@, u),
        decreases variants - t,
    {
        let at = first_arm(arms, t);
        proof {
            lemma_first_admitting(arms@, t as nat, 0);
        }
        if at >= arms.len() {
            assert(!accepted(arms@, t as nat));
            return false;
        }
        assert(arms@[at as int].pattern.admits(t as nat));
        t += 1;
    }
    true
}

/// The machine: a store, a binding table, the output so far, and the
/// number of rounds that any one loop may run.
pub struct Machine {
    pub store: ValueStore,
    pub table: BindingTable,
    pub output: Vec<String>,
    pub limit: usize,
}

impl View for Machine {
    type V = MachineView;

    open spec fn view(&self) -> MachineView {
        MachineView { slots: self.store@, scopes: self.table@, output: lines(self.output@) }
    }
}

impl Machine {
    /// A machine on which nothing has run.
    pub fn new(limit: usize) -> (machine: Machine)
        ensures
            machine@ == MachineView::empty(),
            machine.limit == limit,
    {
        let machine = Machine { store: ValueStore::new(), table: BindingTable::new(), output: Vec::new(), limit };
        assert(lines(machine.output@) =~= Seq::<Seq<char>>::empty());
        machine
    }

    /// Ends the innermost scope.
    fn leave(&mut self)
        ensures
            final(self)@ == old(self)@.leave(),
            final(self).limit == old(self).limit,
    {
        let _ = self.table.pop_scope(&mut self.store);
    }

    /// Puts a value into a new slot and declares a name as its owner.
    fn bind(&mut self, name: String, value: Value)
        ensures
            final(self)@ == old(self)@.bind(name@, value@),
            final(self).limit == old(self).limit,
    {
        let id = self.store.allocate(value);
        self.table.declare(name, id, Role::Owner);
    }

    /// Takes the value of a binding by value: see [`sem_use`].
    fn eval_use(&mut self, name: &String) -> (flow: Flow)
        ensures
            (final(self)@, flow@) == sem_use(old(self)@, name@),
            final(self).limit == old(self).limit,
    {
        match self.table.lookup(name) {
            None => fault(FaultKind::UnknownName),
            Some(found) => match take(&mut self.store, found.0) {
                Err(k) => fault(k),
                Ok(v) => Flow::Normal(v),
            },
        }
    }

    /// Copies the value of a binding without consuming it: see [`sem_peek`].
    fn eval_peek(&mut self, name: &String) -> (flow: Flow)
        ensures
            (final(self)@, flow@) == sem_peek(old(self)@, name@),
            final(self).limit == old(self).limit,
    {
        match self.table.lookup(name) {
            None => fault(FaultKind::UnknownName),
            Some(found) => match self.store.state(found.0) {
                None => fault(FaultKind::InvalidSlot),
                Some(state) => match transition(state, AccessKind::BorrowShared, false) {
                    Err(k) => fault(k),
                    Ok(_) => Flow::Normal(self.store.peek(found.0).duplicate()),
                },
            },
        }
    }

    /// Declares a borrow: see [`sem_borrow`].
    fn eval_borrow(&mut self, name: &String, target: &String, exclusive: bool) -> (flow: Flow)
        ensures
            (final(self)@, flow@) == sem_borrow(old(self)@, name@, target@, exclusive),
            final(self).limit == old(self).limit,
    {
        match self.table.lookup(target) {
            None => fault(FaultKind::UnknownName),
            Some(found) => {
                let kind = if exclusive {
                    AccessKind::BorrowExclusive
                } else {
                    AccessKind::BorrowShared
                };
                let role = if exclusive {
                    Role::Exclusive
                } else {
                    Role::Shared
                };
                match access(&mut self.store, found.0, kind, false) {
                    Err(k) => fault(k),
                    Ok(_) => {
                        self.table.declare(name.clone(), found.0, role);
                        Flow::Normal(Value::Unit)
                    },
                }
            },
        }
    }

    /// Assigns a value to a name: see [`sem_assign`].
    fn eval_assign(&mut self, name: &String, value: Value) -> (flow: Flow)
        ensures
            (final(self)@, flow@) == sem_assign(old(self)@, name@, value@),
            final(self).limit == old(self).limit,
    {
        match self.table.lookup(name) {
            None => fault(FaultKind::UnknownName),
            Some(found) => {
                let done = match found.1 {
                    Role::Owner => self.store.write(found.0, value),
                    Role::Shared => reassign(&mut self.store, found.0, value, false),
                    Role::Exclusive => reassign(&mut self.store, found.0, value, true),
                };
                match done {
                    Err(k) => fault(k),
                    Ok(_) => Flow::Normal(Value::Unit),
                }
            },
        }
    }

    /// Prints a value: see [`sem_print`].
    fn eval_print(&mut self, value: Value) -> (flow: Flow)
        ensures
            (final(self)@, flow@) == sem_print(old(self)@, value@),
            final(self).limit == old(self).limit,
    {
        match value {
            Value::Text(s) => {
                self.output.push(s);
                assert(lines(self.output@) =~= lines(old(self).output@).push(s@));
                Flow::Normal(Value::Unit)
            },
            _ => fault(FaultKind::TypeMismatch),
        }
    }

    /// Runs one instruction: see [`sem`].
    pub fn eval(&mut self, instr: &Instr) -> (flow: Flow)
        ensures
            (final(self)@, flow@) == sem(old(self)@, *instr, old(self).limit as nat),
            final(self).limit == old(self).limit,
        decreases instr, 1nat,
    {
        match instr {
            Instr::Literal(v) => Flow::Normal(v.duplicate()),
            Instr::Use(name) => self.eval_use(name),
            Instr::Peek(name) => self.eval_peek(name),
            Instr::Let(name, init) => match self.eval(init) {
                Flow::Normal(v) => {
                    self.bind(name.clone(), v);
                    Flow::Normal(Value::Unit)
                },
                other => other,
            },
            Instr::Borrow { name, target, exclusive } => self.eval_borrow(name, target, *exclusive),
            Instr::Assign(name, value) => match self.eval(value) {
                Flow::Normal(v) => self.eval_assign(name, v),
                other => other,
            },
            Instr::Print(value) => match self.eval(value) {
                Flow::Normal(v) => self.eval_print(v),
                other => other,
            },
            Instr::Block(body) => self.eval_scoped(body, None),
            Instr::If(cond, then_body, else_body) => match self.eval(cond) {
                Flow::Normal(Value::Boolean(b)) => if b {
                    self.eval_scoped(then_body, None)
                } else {
                    self.eval_scoped(else_body, None)
                },
                Flow::Normal(_) => fault(FaultKind::TypeMismatch),
                other => other,
            },
            Instr::While(_, _) => self.eval_while(instr),
            Instr::Loop(_) => self.eval_loop(instr),
            Instr::Break(value) => match value {
                None => Flow::Broke(Value::Unit),
                Some(e) => match self.eval(e) {
                    Flow::Normal(v) => Flow::Broke(v),
                    other => other,
                },
            },
            Instr::For(_, over, _) => {
                let slot = match self.table.lookup(over) {
                    None => {
                        return fault(FaultKind::UnknownName);
                    },
                    Some(found) => found.0,
                };
                let state = match self.store.state(slot) {
                    None => {
                        return fault(FaultKind::InvalidSlot);
                    },
                    Some(state) => state,
                };
                let copyable = self.store.peek(slot).is_copy();
                let kind = if copyable {
                    AccessKind::ReadCopy
                } else {
                    AccessKind::BorrowShared
                };
                match transition(state, kind, false) {
                    Err(k) => {
                        return fault(k);
                    },
                    Ok(_) => {},
                }
                match self.store.peek(slot).duplicate() {
                    Value::Array(items) => {
                        proof {
                            lemma_items_view(items);
                        }
                        self.table.push_scope();
                        if !copyable {
                            let _ = access(&mut self.store, slot, kind, false);
                            self.table.declare(over.clone(), slot, Role::Shared);
                        }
                        let flow = self.eval_for(instr, &items);
                        self.leave();
                        flow
                    },
                    _ => fault(FaultKind::TypeMismatch),
                }
            },
            Instr::Match(_, _) => self.eval_match(instr),
            Instr::Extract(value) => match self.eval(value) {
                Flow::Normal(v) => match extract(v) {
                    Ok(p) => Flow::Normal(p),
                    Err(k) => fault(k),
                },
                other => other,
            },
            Instr::Abort(message) => Flow::Faulted(Fault::with_message(FaultKind::Abort, message.clone())),
        }
    }

    /// Runs the instructions of a block in order: see [`sem_seq`].
    fn eval_seq(&mut self, body: &Vec<Instr>) -> (flow: Flow)
        ensures
            (final(self)@, flow@) == sem_seq(old(self)@, *body, 0, ValueView::Unit, old(self).limit as nat),
            final(self).limit == old(self).limit,
        decreases body, 0nat,
    {
        let mut last = Value::Unit;
        let mut i: usize = 0;
        while i < body.len()
            invariant
                i <= body.len(),
                self.limit == old(self).limit,
                sem_seq(old(self)@, *body, 0, ValueView::Unit, self.limit as nat) == sem_seq(
                    self@,
                    *body,
                    i as nat,
                    last@,
                    self.limit as nat,
                ),
            decreases body.len() - i,
        {
            match self.eval(&body[i]) {
                Flow::Normal(v) => {
                    last = v;
                    i += 1;
                },
                other => {
                    return other;
                },
            }
        }
        Flow::Normal(last)
    }

    /// Runs a block in a scope of its own: see [`sem_scoped`].
    fn eval_scoped(&mut self, body: &Vec<Instr>, pre: Option<(String, Value)>) -> (flow: Flow)
        ensures
            (final(self)@, flow@) == sem_scoped(old(self)@, *body, pre_view(pre), old(self).limit as nat),
            final(self).limit == old(self).limit,
        decreases body, 1nat,
    {
        self.table.push_scope();
        match pre {
            Some(binding) => {
                self.bind(binding.0, binding.1);
            },
            None => {},
        }
        let flow = self.eval_seq(body);
        self.leave();
        flow
    }

    /// Runs a while loop: see [`sem_while`].
    fn eval_while(&mut self, instr: &Instr) -> (flow: Flow)
        ensures
            (final(self)@, flow@) == sem_while(
                old(self)@,
                *instr,
                old(self).limit as nat,
                old(self).limit as nat,
            ),
            final(self).limit == old(self).limit,
        decreases instr, 0nat,
    {
        let mut rounds: usize = self.limit;
        loop
            invariant
                self.limit == old(self).limit,
                sem_while(old(self)@, *instr, self.limit as nat, self.limit as nat) == sem_while(
                    self@,
                    *instr,
                    self.limit as nat,
                    rounds as nat,
                ),
            decreases rounds,
        {
            match instr {
                Instr::While(cond, body) => {
                    match self.eval(cond) {
                        Flow::Normal(Value::Boolean(b)) => {
                            if !b {
                                return Flow::Normal(Value::Unit);
                            }
                            if rounds == 0 {
                                return fault(FaultKind::LimitExceeded);
                            }
                            match self.eval_scoped(body, None) {
                                Flow::Normal(_) => {
                                    rounds -= 1;
                                },
                                Flow::Broke(_) => {
                                    return Flow::Normal(Value::Unit);
                                },
                                Flow::Faulted(f) => {
                                    return Flow::Faulted(f);
                                },
                            }
                        },
                        Flow::Normal(_) => {
                            return fault(FaultKind::TypeMismatch);
                        },
                        other => {
                            return other;
                        },
                    }
                },
                _ => {
                    return Flow::Normal(Value::Unit);
                },
            }
        }
    }

    /// Runs an unconditional loop: see [`sem_loop`].
    fn eval_loop(&mut self, instr: &Instr) -> (flow: Flow)
        ensures
            (final(self)@, flow@) == sem_loop(old(self)@, *instr, old(self).limit as nat, old(self).limit as nat),
            final(self).limit == old(self).limit,
        decreases instr, 0nat,
    {
        let mut rounds: usize = self.limit;
        loop
            invariant
                self.limit == old(self).limit,
                sem_loop(old(self)@, *instr, self.limit as nat, self.limit as nat) == sem_loop(
                    self@,
                    *instr,
                    self.limit as nat,
                    rounds as nat,
                ),
            decreases rounds,
        {
            match instr {
                Instr::Loop(body) => {
                    if rounds == 0 {
                        return fault(FaultKind::LimitExceeded);
                    }
                    match self.eval_scoped(body, None) {
                        Flow::Normal(_) => {
                            rounds -= 1;
                        },
                        Flow::Broke(v) => {
                            return Flow::Normal(v);
                        },
                        Flow::Faulted(f) => {
                            return Flow::Faulted(f);
                        },
                    }
                },
                _ => {
                    return Flow::Normal(Value::Unit);
                },
            }
        }
    }

    /// Runs the rounds of a for loop: see [`sem_for`].
    fn eval_for(&mut self, instr: &Instr, items: &Vec<Value>) -> (flow: Flow)
        ensures
            (final(self)@, flow@) == sem_for(old(self)@, *instr, views_of(items@), 0, old(self).limit as nat),
            final(self).limit == old(self).limit,
        decreases instr, 0nat,
    {
        let mut i: usize = 0;
        while i < items.len()
            invariant
                i <= items.len(),
                self.limit == old(self).limit,
                sem_for(old(self)@, *instr, views_of(items@), 0, self.limit as nat) == sem_for(
                    self@,
                    *instr,
                    views_of(items@),
                    i as nat,
                    self.limit as nat,
                ),
            decreases items.len() - i,
        {
            match instr {
                Instr::For(var, _, body) => {
                    match self.eval_scoped(body, Some((var.clone(), items[i].duplicate()))) {
                        Flow::Normal(_) => {
                            i += 1;
                        },
                        Flow::Broke(_) => {
                            return Flow::Normal(Value::Unit);
                        },
                        Flow::Faulted(f) => {
                            return Flow::Faulted(f);
                        },
                    }
                },
                _ => {
                    return Flow::Normal(Value::Unit);
                },
            }
        }
        Flow::Normal(Value::Unit)
    }

    /// Runs a match: see [`sem_match`].
    fn eval_match(&mut self, instr: &Instr) -> (flow: Flow)
        ensures
            (final(self)@, flow@) == sem_match(old(self)@, *instr, old(self).limit as nat),
            final(self).limit == old(self).limit,
        decreases instr, 0nat,
    {
        match instr {
            Instr::Match(on, arms) => {
                let slot = match self.table.lookup(on) {
                    None => {
                        return fault(FaultKind::UnknownName);
                    },
                    Some(found) => found.0,
                };
                let held = match self.store.read(slot, false) {
                    Err(k) => {
                        return fault(k);
                    },
                    Ok(v) => v,
                };
                match held {
                    Value::Enum { variants, tag, payload } => {
                        let k = first_arm(arms, tag);
                        if !exhaustive(arms, variants) || k >= arms.len() {
                            return fault(FaultKind::NonExhaustiveMatch);
                        }
                        match &arms[k].pattern {
                            Pattern::Variant { bind: Some(name), by_ref, .. } => match payload {
                                None => fault(FaultKind::TypeMismatch),
                                Some(p) => {
                                    if *by_ref {
                                        match access(&mut self.store, slot, AccessKind::BorrowShared, false) {
                                            Err(e) => fault(e),
                                            Ok(_) => {
                                                self.table.push_scope();
                                                self.table.declare(on.clone(), slot, Role::Shared);
                                                let flow = self.eval_scoped(
                                                    &arms[k].body,
                                                    Some((name.clone(), *p)),
                                                );
                                                self.leave();
                                                flow
                                            },
                                        }
                                    } else {
                                        match take(&mut self.store, slot) {
                                            Err(e) => fault(e),
                                            Ok(_) => self.eval_scoped(&arms[k].body, Some((name.clone(), *p))),
                                        }
                                    }
                                },
                            },
                            _ => self.eval_scoped(&arms[k].body, None),
                        }
                    },
                    _ => fault(FaultKind::TypeMismatch),
                }
            },
            _ => Flow::Normal(Value::Unit),
        }
    }

    /// Runs a program on the machine, as one block: see [`ran`]. Every
    /// scope that the program opens has ended when the run ends, however
    /// it ends.
    pub fn run(&mut self, program: &Vec<Instr>) -> (result: RunResult)
        ensures
            (final(self)@, result@) == ran(old(self)@, *program, old(self).limit as nat),
            final(self).limit == old(self).limit,
    {
        match self.eval_scoped(program, None) {
            Flow::Normal(v) => RunResult::Completed(v),
            Flow::Broke(v) => RunResult::Completed(v),
            Flow::Faulted(f) => RunResult::Faulted(f.kind, f.message),
        }
    }
}

/// Runs a program on a new machine, with the default limit on the rounds
/// of a loop: see [`ran`].
pub fn run(program: &Vec<Instr>) -> (result: RunResult)
    ensures
        result@ == ran(MachineView::empty(), *program, DEFAULT_LIMIT as nat).1,
{
    let mut machine = Machine::new(DEFAULT_LIMIT);
    machine.run(program)
}

} // verus!
