//! What holds of every run: laws of the evaluator, proved from its meaning.

use vstd::prelude::*;
use crate::bindings::{BindingView, Role, find, lemma_teardown_stays_sound, released, teardown};
use crate::eval::{
    Arm, FlowView, Instr, MachineView, Pattern, covers, fail, first_admitting, lemma_too_few_arms, ran, sem, sem_for,
    sem_loop, sem_match, sem_scoped, sem_seq, sem_use, sem_while,
};
use crate::fault::FaultKind;
use crate::store::{SlotView, read_outcome, sound};
use crate::tracker::{AccessKind, access_outcome, take_outcome};
use crate::value::ValueView;

verus! {

/// The end of a binding neither adds a slot nor removes one.
pub proof fn lemma_released_keeps_slots(slots: Seq<SlotView>, b: BindingView, outer: Seq<Seq<BindingView>>)
    ensures
        released(slots, b, outer).0.len() == slots.len(),
{
}

/// The end of a scope neither adds a slot nor removes one.
pub proof fn lemma_teardown_keeps_slots(slots: Seq<SlotView>, scope: Seq<BindingView>, outer: Seq<Seq<BindingView>>)
    ensures
        teardown(slots, scope, outer).0.len() == slots.len(),
    decreases scope.len(),
{
    if scope.len() > 0 {
        lemma_released_keeps_slots(slots, scope.last(), outer);
        lemma_teardown_keeps_slots(released(slots, scope.last(), outer).0, scope.drop_last(), outer);
    }
}

/// A scope that is opened and ended at once leaves the machine as it was.
pub proof fn lemma_enter_leave(m: MachineView)
    ensures
        m.enter().leave() == m,
{
    assert(m.enter().scopes.drop_last() =~= m.scopes);
}

/// A loop whose first round ends in a break yields the value of the break.
pub proof fn lemma_loop_yields_break_value(m: MachineView, body: Vec<Instr>, limit: nat)
    requires
        limit >= 1,
        sem_scoped(m, body, None, limit).1 is Broke,
    ensures
        sem(m, Instr::Loop(body), limit) == (
            sem_scoped(m, body, None, limit).0,
            FlowView::Normal(sem_scoped(m, body, None, limit).1->Broke_0),
        ),
{
    assert(sem(m, Instr::Loop(body), limit) == sem_loop(m, Instr::Loop(body), limit, limit));
}

/// A loop that does nothing but break with a value yields that value and
/// leaves the machine as it was; one that breaks with nothing yields the
/// unit value.
pub proof fn lemma_loop_break(m: MachineView, body: Vec<Instr>, limit: nat)
    requires
        limit >= 1,
        body.len() == 1,
        body[0] is Break,
        body[0]->Break_0 matches Some(e) ==> *e is Literal,
    ensures
        sem(m, Instr::Loop(body), limit) == (
            m,
            FlowView::Normal(
                match body[0]->Break_0 {
                    Some(e) => e->Literal_0@,
                    None => ValueView::Unit,
                },
            ),
        ),
{
    let inside = m.enter();
    let value = match body[0]->Break_0 {
        Some(e) => e->Literal_0@,
        None => ValueView::Unit,
    };
    assert(sem(inside, body[0], limit) == (inside, FlowView::Broke(value))) by {
        match body[0]->Break_0 {
            Some(e) => {
                assert(sem(inside, *e, limit) == (inside, FlowView::Normal(value)));
            },
            None => {},
        }
    }
    assert(sem_seq(inside, body, 0, ValueView::Unit, limit) == (inside, FlowView::Broke(value)));
    lemma_enter_leave(m);
    assert(sem_scoped(m, body, None, limit) == (m, FlowView::Broke(value)));
    lemma_loop_yields_break_value(m, body, limit);
}

/// A match on an enum value with fewer arms than the value has variants,
/// and no wildcard among them, is a `NonExhaustiveMatch`, whichever variant
/// the value holds.
pub proof fn lemma_short_match_faults(m: MachineView, on: String, arms: Vec<Arm>, limit: nat)
    requires
        find(m.scopes, on@) is Some,
        read_outcome(m.slots, find(m.scopes, on@)->Some_0.slot as int, false) matches Ok(v) && v is Enum
            && arms.len() < v->variants,
        forall|k: int| 0 <= k < arms.len() ==> (#[trigger] arms[k]).pattern is Variant,
    ensures
        sem(m, Instr::Match(on, arms), limit) == fail(m, FaultKind::NonExhaustiveMatch),
{
    let v = read_outcome(m.slots, find(m.scopes, on@)->Some_0.slot as int, false)->Ok_0;
    lemma_too_few_arms(arms@, v->variants);
    let instr = Instr::Match(on, arms);
    assert(sem(m, instr, limit) == sem_match(m, instr, limit));
}

/// One sequence of lines continues another.
pub open spec fn continues(before: Seq<Seq<char>>, after: Seq<Seq<char>>) -> bool {
    before.len() <= after.len() && forall|i: int| 0 <= i < before.len() ==> before[i] == after[i]
}

/// What every instruction leaves standing: the scopes that were open are
/// open, the output has only been appended to, no slot has gone, and a
/// store that was sound is sound.
pub open spec fn framed(before: MachineView, after: MachineView) -> bool {
    &&& before.scopes.len() > 0 ==> after.scopes.len() == before.scopes.len()
    &&& continues(before.output, after.output)
    &&& before.slots.len() <= after.slots.len()
    &&& sound(before.slots) ==> sound(after.slots)
}

/// What every block leaves standing: as [`framed`], and the number of open
/// scopes is the same also where none was open.
pub open spec fn balanced(before: MachineView, after: MachineView) -> bool {
    &&& after.scopes.len() == before.scopes.len()
    &&& continues(before.output, after.output)
    &&& before.slots.len() <= after.slots.len()
    &&& sound(before.slots) ==> sound(after.slots)
}

/// The end of a scope closes that scope and leaves the rest standing.
pub proof fn lemma_leave_framed(m: MachineView)
    ensures
        m.scopes.len() > 0 ==> m.leave().scopes.len() == m.scopes.len() - 1,
        m.leave().output == m.output,
        m.leave().slots.len() == m.slots.len(),
        sound(m.slots) ==> sound(m.leave().slots),
{
    if m.scopes.len() > 0 {
        lemma_teardown_keeps_slots(m.slots, m.scopes.last(), m.scopes.drop_last());
        if sound(m.slots) {
            lemma_teardown_stays_sound(m.slots, m.scopes.last(), m.scopes.drop_last());
        }
    }
}

/// A binding whose value was moved out by a use cannot be used again: the
/// second use is `UseAfterMove`.
pub proof fn lemma_use_after_move_faults(m: MachineView, name: Seq<char>)
    requires
        sem_use(m, name).1 matches FlowView::Normal(v) && !v.copyable(),
    ensures
        sem_use(sem_use(m, name).0, name) == fail(sem_use(m, name).0, FaultKind::UseAfterMove),
{
}

/// Every instruction, however it ends, leaves the machine [`framed`]: each
/// scope that it opened has ended.
pub proof fn lemma_sem_framed(m: MachineView, instr: Instr, limit: nat)
    ensures
        framed(m, sem(m, instr, limit).0),
    decreases instr, 1nat, 0nat,
{
    match instr {
        Instr::Literal(_) => {},
        Instr::Use(_) => {},
        Instr::Peek(_) => {},
        Instr::Let(_, init) => {
            lemma_sem_framed(m, *init, limit);
        },
        Instr::Borrow { .. } => {},
        Instr::Assign(_, value) => {
            lemma_sem_framed(m, *value, limit);
        },
        Instr::Print(value) => {
            lemma_sem_framed(m, *value, limit);
        },
        Instr::Block(body) => {
            lemma_scoped_balanced(m, body, None, limit);
        },
        Instr::If(cond, then_body, else_body) => {
            lemma_sem_framed(m, *cond, limit);
            let m1 = sem(m, *cond, limit).0;
            lemma_scoped_balanced(m1, then_body, None, limit);
            lemma_scoped_balanced(m1, else_body, None, limit);
        },
        Instr::While(_, _) => {
            lemma_while_framed(m, instr, limit, limit);
        },
        Instr::Loop(_) => {
            lemma_loop_framed(m, instr, limit, limit);
        },
        Instr::Break(value) => match value {
            None => {},
            Some(e) => {
                lemma_sem_framed(m, *e, limit);
            },
        },
        Instr::For(_, over, _) => {
            match find(m.scopes, over@) {
                None => {},
                Some(b) => {
                    if b.slot < m.slots.len() {
                        match m.slots[b.slot as int].value {
                            ValueView::Array(items) => {
                                let m1 = sem_for_entry(m, instr);
                                lemma_for_framed(m1, instr, items, 0, limit);
                                lemma_leave_framed(sem_for(m1, instr, items, 0, limit).0);
                            },
                            _ => {},
                        }
                    }
                },
            }
        },
        Instr::Match(_, _) => {
            lemma_match_framed(m, instr, limit);
        },
        Instr::Extract(value) => {
            lemma_sem_framed(m, *value, limit);
        },
        Instr::Abort(_) => {},
    }
}

/// The machine on which the rounds of a for loop start: in a scope of the
/// loop's own, which holds the borrow of the array where the array is not
/// copyable.
pub open spec fn sem_for_entry(m: MachineView, instr: Instr) -> MachineView {
    match instr {
        Instr::For(_, over, _) => match find(m.scopes, over@) {
            Some(b) => {
                let held = m.slots[b.slot as int].value;
                if held.copyable() {
                    m.enter()
                } else {
                    m.with_slots(
                        access_outcome(m.slots, b.slot as int, AccessKind::BorrowShared, false)->Ok_0.0,
                    ).enter().declare(over@, b.slot, Role::Shared)
                }
            },
            None => m,
        },
        _ => m,
    }
}

/// The instructions of a block leave the machine [`framed`].
pub proof fn lemma_seq_framed(m: MachineView, body: Vec<Instr>, from: nat, last: ValueView, limit: nat)
    ensures
        framed(m, sem_seq(m, body, from, last, limit).0),
    decreases body, 0nat, body.len() - from,
{
    if from < body.len() {
        lemma_sem_framed(m, body[from as int], limit);
        let (m1, f1) = sem(m, body[from as int], limit);
        match f1 {
            FlowView::Normal(v) => {
                lemma_seq_framed(m1, body, from + 1, v, limit);
            },
            _ => {},
        }
    }
}

/// A block, however it ends, leaves the machine [`balanced`]: its scope
/// has ended.
pub proof fn lemma_scoped_balanced(
    m: MachineView,
    body: Vec<Instr>,
    pre: Option<(Seq<char>, ValueView)>,
    limit: nat,
)
    ensures
        balanced(m, sem_scoped(m, body, pre, limit).0),
    decreases body, 1nat, 0nat,
{
    let m0 = m.enter().bind_opt(pre);
    lemma_seq_framed(m0, body, 0, ValueView::Unit, limit);
    lemma_leave_framed(sem_seq(m0, body, 0, ValueView::Unit, limit).0);
}

/// A while loop leaves the machine [`framed`].
pub proof fn lemma_while_framed(m: MachineView, instr: Instr, limit: nat, rounds: nat)
    ensures
        framed(m, sem_while(m, instr, limit, rounds).0),
    decreases instr, 0nat, rounds,
{
    match instr {
        Instr::While(cond, body) => {
            lemma_sem_framed(m, *cond, limit);
            let (m1, f1) = sem(m, *cond, limit);
            lemma_scoped_balanced(m1, body, None, limit);
            if rounds > 0 {
                lemma_while_framed(sem_scoped(m1, body, None, limit).0, instr, limit, (rounds - 1) as nat);
            }
        },
        _ => {},
    }
}

/// An unconditional loop leaves the machine [`framed`].
pub proof fn lemma_loop_framed(m: MachineView, instr: Instr, limit: nat, rounds: nat)
    ensures
        framed(m, sem_loop(m, instr, limit, rounds).0),
    decreases instr, 0nat, rounds,
{
    match instr {
        Instr::Loop(body) => {
            if rounds > 0 {
                lemma_scoped_balanced(m, body, None, limit);
                lemma_loop_framed(sem_scoped(m, body, None, limit).0, instr, limit, (rounds - 1) as nat);
            }
        },
        _ => {},
    }
}

/// The rounds of a for loop leave the machine [`framed`].
pub proof fn lemma_for_framed(m: MachineView, instr: Instr, items: Seq<ValueView>, from: nat, limit: nat)
    ensures
        framed(m, sem_for(m, instr, items, from, limit).0),
    decreases instr, 0nat, items.len() - from,
{
    match instr {
        Instr::For(var, _, body) => {
            if from < items.len() {
                let pre = Some((var@, items[from as int]));
                lemma_scoped_balanced(m, body, pre, limit);
                lemma_for_framed(sem_scoped(m, body, pre, limit).0, instr, items, from + 1, limit);
            }
        },
        _ => {},
    }
}

/// A match leaves the machine [`framed`].
pub proof fn lemma_match_framed(m: MachineView, instr: Instr, limit: nat)
    ensures
        framed(m, sem_match(m, instr, limit).0),
    decreases instr, 0nat, 0nat,
{
    match instr {
        Instr::Match(on, arms) => {
            match find(m.scopes, on@) {
                None => {},
                Some(b) => match read_outcome(m.slots, b.slot as int, false) {
                    Ok(ValueView::Enum { variants, tag, payload }) => {
                        let k = first_admitting(arms@, tag, 0);
                        if covers(arms@, variants) && 0 <= k < arms.len() {
                            let body = arms[k].body;
                            match arms[k].pattern {
                                Pattern::Variant { bind: Some(name), by_ref, .. } => match payload {
                                    None => {},
                                    Some(p) => {
                                        let pre = Some((name@, *p));
                                        if by_ref {
                                            match access_outcome(
                                                m.slots,
                                                b.slot as int,
                                                AccessKind::BorrowShared,
                                                false,
                                            ) {
                                                Err(_) => {},
                                                Ok((s, _)) => {
                                                    let m1 = m.with_slots(s).enter().declare(
                                                        on@,
                                                        b.slot,
                                                        Role::Shared,
                                                    );
                                                    lemma_scoped_balanced(m1, body, pre, limit);
                                                    lemma_leave_framed(sem_scoped(m1, body, pre, limit).0);
                                                },
                                            }
                                        } else {
                                            match take_outcome(m.slots, b.slot as int) {
                                                Err(_) => {},
                                                Ok((s, _)) => {
                                                    lemma_scoped_balanced(m.with_slots(s), body, pre, limit);
                                                },
                                            }
                                        }
                                    },
                                },
                                _ => {
                                    lemma_scoped_balanced(m, body, None, limit);
                                },
                            }
                        }
                    },
                    _ => {},
                },
            }
        },
        _ => {},
    }
}

/// A run, however it ends, leaves the machine [`balanced`]: every scope
/// that the program opened has ended, the output has only been appended
/// to, and no slot has gone.
pub proof fn lemma_run_balanced(m: MachineView, program: Vec<Instr>, limit: nat)
    ensures
        balanced(m, ran(m, program, limit).0),
{
    lemma_scoped_balanced(m, program, None, limit);
}

} // verus!
