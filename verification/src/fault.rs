//! The two channels by which a failure leaves an evaluation: outcomes that a
//! caller is expected to inspect, and faults that end the run.

use vstd::prelude::*;
use crate::value::{Value, ValueView};

verus! {

/// Why a run was ended.
#[derive(Clone, Copy, Debug, PartialEq, Eq, Structural, Hash)]
pub enum FaultKind {
    /// A slot was accessed after its value had been moved out.
    UseAfterMove,
    /// A value was read in a way that its outstanding borrows forbid.
    UseWhileBorrowed,
    /// A value was written while a borrow of it was outstanding.
    WriteWhileBorrowed,
    /// A slot was dropped twice.
    DoubleDrop,
    /// No visible binding carries the name.
    UnknownName,
    /// A borrow was requested, or released, against the exclusivity rule.
    BorrowConflict,
    /// The arms of a match leave a variant uncovered.
    NonExhaustiveMatch,
    /// A value has the wrong shape for the operation.
    TypeMismatch,
    /// A payload was extracted, unchecked, from an error or an absent value.
    UncheckedExtraction,
    /// The program asked for the run to end.
    Abort,
    /// The slot was never allocated, or has been dropped.
    InvalidSlot,
    /// A position lies outside the sequence.
    OutOfBounds,
    /// A loop ran for more rounds than the machine allows.
    LimitExceeded,
}

impl FaultKind {
    /// The message that accompanies a fault of this kind when the program
    /// supplied none.
    pub open spec fn text(self) -> Seq<char> {
        match self {
            FaultKind::UseAfterMove => "use of a moved value"@,
            FaultKind::UseWhileBorrowed => "use of a borrowed value"@,
            FaultKind::WriteWhileBorrowed => "write to a borrowed value"@,
            FaultKind::DoubleDrop => "value dropped twice"@,
            FaultKind::UnknownName => "unknown name"@,
            FaultKind::BorrowConflict => "conflicting borrow"@,
            FaultKind::NonExhaustiveMatch => "non-exhaustive match"@,
            FaultKind::TypeMismatch => "mismatched types"@,
            FaultKind::UncheckedExtraction => "extraction from an error value"@,
            FaultKind::Abort => "aborted"@,
            FaultKind::InvalidSlot => "no such slot"@,
            FaultKind::OutOfBounds => "position out of bounds"@,
            FaultKind::LimitExceeded => "iteration limit exceeded"@,
        }
    }

    /// The default message of this kind, as an owned string.
    pub fn describe(self) -> (message: String)
        ensures
            message@ == self.text(),
    {
        match self {
            FaultKind::UseAfterMove => String::from_str("use of a moved value"),
            FaultKind::UseWhileBorrowed => String::from_str("use of a borrowed value"),
            FaultKind::WriteWhileBorrowed => String::from_str("write to a borrowed value"),
            FaultKind::DoubleDrop => String::from_str("value dropped twice"),
            FaultKind::UnknownName => String::from_str("unknown name"),
            FaultKind::BorrowConflict => String::from_str("conflicting borrow"),
            FaultKind::NonExhaustiveMatch => String::from_str("non-exhaustive match"),
            FaultKind::TypeMismatch => String::from_str("mismatched types"),
            FaultKind::UncheckedExtraction => String::from_str("extraction from an error value"),
            FaultKind::Abort => String::from_str("aborted"),
            FaultKind::InvalidSlot => String::from_str("no such slot"),
            FaultKind::OutOfBounds => String::from_str("position out of bounds"),
            FaultKind::LimitExceeded => String::from_str("iteration limit exceeded"),
        }
    }
}

/// A fault together with the message reported for it.
#[derive(Debug, PartialEq, Eq)]
pub struct Fault {
    pub kind: FaultKind,
    pub message: String,
}

/// The mathematical content of a [`Fault`].
pub struct FaultView {
    pub kind: FaultKind,
    pub message: Seq<char>,
}

impl View for Fault {
    type V = FaultView;

    open spec fn view(&self) -> FaultView {
        FaultView { kind: self.kind, message: self.message@ }
    }
}

impl FaultView {
    /// The fault of the given kind with its default message.
    pub open spec fn of(kind: FaultKind) -> FaultView {
        FaultView { kind, message: kind.text() }
    }
}

impl Fault {
    /// The fault of the given kind with its default message.
    pub fn of(kind: FaultKind) -> (fault: Fault)
        ensures
            fault@ == FaultView::of(kind),
    {
        Fault { kind, message: kind.describe() }
    }

    /// A fault with a message of the caller's choosing.
    pub fn with_message(kind: FaultKind, message: String) -> (fault: Fault)
        ensures
            fault@ == (FaultView { kind, message: message@ }),
    {
        Fault { kind, message }
    }
}

/// A recoverable outcome: the result of an operation that can fail by
/// design. The caller inspects the tag; nothing is unwrapped implicitly.
#[derive(Debug, PartialEq, Eq)]
pub enum Outcome {
    Success(Value),
    Error(Value),
}

/// The mathematical content of an [`Outcome`].
pub enum OutcomeView {
    Success(ValueView),
    Error(ValueView),
}

impl View for Outcome {
    type V = OutcomeView;

    open spec fn view(&self) -> OutcomeView {
        match self {
            Outcome::Success(v) => OutcomeView::Success(v@),
            Outcome::Error(v) => OutcomeView::Error(v@),
        }
    }
}

impl OutcomeView {
    /// The outcome as a value of the store: an enum of two variants, the
    /// first for success, each carrying its payload.
    pub open spec fn as_value(self) -> ValueView {
        match self {
            OutcomeView::Success(v) => ValueView::Enum { variants: 2, tag: 0, payload: Some(Box::new(v)) },
            OutcomeView::Error(v) => ValueView::Enum { variants: 2, tag: 1, payload: Some(Box::new(v)) },
        }
    }
}

/// What unchecked extraction yields for a value: the payload of the first
/// of two variants, `UncheckedExtraction` for the second variant (an error,
/// or an absent optional), `TypeMismatch` for anything that is not such a
/// two-variant value.
pub open spec fn extracted(v: ValueView) -> Result<ValueView, FaultKind> {
    match v {
        ValueView::Enum { variants, tag, payload } => {
            if variants != 2 {
                Err(FaultKind::TypeMismatch)
            } else if tag == 0 {
                match payload {
                    Some(p) => Ok(*p),
                    None => Err(FaultKind::TypeMismatch),
                }
            } else {
                Err(FaultKind::UncheckedExtraction)
            }
        },
        _ => Err(FaultKind::TypeMismatch),
    }
}

/// Relates an executable result that carries a value to its view.
pub open spec fn value_result(r: Result<Value, FaultKind>) -> Result<ValueView, FaultKind> {
    match r {
        Ok(v) => Ok(v@),
        Err(k) => Err(k),
    }
}

/// Unchecked extraction from a value: see [`extracted`].
pub fn extract(v: Value) -> (r: Result<Value, FaultKind>)
    ensures
        value_result(r) == extracted(v@),
{
    match v {
        Value::Enum { variants, tag, payload } => {
            if variants != 2 {
                Err(FaultKind::TypeMismatch)
            } else if tag == 0 {
                match payload {
                    Some(p) => Ok(*p),
                    None => Err(FaultKind::TypeMismatch),
                }
            } else {
                Err(FaultKind::UncheckedExtraction)
            }
        },
        _ => Err(FaultKind::TypeMismatch),
    }
}

impl Outcome {
    /// Whether the outcome is a success.
    pub fn is_success(&self) -> (b: bool)
        ensures
            b == (self@ is Success),
    {
        match self {
            Outcome::Success(_) => true,
            Outcome::Error(_) => false,
        }
    }

    /// The payload of a success. Extraction from an error is the fault
    /// `UncheckedExtraction`, with that kind's default message.
    pub fn unwrap(self) -> (r: Result<Value, Fault>)
        ensures
            self@ matches OutcomeView::Success(v) ==> r is Ok && r->Ok_0@ == v,
            self@ is Error ==> r is Err && r->Err_0@ == FaultView::of(FaultKind::UncheckedExtraction),
    {
        match self {
            Outcome::Success(v) => Ok(v),
            Outcome::Error(_) => Err(Fault::of(FaultKind::UncheckedExtraction)),
        }
    }

    /// The outcome as a value that can be stored and matched on.
    pub fn into_value(self) -> (v: Value)
        ensures
            v@ == self@.as_value(),
    {
        match self {
            Outcome::Success(p) => Value::Enum { variants: 2, tag: 0, payload: Some(Box::new(p)) },
            Outcome::Error(p) => Value::Enum { variants: 2, tag: 1, payload: Some(Box::new(p)) },
        }
    }

    /// Reads a stored value back as an outcome. `None` unless the value is a
    /// two-variant enum with a payload.
    pub fn from_value(v: Value) -> (r: Option<Outcome>)
        ensures
            match r {
                Some(o) => o@.as_value() == v@,
                None => forall|o: OutcomeView| o.as_value() != v@,
            },
    {
        match v {
            Value::Enum { variants, tag, payload } => {
                match payload {
                    Some(p) => {
                        if variants == 2 && tag == 0 {
                            Some(Outcome::Success(*p))
                        } else if variants == 2 && tag == 1 {
                            Some(Outcome::Error(*p))
                        } else {
                            None
                        }
                    },
                    None => None,
                }
            },
            _ => None,
        }
    }
}

/// How a run ended.
#[derive(Debug, PartialEq, Eq)]
pub enum RunResult {
    Completed(Value),
    Faulted(FaultKind, String),
}

/// The mathematical content of a [`RunResult`].
pub enum RunResultView {
    Completed(ValueView),
    Faulted(FaultKind, Seq<char>),
}

impl View for RunResult {
    type V = RunResultView;

    open spec fn view(&self) -> RunResultView {
        match self {
            RunResult::Completed(v) => RunResultView::Completed(v@),
            RunResult::Faulted(k, m) => RunResultView::Faulted(*k, m@),
        }
    }
}

} // verus!
