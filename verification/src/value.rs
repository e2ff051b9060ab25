//! Values and their copy classification.

use vstd::prelude::*;
use crate::fault::{FaultKind, value_result};

verus! {

/// The width of an integer value.
#[derive(Clone, Copy, Debug, PartialEq, Eq, Structural, Hash)]
pub enum Width {
    W8,
    W16,
    W32,
    W64,
    W128,
    /// The width of a pointer on the machine at hand.
    Size,
}

/// The width of a floating-point value.
#[derive(Clone, Copy, Debug, PartialEq, Eq, Structural, Hash)]
pub enum Precision {
    Single,
    Double,
}

/// A named field of a struct value.
#[derive(Debug, PartialEq, Eq)]
pub struct Field {
    pub name: String,
    pub value: Value,
}

/// A value. Values are immutable: to change what a slot holds is to replace
/// its value.
#[derive(Debug, PartialEq, Eq)]
pub enum Value {
    Integer { width: Width, signed: bool, value: i128 },
    /// A floating-point number, held as its bit pattern.
    Float { precision: Precision, bits: u64 },
    Boolean(bool),
    Character(char),
    Text(String),
    Tuple(Vec<Value>),
    Array(Vec<Value>),
    Unit,
    Struct(Vec<Field>),
    /// One variant, `tag`, out of `variants` many, with its payload if it
    /// has one.
    Enum { variants: u32, tag: u32, payload: Option<Box<Value>> },
}

/// The mathematical content of a [`Value`].
pub enum ValueView {
    Integer { width: Width, signed: bool, value: int },
    Float { precision: Precision, bits: u64 },
    Boolean(bool),
    Character(char),
    Text(Seq<char>),
    Tuple(Seq<ValueView>),
    Array(Seq<ValueView>),
    Unit,
    Struct(Seq<(Seq<char>, ValueView)>),
    Enum { variants: nat, tag: nat, payload: Option<Box<ValueView>> },
}

impl ValueView {
    /// The copy classification. Scalars and the unit value are copyable,
    /// text is not, and a compound value is copyable exactly when all its
    /// parts are.
    pub open spec fn copyable(self) -> bool
        decreases self,
    {
        match self {
            ValueView::Text(_) => false,
            ValueView::Tuple(items) => forall|i: int| 0 <= i < items.len() ==> (#[trigger] items[i]).copyable(),
            ValueView::Array(items) => forall|i: int| 0 <= i < items.len() ==> (#[trigger] items[i]).copyable(),
            ValueView::Struct(fields) => forall|i: int| 0 <= i < fields.len() ==> (#[trigger] fields[i]).1.copyable(),
            ValueView::Enum { payload, .. } => match payload {
                Some(p) => p.copyable(),
                None => true,
            },
            _ => true,
        }
    }

    /// The element at a position of a tuple or an array.
    pub open spec fn element(self, index: int) -> Result<ValueView, FaultKind> {
        match self {
            ValueView::Tuple(items) => if 0 <= index < items.len() {
                Ok(items[index])
            } else {
                Err(FaultKind::OutOfBounds)
            },
            ValueView::Array(items) => if 0 <= index < items.len() {
                Ok(items[index])
            } else {
                Err(FaultKind::OutOfBounds)
            },
            _ => Err(FaultKind::TypeMismatch),
        }
    }

    /// The elements of an array from position `from` up to, not including,
    /// position `to`.
    pub open spec fn slice(self, from: int, to: int) -> Result<ValueView, FaultKind> {
        match self {
            ValueView::Array(items) => if 0 <= from <= to <= items.len() {
                Ok(ValueView::Array(items.subrange(from, to)))
            } else {
                Err(FaultKind::OutOfBounds)
            },
            _ => Err(FaultKind::TypeMismatch),
        }
    }
}

/// The views of the values of a vector, in order.
pub open spec fn views_of(items: Seq<Value>) -> Seq<ValueView> {
    Seq::new(items.len(), |i: int| items[i]@)
}

impl Value {
    /// The mathematical content of the value: the same tree, with sequences
    /// in place of vectors and strings.
    pub open spec fn model(&self) -> ValueView
        decreases self,
    {
        match self {
            Value::Integer { width, signed, value } => ValueView::Integer {
                width: *width,
                signed: *signed,
                value: *value as int,
            },
            Value::Float { precision, bits } => ValueView::Float { precision: *precision, bits: *bits },
            Value::Boolean(b) => ValueView::Boolean(*b),
            Value::Character(c) => ValueView::Character(*c),
            Value::Text(s) => ValueView::Text(s@),
            Value::Tuple(items) => ValueView::Tuple(
                Seq::new(
                    items.len() as nat,
                    |i: int|
                        if 0 <= i < items.len() {
                            items[i].model()
                        } else {
                            ValueView::Unit
                        },
                ),
            ),
            Value::Array(items) => ValueView::Array(
                Seq::new(
                    items.len() as nat,
                    |i: int|
                        if 0 <= i < items.len() {
                            items[i].model()
                        } else {
                            ValueView::Unit
                        },
                ),
            ),
            Value::Unit => ValueView::Unit,
            Value::Struct(fields) => ValueView::Struct(
                Seq::new(
                    fields.len() as nat,
                    |i: int|
                        if 0 <= i < fields.len() {
                            (fields[i].name@, fields[i].value.model())
                        } else {
                            (Seq::empty(), ValueView::Unit)
                        },
                ),
            ),
            Value::Enum { variants, tag, payload } => ValueView::Enum {
                variants: *variants as nat,
                tag: *tag as nat,
                payload: match payload {
                    Some(p) => Some(Box::new(p.model())),
                    None => None,
                },
            },
        }
    }
}

impl View for Value {
    type V = ValueView;

    open spec fn view(&self) -> ValueView {
        self.model()
    }
}

/// The view of a tuple or array value lists the views of its items.
pub proof fn lemma_items_view(items: Vec<Value>)
    ensures
        Value::Tuple(items)@ == ValueView::Tuple(views_of(items@)),
        Value::Array(items)@ == ValueView::Array(views_of(items@)),
{
    assert(Value::Tuple(items)@->Tuple_0 =~= views_of(items@));
    assert(Value::Array(items)@->Array_0 =~= views_of(items@));
}

/// A tuple or an array is copyable exactly when all its items are.
pub proof fn lemma_all_copyable(items: Seq<ValueView>)
    ensures
        ValueView::Tuple(items).copyable() == (forall|i: int|
            0 <= i < items.len() ==> (#[trigger] items[i]).copyable()),
        ValueView::Array(items).copyable() == (forall|i: int|
            0 <= i < items.len() ==> (#[trigger] items[i]).copyable()),
{
    if forall|i: int| 0 <= i < items.len() ==> (#[trigger] items[i]).copyable() {
        assert(ValueView::Tuple(items).copyable());
        assert(ValueView::Array(items).copyable());
    } else {
        let k = choose|k: int| 0 <= k < items.len() && !(#[trigger] items[k]).copyable();
        assert(!(ValueView::Tuple(items)->Tuple_0[k]).copyable());
        assert(!(ValueView::Array(items)->Array_0[k]).copyable());
    }
}

/// Copies every value of a vector.
fn duplicate_all(items: &Vec<Value>) -> (out: Vec<Value>)
    ensures
        views_of(out@) == views_of(items@),
    decreases items, 0nat,
{
    let mut out: Vec<Value> = Vec::new();
    let mut i: usize = 0;
    while i < items.len()
        invariant
            i <= items.len(),
            out.len() == i,
            forall|j: int| 0 <= j < i ==> (#[trigger] out[j])@ == items[j]@,
        decreases items.len() - i,
    {
        out.push(items[i].duplicate());
        i += 1;
    }
    assert(views_of(out@) =~= views_of(items@));
    out
}

/// Whether every value of a vector is copyable.
fn all_copy(items: &Vec<Value>) -> (r: bool)
    ensures
        r == (forall|i: int| 0 <= i < items.len() ==> (#[trigger] views_of(items@)[i]).copyable()),
    decreases items, 0nat,
{
    let mut i: usize = 0;
    while i < items.len()
        invariant
            i <= items.len(),
            forall|j: int| 0 <= j < i ==> (#[trigger] views_of(items@)[j]).copyable(),
        decreases items.len() - i,
    {
        if !items[i].is_copy() {
            assert(!views_of(items@)[i as int].copyable());
            return false;
        }
        i += 1;
    }
    true
}

impl Value {
    /// A text value.
    pub fn text(s: &str) -> (v: Value)
        ensures
            v@ == ValueView::Text(s@),
    {
        Value::Text(String::from_str(s))
    }

    /// A signed 32-bit integer value.
    pub fn number(value: i32) -> (v: Value)
        ensures
            v@ == (ValueView::Integer { width: Width::W32, signed: true, value: value as int }),
    {
        Value::Integer { width: Width::W32, signed: true, value: value as i128 }
    }

    /// The copy classification of the value: see [`ValueView::copyable`].
    pub fn is_copy(&self) -> (r: bool)
        ensures
            r == self@.copyable(),
        decreases self, 1nat,
    {
        match self {
            Value::Text(_) => false,
            Value::Tuple(items) => {
                proof {
                    lemma_items_view(*items);
                }
                let r = all_copy(items);
                proof {
                    lemma_all_copyable(self@->Tuple_0);
                }
                r
            },
            Value::Array(items) => {
                proof {
                    lemma_items_view(*items);
                }
                let r = all_copy(items);
                proof {
                    lemma_all_copyable(self@->Array_0);
                }
                r
            },
            Value::Struct(fields) => {
                let mut i: usize = 0;
                while i < fields.len()
                    invariant
                        i <= fields.len(),
                        self@ is Struct,
                        self@->Struct_0.len() == fields.len(),
                        forall|j: int| 0 <= j < fields.len() ==> (#[trigger] self@->Struct_0[j]).1 == fields[j].value@,
                        forall|j: int| 0 <= j < i ==> (#[trigger] self@->Struct_0[j]).1.copyable(),
                        forall|j: int| 0 <= j < fields.len() ==> decreases_to!(self => #[trigger] fields[j]),
                    decreases fields.len() - i,
                {
                    if !fields[i].value.is_copy() {
                        assert(!self@->Struct_0[i as int].1.copyable());
                        return false;
                    }
                    i += 1;
                }
                true
            },
            Value::Enum { payload, .. } => match payload {
                Some(p) => p.is_copy(),
                None => true,
            },
            _ => true,
        }
    }

    /// A copy of the value: another value with the same content.
    pub fn duplicate(&self) -> (r: Value)
        ensures
            r@ == self@,
        decreases self, 1nat,
    {
        match self {
            Value::Integer { width, signed, value } => Value::Integer { width: *width, signed: *signed, value: *value },
            Value::Float { precision, bits } => Value::Float { precision: *precision, bits: *bits },
            Value::Boolean(b) => Value::Boolean(*b),
            Value::Character(c) => Value::Character(*c),
            Value::Text(s) => Value::Text(s.clone()),
            Value::Tuple(items) => {
                let out = duplicate_all(items);
                proof {
                    lemma_items_view(*items);
                    lemma_items_view(out);
                }
                Value::Tuple(out)
            },
            Value::Array(items) => {
                let out = duplicate_all(items);
                proof {
                    lemma_items_view(*items);
                    lemma_items_view(out);
                }
                Value::Array(out)
            },
            Value::Unit => Value::Unit,
            Value::Struct(fields) => {
                let mut out: Vec<Field> = Vec::new();
                let mut i: usize = 0;
                while i < fields.len()
                    invariant
                        i <= fields.len(),
                        out.len() == i,
                        forall|j: int|
                            0 <= j < i ==> (#[trigger] out[j]).value@ == fields[j].value@ && out[j].name@
                                == fields[j].name@,
                        forall|j: int| 0 <= j < fields.len() ==> decreases_to!(self => #[trigger] fields[j]),
                    decreases fields.len() - i,
                {
                    out.push(Field { name: fields[i].name.clone(), value: fields[i].value.duplicate() });
                    i += 1;
                }
                let r = Value::Struct(out);
                assert(r@->Struct_0 =~= self@->Struct_0);
                r
            },
            Value::Enum { variants, tag, payload } => Value::Enum {
                variants: *variants,
                tag: *tag,
                payload: match payload {
                    Some(p) => Some(Box::new(p.duplicate())),
                    None => None,
                },
            },
        }
    }

    /// A copy of the element at a position of a tuple or an array:
    /// `OutOfBounds` past the end, `TypeMismatch` for any other value.
    pub fn element(&self, index: usize) -> (r: Result<Value, FaultKind>)
        ensures
            value_result(r) == self@.element(index as int),
    {
        match self {
            Value::Tuple(items) => {
                if index < items.len() {
                    Ok(items[index].duplicate())
                } else {
                    Err(FaultKind::OutOfBounds)
                }
            },
            Value::Array(items) => {
                if index < items.len() {
                    Ok(items[index].duplicate())
                } else {
                    Err(FaultKind::OutOfBounds)
                }
            },
            _ => Err(FaultKind::TypeMismatch),
        }
    }

    /// A copy of part of an array, as an array: the elements from position
    /// `from` up to, not including, position `to`. `OutOfBounds` unless
    /// `from <= to` and `to` is at most the length, `TypeMismatch` for a
    /// value that is not an array.
    pub fn slice(&self, from: usize, to: usize) -> (r: Result<Value, FaultKind>)
        ensures
            value_result(r) == self@.slice(from as int, to as int),
    {
        match self {
            Value::Array(items) => {
                if from <= to && to <= items.len() {
                    let mut out: Vec<Value> = Vec::new();
                    let mut i: usize = from;
                    while i < to
                        invariant
                            from <= i <= to <= items.len(),
                            out.len() == i - from,
                            forall|j: int| 0 <= j < out.len() ==> (#[trigger] out[j])@ == items[from + j]@,
                        decreases to - i,
                    {
                        out.push(items[i].duplicate());
                        i += 1;
                    }
                    let r = Value::Array(out);
                    assert(r@->Array_0 =~= self@->Array_0.subrange(from as int, to as int));
                    Ok(r)
                } else {
                    Err(FaultKind::OutOfBounds)
                }
            },
            _ => Err(FaultKind::TypeMismatch),
        }
    }
}

} // verus!
