use crate::error::Number;
use vstd::prelude::*;

verus! {

/// An instance of a type from a registry, held as a tree.
#[derive(PartialEq, Eq, Debug)]
pub enum Value {
    /// A boolean.
    Bool(bool),
    /// An integer: unsigned for the unsigned types, signed for the signed.
    Int(Number),
    /// An address: four bytes.
    Address([u8; 4]),
    /// An optional value: absent, or present with the value.
    Optional(Option<Box<Value>>),
    /// An instance of a record: the values of its fields, in the order of
    /// declaration.
    Record(Vec<Value>),
    /// An instance of a union: the position of its variant among the
    /// variants declared, and the values of that variant's fields.
    Variant(usize, Vec<Value>),
}

/// The mathematical content of a [`Value`]: the same tree, over sequences.
pub ghost enum ValueView {
    Bool(bool),
    Int(Number),
    Address([u8; 4]),
    Optional(Option<Box<ValueView>>),
    Record(Seq<ValueView>),
    Variant(nat, Seq<ValueView>),
}

impl Value {
    /// The mathematical content of this value.
    pub open spec fn content(self) -> ValueView
        decreases self,
    {
        match self {
            Value::Bool(b) => ValueView::Bool(b),
            Value::Int(n) => ValueView::Int(n),
            Value::Address(a) => ValueView::Address(a),
            Value::Optional(None) => ValueView::Optional(None),
            Value::Optional(Some(v)) => ValueView::Optional(Some(Box::new(v.content()))),
            Value::Record(fields) => ValueView::Record(
                Seq::new(
                    fields@.len(),
                    |i: int|
                        if 0 <= i < fields@.len() {
                            fields@[i].content()
                        } else {
                            ValueView::Bool(false)
                        },
                ),
            ),
            Value::Variant(k, fields) => ValueView::Variant(
                k as nat,
                Seq::new(
                    fields@.len(),
                    |i: int|
                        if 0 <= i < fields@.len() {
                            fields@[i].content()
                        } else {
                            ValueView::Bool(false)
                        },
                ),
            ),
        }
    }
}

impl Value {
    /// A copy of this value.
    pub fn copy(&self) -> (r: Value)
        ensures
            r@ == self@,
        decreases self, 0nat,
    {
        match self {
            Value::Bool(b) => Value::Bool(*b),
            Value::Int(n) => Value::Int(*n),
            Value::Address(a) => Value::Address(*a),
            Value::Optional(None) => Value::Optional(None),
            Value::Optional(Some(v)) => Value::Optional(Some(Box::new(v.copy()))),
            Value::Record(fields) => {
                let r = Value::Record(Self::copy_all(fields));
                assert(r@->Record_0 =~= self@->Record_0);
                r
            },
            Value::Variant(k, fields) => {
                let r = Value::Variant(*k, Self::copy_all(fields));
                assert(r@->Variant_1 =~= self@->Variant_1);
                r
            },
        }
    }

    /// Copies of the values of a list, in order.
    fn copy_all(values: &Vec<Value>) -> (out: Vec<Value>)
        ensures
            out@.len() == values@.len(),
            forall|k: int| 0 <= k < values@.len() ==> out@[k]@ == values@[k]@,
        decreases values, 1nat,
    {
        let mut out: Vec<Value> = Vec::new();
        let mut i: usize = 0;
        while i < values.len()
            invariant
                i <= values@.len(),
                out@.len() == i,
                forall|k: int| 0 <= k < i ==> out@[k]@ == values@[k]@,
            decreases values@.len() - i,
        {
            out.push(values[i].copy());
            i = i + 1;
        }
        out
    }
}

impl View for Value {
    type V = ValueView;

    open spec fn view(&self) -> ValueView {
        self.content()
    }
}

} // verus!
