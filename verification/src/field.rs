//! The closed set of scalar value kinds a prefab field can carry.

use vstd::prelude::*;

use crate::num::Number;

verus! {

/// One leaf value in a prefab's property bag.
#[derive(Debug)]
pub enum PrefabField {
    StringValue(String),
    NumberValue(Number),
    BoolValue(bool),
}

/// The mathematical value of a `PrefabField`: strings are compared by
/// their character content.
pub enum FieldView {
    StringView(Seq<char>),
    NumberView(Number),
    BoolView(bool),
}

impl View for PrefabField {
    type V = FieldView;

    open spec fn view(&self) -> FieldView {
        match self {
            PrefabField::StringValue(s) => FieldView::StringView(s@),
            PrefabField::NumberValue(n) => FieldView::NumberView(*n),
            PrefabField::BoolValue(b) => FieldView::BoolView(*b),
        }
    }
}

impl PartialEq for PrefabField {
    /// Structural equality, the relation change detection uses.
    fn eq(&self, other: &PrefabField) -> (r: bool) {
        match (self, other) {
            (PrefabField::StringValue(a), PrefabField::StringValue(b)) => *a == *b,
            (PrefabField::NumberValue(a), PrefabField::NumberValue(b)) => *a == *b,
            (PrefabField::BoolValue(a), PrefabField::BoolValue(b)) => *a == *b,
            _ => false,
        }
    }
}

impl vstd::std_specs::cmp::PartialEqSpecImpl for PrefabField {
    open spec fn obeys_eq_spec() -> bool {
        true
    }

    open spec fn eq_spec(&self, other: &PrefabField) -> bool {
        self@ == other@
    }
}

impl Eq for PrefabField {

}

impl Clone for PrefabField {
    /// The copy carries the same value as the original.
    fn clone(&self) -> (r: Self)
        ensures
            r@ == self@,
    {
        match self {
            PrefabField::StringValue(s) => PrefabField::StringValue(s.clone()),
            PrefabField::NumberValue(n) => PrefabField::NumberValue(*n),
            PrefabField::BoolValue(b) => PrefabField::BoolValue(*b),
        }
    }
}

} // verus!
