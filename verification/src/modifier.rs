//! The value shapes a modifier file may carry for one setting.

use vstd::prelude::*;

verus! {

/// A modifier value: a boolean, or literal text.
#[derive(Debug, Clone)]
pub enum ValueType {
    Bool(bool),
    Text(String),
}

impl PartialEq for ValueType {
    fn eq(&self, other: &ValueType) -> (r: bool) {
        match (self, other) {
            (ValueType::Bool(a), ValueType::Bool(b)) => *a == *b,
            (ValueType::Text(a), ValueType::Text(b)) => *a == *b,
            _ => false,
        }
    }
}

impl vstd::std_specs::cmp::PartialEqSpecImpl for ValueType {
    open spec fn obeys_eq_spec() -> bool {
        true
    }

    open spec fn eq_spec(&self, other: &ValueType) -> bool {
        match (self, other) {
            (ValueType::Bool(a), ValueType::Bool(b)) => a == b,
            (ValueType::Text(a), ValueType::Text(b)) => a@ == b@,
            _ => false,
        }
    }
}

} // verus!
