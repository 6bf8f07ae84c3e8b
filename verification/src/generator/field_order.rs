//! Fields are equal when their bit specifications are, and ordered as their
//! bit specifications are, whatever their names, types and descriptions.

use std::cmp::Ordering;
use vstd::prelude::*;
use vstd::std_specs::cmp::{PartialEqSpecImpl, PartialOrdSpecImpl};

use crate::generator::field::{field_bit_spec, Field};
use crate::generator::order::{bit_spec_le, bit_spec_le_exec, same_bit_spec};

verus! {

impl PartialEq for Field {
    fn eq(&self, other: &Self) -> (r: bool) {
        same_bit_spec(self.bit_spec(), other.bit_spec())
    }
}

impl PartialEqSpecImpl for Field {
    open spec fn obeys_eq_spec() -> bool {
        true
    }

    open spec fn eq_spec(&self, other: &Self) -> bool {
        field_bit_spec(*self)@ == field_bit_spec(*other)@
    }
}

impl Eq for Field {

}

impl PartialOrd for Field {
    fn partial_cmp(&self, other: &Self) -> (r: Option<Ordering>) {
        if same_bit_spec(self.bit_spec(), other.bit_spec()) {
            Some(Ordering::Equal)
        } else if bit_spec_le_exec(self.bit_spec(), other.bit_spec()) {
            Some(Ordering::Less)
        } else {
            Some(Ordering::Greater)
        }
    }
}

impl PartialOrdSpecImpl for Field {
    open spec fn obeys_partial_cmp_spec() -> bool {
        true
    }

    open spec fn partial_cmp_spec(&self, other: &Self) -> Option<Ordering> {
        if field_bit_spec(*self)@ == field_bit_spec(*other)@ {
            Some(Ordering::Equal)
        } else if bit_spec_le(field_bit_spec(*self)@, field_bit_spec(*other)@) {
            Some(Ordering::Less)
        } else {
            Some(Ordering::Greater)
        }
    }
}

} // verus!
