//! The order of kernel symbols in the form that the standard library's
//! sorting and searching functions take.

use std::cmp::Ordering;
use vstd::prelude::*;
use crate::ksym::{Ksym, compare_keys, key_order};
use crate::order::Order;

verus! {

impl Ksym {
    /// Compares two symbols by kind, then by name.
    pub fn by_name_cmp(&self, other: &Ksym) -> (ordering: Ordering)
        ensures
            match key_order(self@, other@) {
                Order::Less => ordering == Ordering::Less,
                Order::Equal => ordering == Ordering::Equal,
                Order::Greater => ordering == Ordering::Greater,
            },
    {
        match compare_keys(self, other) {
            Order::Less => Ordering::Less,
            Order::Equal => Ordering::Equal,
            Order::Greater => Ordering::Greater,
        }
    }
}

} // verus!
