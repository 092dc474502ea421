//! The order of edges as `<`, `<=` and their kin.
use vstd::prelude::*;
use core::cmp::Ordering;
use vstd::std_specs::cmp::PartialOrdSpec;
use crate::edge::{Edge, EdgeType};

verus! {

impl PartialOrd for Edge {
    fn partial_cmp(&self, other: &Edge) -> (r: Option<Ordering>) {
        if self.t < other.t {
            Some(Ordering::Less)
        } else if self.t > other.t {
            Some(Ordering::Greater)
        } else {
            match (self.type_, other.type_) {
                (EdgeType::Start, EdgeType::End) => Some(Ordering::Less),
                (EdgeType::End, EdgeType::Start) => Some(Ordering::Greater),
                _ => Some(Ordering::Equal),
            }
        }
    }
}

impl vstd::std_specs::cmp::PartialOrdSpecImpl for Edge {
    open spec fn obeys_partial_cmp_spec() -> bool {
        true
    }

    open spec fn partial_cmp_spec(&self, other: &Edge) -> Option<Ordering> {
        if self.t < other.t {
            Some(Ordering::Less)
        } else if self.t > other.t {
            Some(Ordering::Greater)
        } else {
            match (self.type_, other.type_) {
                (EdgeType::Start, EdgeType::End) => Some(Ordering::Less),
                (EdgeType::End, EdgeType::Start) => Some(Ordering::Greater),
                _ => Some(Ordering::Equal),
            }
        }
    }
}

/// An edge comes no later than another exactly where comparing them does
/// not say "greater".
pub proof fn lemma_le_is_not_greater(a: Edge, b: Edge)
    ensures
        a.no_later_than(b) <==> a.partial_cmp_spec(&b) != Some(Ordering::Greater),
{
}

} // verus!
