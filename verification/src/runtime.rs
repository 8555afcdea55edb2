//! Values the event commands hand back to the NAPI layer.

use vstd::prelude::*;

verus! {

/// Returned by an event command. The cancel signal lives with the
/// callback; this value only marks that a subscription was made.
#[derive(Debug, Clone, Copy, PartialEq, Eq, Structural)]
pub struct Subscription;

impl Subscription {
    pub fn new() -> (s: Self)
        ensures
            s == Subscription,
    {
        Subscription
    }
}

impl Default for Subscription {
    fn default() -> (s: Self)
        ensures
            s == Subscription,
    {
        Subscription
    }
}

} // verus!
