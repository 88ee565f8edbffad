//! How a subscription is delivered to.

use vstd::prelude::*;

verus! {

/// Delivery guarantee of a subscription.
#[derive(Clone, Copy, Debug, PartialEq, Eq, Structural)]
pub enum Mode {
    /// At most once, in memory.
    Ephemeral,
    /// At least once: logged, with a cursor, retries and a dead-letter list.
    Durable,
}

impl Mode {
    /// The name the admin table shows.
    pub fn name(&self) -> (r: &'static str)
        ensures
            r@ == match self {
                Mode::Ephemeral => "ephemeral"@,
                Mode::Durable => "durable"@,
            },
    {
        match self {
            Mode::Ephemeral => "ephemeral",
            Mode::Durable => "durable",
        }
    }
}

} // verus!
