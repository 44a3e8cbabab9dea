//! A moment after which a search gives up and returns what it has.

use std::time::{Duration, Instant};
use vstd::prelude::*;

verus! {

/// std's `Instant`, a moment on the clock; it is carried through as it is.
#[verifier::external_type_specification]
#[verifier::external_body]
pub struct ExInstant(Instant);

/// std's `Instant::now` reads the clock; nothing is claimed of the moment it returns.
pub assume_specification[ Instant::now ]() -> Instant;

/// std's `Duration::from_millis` makes a span of time of so many milliseconds; nothing
/// is claimed of it here.
pub assume_specification[ Duration::from_millis ](millis: u64) -> Duration;

/// std's `Instant::checked_add` gives the moment that lies the given span after this
/// one, or nothing where the clock cannot express it; nothing is claimed of the result.
pub assume_specification[ Instant::checked_add ](moment: &Instant, span: Duration) -> Option<
    Instant,
>;

/// Whether `now` is no earlier than `limit`, by the order that std gives to `Instant`;
/// nothing is claimed of the answer.
#[verifier::external_body]
fn reached(now: &Instant, limit: &Instant) -> bool {
    now.ge(limit)
}

/// The moment at which a search is to stop, if there is one.
pub struct Deadline {
    limit: Option<Instant>,
}

impl Deadline {
    /// Whether there is a moment at which the search is to stop.
    pub closed spec fn limited(&self) -> bool {
        self.limit is Some
    }

    /// No deadline: the search runs until its own budget is spent.
    pub fn never() -> (d: Self)
        ensures
            !d.limited(),
    {
        Deadline { limit: None }
    }

    /// A deadline at the given moment.
    pub fn at(moment: Instant) -> (d: Self)
        ensures
            d.limited(),
    {
        Deadline { limit: Some(moment) }
    }

    /// A deadline so many milliseconds from now; none where the clock cannot express
    /// that moment.
    pub fn after_millis(millis: u64) -> (d: Self) {
        let now = Instant::now();
        Deadline { limit: now.checked_add(Duration::from_millis(millis)) }
    }

    /// Whether the deadline has come. Without a deadline it never has.
    pub fn passed(&self) -> (r: bool)
        ensures
            r ==> self.limited(),
    {
        match &self.limit {
            None => false,
            Some(limit) => {
                let now = Instant::now();
                reached(&now, limit)
            },
        }
    }
}

} // verus!
