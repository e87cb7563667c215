use std::time::Instant;
use vstd::prelude::*;

verus! {

/// `std::time::Instant`, carried through without looking inside.
#[verifier::external_type_specification]
#[verifier::external_body]
pub struct ExInstant(Instant);

/// Relies on `Instant::now`: a reading of the monotonic clock. Nothing is
/// promised of its value.
#[verifier::external_body]
fn instant_now() -> Instant {
    Instant::now()
}

/// The moment the last frame started.
pub struct Time {
    last_frame_time: Instant,
}

impl Time {
    pub closed spec fn spec_last_frame_time(&self) -> Instant {
        self.last_frame_time
    }

    /// A clock whose last frame starts now.
    pub fn new() -> (r: Self) {
        Time { last_frame_time: instant_now() }
    }

    /// A clock whose last frame started at `last_frame_time`.
    pub fn starting_at(last_frame_time: Instant) -> (r: Self)
        ensures
            r.spec_last_frame_time() == last_frame_time,
    {
        Time { last_frame_time }
    }

    /// When the last frame started.
    pub fn last_frame_time(&self) -> (r: Instant)
        ensures
            r == self.spec_last_frame_time(),
    {
        self.last_frame_time
    }
}

} // verus!
