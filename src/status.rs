//! The closed set of states a task can be in.
use vstd::prelude::*;

verus! {

/// State of a task. `Create` marks an entry that is still being typed,
/// `Invalid` is what an unknown code decodes to.
#[derive(Clone, Copy, Debug, PartialEq, Eq, Structural)]
pub enum Status {
    Completed,
    Pending,
    OnHold,
    Create,
    Invalid,
}

/// The status that a numeric code stands for.
pub open spec fn status_of_code(c: u8) -> Status {
    if c == 0 {
        Status::Completed
    } else if c == 1 {
        Status::Pending
    } else if c == 2 {
        Status::OnHold
    } else if c == 3 {
        Status::Create
    } else {
        Status::Invalid
    }
}

/// The numeric code of a status.
pub open spec fn code_of(s: Status) -> u8 {
    match s {
        Status::Completed => 0,
        Status::Pending => 1,
        Status::OnHold => 2,
        Status::Create => 3,
        Status::Invalid => 9,
    }
}

/// The label shown for a status.
pub open spec fn label_of(s: Status) -> Seq<char> {
    match s {
        Status::Completed => "Completed"@,
        Status::Pending => "Pending"@,
        Status::OnHold => "OnHold"@,
        Status::Create => "Create"@,
        Status::Invalid => "Invalid"@,
    }
}

/// The states a user can step through, in order.
pub open spec fn in_cycle(s: Status) -> bool {
    s == Status::Completed || s == Status::Pending || s == Status::OnHold
}

/// The state after `s` when stepping through the cycle
/// Completed, Pending, OnHold and back; a state outside the cycle stays.
pub open spec fn next_of(s: Status) -> Status {
    match s {
        Status::Completed => Status::Pending,
        Status::Pending => Status::OnHold,
        Status::OnHold => Status::Completed,
        _ => s,
    }
}

impl Status {
    pub fn get_enum(c: u8) -> (r: Self)
        ensures
            r == status_of_code(c),
    {
        match c {
            0 => Status::Completed,
            1 => Status::Pending,
            2 => Status::OnHold,
            3 => Status::Create,
            _ => Status::Invalid,
        }
    }

    pub fn get_code(&self) -> (r: u8)
        ensures
            r == code_of(*self),
    {
        match self {
            Status::Completed => 0,
            Status::Pending => 1,
            Status::OnHold => 2,
            Status::Create => 3,
            Status::Invalid => 9,
        }
    }

    pub fn get_string(&self) -> (r: &'static str)
        ensures
            r@ == label_of(*self),
    {
        match self {
            Status::Completed => "Completed",
            Status::Pending => "Pending",
            Status::OnHold => "OnHold",
            Status::Create => "Create",
            Status::Invalid => "Invalid",
        }
    }

    pub fn set(&mut self, s: Self)
        ensures
            *final(self) == s,
    {
        *self = s
    }

    /// The next state of the user-visible cycle.
    pub fn next(&self) -> (r: Self)
        ensures
            r == next_of(*self),
    {
        match self {
            Status::Completed => Status::Pending,
            Status::Pending => Status::OnHold,
            Status::OnHold => Status::Completed,
            other => *other,
        }
    }
}

/// Every code decodes back to the status it was made from, but for
/// `Invalid`, whose code is a sentinel that decodes to itself too.
pub proof fn lemma_code_round_trip(s: Status)
    ensures
        status_of_code(code_of(s)) == s,
{
}

/// Stepping three times through the cycle from any of its states
/// comes back to that state, and never leaves the cycle on the way.
pub proof fn lemma_cycle_closed(s: Status)
    requires
        in_cycle(s),
    ensures
        in_cycle(next_of(s)),
        next_of(s) != s,
        next_of(next_of(s)) != s,
        next_of(next_of(next_of(s))) == s,
{
}

} // verus!
