//! A quota tracker that reports through a caller-supplied messenger.
//!
//! The tracker owns the thresholds; the messenger — any implementor of
//! [`Messenger`] — owns what "sending" means. The threshold comparisons are
//! exact rational comparisons carried out in integers.

use vstd::prelude::*;

verus! {

/// A sink for the tracker's warnings. Implementors decide where a message
/// goes; the tracker only decides when one is due.
pub trait Messenger {
    fn send(&self, msg: &str);
}

/// How far a value has advanced toward — or past — a maximum.
#[derive(Clone, Copy, Debug, PartialEq, Eq, Structural)]
pub enum QuotaLevel {
    Silent,
    Warning,
    Urgent,
    Exceeded,
}

/// The level that `value` out of `max` reaches: `Exceeded` at or above the
/// whole of `max`, `Urgent` at or above nine tenths, `Warning` at or above
/// three quarters, `Silent` below that. A maximum of zero is exceeded by
/// any positive value; zero of zero reports nothing.
pub open spec fn spec_quota_level(value: usize, max: usize) -> QuotaLevel {
    if max == 0 && value == 0 {
        QuotaLevel::Silent
    } else if value >= max {
        QuotaLevel::Exceeded
    } else if 10 * value >= 9 * max {
        QuotaLevel::Urgent
    } else if 4 * value >= 3 * max {
        QuotaLevel::Warning
    } else {
        QuotaLevel::Silent
    }
}

/// Computes [`spec_quota_level`], widening before multiplying so the
/// comparisons are exact.
pub fn quota_level(value: usize, max: usize) -> (r: QuotaLevel)
    ensures
        r == spec_quota_level(value, max),
{
    if max == 0 && value == 0 {
        QuotaLevel::Silent
    } else if value >= max {
        QuotaLevel::Exceeded
    } else if (value as u128) * 10 >= (max as u128) * 9 {
        QuotaLevel::Urgent
    } else if (value as u128) * 4 >= (max as u128) * 3 {
        QuotaLevel::Warning
    } else {
        QuotaLevel::Silent
    }
}

const ERROR_MSG: &'static str = "Error: You are over your quota!";

const URGENT_WARNING: &'static str = "Urgent warning: You've used up over 90% of your quota!";

const WARNING_MSG: &'static str = "Warning: You've used up over 75% of your quota!";

/// The message owed at each quota level: the error past the maximum, the
/// urgent warning from nine tenths, the plain warning from three quarters,
/// nothing below.
pub open spec fn spec_message_for(level: QuotaLevel) -> Option<Seq<char>> {
    match level {
        QuotaLevel::Exceeded => Some("Error: You are over your quota!"@),
        QuotaLevel::Urgent => Some("Urgent warning: You've used up over 90% of your quota!"@),
        QuotaLevel::Warning => Some("Warning: You've used up over 75% of your quota!"@),
        QuotaLevel::Silent => None,
    }
}

/// Picks the message a quota level calls for, exactly as
/// [`spec_message_for`] states it.
pub fn message_for(level: QuotaLevel) -> (r: Option<&'static str>)
    ensures
        r is Some <==> spec_message_for(level) is Some,
        r matches Some(s) ==> spec_message_for(level) == Some(s@),
{
    match level {
        QuotaLevel::Exceeded => Some(ERROR_MSG),
        QuotaLevel::Urgent => Some(URGENT_WARNING),
        QuotaLevel::Warning => Some(WARNING_MSG),
        QuotaLevel::Silent => None,
    }
}

/// Tracks a value against a maximum and warns through the messenger as the
/// value crosses each threshold.
pub struct LimitTracker<'a, T: Messenger> {
    messenger: &'a T,
    value: usize,
    max: usize,
}

impl<'a, T: Messenger> LimitTracker<'a, T> {
    /// The tracked value, as the specifications see it.
    pub closed spec fn value_spec(self) -> usize {
        self.value
    }

    /// The maximum, as the specifications see it.
    pub closed spec fn max_spec(self) -> usize {
        self.max
    }

    /// The messenger the tracker reports through, as the specifications
    /// see it.
    pub closed spec fn messenger_spec(self) -> &'a T {
        self.messenger
    }

    /// A tracker at zero against `max`, reporting through `messenger`.
    pub fn new(messenger: &'a T, max: usize) -> (tracker: LimitTracker<'a, T>)
        ensures
            tracker.messenger_spec() == messenger,
            tracker.value_spec() == 0,
            tracker.max_spec() == max,
    {
        LimitTracker { messenger, value: 0, max }
    }

    /// Records the new value and sends the message its quota level calls
    /// for, as [`spec_message_for`] of [`spec_quota_level`] states it;
    /// below the lowest threshold nothing is sent.
    pub fn set_value(&mut self, value: usize)
        ensures
            final(self).value_spec() == value,
            final(self).max_spec() == old(self).max_spec(),
            final(self).messenger_spec() == old(self).messenger_spec(),
    {
        self.value = value;
        match message_for(quota_level(value, self.max)) {
            Some(msg) => self.messenger.send(msg),
            None => {},
        }
    }
}

} // verus!
