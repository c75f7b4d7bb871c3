//! User-visible notifications: the domain side of the notification sink.
//!
//! The library only records messages with a severity and a remaining display
//! time in ticks; rendering them is the surrounding program's concern.

use vstd::prelude::*;

verus! {

/// Severity of a notification.
#[derive(Clone, Copy, Debug, PartialEq, Eq, Structural)]
pub enum NotificationLevel {
    Info,
    Error,
}

/// A message to surface to the user for `ttl` more ticks.
#[derive(Debug)]
pub struct Notification {
    pub message: String,
    pub level: NotificationLevel,
    pub ttl: u16,
}

/// How many ticks a newly reported notification stays visible.
pub const NOTIFICATION_TICKS: u16 = 8;

impl Notification {
    /// A new notification, visible for `NOTIFICATION_TICKS` ticks.
    pub fn new(message: String, level: NotificationLevel) -> (r: Notification)
        ensures
            r.message == message,
            r.level == level,
            r.ttl == NOTIFICATION_TICKS,
    {
        Notification { message, level, ttl: NOTIFICATION_TICKS }
    }
}

/// Notifications after one tick: expired ones dropped, the rest one tick
/// closer to expiry.
pub open spec fn decayed(ns: Seq<Notification>) -> Seq<Notification>
    decreases ns.len(),
{
    if ns.len() == 0 {
        Seq::empty()
    } else {
        let rest = decayed(ns.drop_last());
        if ns.last().ttl > 0 {
            rest.push(Notification { ttl: (ns.last().ttl - 1) as u16, ..ns.last() })
        } else {
            rest
        }
    }
}

} // verus!
