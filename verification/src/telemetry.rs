//! Engine events as they are written to the timeline log, and their one-line
//! rendering.
use vstd::prelude::*;
use crate::text::{decimal, decimal_string, push_str};

verus! {

/// One engine event: when (milliseconds since the epoch), what kind of
/// object, what happened, to which object, and a readable message.
#[derive(Debug, Clone, PartialEq, Eq)]
pub struct TimelineEvent {
    pub ts: u128,
    pub source: String,
    pub action: String,
    pub actor: String,
    pub message: String,
}

/// `ts [source:action] actor - message`.
pub open spec fn timeline_line_spec(e: TimelineEvent) -> Seq<char> {
    decimal(e.ts as nat) + " ["@ + e.source@ + ":"@ + e.action@ + "] "@ + e.actor@ + " - "@
        + e.message@
}

/// The timeline view of one event.
pub fn format_timeline_event(event: &TimelineEvent) -> (r: String)
    ensures
        r@ == timeline_line_spec(*event),
{
    let mut s = decimal_string(event.ts);
    push_str(&mut s, " [");
    push_str(&mut s, event.source.as_str());
    push_str(&mut s, ":");
    push_str(&mut s, event.action.as_str());
    push_str(&mut s, "] ");
    push_str(&mut s, event.actor.as_str());
    push_str(&mut s, " - ");
    push_str(&mut s, event.message.as_str());
    s
}

/// The event built from an engine event's fields: the message is the actor
/// followed by the action.
pub fn timeline_event(ts: u128, source: String, action: String, actor: String) -> (r: TimelineEvent)
    ensures
        r.ts == ts,
        r.source@ == source@,
        r.action@ == action@,
        r.actor@ == actor@,
        r.message@ == actor@ + " "@ + action@,
{
    let mut message = actor.clone();
    push_str(&mut message, " ");
    push_str(&mut message, action.as_str());
    TimelineEvent { ts, source, action, actor, message }
}


/// The time of an engine event in milliseconds: from its nanosecond stamp
/// when it has one, else from its second stamp, else `now`; a negative
/// stamp counts as zero.
pub open spec fn event_time_spec(time_nano: Option<i64>, time: Option<i64>, now: u128) -> int {
    match time_nano {
        Some(n) => if n / 1_000_000 > 0 {
            n / 1_000_000
        } else {
            0
        },
        None => match time {
            Some(t) => if t * 1000 > 0 {
                t * 1000
            } else {
                0
            },
            None => now as int,
        },
    }
}

pub fn event_time_ms(time_nano: Option<i64>, time: Option<i64>, now: u128) -> (r: u128)
    requires
        time_nano is None ==> (time matches Some(t) ==> i64::MIN <= t * 1000 <= i64::MAX),
    ensures
        r == event_time_spec(time_nano, time, now),
{
    match time_nano {
        Some(n) => {
            if n > 0 {
                (n / 1_000_000) as u128
            } else {
                0
            }
        },
        None => match time {
            Some(t) => {
                if t > 0 {
                    (t * 1000) as u128
                } else {
                    0
                }
            },
            None => now,
        },
    }
}

} // verus!
