//! Docker daemon events and container log lines.
use vstd::prelude::*;

use crate::model::container::clock_seconds;
use crate::text::{
    chars_of, contains, contains_seq, decimal, lower, push_decimal, push_str, string_of, to_lower,
};

verus! {

#[derive(Clone, Debug, Default)]
pub struct DockerEvent {
    pub timestamp: i64,
    pub kind: String,
    pub action: String,
    pub actor: String,
    pub attributes: String,
}

#[derive(Clone, Copy, Debug, Eq, PartialEq, Structural)]
pub enum LogStream {
    Stdout,
    Stderr,
    Console,
}

#[derive(Clone, Debug)]
pub struct LogLine {
    pub stream: LogStream,
    pub text: String,
}

/// How long ago an event at `timestamp` happened, seen at `now` (seconds
/// since the epoch): seconds below a minute, minutes below an hour, then
/// hours. Events from before the epoch count from the epoch.
pub open spec fn age_text(timestamp: i64, now: u64) -> Seq<char> {
    let start: u64 = if timestamp < 0 {
        0
    } else {
        timestamp as u64
    };
    let elapsed: nat = if now >= start {
        (now - start) as nat
    } else {
        0
    };
    if elapsed < 60 {
        decimal(elapsed) + "s ago"@
    } else if elapsed < 3600 {
        decimal(elapsed / 60) + "m ago"@
    } else {
        decimal(elapsed / 3600) + "h ago"@
    }
}

impl DockerEvent {
    /// Age of the event at `now`, in seconds since the epoch.
    pub fn time_at(&self, now: u64) -> (r: String)
        ensures
            r@ == age_text(self.timestamp, now),
    {
        let start: u64 = if self.timestamp < 0 {
            0
        } else {
            self.timestamp as u64
        };
        let elapsed = now.saturating_sub(start);
        let mut v: Vec<char> = Vec::new();
        if elapsed < 60 {
            push_decimal(&mut v, elapsed);
            push_str(&mut v, "s ago");
        } else if elapsed < 3600 {
            push_decimal(&mut v, elapsed / 60);
            push_str(&mut v, "m ago");
        } else {
            push_decimal(&mut v, elapsed / 3600);
            push_str(&mut v, "h ago");
        }
        assert(v@ =~= age_text(self.timestamp, now));
        string_of(&v)
    }

    /// Age of the event by the system clock (a clock before the epoch
    /// counts as 0).
    pub fn time(&self) -> (r: String)
        ensures
            exists|now: u64| r@ == age_text(self.timestamp, now),
    {
        let now = match clock_seconds() {
            Some(s) => s,
            None => 0,
        };
        self.time_at(now)
    }
}

/// An event matches the filter when it is empty or, ignoring ASCII case,
/// occurs in `kind action actor`.
pub open spec fn event_matches_spec(e: DockerEvent, filter: Seq<char>) -> bool {
    filter.len() == 0 || contains_seq(
        lower(e.kind@ + " "@ + e.action@ + " "@ + e.actor@),
        lower(filter),
    )
}

/// A log line matches the filter when it is empty or, ignoring ASCII case,
/// occurs in the line.
pub open spec fn log_matches_spec(line: LogLine, filter: Seq<char>) -> bool {
    filter.len() == 0 || contains_seq(lower(line.text@), lower(filter))
}

impl DockerEvent {
    /// Whether the events screen lists this event under `filter`.
    pub fn matches(&self, filter: &str) -> (r: bool)
        ensures
            r == event_matches_spec(*self, filter@),
    {
        if filter.is_empty() {
            return true;
        }
        let mut text = chars_of(self.kind.as_str());
        push_str(&mut text, " ");
        push_str(&mut text, self.action.as_str());
        push_str(&mut text, " ");
        push_str(&mut text, self.actor.as_str());
        contains(&to_lower(&text), &to_lower(&chars_of(filter)))
    }
}

impl LogLine {
    /// Whether the log screen shows this line under `filter`.
    pub fn matches(&self, filter: &str) -> (r: bool)
        ensures
            r == log_matches_spec(*self, filter@),
    {
        if filter.is_empty() {
            return true;
        }
        contains(&to_lower(&chars_of(self.text.as_str())), &to_lower(&chars_of(filter)))
    }
}

} // verus!
