//! Domain events: what the engine reports after a ledger change, for audit and
//! streaming subscribers.

use vstd::prelude::*;
use crate::ledger::{BanRecord, RecordView};

verus! {

/// The kind of a domain event.
#[derive(Debug, Clone, Copy, PartialEq, Eq, Structural)]
pub enum EventKind {
    Match,
    Ban,
    Unban,
}

/// A domain event: a recorded match, a ban, or an unban, of an address for a source.
pub enum Event {
    Match { config_id: String, ip: String, timestamp: u64 },
    Ban { config_id: String, ip: String, timestamp: u64 },
    Unban { config_id: String, ip: String, timestamp: u64 },
}

impl Event {
    /// The kind and the (source, address, timestamp) the event carries.
    pub open spec fn view_parts(&self) -> (EventKind, RecordView) {
        match self {
            Event::Match { config_id, ip, timestamp } => (EventKind::Match, (config_id@, ip@, *timestamp)),
            Event::Ban { config_id, ip, timestamp } => (EventKind::Ban, (config_id@, ip@, *timestamp)),
            Event::Unban { config_id, ip, timestamp } => (EventKind::Unban, (config_id@, ip@, *timestamp)),
        }
    }

    /// Builds an event of the given kind.
    pub fn new(kind: EventKind, config_id: &str, ip: &str, timestamp: u64) -> (r: Event)
        ensures
            r.view_parts() == (kind, (config_id@, ip@, timestamp)),
    {
        let config_id = config_id.to_string();
        let ip = ip.to_string();
        match kind {
            EventKind::Match => Event::Match { config_id, ip, timestamp },
            EventKind::Ban => Event::Ban { config_id, ip, timestamp },
            EventKind::Unban => Event::Unban { config_id, ip, timestamp },
        }
    }

    /// The kind of the event.
    pub fn kind(&self) -> (r: EventKind)
        ensures
            r == self.view_parts().0,
    {
        match self {
            Event::Match { .. } => EventKind::Match,
            Event::Ban { .. } => EventKind::Ban,
            Event::Unban { .. } => EventKind::Unban,
        }
    }

    /// Gives the event an identifier, as it is kept in the audit history.
    pub fn into_stored(self, id: String) -> (r: AuditEvent)
        ensures
            r.view_parts() == (self.view_parts(), id@),
    {
        match self {
            Event::Match { config_id, ip, timestamp } => AuditEvent::Match(MatchEvent { id, config_id, ip, timestamp }),
            Event::Ban { config_id, ip, timestamp } => AuditEvent::Ban(BanEvent { id, config_id, ip, timestamp }),
            Event::Unban { config_id, ip, timestamp } => AuditEvent::Unban(UnbanEvent { id, config_id, ip, timestamp }),
        }
    }
}

/// A stored match event.
pub struct MatchEvent {
    pub id: String,
    pub config_id: String,
    pub ip: String,
    pub timestamp: u64,
}

/// A stored ban event.
pub struct BanEvent {
    pub id: String,
    pub config_id: String,
    pub ip: String,
    pub timestamp: u64,
}

/// A stored unban event.
pub struct UnbanEvent {
    pub id: String,
    pub config_id: String,
    pub ip: String,
    pub timestamp: u64,
}

/// An event as kept in the audit history, with its identifier.
pub enum AuditEvent {
    Match(MatchEvent),
    Ban(BanEvent),
    Unban(UnbanEvent),
}

impl AuditEvent {
    /// The kind, the (source, address, timestamp) and the identifier.
    pub open spec fn view_parts(&self) -> ((EventKind, RecordView), Seq<char>) {
        match self {
            AuditEvent::Match(e) => ((EventKind::Match, (e.config_id@, e.ip@, e.timestamp)), e.id@),
            AuditEvent::Ban(e) => ((EventKind::Ban, (e.config_id@, e.ip@, e.timestamp)), e.id@),
            AuditEvent::Unban(e) => ((EventKind::Unban, (e.config_id@, e.ip@, e.timestamp)), e.id@),
        }
    }
}

/// The unban events for the ban records removed at `now`: one per record, in
/// order, each carrying the record's source and address.
pub fn unban_events(removed: &Vec<BanRecord>, now: u64) -> (r: Vec<Event>)
    ensures
        r@.len() == removed@.len(),
        forall|i: int| 0 <= i < r@.len() ==> #[trigger] r@[i].view_parts() == (
            EventKind::Unban,
            (removed@[i].config_id@, removed@[i].ip@, now),
        ),
{
    let mut out: Vec<Event> = Vec::new();
    let mut i: usize = 0;
    while i < removed.len()
        invariant
            i <= removed@.len(),
            out@.len() == i,
            forall|k: int| 0 <= k < i ==> #[trigger] out@[k].view_parts() == (
                EventKind::Unban,
                (removed@[k].config_id@, removed@[k].ip@, now),
            ),
        decreases removed@.len() - i,
    {
        let b = &removed[i];
        out.push(Event::new(EventKind::Unban, b.config_id.as_str(), b.ip.as_str(), now));
        i = i + 1;
    }
    out
}

} // verus!
