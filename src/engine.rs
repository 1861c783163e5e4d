//! The per-line path of a watcher: extraction, the ignore filter and the ban
//! decision, and the laws that hold of any run of matches.

use vstd::prelude::*;
use crate::addr::{is_ip_in_list, listed};
use crate::config::Config;
use crate::events::{Event, EventKind};
use crate::ledger::{
    count_since, has_pair, of_pair, pairs_unique, should_ban, window_start, MemoryLedger, RecordView,
};
use crate::store::{all_start_with, pair_prefix_of, stored_decision, CoreDatabase, LedgerError};
use crate::pattern::{extraction, IpExtractor};
use crate::text::views;

verus! {

/// The address a line yields for a source: none for an empty line, for a line the
/// pattern does not match, and for an address that the ignore list exempts.
pub open spec fn accepted(config: &Config, line: Seq<char>) -> Option<Seq<char>> {
    if line.len() == 0 {
        None
    } else {
        match extraction(config.regex@, line) {
            Some(a) => if listed(a, views(config.ignore_ips@)) {
                None
            } else {
                Some(a)
            },
            None => None,
        }
    }
}

/// Applies the pattern matcher and the ignore filter to one line; the address
/// returned is the one whose match is to be recorded.
pub fn accept_line(extractor: &mut IpExtractor, config: &Config, line: &str) -> (r: Option<String>)
    requires
        old(extractor).wf(),
    ensures
        final(extractor).wf(),
        r matches Some(a) ==> accepted(config, line@) == Some(a@),
        r is None ==> accepted(config, line@) is None,
        r matches Some(a) ==> !listed(a@, views(config.ignore_ips@)),
{
    if line.unicode_len() == 0 {
        return None;
    }
    match extractor.extract_ip(config.regex.as_str(), line) {
        Some(a) => {
            if is_ip_in_list(a.as_str(), config.ignore_ips.as_slice()) {
                None
            } else {
                Some(a)
            }
        },
        None => None,
    }
}

/// An address that the ignore list exempts is never accepted, so a line naming it
/// records no match and makes no ban: `handle_line` leaves the ledger as it was.
pub proof fn lemma_ignored_never_accepted(config: &Config, line: Seq<char>)
    ensures
        extraction(config.regex@, line) matches Some(a) && listed(a, views(config.ignore_ips@))
            ==> accepted(config, line) is None,
        accepted(config, line) matches Some(a) ==> !listed(a, views(config.ignore_ips@)),
{
}

/// What one line led to: the address whose match was recorded, if any, whether
/// it was banned (which calls for a deny), and the events to emit, in order.
pub struct LineOutcome {
    pub address: Option<String>,
    pub banned: bool,
    pub events: Vec<Event>,
}

/// Handles one line of a source against the in-memory ledger at `now`: a line
/// that yields no accepted address changes nothing; otherwise the match is
/// recorded and the ban decision applied, and a match event, followed by a ban
/// event where a ban was made, is reported.
pub fn handle_line(
    extractor: &mut IpExtractor,
    ledger: &mut MemoryLedger,
    config: &Config,
    line: &str,
    now: u64,
) -> (r: LineOutcome)
    requires
        old(extractor).wf(),
        old(ledger).wf(),
    ensures
        final(extractor).wf(),
        final(ledger).wf(),
        accepted(config, line@) is None ==> {
            &&& r.address is None
            &&& !r.banned
            &&& r.events@.len() == 0
            &&& final(ledger).matches_view() == old(ledger).matches_view()
            &&& final(ledger).bans_view() == old(ledger).bans_view()
        },
        accepted(config, line@) matches Some(a) ==> {
            let s = match_step(
                old(ledger).matches_view(),
                old(ledger).bans_view(),
                config.id@,
                a,
                config.find_time,
                config.max_matches,
                now,
            );
            &&& r.address matches Some(x) && x@ == a
            &&& final(ledger).matches_view() == s.0
            &&& final(ledger).bans_view() == s.1
            &&& r.banned == s.2
            &&& r.events@.len() == if s.2 { 2int } else { 1int }
            &&& r.events@[0].view_parts() == (EventKind::Match, (config.id@, a, now))
            &&& s.2 ==> r.events@[1].view_parts() == (EventKind::Ban, (config.id@, a, now))
        },
{
    let mut events: Vec<Event> = Vec::new();
    let addr = match accept_line(extractor, config, line) {
        Some(a) => a,
        None => return LineOutcome { address: None, banned: false, events },
    };
    let banned = ledger.process_match(config, addr.as_str(), now);
    events.push(Event::new(EventKind::Match, config.id.as_str(), addr.as_str(), now));
    if banned {
        events.push(Event::new(EventKind::Ban, config.id.as_str(), addr.as_str(), now));
    }
    LineOutcome { address: Some(addr), banned, events }
}

/// Handles one line of a source against the persistent ledger at `now`, as
/// `handle_line` does: a line that yields no accepted address touches nothing;
/// a storage failure abandons the line's decision.
pub fn handle_stored_line(
    extractor: &mut IpExtractor,
    ledger: &CoreDatabase,
    config: &Config,
    line: &str,
    now: u64,
) -> (r: Result<LineOutcome, LedgerError>)
    requires
        old(extractor).wf(),
    ensures
        final(extractor).wf(),
        accepted(config, line@) is None ==> (r matches Ok(o) && o.address is None && !o.banned
            && o.events@.len() == 0),
        accepted(config, line@) matches Some(a) ==> (r matches Ok(o) ==> {
            &&& o.address matches Some(x) && x@ == a
            &&& o.events@.len() == if o.banned { 2int } else { 1int }
            &&& o.events@[0].view_parts() == (EventKind::Match, (config.id@, a, now))
            &&& o.banned ==> o.events@[1].view_parts() == (EventKind::Ban, (config.id@, a, now))
            &&& exists|mk: Seq<Seq<char>>, bk: Seq<Seq<char>>|
                all_start_with(mk, pair_prefix_of("match"@, config.id@, a)) && all_start_with(
                    bk,
                    pair_prefix_of("ban"@, config.id@, a),
                ) && o.banned == stored_decision(mk, bk, config.id@, a, config.find_time, config.max_matches, now)
        }),
{
    let mut events: Vec<Event> = Vec::new();
    let addr = match accept_line(extractor, config, line) {
        Some(a) => a,
        None => return Ok(LineOutcome { address: None, banned: false, events }),
    };
    let banned = match ledger.process_match(config, addr.as_str(), now) {
        Ok(b) => b,
        Err(e) => return Err(e),
    };
    events.push(Event::new(EventKind::Match, config.id.as_str(), addr.as_str(), now));
    if banned {
        events.push(Event::new(EventKind::Ban, config.id.as_str(), addr.as_str(), now));
    }
    Ok(LineOutcome { address: Some(addr), banned, events })
}

/// One accepted match of `addr` at `now` for source `source`, as the ledger
/// applies it: the new match records and ban records, and whether a ban was made.
pub open spec fn match_step(
    matches: Seq<RecordView>,
    bans: Seq<RecordView>,
    source: Seq<char>,
    addr: Seq<char>,
    find_time: u64,
    max_matches: u32,
    now: u64,
) -> (Seq<RecordView>, Seq<RecordView>, bool) {
    let banned = should_ban(
        count_since(matches, source, addr, window_start(now, find_time)),
        max_matches,
        has_pair(bans, source, addr),
    );
    (
        matches.push((source, addr, now)),
        if banned { bans.push((source, addr, now)) } else { bans },
        banned,
    )
}

/// A run of accepted matches of one address at the given times: the final match
/// and ban records, and how many bans the run made.
pub open spec fn replay(
    matches: Seq<RecordView>,
    bans: Seq<RecordView>,
    source: Seq<char>,
    addr: Seq<char>,
    find_time: u64,
    max_matches: u32,
    times: Seq<u64>,
) -> (Seq<RecordView>, Seq<RecordView>, nat)
    decreases times.len(),
{
    if times.len() == 0 {
        (matches, bans, 0)
    } else {
        let before = replay(matches, bans, source, addr, find_time, max_matches, times.drop_last());
        let s = match_step(before.0, before.1, source, addr, find_time, max_matches, times.last());
        (s.0, s.1, before.2 + if s.2 { 1nat } else { 0nat })
    }
}

proof fn lemma_step_keeps_unique(
    matches: Seq<RecordView>,
    bans: Seq<RecordView>,
    source: Seq<char>,
    addr: Seq<char>,
    find_time: u64,
    max_matches: u32,
    now: u64,
)
    requires
        pairs_unique(bans),
    ensures
        pairs_unique(match_step(matches, bans, source, addr, find_time, max_matches, now).1),
        has_pair(bans, source, addr) ==> has_pair(
            match_step(matches, bans, source, addr, find_time, max_matches, now).1,
            source,
            addr,
        ),
{
    let s = match_step(matches, bans, source, addr, find_time, max_matches, now);
    if s.2 {
        let b = s.1;
        assert forall|i: int, j: int| 0 <= i < j < b.len() implies !(#[trigger] b[i].0
            == #[trigger] b[j].0 && b[i].1 == b[j].1) by {
            if j == b.len() - 1 {
                assert(b[i] == bans[i]);
                if b[i].0 == b[j].0 && b[i].1 == b[j].1 {
                    assert(of_pair(bans[i], source, addr));
                }
            } else {
                assert(b[i] == bans[i] && b[j] == bans[j]);
            }
        }
    }
    if has_pair(bans, source, addr) {
        let k = choose|k: int| 0 <= k < bans.len() && of_pair(#[trigger] bans[k], source, addr);
        assert(s.1[k] == bans[k]);
    }
}

/// However many matches of one address arrive, and at whatever times, the ledger
/// never holds two bans of one pair, a run makes at most one ban, and none at
/// all when the pair is already banned: so at most one deny is issued per ban.
pub proof fn lemma_at_most_one_ban(
    matches: Seq<RecordView>,
    bans: Seq<RecordView>,
    source: Seq<char>,
    addr: Seq<char>,
    find_time: u64,
    max_matches: u32,
    times: Seq<u64>,
)
    requires
        pairs_unique(bans),
    ensures
        pairs_unique(replay(matches, bans, source, addr, find_time, max_matches, times).1),
        replay(matches, bans, source, addr, find_time, max_matches, times).2 <= 1,
        has_pair(bans, source, addr) ==> replay(
            matches,
            bans,
            source,
            addr,
            find_time,
            max_matches,
            times,
        ).2 == 0,
        replay(matches, bans, source, addr, find_time, max_matches, times).2 == 1 ==> has_pair(
            replay(matches, bans, source, addr, find_time, max_matches, times).1,
            source,
            addr,
        ),
        has_pair(bans, source, addr) ==> has_pair(
            replay(matches, bans, source, addr, find_time, max_matches, times).1,
            source,
            addr,
        ),
    decreases times.len(),
{
    if times.len() > 0 {
        let p = times.drop_last();
        lemma_at_most_one_ban(matches, bans, source, addr, find_time, max_matches, p);
        let before = replay(matches, bans, source, addr, find_time, max_matches, p);
        lemma_step_keeps_unique(before.0, before.1, source, addr, find_time, max_matches, times.last());
        let s = match_step(before.0, before.1, source, addr, find_time, max_matches, times.last());
        if s.2 {
            let n = before.1.len();
            assert(s.1[n as int] == (source, addr, times.last()));
            assert(of_pair(s.1[n as int], source, addr));
        }
    }
}

/// The count that decides a ban depends on the persisted records of the pair
/// alone: two histories that hold the same records for the pair give the same
/// count, however they interleave other records and however often it is taken.
pub proof fn lemma_count_depends_on_pair_records(
    h1: Seq<RecordView>,
    h2: Seq<RecordView>,
    source: Seq<char>,
    addr: Seq<char>,
    cutoff: u64,
)
    requires
        crate::ledger::pair_history(h1, source, addr) == crate::ledger::pair_history(h2, source, addr),
    ensures
        count_since(h1, source, addr, cutoff) == count_since(h2, source, addr, cutoff),
{
    lemma_count_via_pair_history(h1, source, addr, cutoff);
    lemma_count_via_pair_history(h2, source, addr, cutoff);
}

proof fn lemma_count_via_pair_history(h: Seq<RecordView>, source: Seq<char>, addr: Seq<char>, cutoff: u64)
    ensures
        count_since(h, source, addr, cutoff) == count_since(
            crate::ledger::pair_history(h, source, addr),
            source,
            addr,
            cutoff,
        ),
    decreases h.len(),
{
    if h.len() > 0 {
        lemma_count_via_pair_history(h.drop_last(), source, addr, cutoff);
        let p = crate::ledger::pair_history(h.drop_last(), source, addr);
        if of_pair(h.last(), source, addr) {
            assert(p.push(h.last()).drop_last() =~= p);
        }
    }
}

} // verus!
