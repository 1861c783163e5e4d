//! The expiry side of the engine: after bans are removed, which addresses get
//! their packet-filter rule lifted, and the unban events to emit.
//!
//! A ban belongs to a (source, address) pair, while the packet filter holds one
//! rule per address. The rule of an address is therefore lifted only once no
//! source holds a ban of it any more.

use vstd::prelude::*;
use crate::config::Config;
use crate::events::{unban_events, Event, EventKind};
use crate::firewall::contains_string;
use crate::ledger::{
    ban_views, expired_bans, keep_unless, live_bans, BanRecord, MemoryLedger, RecordView,
};
use crate::text::views;

verus! {

/// Whether some record of `bans` is a ban of the address `ip`.
pub open spec fn bans_address(bans: Seq<RecordView>, ip: Seq<char>) -> bool {
    exists|i: int| 0 <= i < bans.len() && (#[trigger] bans[i]).1 == ip
}

/// The addresses whose rule is to be lifted once `unbanned` are removed and
/// `remaining` are still in force: each address of a removed ban that no
/// remaining ban holds, once, in order of first appearance.
pub fn addresses_to_allow(unbanned: &Vec<BanRecord>, remaining: &Vec<BanRecord>) -> (r: Vec<String>)
    ensures
        views(r@).no_duplicates(),
        forall|x: Seq<char>| #[trigger] views(r@).contains(x) <==> (bans_address(ban_views(unbanned@), x)
            && !bans_address(ban_views(remaining@), x)),
{
    let mut out: Vec<String> = Vec::new();
    let mut i: usize = 0;
    while i < unbanned.len()
        invariant
            i <= unbanned@.len(),
            views(out@).no_duplicates(),
            forall|x: Seq<char>| #[trigger] views(out@).contains(x) <==> (bans_address(
                ban_views(unbanned@).subrange(0, i as int),
                x,
            ) && !bans_address(ban_views(remaining@), x)),
        decreases unbanned@.len() - i,
    {
        let ip = &unbanned[i].ip;
        let held = still_banned(remaining, ip);
        let ghost before = views(out@);
        let ghost q = ban_views(unbanned@).subrange(0, i as int);
        let ghost pre = ban_views(unbanned@).subrange(0, i as int + 1);
        assert(pre =~= q.push(unbanned@[i as int]@));
        if !held && !contains_string(&out, ip) {
            out.push(ip.clone());
            assert(views(out@) =~= before.push(ip@));
        }
        assert forall|x: Seq<char>| #[trigger] views(out@).contains(x) <==> (bans_address(pre, x)
            && !bans_address(ban_views(remaining@), x)) by {
            if bans_address(pre, x) && x != ip@ {
                let k = choose|k: int| 0 <= k < pre.len() && (#[trigger] pre[k]).1 == x;
                assert(k < q.len());
                assert(q[k] == pre[k]);
            }
            if bans_address(q, x) {
                let k = choose|k: int| 0 <= k < q.len() && (#[trigger] q[k]).1 == x;
                assert(pre[k] == q[k]);
            }
            assert(pre[i as int].1 == ip@);
            if views(out@).contains(x) && x != ip@ {
                let k = choose|k: int| 0 <= k < views(out@).len() && views(out@)[k] == x;
                assert(before[k] == x);
            }
            if before.contains(x) {
                let k = choose|k: int| 0 <= k < before.len() && before[k] == x;
                assert(views(out@)[k] == x);
            }
            if views(out@).len() > before.len() {
                assert(views(out@)[before.len() as int] == ip@);
            }
        }
        i = i + 1;
    }
    assert(ban_views(unbanned@).subrange(0, unbanned@.len() as int) =~= ban_views(unbanned@));
    out
}

/// Whether some ban of `bans` holds the address `ip`.
pub fn still_banned(bans: &Vec<BanRecord>, ip: &String) -> (r: bool)
    ensures
        r == bans_address(ban_views(bans@), ip@),
{
    let mut i: usize = 0;
    while i < bans.len()
        invariant
            i <= bans@.len(),
            forall|k: int| 0 <= k < i ==> (#[trigger] ban_views(bans@)[k]).1 != ip@,
        decreases bans@.len() - i,
    {
        if bans[i].ip == *ip {
            assert(ban_views(bans@)[i as int].1 == ip@);
            return true;
        }
        assert(ban_views(bans@)[i as int] == bans@[i as int]@);
        i = i + 1;
    }
    false
}

/// What one cleaner tick did and what it calls for.
pub struct Cleanup {
    /// How many match records were removed.
    pub removed_matches: usize,
    /// The ban records removed.
    pub unbanned: Vec<BanRecord>,
    /// One unban event per removed ban.
    pub events: Vec<Event>,
    /// The addresses whose packet-filter rule is to be lifted.
    pub allow: Vec<String>,
}

/// One cleaner tick at `now` over the in-memory ledger: removes every record
/// that has aged out, and reports the unban events and the rules to lift.
pub fn cleanup(ledger: &mut MemoryLedger, configs: &Vec<Config>, now: u64) -> (r: Cleanup)
    requires
        old(ledger).wf(),
    ensures
        final(ledger).wf(),
        final(ledger).matches_view() == keep_unless(
            old(ledger).matches_view(),
            |x: RecordView| crate::ledger::match_expired(x, configs@, now),
        ),
        final(ledger).bans_view() == live_bans(old(ledger).bans_view(), configs@, now),
        ban_views(r.unbanned@) == expired_bans(old(ledger).bans_view(), configs@, now),
        r.events@.len() == r.unbanned@.len(),
        forall|i: int| 0 <= i < r.events@.len() ==> #[trigger] r.events@[i].view_parts() == (
            EventKind::Unban,
            (r.unbanned@[i].config_id@, r.unbanned@[i].ip@, now),
        ),
        views(r.allow@).no_duplicates(),
        forall|x: Seq<char>| #[trigger] views(r.allow@).contains(x) <==> (bans_address(ban_views(r.unbanned@), x)
            && !bans_address(final(ledger).bans_view(), x)),
{
    let swept = ledger.sweep(configs, now);
    let remaining = ledger.get_all_bans();
    let allow = addresses_to_allow(&swept.unbanned, &remaining);
    let events = unban_events(&swept.unbanned, now);
    Cleanup { removed_matches: swept.removed_matches, unbanned: swept.unbanned, events, allow }
}

/// The explicit unban of one pair at `now`, on the path a cleaner tick takes:
/// the pair's ban is removed, an unban event carries it, and the address's rule
/// is lifted unless another source still bans it. Nothing happens where the
/// pair is not banned.
pub fn unban(ledger: &mut MemoryLedger, config_id: &str, ip: &str, now: u64) -> (r: Cleanup)
    requires
        old(ledger).wf(),
    ensures
        final(ledger).wf(),
        final(ledger).matches_view() == old(ledger).matches_view(),
        final(ledger).bans_view() == keep_unless(
            old(ledger).bans_view(),
            |x: RecordView| crate::ledger::of_pair(x, config_id@, ip@),
        ),
        r.removed_matches == 0,
        r.unbanned@.len() <= 1,
        (r.unbanned@.len() == 1) <==> crate::ledger::has_pair(old(ledger).bans_view(), config_id@, ip@),
        forall|i: int| 0 <= i < r.unbanned@.len() ==> crate::ledger::of_pair(#[trigger] r.unbanned@[i]@, config_id@, ip@),
        r.events@.len() == r.unbanned@.len(),
        forall|i: int| 0 <= i < r.events@.len() ==> #[trigger] r.events@[i].view_parts() == (
            EventKind::Unban,
            (r.unbanned@[i].config_id@, r.unbanned@[i].ip@, now),
        ),
        views(r.allow@).no_duplicates(),
        forall|x: Seq<char>| #[trigger] views(r.allow@).contains(x) <==> (bans_address(ban_views(r.unbanned@), x)
            && !bans_address(final(ledger).bans_view(), x)),
{
    let mut unbanned: Vec<BanRecord> = Vec::new();
    match ledger.remove_ban(config_id, ip) {
        Some(b) => unbanned.push(b),
        None => {},
    }
    let remaining = ledger.get_all_bans();
    let allow = addresses_to_allow(&unbanned, &remaining);
    let events = unban_events(&unbanned, now);
    Cleanup { removed_matches: 0, unbanned, events, allow }
}

/// Whether the ban `b` is still in force at `now` under the configuration of its
/// source: less than the source's ban duration has passed since it was made.
pub open spec fn ban_active(b: RecordView, configs: Seq<Config>, now: u64) -> bool {
    exists|k: int|
        0 <= k < configs.len() && #[trigger] configs[k].id@ == b.0 && (if now >= b.2 {
            (now - b.2) as u64
        } else {
            0u64
        }) < configs[k].ban_time
}

/// The addresses whose rule is put back at startup: those of stored bans still in
/// force at `now` for a configured source, each once, in order of first appearance.
pub fn restore_bans(bans: &Vec<BanRecord>, configs: &Vec<Config>, now: u64) -> (r: Vec<String>)
    ensures
        views(r@).no_duplicates(),
        forall|x: Seq<char>| #[trigger] views(r@).contains(x) <==> exists|i: int|
            0 <= i < bans@.len() && (#[trigger] bans@[i]).ip@ == x && ban_active(bans@[i]@, configs@, now),
{
    let mut out: Vec<String> = Vec::new();
    let mut i: usize = 0;
    while i < bans.len()
        invariant
            i <= bans@.len(),
            views(out@).no_duplicates(),
            forall|x: Seq<char>| #[trigger] views(out@).contains(x) <==> exists|j: int|
                0 <= j < i && (#[trigger] bans@[j]).ip@ == x && ban_active(bans@[j]@, configs@, now),
        decreases bans@.len() - i,
    {
        let b = &bans[i];
        let active = active_exec(b, configs, now);
        let ghost before = views(out@);
        if active && !contains_string(&out, &b.ip) {
            out.push(b.ip.clone());
            assert(views(out@) =~= before.push(b.ip@));
        }
        assert forall|x: Seq<char>| #[trigger] views(out@).contains(x) <==> exists|j: int|
            0 <= j < i + 1 && (#[trigger] bans@[j]).ip@ == x && ban_active(bans@[j]@, configs@, now) by {
            if views(out@).contains(x) && !before.contains(x) {
                assert(views(out@)[before.len() as int] == b.ip@);
                let k = choose|k: int| 0 <= k < views(out@).len() && views(out@)[k] == x;
                if k < before.len() {
                    assert(before[k] == x);
                }
                assert(bans@[i as int].ip@ == x);
            }
            if before.contains(x) {
                let k = choose|k: int| 0 <= k < before.len() && before[k] == x;
                assert(views(out@)[k] == x);
            }
            if exists|j: int| 0 <= j < i + 1 && (#[trigger] bans@[j]).ip@ == x && ban_active(bans@[j]@, configs@, now) {
                let j = choose|j: int| 0 <= j < i + 1 && (#[trigger] bans@[j]).ip@ == x && ban_active(bans@[j]@, configs@, now);
                if j == i && !before.contains(x) {
                    assert(views(out@)[before.len() as int] == x);
                }
            }
        }
        i = i + 1;
    }
    out
}

fn active_exec(b: &BanRecord, configs: &Vec<Config>, now: u64) -> (r: bool)
    ensures
        r == ban_active(b@, configs@, now),
{
    let age: u64 = if now >= b.timestamp { now - b.timestamp } else { 0 };
    let mut k: usize = 0;
    while k < configs.len()
        invariant
            k <= configs@.len(),
            age == (if now >= b.timestamp { (now - b.timestamp) as u64 } else { 0u64 }),
            forall|j: int| 0 <= j < k ==> !(#[trigger] configs@[j].id@ == b@.0 && age < configs@[j].ban_time),
        decreases configs@.len() - k,
    {
        if configs[k].id == b.config_id && age < configs[k].ban_time {
            return true;
        }
        k = k + 1;
    }
    false
}

} // verus!
