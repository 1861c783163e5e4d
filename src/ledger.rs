//! The ban and match ledger: sliding-window counting, the ban decision, ban
//! queries and the expiry sweep, over records of (source, address, timestamp).
//! `MemoryLedger` keeps the records in memory; the same rules are applied to the
//! persistent store in `store`.

use vstd::prelude::*;
use crate::config::Config;

verus! {

/// A record as the rules see it: source identifier, address, timestamp in milliseconds.
pub type RecordView = (Seq<char>, Seq<char>, u64);

/// One observed offending line.
pub struct MatchRecord {
    pub config_id: String,
    pub ip: String,
    pub timestamp: u64,
}

/// One active ban.
pub struct BanRecord {
    pub config_id: String,
    pub ip: String,
    pub timestamp: u64,
}

impl View for MatchRecord {
    type V = RecordView;

    open spec fn view(&self) -> RecordView {
        (self.config_id@, self.ip@, self.timestamp)
    }
}

impl View for BanRecord {
    type V = RecordView;

    open spec fn view(&self) -> RecordView {
        (self.config_id@, self.ip@, self.timestamp)
    }
}

/// The views of a sequence of match records.
pub open spec fn match_views(s: Seq<MatchRecord>) -> Seq<RecordView> {
    s.map_values(|r: MatchRecord| r@)
}

/// The views of a sequence of ban records.
pub open spec fn ban_views(s: Seq<BanRecord>) -> Seq<RecordView> {
    s.map_values(|r: BanRecord| r@)
}

/// The earliest timestamp inside a window of `window` milliseconds ending at `now`
/// (zero where the window reaches back past the epoch).
pub open spec fn window_start(now: u64, window: u64) -> u64 {
    if now >= window { (now - window) as u64 } else { 0 }
}

/// Whether a record belongs to the pair (`source`, `addr`).
pub open spec fn of_pair(r: RecordView, source: Seq<char>, addr: Seq<char>) -> bool {
    r.0 == source && r.1 == addr
}

/// The number of records of the pair whose timestamp is at or after `cutoff`.
pub open spec fn count_since(h: Seq<RecordView>, source: Seq<char>, addr: Seq<char>, cutoff: u64) -> nat
    decreases h.len(),
{
    if h.len() == 0 {
        0
    } else {
        count_since(h.drop_last(), source, addr, cutoff) + if of_pair(h.last(), source, addr)
            && h.last().2 >= cutoff {
            1nat
        } else {
            0nat
        }
    }
}

/// The records of the pair, in order.
pub open spec fn pair_history(h: Seq<RecordView>, source: Seq<char>, addr: Seq<char>) -> Seq<RecordView>
    decreases h.len(),
{
    if h.len() == 0 {
        h
    } else if of_pair(h.last(), source, addr) {
        pair_history(h.drop_last(), source, addr).push(h.last())
    } else {
        pair_history(h.drop_last(), source, addr)
    }
}

/// Whether some record of the pair is present.
pub open spec fn has_pair(h: Seq<RecordView>, source: Seq<char>, addr: Seq<char>) -> bool {
    exists|i: int| 0 <= i < h.len() && of_pair(#[trigger] h[i], source, addr)
}

/// No pair has two records.
pub open spec fn pairs_unique(h: Seq<RecordView>) -> bool {
    forall|i: int, j: int|
        0 <= i < j < h.len() ==> !(#[trigger] h[i].0 == #[trigger] h[j].0 && h[i].1 == h[j].1)
}

/// The ban decision: the match just observed counts toward the threshold, and an
/// address already banned is not banned again.
pub open spec fn should_ban(count_before: nat, max_matches: u32, already_banned: bool) -> bool {
    count_before + 1 >= max_matches && !already_banned
}

/// Decides whether the match just observed bans its address.
pub fn ban_decision(count_before: usize, max_matches: u32, already_banned: bool) -> (r: bool)
    ensures
        r == should_ban(count_before as nat, max_matches, already_banned),
{
    !already_banned && (max_matches == 0 || count_before >= (max_matches - 1) as usize)
}

/// Whether a record has aged out: its timestamp is before the start of a window
/// of `keep` milliseconds ending at `now`.
pub open spec fn expired(r: RecordView, now: u64, keep: u64) -> bool {
    r.2 < window_start(now, keep)
}

/// The match records that a sweep at `now` removes: those of a configured source
/// older than that source's find window.
pub open spec fn match_expired(r: RecordView, configs: Seq<Config>, now: u64) -> bool {
    exists|k: int|
        0 <= k < configs.len() && #[trigger] configs[k].id@ == r.0 && expired(r, now, configs[k].find_time)
}

/// The ban records that a sweep at `now` removes: those of a configured source
/// older than that source's ban duration.
pub open spec fn ban_expired(r: RecordView, configs: Seq<Config>, now: u64) -> bool {
    exists|k: int|
        0 <= k < configs.len() && #[trigger] configs[k].id@ == r.0 && expired(r, now, configs[k].ban_time)
}

/// `h` without the records that `gone` selects, in order.
pub open spec fn keep_unless(h: Seq<RecordView>, gone: spec_fn(RecordView) -> bool) -> Seq<RecordView>
    decreases h.len(),
{
    if h.len() == 0 {
        h
    } else if gone(h.last()) {
        keep_unless(h.drop_last(), gone)
    } else {
        keep_unless(h.drop_last(), gone).push(h.last())
    }
}

/// `h` restricted to the records that `gone` selects, in order.
pub open spec fn select(h: Seq<RecordView>, gone: spec_fn(RecordView) -> bool) -> Seq<RecordView>
    decreases h.len(),
{
    if h.len() == 0 {
        h
    } else if gone(h.last()) {
        select(h.drop_last(), gone).push(h.last())
    } else {
        select(h.drop_last(), gone)
    }
}

/// Counts the records of the pair at or after `cutoff`.
pub fn count_records(h: &Vec<MatchRecord>, source: &String, addr: &String, cutoff: u64) -> (r: usize)
    ensures
        r as nat == count_since(match_views(h@), source@, addr@, cutoff),
{
    let mut count: usize = 0;
    let mut i: usize = 0;
    while i < h.len()
        invariant
            i <= h@.len(),
            count <= i,
            count as nat == count_since(match_views(h@).subrange(0, i as int), source@, addr@, cutoff),
        decreases h@.len() - i,
    {
        let r = &h[i];
        let ghost pre = match_views(h@).subrange(0, i as int + 1);
        assert(pre.drop_last() =~= match_views(h@).subrange(0, i as int));
        assert(pre.last() == r@);
        if r.config_id == *source && r.ip == *addr && r.timestamp >= cutoff {
            count = count + 1;
        }
        i = i + 1;
    }
    assert(match_views(h@).subrange(0, h@.len() as int) =~= match_views(h@));
    count
}

/// Whether a ban record of the pair is present.
pub fn find_ban(h: &Vec<BanRecord>, source: &String, addr: &String) -> (r: Option<usize>)
    ensures
        r matches Some(i) ==> i < h@.len() && of_pair(h@[i as int]@, source@, addr@),
        r is None <==> !has_pair(ban_views(h@), source@, addr@),
{
    let mut i: usize = 0;
    while i < h.len()
        invariant
            i <= h@.len(),
            forall|k: int| 0 <= k < i ==> !of_pair(#[trigger] ban_views(h@)[k], source@, addr@),
        decreases h@.len() - i,
    {
        if h[i].config_id == *source && h[i].ip == *addr {
            assert(of_pair(ban_views(h@)[i as int], source@, addr@));
            return Some(i);
        }
        assert(ban_views(h@)[i as int] == h@[i as int]@);
        i = i + 1;
    }
    None
}

/// A record of `keep_unless(h, gone)` is a record of `h` that `gone` does not
/// select, and every such record is kept; likewise `select` keeps exactly the
/// records that `gone` selects.
pub proof fn lemma_keep_select_members(h: Seq<RecordView>, gone: spec_fn(RecordView) -> bool, x: RecordView)
    ensures
        keep_unless(h, gone).contains(x) <==> (h.contains(x) && !gone(x)),
        select(h, gone).contains(x) <==> (h.contains(x) && gone(x)),
    decreases h.len(),
{
    if h.len() > 0 {
        let p = h.drop_last();
        lemma_keep_select_members(p, gone, x);
        assert(h =~= p.push(h.last()));
        if h.contains(x) && x != h.last() {
            let i = choose|i: int| 0 <= i < h.len() && h[i] == x;
            assert(i < p.len());
            assert(p[i] == x);
        }
        if p.contains(x) {
            let i = choose|i: int| 0 <= i < p.len() && p[i] == x;
            assert(h[i] == x);
        }
        assert(h[h.len() - 1] == h.last());
        let k = keep_unless(p, gone);
        let s = select(p, gone);
        if k.push(h.last()).contains(x) && x != h.last() {
            let i = choose|i: int| 0 <= i < k.len() + 1 && k.push(h.last())[i] == x;
            assert(k[i] == x);
        }
        if s.push(h.last()).contains(x) && x != h.last() {
            let i = choose|i: int| 0 <= i < s.len() + 1 && s.push(h.last())[i] == x;
            assert(s[i] == x);
        }
        if k.contains(x) {
            let i = choose|i: int| 0 <= i < k.len() && k[i] == x;
            assert(k.push(h.last())[i] == x);
        }
        if s.contains(x) {
            let i = choose|i: int| 0 <= i < s.len() && s[i] == x;
            assert(s.push(h.last())[i] == x);
        }
        assert(k.push(h.last())[k.len() as int] == h.last());
        assert(s.push(h.last())[s.len() as int] == h.last());
    }
}

/// A sweep at `now` removes a record if and only if it has aged out: no record
/// goes before its source's cutoff, and every record past it goes. The records
/// removed are exactly those aged out, and nothing else is touched.
pub proof fn lemma_sweep_exact(
    matches: Seq<RecordView>,
    bans: Seq<RecordView>,
    configs: Seq<Config>,
    now: u64,
    x: RecordView,
)
    ensures
        keep_unless(matches, |r: RecordView| match_expired(r, configs, now)).contains(x) <==> (
        matches.contains(x) && !match_expired(x, configs, now)),
        keep_unless(bans, |r: RecordView| ban_expired(r, configs, now)).contains(x) <==> (
        bans.contains(x) && !ban_expired(x, configs, now)),
        select(bans, |r: RecordView| ban_expired(r, configs, now)).contains(x) <==> (bans.contains(x)
            && ban_expired(x, configs, now)),
        select(matches, |r: RecordView| match_expired(r, configs, now)).contains(x) <==> (
        matches.contains(x) && match_expired(x, configs, now)),
{
    lemma_keep_select_members(matches, |r: RecordView| match_expired(r, configs, now), x);
    lemma_keep_select_members(bans, |r: RecordView| ban_expired(r, configs, now), x);
}

proof fn lemma_keep_unless_unique(h: Seq<RecordView>, gone: spec_fn(RecordView) -> bool)
    requires
        pairs_unique(h),
    ensures
        pairs_unique(keep_unless(h, gone)),
    decreases h.len(),
{
    if h.len() > 0 {
        let p = h.drop_last();
        assert(pairs_unique(p)) by {
            assert forall|i: int, j: int| 0 <= i < j < p.len() implies !(#[trigger] p[i].0
                == #[trigger] p[j].0 && p[i].1 == p[j].1) by {
                assert(p[i] == h[i] && p[j] == h[j]);
            }
        }
        lemma_keep_unless_unique(p, gone);
        if !gone(h.last()) {
            let k = keep_unless(p, gone);
            let q = k.push(h.last());
            assert forall|i: int, j: int| 0 <= i < j < q.len() implies !(#[trigger] q[i].0
                == #[trigger] q[j].0 && q[i].1 == q[j].1) by {
                if j == k.len() {
                    assert(q[i] == k[i]);
                    assert(k.contains(k[i]));
                    lemma_keep_select_members(p, gone, k[i]);
                    let m = choose|m: int| 0 <= m < p.len() && p[m] == k[i];
                    assert(h[m] == p[m]);
                    assert(q[j] == h[h.len() - 1]);
                } else {
                    assert(q[i] == k[i] && q[j] == k[j]);
                }
            }
        }
    }
}

proof fn lemma_select_unique(h: Seq<RecordView>, gone: spec_fn(RecordView) -> bool)
    requires
        pairs_unique(h),
    ensures
        pairs_unique(select(h, gone)),
    decreases h.len(),
{
    if h.len() > 0 {
        let p = h.drop_last();
        assert(pairs_unique(p)) by {
            assert forall|i: int, j: int| 0 <= i < j < p.len() implies !(#[trigger] p[i].0
                == #[trigger] p[j].0 && p[i].1 == p[j].1) by {
                assert(p[i] == h[i] && p[j] == h[j]);
            }
        }
        lemma_select_unique(p, gone);
        if gone(h.last()) {
            let k = select(p, gone);
            let q = k.push(h.last());
            assert forall|i: int, j: int| 0 <= i < j < q.len() implies !(#[trigger] q[i].0
                == #[trigger] q[j].0 && q[i].1 == q[j].1) by {
                if j == k.len() {
                    assert(q[i] == k[i]);
                    assert(k.contains(k[i]));
                    lemma_keep_select_members(p, gone, k[i]);
                    let m = choose|m: int| 0 <= m < p.len() && p[m] == k[i];
                    assert(h[m] == p[m]);
                    assert(q[j] == h[h.len() - 1]);
                } else {
                    assert(q[i] == k[i] && q[j] == k[j]);
                }
            }
        }
    }
}

/// The ban records that a sweep at `now` removes, in order.
pub open spec fn expired_bans(bans: Seq<RecordView>, configs: Seq<Config>, now: u64) -> Seq<RecordView> {
    select(bans, |r: RecordView| ban_expired(r, configs, now))
}

/// The ban records that a sweep at `now` keeps, in order.
pub open spec fn live_bans(bans: Seq<RecordView>, configs: Seq<Config>, now: u64) -> Seq<RecordView> {
    keep_unless(bans, |r: RecordView| ban_expired(r, configs, now))
}

/// A ban that has aged out by a sweep is removed by it, once: it is among the
/// removed records, no other removed record belongs to its pair (so a single
/// unban event carries it), and no ban of its pair remains.
pub proof fn lemma_expired_ban_removed_once(bans: Seq<RecordView>, configs: Seq<Config>, now: u64, b: RecordView)
    requires
        pairs_unique(bans),
        bans.contains(b),
        ban_expired(b, configs, now),
    ensures
        expired_bans(bans, configs, now).contains(b),
        forall|i: int|
            0 <= i < expired_bans(bans, configs, now).len() && of_pair(
                #[trigger] expired_bans(bans, configs, now)[i],
                b.0,
                b.1,
            ) ==> expired_bans(bans, configs, now)[i] == b,
        !has_pair(live_bans(bans, configs, now), b.0, b.1),
{
    let gone = |r: RecordView| ban_expired(r, configs, now);
    lemma_keep_select_members(bans, gone, b);
    lemma_select_unique(bans, gone);
    let s = select(bans, gone);
    let k = keep_unless(bans, gone);
    assert forall|i: int| 0 <= i < s.len() && of_pair(#[trigger] s[i], b.0, b.1) implies s[i] == b by {
        let j = choose|j: int| 0 <= j < s.len() && s[j] == b;
        if i != j {
            if i < j {
                assert(!(s[i].0 == s[j].0 && s[i].1 == s[j].1));
            } else {
                assert(!(s[j].0 == s[i].0 && s[j].1 == s[i].1));
            }
        }
    }
    if has_pair(k, b.0, b.1) {
        let i = choose|i: int| 0 <= i < k.len() && of_pair(#[trigger] k[i], b.0, b.1);
        assert(k.contains(k[i]));
        lemma_keep_select_members(bans, gone, k[i]);
        let m = choose|m: int| 0 <= m < bans.len() && bans[m] == k[i];
        let n = choose|n: int| 0 <= n < bans.len() && bans[n] == b;
        if m != n {
            if m < n {
                assert(!(bans[m].0 == bans[n].0 && bans[m].1 == bans[n].1));
            } else {
                assert(!(bans[n].0 == bans[m].0 && bans[n].1 == bans[m].1));
            }
        }
    }
}

/// Where no two configurations share an identifier, the sweep's cutoff for a
/// record of a configured source is that source's own: a match record goes if
/// and only if it is older than the source's find window, a ban record if and
/// only if it is older than the source's ban duration.
pub proof fn lemma_sweep_cutoff_per_source(configs: Seq<Config>, k: int, r: RecordView, now: u64)
    requires
        0 <= k < configs.len(),
        configs.map_values(|c: Config| c.id@).no_duplicates(),
        r.0 == configs[k].id@,
    ensures
        match_expired(r, configs, now) <==> r.2 < window_start(now, configs[k].find_time),
        ban_expired(r, configs, now) <==> r.2 < window_start(now, configs[k].ban_time),
{
    let ids = configs.map_values(|c: Config| c.id@);
    assert forall|j: int| 0 <= j < configs.len() && #[trigger] configs[j].id@ == r.0 implies j == k by {
        assert(ids[j] == configs[j].id@ && ids[k] == configs[k].id@);
    }
}

/// Copies a match record.
pub fn copy_match(r: &MatchRecord) -> (c: MatchRecord)
    ensures
        c@ == r@,
{
    MatchRecord { config_id: r.config_id.clone(), ip: r.ip.clone(), timestamp: r.timestamp }
}

/// Copies a ban record.
pub fn copy_ban(r: &BanRecord) -> (c: BanRecord)
    ensures
        c@ == r@,
{
    BanRecord { config_id: r.config_id.clone(), ip: r.ip.clone(), timestamp: r.timestamp }
}

/// Whether a sweep at `now` removes the match record `r`.
pub fn match_expired_exec(r: &MatchRecord, configs: &Vec<Config>, now: u64) -> (b: bool)
    ensures
        b == match_expired(r@, configs@, now),
{
    let mut k: usize = 0;
    while k < configs.len()
        invariant
            k <= configs@.len(),
            forall|j: int| 0 <= j < k ==> !(#[trigger] configs@[j].id@ == r@.0 && expired(r@, now, configs@[j].find_time)),
        decreases configs@.len() - k,
    {
        let c = &configs[k];
        let start: u64 = if now >= c.find_time { now - c.find_time } else { 0 };
        if c.id == r.config_id && r.timestamp < start {
            return true;
        }
        k = k + 1;
    }
    false
}

/// Whether a sweep at `now` removes the ban record `r`.
pub fn ban_expired_exec(r: &BanRecord, configs: &Vec<Config>, now: u64) -> (b: bool)
    ensures
        b == ban_expired(r@, configs@, now),
{
    let mut k: usize = 0;
    while k < configs.len()
        invariant
            k <= configs@.len(),
            forall|j: int| 0 <= j < k ==> !(#[trigger] configs@[j].id@ == r@.0 && expired(r@, now, configs@[j].ban_time)),
        decreases configs@.len() - k,
    {
        let c = &configs[k];
        let start: u64 = if now >= c.ban_time { now - c.ban_time } else { 0 };
        if c.id == r.config_id && r.timestamp < start {
            return true;
        }
        k = k + 1;
    }
    false
}

/// What one sweep removed.
pub struct SweepOutcome {
    /// How many match records were removed.
    pub removed_matches: usize,
    /// The ban records removed, each of which calls for an unban.
    pub unbanned: Vec<BanRecord>,
}

/// The ledger kept in memory.
pub struct MemoryLedger {
    matches: Vec<MatchRecord>,
    bans: Vec<BanRecord>,
}

impl MemoryLedger {
    /// The match records, in order of insertion.
    pub closed spec fn matches_view(&self) -> Seq<RecordView> {
        match_views(self.matches@)
    }

    /// The ban records, in order of insertion.
    pub closed spec fn bans_view(&self) -> Seq<RecordView> {
        ban_views(self.bans@)
    }

    /// At most one ban record per (source, address) pair.
    pub open spec fn wf(&self) -> bool {
        pairs_unique(self.bans_view())
    }

    /// An empty ledger.
    pub fn new() -> (r: MemoryLedger)
        ensures
            r.wf(),
            r.matches_view().len() == 0,
            r.bans_view().len() == 0,
    {
        MemoryLedger { matches: Vec::new(), bans: Vec::new() }
    }

    /// Every ban record, in order of insertion.
    pub fn get_all_bans(&self) -> (r: Vec<BanRecord>)
        ensures
            ban_views(r@) == self.bans_view(),
    {
        let mut out: Vec<BanRecord> = Vec::new();
        let mut i: usize = 0;
        while i < self.bans.len()
            invariant
                i <= self.bans@.len(),
                ban_views(out@) == ban_views(self.bans@).subrange(0, i as int),
            decreases self.bans@.len() - i,
        {
            let ghost prev = out@;
            out.push(copy_ban(&self.bans[i]));
            assert(ban_views(out@) =~= ban_views(prev).push(self.bans@[i as int]@));
            assert(ban_views(self.bans@).subrange(0, i as int + 1) =~= ban_views(self.bans@).subrange(0, i as int).push(
                self.bans@[i as int]@,
            ));
            i = i + 1;
        }
        assert(ban_views(self.bans@).subrange(0, self.bans@.len() as int) =~= ban_views(self.bans@));
        out
    }

    /// Every match record, in order of insertion.
    pub fn get_all_matches(&self) -> (r: Vec<MatchRecord>)
        ensures
            match_views(r@) == self.matches_view(),
    {
        let mut out: Vec<MatchRecord> = Vec::new();
        let mut i: usize = 0;
        while i < self.matches.len()
            invariant
                i <= self.matches@.len(),
                match_views(out@) == match_views(self.matches@).subrange(0, i as int),
            decreases self.matches@.len() - i,
        {
            let ghost prev = out@;
            out.push(copy_match(&self.matches[i]));
            assert(match_views(out@) =~= match_views(prev).push(self.matches@[i as int]@));
            assert(match_views(self.matches@).subrange(0, i as int + 1) =~= match_views(self.matches@).subrange(
                0,
                i as int,
            ).push(self.matches@[i as int]@));
            i = i + 1;
        }
        assert(match_views(self.matches@).subrange(0, self.matches@.len() as int) =~= match_views(self.matches@));
        out
    }

    /// The match records of a source, in order of insertion.
    pub fn get_matches_for_config(&self, config_id: &str) -> (r: Vec<MatchRecord>)
        ensures
            match_views(r@) == select(self.matches_view(), |x: RecordView| x.0 == config_id@),
    {
        let ghost mine = |x: RecordView| x.0 == config_id@;
        let source = config_id.to_string();
        let mut out: Vec<MatchRecord> = Vec::new();
        let mut i: usize = 0;
        while i < self.matches.len()
            invariant
                i <= self.matches@.len(),
                source@ == config_id@,
                mine == (|x: RecordView| x.0 == config_id@),
                match_views(out@) == select(match_views(self.matches@).subrange(0, i as int), mine),
            decreases self.matches@.len() - i,
        {
            let ghost pre = match_views(self.matches@).subrange(0, i as int + 1);
            assert(pre.drop_last() =~= match_views(self.matches@).subrange(0, i as int));
            assert(pre.last() == self.matches@[i as int]@);
            let ghost prev = out@;
            if self.matches[i].config_id == source {
                out.push(copy_match(&self.matches[i]));
                assert(match_views(out@) =~= match_views(prev).push(self.matches@[i as int]@));
            }
            i = i + 1;
        }
        assert(match_views(self.matches@).subrange(0, self.matches@.len() as int) =~= match_views(self.matches@));
        out
    }

    /// The ban records of a source, in order of insertion.
    pub fn get_bans_for_config(&self, config_id: &str) -> (r: Vec<BanRecord>)
        ensures
            ban_views(r@) == select(self.bans_view(), |x: RecordView| x.0 == config_id@),
    {
        let ghost mine = |x: RecordView| x.0 == config_id@;
        let source = config_id.to_string();
        let mut out: Vec<BanRecord> = Vec::new();
        let mut i: usize = 0;
        while i < self.bans.len()
            invariant
                i <= self.bans@.len(),
                source@ == config_id@,
                mine == (|x: RecordView| x.0 == config_id@),
                ban_views(out@) == select(ban_views(self.bans@).subrange(0, i as int), mine),
            decreases self.bans@.len() - i,
        {
            let ghost pre = ban_views(self.bans@).subrange(0, i as int + 1);
            assert(pre.drop_last() =~= ban_views(self.bans@).subrange(0, i as int));
            assert(pre.last() == self.bans@[i as int]@);
            let ghost prev = out@;
            if self.bans[i].config_id == source {
                out.push(copy_ban(&self.bans[i]));
                assert(ban_views(out@) =~= ban_views(prev).push(self.bans@[i as int]@));
            }
            i = i + 1;
        }
        assert(ban_views(self.bans@).subrange(0, self.bans@.len() as int) =~= ban_views(self.bans@));
        out
    }

    /// Appends a match record.
    pub fn add_match(&mut self, config_id: &str, ip: &str, timestamp: u64)
        requires
            old(self).wf(),
        ensures
            final(self).wf(),
            final(self).matches_view() == old(self).matches_view().push((config_id@, ip@, timestamp)),
            final(self).bans_view() == old(self).bans_view(),
    {
        let r = MatchRecord { config_id: config_id.to_string(), ip: ip.to_string(), timestamp };
        self.matches.push(r);
        assert(self.matches_view() =~= old(self).matches_view().push((config_id@, ip@, timestamp)));
    }

    /// Counts the match records of the pair inside the window of `find_time`
    /// milliseconds ending at `now`.
    pub fn count_matches(&self, config_id: &str, ip: &str, find_time: u64, now: u64) -> (r: usize)
        ensures
            r as nat == count_since(self.matches_view(), config_id@, ip@, window_start(now, find_time)),
    {
        let cutoff: u64 = if now >= find_time { now - find_time } else { 0 };
        count_records(&self.matches, &config_id.to_string(), &ip.to_string(), cutoff)
    }

    /// Whether the pair is under an active ban.
    pub fn is_banned(&self, config_id: &str, ip: &str) -> (r: bool)
        ensures
            r == has_pair(self.bans_view(), config_id@, ip@),
    {
        find_ban(&self.bans, &config_id.to_string(), &ip.to_string()).is_some()
    }

    /// Records a ban of the pair, unless one is already recorded; says whether it was added.
    pub fn add_ban(&mut self, config_id: &str, ip: &str, timestamp: u64) -> (added: bool)
        requires
            old(self).wf(),
        ensures
            final(self).wf(),
            added == !has_pair(old(self).bans_view(), config_id@, ip@),
            final(self).bans_view() == if added {
                old(self).bans_view().push((config_id@, ip@, timestamp))
            } else {
                old(self).bans_view()
            },
            final(self).matches_view() == old(self).matches_view(),
    {
        if self.is_banned(config_id, ip) {
            return false;
        }
        let r = BanRecord { config_id: config_id.to_string(), ip: ip.to_string(), timestamp };
        self.bans.push(r);
        let ghost b = self.bans_view();
        assert(b =~= old(self).bans_view().push((config_id@, ip@, timestamp)));
        assert forall|i: int, j: int| 0 <= i < j < b.len() implies !(#[trigger] b[i].0
            == #[trigger] b[j].0 && b[i].1 == b[j].1) by {
            if j == b.len() - 1 {
                assert(b[i] == old(self).bans_view()[i]);
            } else {
                assert(b[i] == old(self).bans_view()[i] && b[j] == old(self).bans_view()[j]);
            }
        }
        true
    }

    /// The ban decision for one accepted match of `ip` at `now`: counts the pair's
    /// matches in the window, records the new match, and bans the pair where the
    /// count including this match reaches the threshold and no ban is active.
    /// Says whether a ban was recorded, which calls for a deny and a ban event.
    pub fn process_match(&mut self, config: &Config, ip: &str, now: u64) -> (banned: bool)
        requires
            old(self).wf(),
        ensures
            final(self).wf(),
            banned == should_ban(
                count_since(old(self).matches_view(), config.id@, ip@, window_start(now, config.find_time)),
                config.max_matches,
                has_pair(old(self).bans_view(), config.id@, ip@),
            ),
            final(self).matches_view() == old(self).matches_view().push((config.id@, ip@, now)),
            final(self).bans_view() == if banned {
                old(self).bans_view().push((config.id@, ip@, now))
            } else {
                old(self).bans_view()
            },
            (final(self).matches_view(), final(self).bans_view(), banned) == crate::engine::match_step(
                old(self).matches_view(),
                old(self).bans_view(),
                config.id@,
                ip@,
                config.find_time,
                config.max_matches,
                now,
            ),
    {
        let count = self.count_matches(config.id.as_str(), ip, config.find_time, now);
        self.add_match(config.id.as_str(), ip, now);
        let already = self.is_banned(config.id.as_str(), ip);
        if ban_decision(count, config.max_matches, already) {
            self.add_ban(config.id.as_str(), ip, now)
        } else {
            false
        }
    }

    /// Removes the active ban of the pair, if any, and returns it: the explicit unban.
    pub fn remove_ban(&mut self, config_id: &str, ip: &str) -> (r: Option<BanRecord>)
        requires
            old(self).wf(),
        ensures
            final(self).wf(),
            r is Some <==> has_pair(old(self).bans_view(), config_id@, ip@),
            r matches Some(b) ==> of_pair(b@, config_id@, ip@) && old(self).bans_view().contains(b@),
            final(self).bans_view() == keep_unless(
                old(self).bans_view(),
                |x: RecordView| of_pair(x, config_id@, ip@),
            ),
            final(self).matches_view() == old(self).matches_view(),
    {
        let ghost gone = |x: RecordView| of_pair(x, config_id@, ip@);
        let source = config_id.to_string();
        let addr = ip.to_string();
        let mut kept: Vec<BanRecord> = Vec::new();
        let mut removed: Option<BanRecord> = None;
        let mut i: usize = 0;
        while i < self.bans.len()
            invariant
                i <= self.bans@.len(),
                self.bans@ == old(self).bans@,
                source@ == config_id@,
                addr@ == ip@,
                gone == (|x: RecordView| of_pair(x, config_id@, ip@)),
                ban_views(kept@) == keep_unless(ban_views(self.bans@).subrange(0, i as int), gone),
                removed is Some <==> has_pair(ban_views(self.bans@).subrange(0, i as int), config_id@, ip@),
                removed matches Some(b) ==> of_pair(b@, config_id@, ip@) && ban_views(self.bans@).contains(b@),
            decreases self.bans@.len() - i,
        {
            let ghost pre = ban_views(self.bans@).subrange(0, i as int + 1);
            assert(pre.drop_last() =~= ban_views(self.bans@).subrange(0, i as int));
            assert(pre.last() == self.bans@[i as int]@);
            let r = &self.bans[i];
            let ghost old_kept = kept@;
            if r.config_id == source && r.ip == addr {
                assert(ban_views(self.bans@)[i as int] == r@);
                assert(pre[i as int] == r@);
                removed = Some(copy_ban(r));
            } else {
                kept.push(copy_ban(r));
                assert(ban_views(kept@) =~= ban_views(old_kept).push(r@));
                assert(has_pair(pre, config_id@, ip@) ==> has_pair(pre.drop_last(), config_id@, ip@)) by {
                    if has_pair(pre, config_id@, ip@) {
                        let k = choose|k: int| 0 <= k < pre.len() && of_pair(#[trigger] pre[k], config_id@, ip@);
                        assert(pre.drop_last()[k] == pre[k]);
                    }
                }
            }
            assert(has_pair(pre.drop_last(), config_id@, ip@) ==> has_pair(pre, config_id@, ip@)) by {
                if has_pair(pre.drop_last(), config_id@, ip@) {
                    let k = choose|k: int| 0 <= k < pre.drop_last().len() && of_pair(#[trigger] pre.drop_last()[k], config_id@, ip@);
                    assert(pre[k] == pre.drop_last()[k]);
                }
            }
            i = i + 1;
        }
        assert(ban_views(self.bans@).subrange(0, self.bans@.len() as int) =~= ban_views(self.bans@));
        proof {
            lemma_keep_unless_unique(old(self).bans_view(), gone);
        }
        self.bans = kept;
        removed
    }

    /// Removes the records that have aged out at `now`: matches older than their
    /// source's find window and bans older than their source's ban duration.
    /// Records of sources absent from `configs` stay.
    pub fn sweep(&mut self, configs: &Vec<Config>, now: u64) -> (r: SweepOutcome)
        requires
            old(self).wf(),
        ensures
            final(self).wf(),
            final(self).matches_view() == keep_unless(
                old(self).matches_view(),
                |x: RecordView| match_expired(x, configs@, now),
            ),
            final(self).bans_view() == live_bans(old(self).bans_view(), configs@, now),
            ban_views(r.unbanned@) == expired_bans(old(self).bans_view(), configs@, now),
            r.removed_matches as nat == select(
                old(self).matches_view(),
                |x: RecordView| match_expired(x, configs@, now),
            ).len(),
    {
        let ghost mgone = |x: RecordView| match_expired(x, configs@, now);
        let ghost bgone = |x: RecordView| ban_expired(x, configs@, now);
        let mut kept_m: Vec<MatchRecord> = Vec::new();
        let mut removed_matches: usize = 0;
        let mut i: usize = 0;
        while i < self.matches.len()
            invariant
                i <= self.matches@.len(),
                self.matches@ == old(self).matches@,
                mgone == (|x: RecordView| match_expired(x, configs@, now)),
                match_views(kept_m@) == keep_unless(match_views(self.matches@).subrange(0, i as int), mgone),
                removed_matches as nat == select(match_views(self.matches@).subrange(0, i as int), mgone).len(),
                removed_matches <= i,
            decreases self.matches@.len() - i,
        {
            let ghost pre = match_views(self.matches@).subrange(0, i as int + 1);
            assert(pre.drop_last() =~= match_views(self.matches@).subrange(0, i as int));
            assert(pre.last() == self.matches@[i as int]@);
            let r = &self.matches[i];
            let ghost old_kept = kept_m@;
            if match_expired_exec(r, configs, now) {
                removed_matches = removed_matches + 1;
            } else {
                kept_m.push(copy_match(r));
                assert(match_views(kept_m@) =~= match_views(old_kept).push(r@));
            }
            i = i + 1;
        }
        assert(match_views(self.matches@).subrange(0, self.matches@.len() as int) =~= match_views(self.matches@));
        let mut kept_b: Vec<BanRecord> = Vec::new();
        let mut unbanned: Vec<BanRecord> = Vec::new();
        let mut j: usize = 0;
        while j < self.bans.len()
            invariant
                j <= self.bans@.len(),
                self.bans@ == old(self).bans@,
                bgone == (|x: RecordView| ban_expired(x, configs@, now)),
                ban_views(kept_b@) == keep_unless(ban_views(self.bans@).subrange(0, j as int), bgone),
                ban_views(unbanned@) == select(ban_views(self.bans@).subrange(0, j as int), bgone),
            decreases self.bans@.len() - j,
        {
            let ghost pre = ban_views(self.bans@).subrange(0, j as int + 1);
            assert(pre.drop_last() =~= ban_views(self.bans@).subrange(0, j as int));
            assert(pre.last() == self.bans@[j as int]@);
            let r = &self.bans[j];
            let ghost old_kept = kept_b@;
            let ghost old_un = unbanned@;
            if ban_expired_exec(r, configs, now) {
                unbanned.push(copy_ban(r));
                assert(ban_views(unbanned@) =~= ban_views(old_un).push(r@));
            } else {
                kept_b.push(copy_ban(r));
                assert(ban_views(kept_b@) =~= ban_views(old_kept).push(r@));
            }
            j = j + 1;
        }
        assert(ban_views(self.bans@).subrange(0, self.bans@.len() as int) =~= ban_views(self.bans@));
        proof {
            lemma_keep_unless_unique(old(self).bans_view(), bgone);
        }
        self.matches = kept_m;
        self.bans = kept_b;
        SweepOutcome { removed_matches, unbanned }
    }
}

} // verus!
