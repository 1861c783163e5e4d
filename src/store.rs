//! The persistent ledger, over two `sled` trees: one of match records, one of ban
//! records. A record is an empty-valued entry whose key carries all of it:
//! `match:<source>:<address>:<timestamp>` or `ban:<source>:<address>:<timestamp>`,
//! so that the records of a source, or of a (source, address) pair, are one prefix
//! scan. The store is shared with other threads and lives on disk: what a scan
//! returns is taken as it comes, and the rules are applied to it by the verified
//! functions over keys below.

use vstd::prelude::*;
use crate::config::Config;
use crate::cleaner::{addresses_to_allow, bans_address};
use crate::events::{unban_events, Event, EventKind};
use crate::ledger::{
    ban_decision, ban_expired, ban_views, count_since, has_pair, lemma_keep_select_members, match_expired,
    match_views, of_pair, window_start, select, should_ban, BanRecord, MatchRecord, RecordView,
};
use crate::text::{
    decimal, decimal_string, lemma_decimal_has_only_digits, lemma_decimal_reads_back, lemma_split_on_concat,
    lemma_split_on_single, parse_u64, split_on, split_text, u64_of, views,
};

verus! {

#[verifier::external_type_specification]
#[verifier::external_body]
pub struct ExTree(sled::Tree);

#[verifier::external_type_specification]
#[verifier::external_body]
pub struct ExSledError(sled::Error);

/// A failure of the underlying store.
#[derive(Debug, Clone, Copy, PartialEq, Eq, Structural)]
pub enum LedgerError {
    Storage,
}

/// Relies on `sled::Tree::insert`: stores `key` with an empty value.
#[verifier::external_body]
fn tree_insert(t: &sled::Tree, key: &str) -> (r: Result<(), sled::Error>) {
    t.insert(key.as_bytes(), sled::IVec::default()).map(|_| ())
}

/// Relies on `sled::Tree::remove`: removes `key` where it is present.
#[verifier::external_body]
fn tree_remove(t: &sled::Tree, key: &str) -> (r: Result<(), sled::Error>) {
    t.remove(key.as_bytes()).map(|_| ())
}

/// Relies on `sled::Tree::scan_prefix`: the keys that start with `prefix`, as text.
#[verifier::external_body]
fn tree_scan(t: &sled::Tree, prefix: &str) -> (r: Result<Vec<String>, sled::Error>)
    ensures
        r matches Ok(keys) ==> forall|i: int| 0 <= i < keys@.len() ==> prefix@.is_prefix_of(#[trigger] keys@[i]@),
{
    t.scan_prefix(prefix.as_bytes()).map(|item| item.map(|(k, _)| String::from_utf8_lossy(&k).into_owned())).collect()
}

/// Scans the keys that start with `prefix`, mapping a store failure to the
/// library's error.
fn scan(t: &sled::Tree, prefix: &str) -> (r: Result<Vec<String>, LedgerError>)
    ensures
        r matches Ok(keys) ==> all_start_with(views(keys@), prefix@),
{
    match tree_scan(t, prefix) {
        Ok(keys) => {
            assert forall|i: int| 0 <= i < views(keys@).len() implies prefix@.is_prefix_of(
                #[trigger] views(keys@)[i],
            ) by {
                assert(views(keys@)[i] == keys@[i]@);
            }
            Ok(keys)
        },
        Err(_) => Err(LedgerError::Storage),
    }
}

/// The key of a record of the given kind (`match` or `ban`).
pub open spec fn record_key(kind: Seq<char>, source: Seq<char>, addr: Seq<char>, ts: u64) -> Seq<char> {
    kind + ":"@ + source + ":"@ + addr + ":"@ + decimal(ts as nat)
}

/// The prefix of the keys of the given kind that belong to the pair.
pub open spec fn pair_prefix_of(kind: Seq<char>, source: Seq<char>, addr: Seq<char>) -> Seq<char> {
    kind + ":"@ + source + ":"@ + addr + ":"@
}

/// The prefix of the keys of the given kind that belong to a source.
pub open spec fn source_prefix_of(kind: Seq<char>, source: Seq<char>) -> Seq<char> {
    kind + ":"@ + source + ":"@
}

/// Whether every key of `keys` starts with `p`.
pub open spec fn all_start_with(keys: Seq<Seq<char>>, p: Seq<char>) -> bool {
    forall|i: int| 0 <= i < keys.len() ==> p.is_prefix_of(#[trigger] keys[i])
}

/// The ban decision on what was read from the store: the pair's stored match
/// keys `mk`, read before the new match was stored, and its stored ban keys `bk`.
pub open spec fn stored_decision(
    mk: Seq<Seq<char>>,
    bk: Seq<Seq<char>>,
    source: Seq<char>,
    addr: Seq<char>,
    find_time: u64,
    max_matches: u32,
    now: u64,
) -> bool {
    should_ban(
        count_since(key_records(mk, "match"@), source, addr, window_start(now, find_time)),
        max_matches,
        has_pair(key_records(bk, "ban"@), source, addr),
    )
}

/// The record a key of the given kind holds: four colon-separated fields, the
/// kind, the source, the address and a decimal timestamp.
pub open spec fn key_record(key: Seq<char>, kind: Seq<char>) -> Option<RecordView> {
    let f = split_on(key, ':');
    if f.len() == 4 && f[0] == kind && u64_of(f[3]) is Some {
        Some((f[1], f[2], u64_of(f[3])->0))
    } else {
        None
    }
}

/// The records that the keys of the given kind hold, in order; other keys are skipped.
pub open spec fn key_records(keys: Seq<Seq<char>>, kind: Seq<char>) -> Seq<RecordView>
    decreases keys.len(),
{
    if keys.len() == 0 {
        Seq::empty()
    } else {
        match key_record(keys.last(), kind) {
            Some(r) => key_records(keys.drop_last(), kind).push(r),
            None => key_records(keys.drop_last(), kind),
        }
    }
}

/// A record stored under its key reads back as the same record, where neither
/// the kind, the source nor the address holds a colon: the persisted history is
/// what was written, across restarts.
pub proof fn lemma_key_round_trip(kind: Seq<char>, source: Seq<char>, addr: Seq<char>, ts: u64)
    requires
        !kind.contains(':'),
        !source.contains(':'),
        !addr.contains(':'),
    ensures
        key_record(record_key(kind, source, addr, ts), kind) == Some((source, addr, ts)),
{
    reveal_strlit(":");
    let d = decimal(ts as nat);
    let c = seq![':'];
    assert(":"@ =~= c);
    lemma_decimal_has_only_digits(ts as nat, ':');
    lemma_decimal_reads_back(ts as nat);
    lemma_split_on_single(kind, ':');
    lemma_split_on_single(source, ':');
    lemma_split_on_single(addr, ':');
    lemma_split_on_single(d, ':');
    let a = kind + c + source;
    let b = a + c + addr;
    lemma_split_on_concat(kind, source, ':');
    lemma_split_on_concat(a, addr, ':');
    lemma_split_on_concat(b, d, ':');
    assert(record_key(kind, source, addr, ts) =~= b + c + d);
    let f = split_on(record_key(kind, source, addr, ts), ':');
    assert(f =~= seq![kind, source, addr, d]);
    assert(u64_of(d) == Some(ts));
}

/// The keys under which the records `recs` of the given kind are stored.
pub open spec fn keys_of(kind: Seq<char>, recs: Seq<RecordView>) -> Seq<Seq<char>> {
    recs.map_values(|x: RecordView| record_key(kind, x.0, x.1, x.2))
}

/// Whether no source or address of `recs` holds a colon.
pub open spec fn colon_free(recs: Seq<RecordView>) -> bool {
    forall|i: int| 0 <= i < recs.len() ==> !(#[trigger] recs[i]).0.contains(':') && !recs[i].1.contains(':')
}

/// The stored history reads back as written: the keys of any sequence of records,
/// whenever they were written (before or after a watcher restarted), yield those
/// same records, so counting over what is read counts every persisted record.
pub proof fn lemma_history_reads_back(kind: Seq<char>, recs: Seq<RecordView>)
    requires
        !kind.contains(':'),
        colon_free(recs),
    ensures
        key_records(keys_of(kind, recs), kind) == recs,
        forall|source: Seq<char>, addr: Seq<char>, cutoff: u64|
            #[trigger] count_since(key_records(keys_of(kind, recs), kind), source, addr, cutoff) == count_since(
                recs,
                source,
                addr,
                cutoff,
            ),
    decreases recs.len(),
{
    if recs.len() == 0 {
        assert(keys_of(kind, recs) =~= Seq::<Seq<char>>::empty());
        assert(key_records(keys_of(kind, recs), kind) =~= recs);
    } else {
        let p = recs.drop_last();
        assert(colon_free(p)) by {
            assert forall|i: int| 0 <= i < p.len() implies !(#[trigger] p[i]).0.contains(':') && !p[i].1.contains(
                ':',
            ) by {
                assert(p[i] == recs[i]);
            }
        }
        lemma_history_reads_back(kind, p);
        let x = recs.last();
        assert(x == recs[recs.len() - 1]);
        lemma_key_round_trip(kind, x.0, x.1, x.2);
        assert(keys_of(kind, recs).drop_last() =~= keys_of(kind, p));
        assert(keys_of(kind, recs).last() == record_key(kind, x.0, x.1, x.2));
        assert(p.push(x) =~= recs);
    }
}

/// Once a ban of a pair is stored, the stored ban keys that the next decision
/// reads hold it, and the decision makes no second ban of the pair, however
/// many matches the pair has.
pub proof fn lemma_stored_ban_blocks_another(
    bans: Seq<RecordView>,
    source: Seq<char>,
    addr: Seq<char>,
    ts: u64,
    count: nat,
    max_matches: u32,
)
    requires
        colon_free(bans.push((source, addr, ts))),
        bans.contains((source, addr, ts)),
    ensures
        has_pair(key_records(keys_of("ban"@, bans), "ban"@), source, addr),
        !should_ban(count, max_matches, has_pair(key_records(keys_of("ban"@, bans), "ban"@), source, addr)),
{
    reveal_strlit("ban");
    assert(!"ban"@.contains(':')) by {
        assert("ban"@ =~= seq!['b', 'a', 'n']);
    }
    assert(colon_free(bans)) by {
        assert forall|i: int| 0 <= i < bans.len() implies !(#[trigger] bans[i]).0.contains(':') && !bans[i].1.contains(
            ':',
        ) by {
            assert(bans.push((source, addr, ts))[i] == bans[i]);
        }
    }
    lemma_history_reads_back("ban"@, bans);
    let k = choose|k: int| 0 <= k < bans.len() && bans[k] == (source, addr, ts);
    assert(of_pair(key_records(keys_of("ban"@, bans), "ban"@)[k], source, addr));
}

fn key_of(kind: &str, source: &str, addr: &str, ts: u64) -> (r: String)
    ensures
        r@ == record_key(kind@, source@, addr@, ts),
{
    let mut k = String::new();
    k.append(kind);
    k.append(":");
    k.append(source);
    k.append(":");
    k.append(addr);
    k.append(":");
    let digits = decimal_string(ts);
    k.append(digits.as_str());
    assert(k@ =~= record_key(kind@, source@, addr@, ts));
    k
}

fn pair_prefix(kind: &str, source: &str, addr: &str) -> (r: String)
    ensures
        r@ == pair_prefix_of(kind@, source@, addr@),
{
    let mut k = String::new();
    k.append(kind);
    k.append(":");
    k.append(source);
    k.append(":");
    k.append(addr);
    k.append(":");
    assert(k@ =~= kind@ + ":"@ + source@ + ":"@ + addr@ + ":"@);
    k
}

fn source_prefix(kind: &str, source: &str) -> (r: String)
    ensures
        r@ == source_prefix_of(kind@, source@),
{
    let mut k = String::new();
    k.append(kind);
    k.append(":");
    k.append(source);
    k.append(":");
    assert(k@ =~= kind@ + ":"@ + source@ + ":"@);
    k
}

/// Reads the record that a key of the given kind holds.
pub fn parse_key(key: &str, kind: &str) -> (r: Option<(String, String, u64)>)
    ensures
        r matches Some(t) ==> key_record(key@, kind@) == Some((t.0@, t.1@, t.2)),
        r is None ==> key_record(key@, kind@) is None,
{
    let parts = split_text(key, ':');
    assert(views(parts@).len() == parts@.len());
    if parts.len() != 4 {
        return None;
    }
    assert(views(parts@)[0] == parts@[0]@);
    assert(views(parts@)[1] == parts@[1]@);
    assert(views(parts@)[2] == parts@[2]@);
    assert(views(parts@)[3] == parts@[3]@);
    if parts[0] != kind.to_string() {
        return None;
    }
    match parse_u64(parts[3].as_str()) {
        Some(ts) => Some((parts[1].clone(), parts[2].clone(), ts)),
        None => None,
    }
}

/// Counts the match records among `keys` of the pair at or after `cutoff`.
pub fn count_keys(keys: &Vec<String>, source: &String, addr: &String, cutoff: u64) -> (r: usize)
    ensures
        r as nat == count_since(key_records(views(keys@), "match"@), source@, addr@, cutoff),
{
    let mut count: usize = 0;
    let mut i: usize = 0;
    while i < keys.len()
        invariant
            i <= keys@.len(),
            count <= i,
            count as nat == count_since(
                key_records(views(keys@).subrange(0, i as int), "match"@),
                source@,
                addr@,
                cutoff,
            ),
        decreases keys@.len() - i,
    {
        let ghost pre = views(keys@).subrange(0, i as int + 1);
        assert(pre.drop_last() =~= views(keys@).subrange(0, i as int));
        assert(pre.last() == keys@[i as int]@);
        match parse_key(keys[i].as_str(), "match") {
            Some(t) => {
                let ghost before = key_records(views(keys@).subrange(0, i as int), "match"@);
                assert(key_records(pre, "match"@).drop_last() == before);
                if t.0 == *source && t.1 == *addr && t.2 >= cutoff {
                    count = count + 1;
                }
            },
            None => {},
        }
        i = i + 1;
    }
    assert(views(keys@).subrange(0, keys@.len() as int) =~= views(keys@));
    count
}

/// Whether some key among `keys` holds a ban record of the pair.
pub fn keys_have_ban(keys: &Vec<String>, source: &String, addr: &String) -> (r: bool)
    ensures
        r == crate::ledger::has_pair(key_records(views(keys@), "ban"@), source@, addr@),
{
    let mut i: usize = 0;
    while i < keys.len()
        invariant
            i <= keys@.len(),
            !crate::ledger::has_pair(key_records(views(keys@).subrange(0, i as int), "ban"@), source@, addr@),
        decreases keys@.len() - i,
    {
        let ghost pre = views(keys@).subrange(0, i as int + 1);
        let ghost before = key_records(views(keys@).subrange(0, i as int), "ban"@);
        assert(pre.drop_last() =~= views(keys@).subrange(0, i as int));
        assert(pre.last() == keys@[i as int]@);
        match parse_key(keys[i].as_str(), "ban") {
            Some(t) => {
                let ghost now_recs = key_records(pre, "ban"@);
                assert(now_recs == before.push((t.0@, t.1@, t.2)));
                if t.0 == *source && t.1 == *addr {
                    assert(of_pair(now_recs[before.len() as int], source@, addr@));
                    assert(views(keys@).subrange(0, keys@.len() as int) =~= views(keys@));
                    proof {
                        lemma_key_records_prefix(views(keys@), i as int + 1, "ban"@, before.len() as int);
                    }
                    return true;
                }
                assert forall|k: int| 0 <= k < now_recs.len() implies !of_pair(#[trigger] now_recs[k], source@, addr@) by {
                    if k < before.len() {
                        assert(now_recs[k] == before[k]);
                    }
                }
            },
            None => {},
        }
        i = i + 1;
    }
    assert(views(keys@).subrange(0, keys@.len() as int) =~= views(keys@));
    false
}

proof fn lemma_key_records_prefix(keys: Seq<Seq<char>>, i: int, kind: Seq<char>, k: int)
    requires
        0 <= i <= keys.len(),
        0 <= k < key_records(keys.subrange(0, i), kind).len(),
    ensures
        k < key_records(keys, kind).len(),
        key_records(keys, kind)[k] == key_records(keys.subrange(0, i), kind)[k],
    decreases keys.len() - i,
{
    if i == keys.len() {
        assert(keys.subrange(0, i) =~= keys);
    } else {
        let pre = keys.subrange(0, i + 1);
        assert(pre.drop_last() =~= keys.subrange(0, i));
        lemma_key_records_prefix(keys, i + 1, kind, k);
    }
}

/// The records of the given kind that `keys` hold, in order.
pub fn records_of_keys(keys: &Vec<String>, kind: &str) -> (r: Vec<(String, String, u64)>)
    ensures
        r@.map_values(|t: (String, String, u64)| (t.0@, t.1@, t.2)) == key_records(views(keys@), kind@),
{
    let mut out: Vec<(String, String, u64)> = Vec::new();
    let mut i: usize = 0;
    while i < keys.len()
        invariant
            i <= keys@.len(),
            out@.map_values(|t: (String, String, u64)| (t.0@, t.1@, t.2)) == key_records(
                views(keys@).subrange(0, i as int),
                kind@,
            ),
        decreases keys@.len() - i,
    {
        let ghost pre = views(keys@).subrange(0, i as int + 1);
        assert(pre.drop_last() =~= views(keys@).subrange(0, i as int));
        assert(pre.last() == keys@[i as int]@);
        let ghost old_out = out@;
        match parse_key(keys[i].as_str(), kind) {
            Some(t) => {
                out.push(t);
                assert(out@.map_values(|t: (String, String, u64)| (t.0@, t.1@, t.2)) =~= old_out.map_values(
                    |t: (String, String, u64)| (t.0@, t.1@, t.2),
                ).push((t.0@, t.1@, t.2)));
            },
            None => {},
        }
        i = i + 1;
    }
    assert(views(keys@).subrange(0, keys@.len() as int) =~= views(keys@));
    out
}

/// The views of (source, address, timestamp) triples.
pub open spec fn triples(v: Seq<(String, String, u64)>) -> Seq<RecordView> {
    v.map_values(|t: (String, String, u64)| (t.0@, t.1@, t.2))
}

/// The records of the given kind held by `keys` that belong to `source` and are
/// older than `start`: those a sweep with that cutoff removes.
pub fn aged_out(keys: &Vec<String>, kind: &str, source: &String, start: u64) -> (r: Vec<(String, String, u64)>)
    ensures
        triples(r@) == select(
            key_records(views(keys@), kind@),
            |x: RecordView| x.0 == source@ && x.2 < start,
        ),
{
    let recs = records_of_keys(keys, kind);
    let ghost all = key_records(views(keys@), kind@);
    let ghost gone = |x: RecordView| x.0 == source@ && x.2 < start;
    let mut out: Vec<(String, String, u64)> = Vec::new();
    let mut i: usize = 0;
    while i < recs.len()
        invariant
            i <= recs@.len(),
            triples(recs@) == all,
            gone == (|x: RecordView| x.0 == source@ && x.2 < start),
            triples(out@) == select(all.subrange(0, i as int), gone),
        decreases recs@.len() - i,
    {
        let ghost pre = all.subrange(0, i as int + 1);
        assert(pre.drop_last() =~= all.subrange(0, i as int));
        assert(pre.last() == all[i as int]);
        let t = &recs[i];
        assert(all[i as int] == (t.0@, t.1@, t.2));
        let ghost prev = out@;
        if t.0 == *source && t.2 < start {
            out.push((t.0.clone(), t.1.clone(), t.2));
            assert(triples(out@) =~= triples(prev).push((t.0@, t.1@, t.2)));
        }
        i = i + 1;
    }
    assert(all.subrange(0, recs@.len() as int) =~= all);
    out
}

/// The records of the given kind held by `keys` that belong to the pair
/// (`source`, `addr`): those an explicit unban removes.
pub fn pair_records(keys: &Vec<String>, kind: &str, source: &String, addr: &String) -> (r: Vec<(String, String, u64)>)
    ensures
        triples(r@) == select(key_records(views(keys@), kind@), |x: RecordView| of_pair(x, source@, addr@)),
{
    let recs = records_of_keys(keys, kind);
    let ghost all = key_records(views(keys@), kind@);
    let ghost gone = |x: RecordView| of_pair(x, source@, addr@);
    let mut out: Vec<(String, String, u64)> = Vec::new();
    let mut i: usize = 0;
    while i < recs.len()
        invariant
            i <= recs@.len(),
            triples(recs@) == all,
            gone == (|x: RecordView| of_pair(x, source@, addr@)),
            triples(out@) == select(all.subrange(0, i as int), gone),
        decreases recs@.len() - i,
    {
        let ghost pre = all.subrange(0, i as int + 1);
        assert(pre.drop_last() =~= all.subrange(0, i as int));
        assert(pre.last() == all[i as int]);
        let t = &recs[i];
        assert(all[i as int] == (t.0@, t.1@, t.2));
        let ghost prev = out@;
        if t.0 == *source && t.1 == *addr {
            out.push((t.0.clone(), t.1.clone(), t.2));
            assert(triples(out@) =~= triples(prev).push((t.0@, t.1@, t.2)));
        }
        i = i + 1;
    }
    assert(all.subrange(0, recs@.len() as int) =~= all);
    out
}

/// The ban decision from what the store holds: `match_keys` are the stored
/// match keys, read before the new match was stored, and `ban_keys` the stored
/// ban keys. The pair is banned where its matches at or after `cutoff`, with the
/// new one, reach `max_matches` and no ban of the pair is stored.
pub fn decide_ban(
    match_keys: &Vec<String>,
    ban_keys: &Vec<String>,
    source: &String,
    addr: &String,
    max_matches: u32,
    cutoff: u64,
) -> (r: bool)
    ensures
        r == should_ban(
            count_since(key_records(views(match_keys@), "match"@), source@, addr@, cutoff),
            max_matches,
            has_pair(key_records(views(ban_keys@), "ban"@), source@, addr@),
        ),
{
    let count = count_keys(match_keys, source, addr, cutoff);
    let banned = keys_have_ban(ban_keys, source, addr);
    ban_decision(count, max_matches, banned)
}

/// Orders records newest first; records with equal timestamps keep their order.
pub fn newest_first(v: Vec<(String, String, u64)>) -> (r: Vec<(String, String, u64)>)
    ensures
        triples(r@).to_multiset() == triples(v@).to_multiset(),
        forall|a: int, b: int| 0 <= a < b < r@.len() ==> r@[a].2 >= r@[b].2,
{
    let mut out: Vec<(String, String, u64)> = Vec::new();
    let mut i: usize = 0;
    assert(triples(out@) =~= triples(v@.subrange(0, 0)));
    while i < v.len()
        invariant
            i <= v@.len(),
            triples(out@).to_multiset() == triples(v@.subrange(0, i as int)).to_multiset(),
            forall|a: int, b: int| 0 <= a < b < out@.len() ==> out@[a].2 >= out@[b].2,
        decreases v@.len() - i,
    {
        let t = &v[i];
        let mut j: usize = 0;
        while j < out.len() && out[j].2 >= t.2
            invariant
                j <= out@.len(),
                forall|a: int| 0 <= a < j ==> out@[a].2 >= t.2,
            decreases out@.len() - j,
        {
            j = j + 1;
        }
        let ghost prev = out@;
        let item = (t.0.clone(), t.1.clone(), t.2);
        out.insert(j, item);
        assert(triples(out@) =~= triples(prev).insert(j as int, (t.0@, t.1@, t.2)));
        assert(triples(v@.subrange(0, i as int + 1)) =~= triples(v@.subrange(0, i as int)).push((t.0@, t.1@, t.2)));
        proof {
            vstd::seq_lib::to_multiset_insert(triples(prev), j as int, (t.0@, t.1@, t.2));
            vstd::seq_lib::to_multiset_build(triples(v@.subrange(0, i as int)), (t.0@, t.1@, t.2));
        }
        assert(triples(out@).to_multiset() == triples(prev).to_multiset().insert((t.0@, t.1@, t.2)));
        assert(triples(v@.subrange(0, i as int + 1)).to_multiset() == triples(v@.subrange(0, i as int)).to_multiset().insert(
            (t.0@, t.1@, t.2),
        ));
        assert forall|a: int, b: int| 0 <= a < b < out@.len() implies out@[a].2 >= out@[b].2 by {
            if j < prev.len() {
                assert(prev[j as int].2 < t.2);
            }
            if b < j {
                assert(out@[a] == prev[a] && out@[b] == prev[b]);
            } else if b == j {
                assert(out@[a] == prev[a]);
            } else if a == j {
                assert(out@[b] == prev[b - 1]);
                if b - 1 > j {
                    assert(prev[j as int].2 >= prev[b - 1].2);
                }
            } else if a < j {
                assert(out@[a] == prev[a] && out@[b] == prev[b - 1]);
            } else {
                assert(out@[a] == prev[a - 1] && out@[b] == prev[b - 1]);
            }
        }
        i = i + 1;
    }
    assert(v@.subrange(0, v@.len() as int) =~= v@);
    out
}

/// What one sweep of the store removed.
pub struct StoredSweep {
    /// The match records removed.
    pub removed_matches: Vec<MatchRecord>,
    /// The ban records removed, each of which calls for an unban.
    pub unbanned: Vec<BanRecord>,
}

/// What one cleaner tick over the store did and what it calls for.
pub struct StoredCleanup {
    /// How many match records were removed.
    pub removed_matches: usize,
    /// The ban records removed.
    pub unbanned: Vec<BanRecord>,
    /// One unban event per removed ban.
    pub events: Vec<Event>,
    /// The addresses whose packet-filter rule is to be lifted.
    pub allow: Vec<String>,
}

/// The ledger in a `sled` store.
pub struct CoreDatabase {
    matches: sled::Tree,
    bans: sled::Tree,
}

impl CoreDatabase {
    /// A ledger over the tree of match records and the tree of ban records.
    pub fn new(matches: sled::Tree, bans: sled::Tree) -> (r: CoreDatabase) {
        CoreDatabase { matches, bans }
    }

    /// The key of a match record.
    pub fn make_match_key(config_id: &str, ip: &str, timestamp: u64) -> (r: String)
        ensures
            r@ == record_key("match"@, config_id@, ip@, timestamp),
    {
        key_of("match", config_id, ip, timestamp)
    }

    /// The key of a ban record.
    pub fn make_ban_key(config_id: &str, ip: &str, timestamp: u64) -> (r: String)
        ensures
            r@ == record_key("ban"@, config_id@, ip@, timestamp),
    {
        key_of("ban", config_id, ip, timestamp)
    }

    /// Stores a match record.
    pub fn add_match(&self, config_id: &str, ip: &str, timestamp: u64) -> (r: Result<(), LedgerError>) {
        let key = Self::make_match_key(config_id, ip, timestamp);
        match tree_insert(&self.matches, key.as_str()) {
            Ok(()) => Ok(()),
            Err(_) => Err(LedgerError::Storage),
        }
    }

    /// Counts the stored match records of the pair inside the window of
    /// `find_time` milliseconds ending at `now`, over the keys the scan of the
    /// pair's prefix returned.
    pub fn count_matches(&self, config_id: &str, ip: &str, find_time: u64, now: u64) -> (r: Result<usize, LedgerError>)
        ensures
            r matches Ok(n) ==> exists|keys: Seq<Seq<char>>|
                all_start_with(keys, pair_prefix_of("match"@, config_id@, ip@)) && n as nat == count_since(
                    key_records(keys, "match"@),
                    config_id@,
                    ip@,
                    window_start(now, find_time),
                ),
    {
        let cutoff: u64 = if now >= find_time { now - find_time } else { 0 };
        let prefix = pair_prefix("match", config_id, ip);
        match scan(&self.matches, prefix.as_str()) {
            Ok(keys) => {
                let n = count_keys(&keys, &config_id.to_string(), &ip.to_string(), cutoff);
                assert(all_start_with(views(keys@), pair_prefix_of("match"@, config_id@, ip@)));
                Ok(n)
            },
            Err(e) => Err(e),
        }
    }

    /// Whether a ban record of the pair is among the keys the scan of the pair's
    /// prefix returned.
    pub fn is_banned(&self, config_id: &str, ip: &str) -> (r: Result<bool, LedgerError>)
        ensures
            r matches Ok(b) ==> exists|keys: Seq<Seq<char>>|
                all_start_with(keys, pair_prefix_of("ban"@, config_id@, ip@)) && b == has_pair(
                    key_records(keys, "ban"@),
                    config_id@,
                    ip@,
                ),
    {
        let prefix = pair_prefix("ban", config_id, ip);
        match scan(&self.bans, prefix.as_str()) {
            Ok(keys) => {
                let b = keys_have_ban(&keys, &config_id.to_string(), &ip.to_string());
                assert(all_start_with(views(keys@), pair_prefix_of("ban"@, config_id@, ip@)));
                Ok(b)
            },
            Err(e) => Err(e),
        }
    }

    /// Stores a ban record of the pair unless one is stored already, checked just
    /// before; says whether it was stored.
    pub fn add_ban(&self, config_id: &str, ip: &str, timestamp: u64) -> (r: Result<bool, LedgerError>)
        ensures
            r matches Ok(added) ==> exists|keys: Seq<Seq<char>>|
                all_start_with(keys, pair_prefix_of("ban"@, config_id@, ip@)) && added == !has_pair(
                    key_records(keys, "ban"@),
                    config_id@,
                    ip@,
                ),
    {
        match self.is_banned(config_id, ip) {
            Ok(true) => Ok(false),
            Ok(false) => {
                let key = Self::make_ban_key(config_id, ip, timestamp);
                match tree_insert(&self.bans, key.as_str()) {
                    Ok(()) => Ok(true),
                    Err(_) => Err(LedgerError::Storage),
                }
            },
            Err(e) => Err(e),
        }
    }

    /// The ban decision for one accepted match of `ip` at `now`, against the
    /// stored records: read the pair's stored matches, store the match, read the
    /// pair's stored bans, and store a ban where `decide_ban` says so on what was
    /// read, the ban check coming just before the insertion. `Ok(b)` says whether
    /// a ban was stored, which calls for a deny and a ban event, and `b` is the
    /// decision on the keys the two scans returned; a storage failure abandons
    /// the decision for this line.
    pub fn process_match(&self, config: &Config, ip: &str, now: u64) -> (r: Result<bool, LedgerError>)
        ensures
            r matches Ok(b) ==> exists|mk: Seq<Seq<char>>, bk: Seq<Seq<char>>|
                all_start_with(mk, pair_prefix_of("match"@, config.id@, ip@)) && all_start_with(
                    bk,
                    pair_prefix_of("ban"@, config.id@, ip@),
                ) && b == stored_decision(mk, bk, config.id@, ip@, config.find_time, config.max_matches, now),
    {
        let cutoff: u64 = if now >= config.find_time { now - config.find_time } else { 0 };
        let source = config.id.clone();
        let addr = ip.to_string();
        let match_keys = match scan(&self.matches, pair_prefix("match", config.id.as_str(), ip).as_str()) {
            Ok(keys) => keys,
            Err(e) => return Err(e),
        };
        if let Err(e) = self.add_match(config.id.as_str(), ip, now) {
            return Err(e);
        }
        let ban_keys = match scan(&self.bans, pair_prefix("ban", config.id.as_str(), ip).as_str()) {
            Ok(keys) => keys,
            Err(e) => return Err(e),
        };
        let decision = decide_ban(&match_keys, &ban_keys, &source, &addr, config.max_matches, cutoff);
        assert(decision == stored_decision(
            views(match_keys@),
            views(ban_keys@),
            config.id@,
            ip@,
            config.find_time,
            config.max_matches,
            now,
        ));
        if decision {
            let key = Self::make_ban_key(config.id.as_str(), ip, now);
            match tree_insert(&self.bans, key.as_str()) {
                Ok(()) => Ok(true),
                Err(_) => Err(LedgerError::Storage),
            }
        } else {
            Ok(false)
        }
    }

    fn to_match_records(items: Vec<(String, String, u64)>) -> (r: Vec<MatchRecord>)
        ensures
            r@.map_values(|m: MatchRecord| m@) == items@.map_values(|t: (String, String, u64)| (t.0@, t.1@, t.2)),
    {
        let mut out: Vec<MatchRecord> = Vec::new();
        let mut i: usize = 0;
        while i < items.len()
            invariant
                i <= items@.len(),
                out@.map_values(|m: MatchRecord| m@) == items@.subrange(0, i as int).map_values(
                    |t: (String, String, u64)| (t.0@, t.1@, t.2),
                ),
            decreases items@.len() - i,
        {
            let t = &items[i];
            let ghost prev = out@;
            out.push(MatchRecord { config_id: t.0.clone(), ip: t.1.clone(), timestamp: t.2 });
            assert(out@.map_values(|m: MatchRecord| m@) =~= prev.map_values(|m: MatchRecord| m@).push((t.0@, t.1@, t.2)));
            assert(items@.subrange(0, i as int + 1).map_values(|t: (String, String, u64)| (t.0@, t.1@, t.2))
                =~= items@.subrange(0, i as int).map_values(|t: (String, String, u64)| (t.0@, t.1@, t.2)).push(
                (t.0@, t.1@, t.2),
            ));
            assert(out@.map_values(|m: MatchRecord| m@) =~= items@.subrange(0, i as int + 1).map_values(
                |t: (String, String, u64)| (t.0@, t.1@, t.2),
            ));
            i = i + 1;
        }
        assert(items@.subrange(0, items@.len() as int) =~= items@);
        out
    }

    fn to_ban_records(items: Vec<(String, String, u64)>) -> (r: Vec<BanRecord>)
        ensures
            r@.map_values(|m: BanRecord| m@) == items@.map_values(|t: (String, String, u64)| (t.0@, t.1@, t.2)),
    {
        let mut out: Vec<BanRecord> = Vec::new();
        let mut i: usize = 0;
        while i < items.len()
            invariant
                i <= items@.len(),
                out@.map_values(|m: BanRecord| m@) == items@.subrange(0, i as int).map_values(
                    |t: (String, String, u64)| (t.0@, t.1@, t.2),
                ),
            decreases items@.len() - i,
        {
            let t = &items[i];
            let ghost prev = out@;
            out.push(BanRecord { config_id: t.0.clone(), ip: t.1.clone(), timestamp: t.2 });
            assert(out@.map_values(|m: BanRecord| m@) =~= prev.map_values(|m: BanRecord| m@).push((t.0@, t.1@, t.2)));
            assert(items@.subrange(0, i as int + 1).map_values(|t: (String, String, u64)| (t.0@, t.1@, t.2))
                =~= items@.subrange(0, i as int).map_values(|t: (String, String, u64)| (t.0@, t.1@, t.2)).push(
                (t.0@, t.1@, t.2),
            ));
            assert(out@.map_values(|m: BanRecord| m@) =~= items@.subrange(0, i as int + 1).map_values(
                |t: (String, String, u64)| (t.0@, t.1@, t.2),
            ));
            i = i + 1;
        }
        assert(items@.subrange(0, items@.len() as int) =~= items@);
        out
    }

    /// Removes the stored records that have aged out at `now`: for each source of
    /// `configs`, the records `aged_out` selects among its scanned keys, matches
    /// against its find window and bans against its ban duration. Each record
    /// returned was removed, and had aged out; each removed ban calls for an
    /// unban. A source whose records cannot be read is skipped until the next sweep.
    pub fn sweep(&self, configs: &Vec<Config>, now: u64) -> (r: StoredSweep)
        ensures
            forall|i: int| 0 <= i < r.removed_matches@.len() ==> match_expired(
                #[trigger] r.removed_matches@[i]@,
                configs@,
                now,
            ),
            forall|i: int| 0 <= i < r.unbanned@.len() ==> ban_expired(#[trigger] r.unbanned@[i]@, configs@, now),
    {
        let mut removed_matches: Vec<MatchRecord> = Vec::new();
        let mut unbanned: Vec<BanRecord> = Vec::new();
        let mut k: usize = 0;
        while k < configs.len()
            invariant
                k <= configs@.len(),
                forall|i: int| 0 <= i < removed_matches@.len() ==> match_expired(
                    #[trigger] removed_matches@[i]@,
                    configs@,
                    now,
                ),
                forall|i: int| 0 <= i < unbanned@.len() ==> ban_expired(#[trigger] unbanned@[i]@, configs@, now),
            decreases configs@.len() - k,
        {
            let c = &configs[k];
            let match_start: u64 = if now >= c.find_time { now - c.find_time } else { 0 };
            if let Ok(keys) = tree_scan(&self.matches, source_prefix("match", c.id.as_str()).as_str()) {
                let aged = aged_out(&keys, "match", &c.id, match_start);
                let ghost all = key_records(views(keys@), "match"@);
                let ghost gone = |x: RecordView| x.0 == c.id@ && x.2 < match_start;
                assert(triples(aged@) == select(all, gone));
                let mut i: usize = 0;
                while i < aged.len()
                    invariant
                        i <= aged@.len(),
                        k < configs@.len(),
                        c == configs@[k as int],
                        match_start == crate::ledger::window_start(now, c.find_time),
                        triples(aged@) == select(all, gone),
                        gone == (|x: RecordView| x.0 == c.id@ && x.2 < match_start),
                        forall|j: int| 0 <= j < removed_matches@.len() ==> match_expired(
                            #[trigger] removed_matches@[j]@,
                            configs@,
                            now,
                        ),
                    decreases aged@.len() - i,
                {
                    let t = &aged[i];
                    let ghost x = (t.0@, t.1@, t.2);
                    assert(triples(aged@)[i as int] == x);
                    proof {
                        assert(select(all, gone).contains(x));
                        lemma_keep_select_members(all, gone, x);
                    }
                    let key = Self::make_match_key(t.0.as_str(), t.1.as_str(), t.2);
                    if tree_remove(&self.matches, key.as_str()).is_ok() {
                        let m = MatchRecord { config_id: t.0.clone(), ip: t.1.clone(), timestamp: t.2 };
                        assert(match_expired(m@, configs@, now)) by {
                            assert(configs@[k as int].id@ == m@.0);
                        }
                        removed_matches.push(m);
                    }
                    i = i + 1;
                }
            }
            let ban_start: u64 = if now >= c.ban_time { now - c.ban_time } else { 0 };
            if let Ok(keys) = tree_scan(&self.bans, source_prefix("ban", c.id.as_str()).as_str()) {
                let aged = aged_out(&keys, "ban", &c.id, ban_start);
                let ghost all = key_records(views(keys@), "ban"@);
                let ghost gone = |x: RecordView| x.0 == c.id@ && x.2 < ban_start;
                assert(triples(aged@) == select(all, gone));
                let mut i: usize = 0;
                while i < aged.len()
                    invariant
                        i <= aged@.len(),
                        k < configs@.len(),
                        c == configs@[k as int],
                        ban_start == crate::ledger::window_start(now, c.ban_time),
                        triples(aged@) == select(all, gone),
                        gone == (|x: RecordView| x.0 == c.id@ && x.2 < ban_start),
                        forall|j: int| 0 <= j < unbanned@.len() ==> ban_expired(#[trigger] unbanned@[j]@, configs@, now),
                    decreases aged@.len() - i,
                {
                    let t = &aged[i];
                    let ghost x = (t.0@, t.1@, t.2);
                    assert(triples(aged@)[i as int] == x);
                    proof {
                        assert(select(all, gone).contains(x));
                        lemma_keep_select_members(all, gone, x);
                    }
                    let key = Self::make_ban_key(t.0.as_str(), t.1.as_str(), t.2);
                    if tree_remove(&self.bans, key.as_str()).is_ok() {
                        let b = BanRecord { config_id: t.0.clone(), ip: t.1.clone(), timestamp: t.2 };
                        assert(ban_expired(b@, configs@, now)) by {
                            assert(configs@[k as int].id@ == b@.0);
                        }
                        unbanned.push(b);
                    }
                    i = i + 1;
                }
            }
            k = k + 1;
        }
        StoredSweep { removed_matches, unbanned }
    }

    /// One cleaner tick at `now` over the store: the sweep, then the unban event
    /// of each removed ban, and the addresses whose rule is to be lifted: those of
    /// removed bans that no stored ban still holds (all of them where the
    /// remaining bans cannot be read).
    pub fn cleanup(&self, configs: &Vec<Config>, now: u64) -> (r: StoredCleanup)
        ensures
            forall|i: int| 0 <= i < r.unbanned@.len() ==> ban_expired(#[trigger] r.unbanned@[i]@, configs@, now),
            r.events@.len() == r.unbanned@.len(),
            forall|i: int| 0 <= i < r.events@.len() ==> #[trigger] r.events@[i].view_parts() == (
                EventKind::Unban,
                (r.unbanned@[i].config_id@, r.unbanned@[i].ip@, now),
            ),
            views(r.allow@).no_duplicates(),
            forall|x: Seq<char>| #[trigger] views(r.allow@).contains(x) ==> bans_address(ban_views(r.unbanned@), x),
    {
        let swept = self.sweep(configs, now);
        let remaining = match self.get_all_bans() {
            Ok(b) => b,
            Err(_) => Vec::new(),
        };
        let allow = addresses_to_allow(&swept.unbanned, &remaining);
        let events = unban_events(&swept.unbanned, now);
        StoredCleanup { removed_matches: swept.removed_matches.len(), unbanned: swept.unbanned, events, allow }
    }

    /// Removes every stored ban of the pair, the explicit unban: the records
    /// `pair_records` selects among the scanned ban keys. Each record returned was
    /// removed and belongs to the pair.
    pub fn remove_ban(&self, config_id: &str, ip: &str) -> (r: Result<Vec<BanRecord>, LedgerError>)
        ensures
            r matches Ok(v) ==> forall|i: int| 0 <= i < v@.len() ==> of_pair(#[trigger] v@[i]@, config_id@, ip@),
    {
        let keys = match tree_scan(&self.bans, pair_prefix("ban", config_id, ip).as_str()) {
            Ok(keys) => keys,
            Err(_) => return Err(LedgerError::Storage),
        };
        let source = config_id.to_string();
        let addr = ip.to_string();
        let mine = pair_records(&keys, "ban", &source, &addr);
        let ghost all = key_records(views(keys@), "ban"@);
        let ghost gone = |x: RecordView| of_pair(x, source@, addr@);
        let mut removed: Vec<BanRecord> = Vec::new();
        let mut i: usize = 0;
        while i < mine.len()
            invariant
                i <= mine@.len(),
                source@ == config_id@,
                addr@ == ip@,
                triples(mine@) == select(all, gone),
                gone == (|x: RecordView| of_pair(x, source@, addr@)),
                forall|j: int| 0 <= j < removed@.len() ==> of_pair(#[trigger] removed@[j]@, config_id@, ip@),
            decreases mine@.len() - i,
        {
            let t = &mine[i];
            let ghost x = (t.0@, t.1@, t.2);
            assert(triples(mine@)[i as int] == x);
            proof {
                assert(select(all, gone).contains(x));
                lemma_keep_select_members(all, gone, x);
            }
            let key = Self::make_ban_key(t.0.as_str(), t.1.as_str(), t.2);
            match tree_remove(&self.bans, key.as_str()) {
                Ok(()) => {
                    removed.push(BanRecord { config_id: t.0.clone(), ip: t.1.clone(), timestamp: t.2 });
                },
                Err(_) => return Err(LedgerError::Storage),
            }
            i = i + 1;
        }
        Ok(removed)
    }

    /// The stored match records of a source.
    pub fn get_matches_for_config(&self, config_id: &str) -> (r: Result<Vec<MatchRecord>, LedgerError>)
        ensures
            r matches Ok(v) ==> exists|keys: Seq<Seq<char>>|
                all_start_with(keys, source_prefix_of("match"@, config_id@)) && match_views(v@) == key_records(keys, "match"@),
    {
        let prefix = source_prefix("match", config_id);
        match scan(&self.matches, prefix.as_str()) {
            Ok(keys) => {
                let recs = Self::to_match_records(records_of_keys(&keys, "match"));
                assert(match_views(recs@) == key_records(views(keys@), "match"@));
                Ok(recs)
            },
            Err(e) => Err(e),
        }
    }

    /// The stored ban records of a source.
    pub fn get_bans_for_config(&self, config_id: &str) -> (r: Result<Vec<BanRecord>, LedgerError>)
        ensures
            r matches Ok(v) ==> exists|keys: Seq<Seq<char>>|
                all_start_with(keys, source_prefix_of("ban"@, config_id@)) && ban_views(v@) == key_records(keys, "ban"@),
    {
        let prefix = source_prefix("ban", config_id);
        match scan(&self.bans, prefix.as_str()) {
            Ok(keys) => {
                let recs = Self::to_ban_records(records_of_keys(&keys, "ban"));
                assert(ban_views(recs@) == key_records(views(keys@), "ban"@));
                Ok(recs)
            },
            Err(e) => Err(e),
        }
    }

    /// Every stored match record, newest first.
    pub fn get_all_matches(&self) -> (r: Result<Vec<MatchRecord>, LedgerError>)
        ensures
            r matches Ok(v) ==> forall|a: int, b: int| 0 <= a < b < v@.len() ==> v@[a].timestamp >= v@[b].timestamp,
    {
        match tree_scan(&self.matches, "match:") {
            Ok(keys) => {
                let sorted = newest_first(records_of_keys(&keys, "match"));
                let recs = Self::to_match_records(sorted);
                assert forall|a: int, b: int| 0 <= a < b < recs@.len() implies recs@[a].timestamp
                    >= recs@[b].timestamp by {
                    assert(recs@.map_values(|m: MatchRecord| m@).len() == recs@.len());
                    assert(recs@.map_values(|m: MatchRecord| m@)[a] == recs@[a]@);
                    assert(recs@.map_values(|m: MatchRecord| m@)[b] == recs@[b]@);
                    assert(triples(sorted@)[a] == (sorted@[a].0@, sorted@[a].1@, sorted@[a].2));
                    assert(triples(sorted@)[b] == (sorted@[b].0@, sorted@[b].1@, sorted@[b].2));
                    assert(recs@[a].timestamp == sorted@[a].2);
                    assert(recs@[b].timestamp == sorted@[b].2);
                }
                Ok(recs)
            },
            Err(_) => Err(LedgerError::Storage),
        }
    }

    /// Every stored ban record, newest first.
    pub fn get_all_bans(&self) -> (r: Result<Vec<BanRecord>, LedgerError>)
        ensures
            r matches Ok(v) ==> forall|a: int, b: int| 0 <= a < b < v@.len() ==> v@[a].timestamp >= v@[b].timestamp,
    {
        match tree_scan(&self.bans, "ban:") {
            Ok(keys) => {
                let sorted = newest_first(records_of_keys(&keys, "ban"));
                let recs = Self::to_ban_records(sorted);
                assert forall|a: int, b: int| 0 <= a < b < recs@.len() implies recs@[a].timestamp
                    >= recs@[b].timestamp by {
                    assert(recs@.map_values(|m: BanRecord| m@).len() == recs@.len());
                    assert(recs@.map_values(|m: BanRecord| m@)[a] == recs@[a]@);
                    assert(recs@.map_values(|m: BanRecord| m@)[b] == recs@[b]@);
                    assert(triples(sorted@)[a] == (sorted@[a].0@, sorted@[a].1@, sorted@[a].2));
                    assert(triples(sorted@)[b] == (sorted@[b].0@, sorted@[b].1@, sorted@[b].2));
                    assert(recs@[a].timestamp == sorted@[a].2);
                    assert(recs@[b].timestamp == sorted@[b].2);
                }
                Ok(recs)
            },
            Err(_) => Err(LedgerError::Storage),
        }
    }
}

} // verus!
