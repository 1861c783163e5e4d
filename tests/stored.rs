use banalize_core::config::Config;
use banalize_core::engine::handle_stored_line;
use banalize_core::pattern::IpExtractor;
use banalize_core::store::{aged_out, count_keys, decide_ban, newest_first, pair_records, parse_key, CoreDatabase};

fn ledger() -> CoreDatabase {
    let db = sled::Config::new().temporary(true).open().unwrap();
    CoreDatabase::new(db.open_tree("matches").unwrap(), db.open_tree("bans").unwrap())
}

fn source(id: &str, ban: u64, find: u64, max: u32) -> Config {
    Config::new(id.to_string(), "n".to_string(), "/tmp/x.log".to_string(), "from <IP>".to_string(), ban, find, max, vec![])
        .ok()
        .unwrap()
}

#[test]
fn keys_are_written_and_read() {
    assert_eq!(CoreDatabase::make_match_key("ssh", "10.0.0.5", 1700000000000), "match:ssh:10.0.0.5:1700000000000");
    assert_eq!(CoreDatabase::make_ban_key("ssh", "10.0.0.5", 7), "ban:ssh:10.0.0.5:7");
    assert_eq!(parse_key("match:ssh:10.0.0.5:12", "match"), Some(("ssh".to_string(), "10.0.0.5".to_string(), 12)));
    assert_eq!(parse_key("ban:ssh:10.0.0.5:12", "match"), None);
    assert_eq!(parse_key("match:ssh:10.0.0.5", "match"), None);
    assert_eq!(parse_key("match:a:b:c:1", "match"), None);
    assert_eq!(parse_key("match:ssh:10.0.0.5:x", "match"), None);
}

#[test]
fn count_keys_filters_pair_and_window() {
    let keys: Vec<String> = vec!["match:s:1.1.1.1:5", "match:s:1.1.1.1:50", "match:s:2.2.2.2:60", "junk", "match:t:1.1.1.1:70"]
        .into_iter()
        .map(|s| s.to_string())
        .collect();
    assert_eq!(count_keys(&keys, &"s".to_string(), &"1.1.1.1".to_string(), 10), 1);
    assert_eq!(count_keys(&keys, &"s".to_string(), &"1.1.1.1".to_string(), 0), 2);
}

#[test]
fn stored_scenario_bans_once_and_expires() {
    let l = ledger();
    let c = source("ssh", 1_000, 60_000, 3);
    let mut x = IpExtractor::new();
    let mut bans = 0;
    for t in [0u64, 100, 200, 250] {
        let o = handle_stored_line(&mut x, &l, &c, "from 10.0.0.5", t).ok().unwrap();
        if o.banned {
            bans += 1;
        }
    }
    assert_eq!(bans, 1);
    assert_eq!(l.get_all_matches().ok().unwrap().len(), 4);
    assert_eq!(l.get_bans_for_config("ssh").ok().unwrap().len(), 1);
    assert_eq!(l.is_banned("ssh", "10.0.0.5"), Ok(true));
    assert_eq!(l.count_matches("ssh", "10.0.0.5", 60_000, 300), Ok(4));
    let none = handle_stored_line(&mut x, &l, &c, "nothing here", 300).ok().unwrap();
    assert!(none.address.is_none() && none.events.is_empty());
    let early = l.sweep(&vec![source("ssh", 1_000, 60_000, 3)], 1_200);
    assert!(early.unbanned.is_empty());
    let out = l.sweep(&vec![source("ssh", 1_000, 60_000, 3)], 60_150);
    assert_eq!(out.unbanned.len(), 1);
    assert_eq!(out.unbanned[0].config_id, "ssh");
    assert_eq!(out.removed_matches.len(), 2);
    assert!(out.removed_matches.iter().all(|m| m.timestamp < 150));
    assert_eq!(l.is_banned("ssh", "10.0.0.5"), Ok(false));
    assert_eq!(l.get_matches_for_config("ssh").ok().unwrap().len(), 2);
}

#[test]
fn stored_explicit_unban() {
    let l = ledger();
    assert_eq!(l.add_ban("web", "9.9.9.9", 5), Ok(true));
    assert_eq!(l.add_ban("web", "9.9.9.9", 6), Ok(false));
    let removed = l.remove_ban("web", "9.9.9.9").ok().unwrap();
    assert_eq!(removed.len(), 1);
    assert_eq!(removed[0].timestamp, 5);
    assert_eq!(l.get_all_bans().ok().unwrap().len(), 0);
}

#[test]
fn largest_timestamp_round_trips() {
    let l = ledger();
    assert_eq!(l.add_match("s", "1.2.3.4", u64::MAX), Ok(()));
    let all = l.get_all_matches().ok().unwrap();
    assert_eq!(all.len(), 1);
    assert_eq!(all[0].timestamp, u64::MAX);
    assert_eq!(all[0].config_id, "s");
    assert_eq!(all[0].ip, "1.2.3.4");
    assert_eq!(l.count_matches("s", "1.2.3.4", u64::MAX, u64::MAX), Ok(1));
    assert_eq!(l.count_matches("s", "1.2.3.4", 1, u64::MAX), Ok(1));
}

#[test]
fn sources_do_not_share_records() {
    let l = ledger();
    let a = source("a", 10, 1_000, 2);
    let mut x = IpExtractor::new();
    assert!(!handle_stored_line(&mut x, &l, &a, "from 8.8.8.8", 1).ok().unwrap().banned);
    let b = source("ab", 10, 1_000, 2);
    assert!(!handle_stored_line(&mut x, &l, &b, "from 8.8.8.8", 2).ok().unwrap().banned);
    assert!(handle_stored_line(&mut x, &l, &a, "from 8.8.8.8", 3).ok().unwrap().banned);
    assert_eq!(l.get_matches_for_config("a").ok().unwrap().len(), 2);
    assert_eq!(l.is_banned("ab", "8.8.8.8"), Ok(false));
}

fn keys(v: &[&str]) -> Vec<String> {
    v.iter().map(|s| s.to_string()).collect()
}

#[test]
fn aged_out_selects_source_records_before_start() {
    let k = keys(&["match:s:1.1.1.1:5", "match:s:2.2.2.2:50", "match:t:1.1.1.1:1", "ban:s:1.1.1.1:1", "match:s:3.3.3.3:9"]);
    let r = aged_out(&k, "match", &"s".to_string(), 10);
    assert_eq!(r, vec![("s".to_string(), "1.1.1.1".to_string(), 5), ("s".to_string(), "3.3.3.3".to_string(), 9)]);
    assert!(aged_out(&k, "match", &"s".to_string(), 5).is_empty());
}

#[test]
fn pair_records_selects_the_pair() {
    let k = keys(&["ban:s:1.1.1.1:5", "ban:s:1.1.1.10:6", "ban:t:1.1.1.1:7", "ban:s:1.1.1.1:8"]);
    let r = pair_records(&k, "ban", &"s".to_string(), &"1.1.1.1".to_string());
    assert_eq!(r.iter().map(|t| t.2).collect::<Vec<u64>>(), vec![5, 8]);
}

#[test]
fn decide_ban_from_keys() {
    let m = keys(&["match:s:1.1.1.1:5", "match:s:1.1.1.1:50", "match:s:1.1.1.1:60"]);
    let none: Vec<String> = Vec::new();
    let s = "s".to_string();
    let a = "1.1.1.1".to_string();
    assert!(decide_ban(&m, &none, &s, &a, 3, 10));
    assert!(!decide_ban(&m, &none, &s, &a, 4, 10));
    assert!(decide_ban(&m, &none, &s, &a, 4, 0));
    assert!(!decide_ban(&m, &keys(&["ban:s:1.1.1.1:61"]), &s, &a, 3, 10));
    assert!(decide_ban(&m, &keys(&["ban:t:1.1.1.1:61"]), &s, &a, 3, 10));
}

#[test]
fn newest_first_orders_and_keeps_ties() {
    let v = vec![
        ("a".to_string(), "x".to_string(), 1),
        ("b".to_string(), "x".to_string(), 3),
        ("c".to_string(), "x".to_string(), 1),
        ("d".to_string(), "x".to_string(), 2),
    ];
    let r = newest_first(v);
    assert_eq!(r.iter().map(|t| t.0.as_str()).collect::<Vec<&str>>(), vec!["b", "d", "a", "c"]);
}

#[test]
fn stored_listing_is_newest_first() {
    let l = ledger();
    for (ip, t) in [("1.1.1.1", 10u64), ("2.2.2.2", 30), ("3.3.3.3", 20)] {
        l.add_match("s", ip, t).unwrap();
        assert_eq!(l.add_ban("s", ip, t), Ok(true));
    }
    let m: Vec<u64> = l.get_all_matches().ok().unwrap().iter().map(|r| r.timestamp).collect();
    assert_eq!(m, vec![30, 20, 10]);
    let b: Vec<u64> = l.get_all_bans().ok().unwrap().iter().map(|r| r.timestamp).collect();
    assert_eq!(b, vec![30, 20, 10]);
}

#[test]
fn stored_cleanup_tick() {
    let l = ledger();
    assert_eq!(l.add_ban("ssh", "4.4.4.4", 0), Ok(true));
    assert_eq!(l.add_ban("web", "4.4.4.4", 0), Ok(true));
    assert_eq!(l.add_ban("ssh", "5.5.5.5", 0), Ok(true));
    let configs = vec![source("ssh", 100, 100, 1), source("web", 10_000, 100, 1)];
    let tick = l.cleanup(&configs, 1_000);
    assert_eq!(tick.unbanned.len(), 2);
    assert_eq!(tick.events.len(), 2);
    assert_eq!(tick.allow, vec!["5.5.5.5".to_string()]);
    assert_eq!(l.is_banned("web", "4.4.4.4"), Ok(true));
    let again = l.cleanup(&configs, 1_001);
    assert!(again.unbanned.is_empty() && again.allow.is_empty());
}
