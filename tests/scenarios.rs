use banalize_core::cleaner::{addresses_to_allow, cleanup, restore_bans, unban};
use banalize_core::config::Config;
use banalize_core::engine::handle_line;
use banalize_core::events::{unban_events, AuditEvent, Event, EventKind};
use banalize_core::firewall::{ChainStep, Firewall, FirewallError, Procedure};
use banalize_core::ledger::{ban_decision, BanRecord, MemoryLedger};
use banalize_core::pattern::IpExtractor;
use banalize_core::supervisor::{SupervisorError, WatcherRegistry};

fn source(id: &str, ban: u64, find: u64, max: u32, ignore: Vec<&str>) -> Config {
    Config::new(
        id.to_string(),
        "ssh".to_string(),
        "/var/log/auth.log".to_string(),
        "Failed password .* from <IP>".to_string(),
        ban,
        find,
        max,
        ignore.into_iter().map(|s| s.to_string()).collect(),
    )
    .ok()
    .unwrap()
}

fn line(ip: &str) -> String {
    format!("Failed password for root from {} port 22", ip)
}

/// Runs one line the way a watcher does, issuing the deny where a ban was made.
fn feed(x: &mut IpExtractor, l: &mut MemoryLedger, fw: &mut Firewall, c: &Config, text: &str, now: u64, denies: &mut Vec<String>) -> Vec<Event> {
    let out = handle_line(x, l, c, text, now);
    if out.banned {
        let ip = out.address.clone().unwrap();
        if let Some(cmd) = fw.deny_ip_sync(&ip) {
            denies.push(cmd);
            fw.record_deny(&ip, true);
        }
    }
    out.events
}

fn kind(e: &Event) -> EventKind {
    e.kind()
}

#[test]
fn three_matches_ban_once() {
    let c = source("ssh", 3_600_000, 60_000, 3, vec![]);
    let mut x = IpExtractor::new();
    let mut l = MemoryLedger::new();
    let mut fw = Firewall::new(None);
    let mut denies = Vec::new();
    let mut events = Vec::new();
    for t in [0u64, 100, 200] {
        events.extend(feed(&mut x, &mut l, &mut fw, &c, &line("10.0.0.5"), t, &mut denies));
    }
    assert!(l.is_banned("ssh", "10.0.0.5"));
    assert_eq!(l.get_all_bans().len(), 1);
    assert_eq!(denies.len(), 1);
    assert_eq!(denies[0], "iptables -A banalize -s 10.0.0.5/32 -j REJECT --reject-with icmp-port-unreachable");
    let bans: Vec<&Event> = events.iter().filter(|e| kind(e) == EventKind::Ban).collect();
    assert_eq!(bans.len(), 1);
    match bans[0] {
        Event::Ban { config_id, ip, timestamp } => {
            assert_eq!(config_id, "ssh");
            assert_eq!(ip, "10.0.0.5");
            assert_eq!(*timestamp, 200);
        }
        _ => panic!("not a ban event"),
    }
    let more = feed(&mut x, &mut l, &mut fw, &c, &line("10.0.0.5"), 250, &mut denies);
    assert_eq!(more.len(), 1);
    assert_eq!(kind(&more[0]), EventKind::Match);
    assert_eq!(l.get_all_matches().len(), 4);
    assert_eq!(l.get_all_bans().len(), 1);
    assert_eq!(denies.len(), 1);
}

#[test]
fn expired_ban_is_lifted_once() {
    let c = source("ssh", 1_000, 60_000, 3, vec![]);
    let mut x = IpExtractor::new();
    let mut l = MemoryLedger::new();
    let mut fw = Firewall::new(None);
    let mut denies = Vec::new();
    for t in [0u64, 100, 200] {
        feed(&mut x, &mut l, &mut fw, &c, &line("10.0.0.5"), t, &mut denies);
    }
    let configs = vec![c];
    let early = cleanup(&mut l, &configs, 1_200);
    assert!(early.unbanned.is_empty());
    assert!(l.is_banned("ssh", "10.0.0.5"));
    let tick = cleanup(&mut l, &configs, 1_201);
    assert_eq!(tick.unbanned.len(), 1);
    assert!(!l.is_banned("ssh", "10.0.0.5"));
    let mut allows = Vec::new();
    for ip in &tick.allow {
        if let Some(cmd) = fw.allow_ip_sync(ip) {
            allows.push(cmd);
            fw.record_allow(ip, true);
        }
    }
    assert_eq!(allows, vec!["iptables -D banalize -s 10.0.0.5/32 -j REJECT --reject-with icmp-port-unreachable".to_string()]);
    assert_eq!(tick.events.len(), 1);
    match &tick.events[0] {
        Event::Unban { config_id, ip, timestamp } => {
            assert_eq!(config_id, "ssh");
            assert_eq!(ip, "10.0.0.5");
            assert_eq!(*timestamp, 1_201);
        }
        _ => panic!("not an unban event"),
    }
    let again = cleanup(&mut l, &configs, 5_000);
    assert!(again.unbanned.is_empty());
    assert!(again.events.is_empty());
}

#[test]
fn restart_keeps_history() {
    let c = source("ssh", 3_600_000, 60_000, 3, vec![]);
    let mut l = MemoryLedger::new();
    let mut fw = Firewall::new(None);
    let mut denies = Vec::new();
    {
        let mut first = IpExtractor::new();
        feed(&mut first, &mut l, &mut fw, &c, &line("10.0.0.7"), 1_000, &mut denies);
        feed(&mut first, &mut l, &mut fw, &c, &line("10.0.0.7"), 2_000, &mut denies);
    }
    let mut reg: WatcherRegistry<u32> = WatcherRegistry::new();
    assert_eq!(reg.insert("ssh", 1), Ok(()));
    assert_eq!(reg.remove("ssh"), Ok(1));
    assert_eq!(reg.check_start("ssh", Some(&c)), Ok(()));
    assert_eq!(reg.insert("ssh", 2), Ok(()));
    let mut second = IpExtractor::new();
    assert_eq!(l.count_matches("ssh", "10.0.0.7", 60_000, 3_000), 2);
    let ev = feed(&mut second, &mut l, &mut fw, &c, &line("10.0.0.7"), 3_000, &mut denies);
    assert_eq!(ev.len(), 2);
    assert!(l.is_banned("ssh", "10.0.0.7"));
    assert_eq!(denies.len(), 1);
}

#[test]
fn ignored_addresses_leave_no_trace() {
    let c = source("ssh", 3_600_000, 60_000, 1, vec!["10.0.0.0/8", "192.168.1.9"]);
    let mut x = IpExtractor::new();
    let mut l = MemoryLedger::new();
    let mut fw = Firewall::new(None);
    let mut denies = Vec::new();
    for (i, ip) in ["10.1.2.3", "192.168.1.9", "10.0.0.5"].iter().enumerate() {
        let ev = feed(&mut x, &mut l, &mut fw, &c, &line(ip), i as u64, &mut denies);
        assert!(ev.is_empty());
    }
    assert!(l.get_all_matches().is_empty());
    assert!(l.get_all_bans().is_empty());
    assert!(denies.is_empty());
    let ev = feed(&mut x, &mut l, &mut fw, &c, &line("192.168.1.8"), 9, &mut denies);
    assert_eq!(ev.len(), 2);
    assert_eq!(denies.len(), 1);
}

#[test]
fn rapid_fire_bans_once() {
    let c = source("ssh", 3_600_000, 60_000, 2, vec![]);
    let mut x = IpExtractor::new();
    let mut l = MemoryLedger::new();
    let mut fw = Firewall::new(None);
    let mut denies = Vec::new();
    let mut ban_events = 0;
    for t in 0..50u64 {
        let ev = feed(&mut x, &mut l, &mut fw, &c, &line("172.16.0.1"), t, &mut denies);
        ban_events += ev.iter().filter(|e| kind(e) == EventKind::Ban).count();
    }
    assert_eq!(ban_events, 1);
    assert_eq!(denies.len(), 1);
    assert_eq!(l.get_bans_for_config("ssh").len(), 1);
    assert_eq!(l.get_matches_for_config("ssh").len(), 50);
}

#[test]
fn count_is_stable_across_queries() {
    let mut l = MemoryLedger::new();
    for t in [10u64, 20, 30, 40] {
        l.add_match("web", "1.2.3.4", t);
        l.add_match("web", "5.6.7.8", t);
        l.add_match("ssh", "1.2.3.4", t);
    }
    let first = l.count_matches("web", "1.2.3.4", 15, 40);
    for _ in 0..5 {
        assert_eq!(l.count_matches("web", "1.2.3.4", 15, 40), first);
    }
    assert_eq!(first, 2);
    assert_eq!(l.count_matches("web", "1.2.3.4", 100, 40), 4);
    assert_eq!(l.count_matches("web", "9.9.9.9", 100, 40), 0);
}

#[test]
fn window_starts_at_zero_near_epoch() {
    let mut l = MemoryLedger::new();
    l.add_match("s", "1.1.1.1", 0);
    assert_eq!(l.count_matches("s", "1.1.1.1", 60_000, 10), 1);
}

#[test]
fn sweep_respects_each_cutoff() {
    let c = source("ssh", 500, 100, 3, vec![]);
    let mut l = MemoryLedger::new();
    l.add_match("ssh", "1.1.1.1", 899);
    l.add_match("ssh", "1.1.1.1", 900);
    l.add_match("other", "1.1.1.1", 0);
    assert!(l.add_ban("ssh", "1.1.1.1", 499));
    assert!(l.add_ban("ssh", "2.2.2.2", 500));
    assert!(!l.add_ban("ssh", "2.2.2.2", 700));
    let out = cleanup(&mut l, &vec![c], 1_000);
    assert_eq!(out.removed_matches, 1);
    assert_eq!(out.unbanned.len(), 1);
    assert_eq!(out.unbanned[0].ip, "1.1.1.1");
    assert_eq!(l.get_all_matches().len(), 2);
    assert!(l.is_banned("ssh", "2.2.2.2"));
}

#[test]
fn rule_stays_while_another_source_bans() {
    let ssh = source("ssh", 100, 100, 1, vec![]);
    let web = source("web", 10_000, 100, 1, vec![]);
    let mut l = MemoryLedger::new();
    assert!(l.add_ban("ssh", "3.3.3.3", 0));
    assert!(l.add_ban("web", "3.3.3.3", 0));
    let out = cleanup(&mut l, &vec![ssh, web], 1_000);
    assert_eq!(out.unbanned.len(), 1);
    assert!(out.allow.is_empty());
    let r = unban(&mut l, "web", "3.3.3.3", 2_000);
    assert_eq!(r.unbanned.len(), 1);
    assert_eq!(r.allow, vec!["3.3.3.3".to_string()]);
    let none = unban(&mut l, "web", "3.3.3.3", 2_001);
    assert!(none.unbanned.is_empty() && none.events.is_empty() && none.allow.is_empty());
}

#[test]
fn addresses_to_allow_dedups() {
    let rec = |s: &str, ip: &str| BanRecord { config_id: s.to_string(), ip: ip.to_string(), timestamp: 1 };
    let un = vec![rec("a", "1.1.1.1"), rec("b", "1.1.1.1"), rec("a", "2.2.2.2")];
    let rem = vec![rec("c", "2.2.2.2")];
    assert_eq!(addresses_to_allow(&un, &rem), vec!["1.1.1.1".to_string()]);
    let ev = unban_events(&un, 7);
    assert_eq!(ev.len(), 3);
    assert_eq!(kind(&ev[2]), EventKind::Unban);
}

#[test]
fn restore_skips_expired_and_unknown() {
    let c = source("ssh", 1_000, 100, 1, vec![]);
    let rec = |s: &str, ip: &str, t: u64| BanRecord { config_id: s.to_string(), ip: ip.to_string(), timestamp: t };
    let bans = vec![rec("ssh", "1.1.1.1", 9_500), rec("ssh", "2.2.2.2", 9_000), rec("gone", "3.3.3.3", 9_900), rec("ssh", "1.1.1.1", 9_600)];
    assert_eq!(restore_bans(&bans, &vec![c], 10_000), vec!["1.1.1.1".to_string()]);
    let mut fw = Firewall::new(None);
    fw.record_deny("1.1.1.1", true);
    assert!(fw.restore_bans(&vec!["1.1.1.1".to_string(), "4.4.4.4".to_string(), "4.4.4.4".to_string()]) == vec!["4.4.4.4".to_string()]);
}

#[test]
fn ban_decision_counts_the_new_match() {
    assert!(!ban_decision(1, 3, false));
    assert!(ban_decision(2, 3, false));
    assert!(!ban_decision(2, 3, true));
    assert!(ban_decision(0, 1, false));
}

#[test]
fn firewall_init_sequence() {
    let fw = Firewall::new(Some("FORWARD".to_string()));
    let mut t = fw.init();
    let mut ran = Vec::new();
    let outcomes = [false, true, false, true];
    let mut k = 0;
    while let Some(step) = t.next {
        ran.push(fw.command(step));
        t.advance(outcomes[k]);
        k += 1;
    }
    assert_eq!(ran, vec![
        "iptables -N banalize".to_string(),
        "iptables -L banalize -n".to_string(),
        "iptables -I FORWARD -j banalize".to_string(),
        "iptables -F banalize".to_string(),
    ]);
    assert_eq!(t.outcome(), Some(Ok(())));
    assert!(t.procedure == Procedure::Init);
}

#[test]
fn firewall_init_fails_without_chain() {
    let fw = Firewall::new(None);
    let mut t = fw.init();
    t.advance(false);
    assert_eq!(t.next, Some(ChainStep::Check));
    t.advance(false);
    assert_eq!(t.outcome(), Some(Err(FirewallError::CreateChainFailed)));
}

#[test]
fn firewall_cleanup_sequence() {
    let fw = Firewall::new(None);
    let mut t = fw.cleanup();
    let mut ran = Vec::new();
    while let Some(step) = t.next {
        ran.push(fw.command(step));
        t.advance(step != ChainStep::Unlink);
    }
    assert_eq!(ran, vec![
        "iptables -F banalize".to_string(),
        "iptables -D INPUT -j banalize".to_string(),
        "iptables -X banalize".to_string(),
    ]);
    assert_eq!(t.outcome(), Some(Ok(())));
    let mut f = fw.cleanup();
    f.advance(false);
    assert_eq!(f.outcome(), Some(Err(FirewallError::FlushChainFailed)));
    let mut u = fw.unlink_chain();
    assert_eq!(u.outcome(), None);
    u.advance(false);
    assert_eq!(u.outcome(), Some(Ok(())));
    let mut d = fw.delete_chain();
    d.advance(false);
    assert_eq!(d.outcome(), Some(Ok(())));
}

#[test]
fn firewall_deny_allow_idempotent() {
    let mut fw = Firewall::new(None);
    assert_eq!(fw.allow_ip_sync("5.5.5.5"), None);
    let cmd = fw.deny_ip_sync("5.5.5.5").unwrap();
    fw.record_deny("5.5.5.5", false);
    assert_eq!(fw.deny_ip_sync("5.5.5.5"), Some(cmd));
    fw.record_deny("5.5.5.5", true);
    assert_eq!(fw.deny_ip_sync("5.5.5.5"), None);
    assert!(fw.is_denied("5.5.5.5"));
    assert_eq!(fw.allow_ip_sync("5.5.5.5"), Some(fw.build_allow_command("5.5.5.5")));
    fw.record_allow("5.5.5.5", true);
    assert!(!fw.is_denied("5.5.5.5"));
}

#[test]
fn supervisor_start_rules() {
    let c = source("ssh", 1, 1, 1, vec![]);
    let mut reg: WatcherRegistry<&str> = WatcherRegistry::new();
    assert_eq!(reg.check_start("ssh", None), Err(SupervisorError::ConfigNotFound));
    assert_eq!(reg.check_start("ssh", Some(&c)), Ok(()));
    assert_eq!(reg.insert("ssh", "h1"), Ok(()));
    assert!(reg.is_running("ssh"));
    assert_eq!(reg.check_start("ssh", Some(&c)), Err(SupervisorError::AlreadyRunning));
    assert_eq!(reg.insert("ssh", "h2"), Err(SupervisorError::AlreadyRunning));
    assert_eq!(reg.insert("web", "h3"), Ok(()));
    assert_eq!(reg.running_ids(), vec!["ssh".to_string(), "web".to_string()]);
    assert_eq!(reg.remove("ssh"), Ok("h1"));
    assert_eq!(reg.remove("ssh"), Err(SupervisorError::NotRunning));
    assert!(!reg.is_running("ssh"));
}

#[test]
fn event_storage_form() {
    let e = Event::new(EventKind::Ban, "ssh", "1.2.3.4", 42);
    match e.into_stored("id-1".to_string()) {
        AuditEvent::Ban(s) => {
            assert_eq!(s.id, "id-1");
            assert_eq!(s.config_id, "ssh");
            assert_eq!(s.ip, "1.2.3.4");
            assert_eq!(s.timestamp, 42);
        }
        _ => panic!("not a ban"),
    }
}
