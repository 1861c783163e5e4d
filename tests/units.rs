use banalize_core::addr::{is_ip_in_list, net6_contains, net_contains, parse_address, parse_ipv4};
use banalize_core::config::{Config, ConfigError};
use banalize_core::duration::format_duration;
use banalize_core::pattern::contains_placeholder;
use banalize_core::text::{decimal_string, parse_u64, split_text};

fn cfg(id: &str, regex: &str, ban: u64, find: u64, max: u32) -> Result<Config, ConfigError> {
    Config::new(
        id.to_string(),
        "name".to_string(),
        "/var/log/auth.log".to_string(),
        regex.to_string(),
        ban,
        find,
        max,
        vec![],
    )
}

#[test]
fn format_duration_values() {
    assert_eq!(format_duration(0), "0 ms");
    assert_eq!(format_duration(999), "999 ms");
    assert_eq!(format_duration(1000), "1 second");
    assert_eq!(format_duration(59_999), "59 seconds");
    assert_eq!(format_duration(60_000), "1 minute");
    assert_eq!(format_duration(61_000), "1 minute 1 second");
    assert_eq!(format_duration(150_000), "2 minutes 30 seconds");
    assert_eq!(format_duration(3_600_000), "1 hour");
    assert_eq!(format_duration(7_260_000), "2 hours 1 minute");
    assert_eq!(format_duration(86_400_000), "24 hours");
}

#[test]
fn decimal_round_values() {
    assert_eq!(decimal_string(0), "0");
    assert_eq!(decimal_string(1234567890), "1234567890");
    assert_eq!(decimal_string(u64::MAX), "18446744073709551615");
    assert_eq!(parse_u64("18446744073709551615"), Some(u64::MAX));
    assert_eq!(parse_u64("18446744073709551616"), None);
    assert_eq!(parse_u64("007"), Some(7));
    assert_eq!(parse_u64(""), None);
    assert_eq!(parse_u64("12a"), None);
}

#[test]
fn split_text_pieces() {
    assert_eq!(split_text("a:b::c", ':'), vec!["a", "b", "", "c"]);
    assert_eq!(split_text("", ':'), vec![""]);
    assert_eq!(split_text(":", ':'), vec!["", ""]);
}

#[test]
fn parse_ipv4_values() {
    assert_eq!(parse_ipv4("10.0.0.5"), Some(0x0A000005));
    assert_eq!(parse_ipv4("255.255.255.255"), Some(u32::MAX));
    assert_eq!(parse_ipv4("0.0.0.0"), Some(0));
    assert_eq!(parse_ipv4("256.0.0.1"), None);
    assert_eq!(parse_ipv4("1.2.3"), None);
    assert_eq!(parse_ipv4("1.2.3.4.5"), None);
    assert_eq!(parse_ipv4("01.2.3.4"), None);
    assert_eq!(parse_ipv4("a.b.c.d"), None);
}

#[test]
fn net_contains_values() {
    assert!(net_contains(0x0A000000, 8, 0x0A0B0C0D));
    assert!(!net_contains(0x0A000000, 8, 0x0B000000));
    assert!(net_contains(0, 0, 0xFFFFFFFF));
    assert!(net_contains(0x0A000005, 32, 0x0A000005));
    assert!(!net_contains(0x0A000005, 32, 0x0A000006));
}

#[test]
fn ignore_list_exact_and_cidr() {
    let list = vec!["192.168.1.10".to_string(), "10.0.0.0/8".to_string(), "bogus".to_string(), "1.2.3.4/40".to_string()];
    assert!(is_ip_in_list("192.168.1.10", &list));
    assert!(is_ip_in_list("10.200.3.4", &list));
    assert!(!is_ip_in_list("192.168.1.11", &list));
    assert!(!is_ip_in_list("11.0.0.1", &list));
    assert!(!is_ip_in_list("not an ip", &list));
    assert!(!is_ip_in_list("1.2.3.4", &list));
    assert!(!is_ip_in_list("10.0.0.1", &[]));
}

#[test]
fn ignore_list_cidr_keeps_host_bits_network() {
    let list = vec!["192.168.1.77/24".to_string()];
    assert!(is_ip_in_list("192.168.1.1", &list));
    assert!(!is_ip_in_list("192.168.2.1", &list));
}

#[test]
fn placeholder_detection() {
    assert!(contains_placeholder("sshd .* <IP> port"));
    assert!(!contains_placeholder("sshd .* <ip> port"));
    assert!(!contains_placeholder("<IP"));
}

#[test]
fn config_rejects_pattern_without_placeholder() {
    assert_eq!(cfg("ssh", "Failed from .*", 1000, 1000, 3).err(), Some(ConfigError::MissingPlaceholder));
}

#[test]
fn config_errors_each_rule() {
    assert_eq!(cfg("", "<IP>", 1, 1, 1).err(), Some(ConfigError::EmptyId));
    assert_eq!(cfg("s", "(<IP>", 1, 1, 1).err(), Some(ConfigError::InvalidPattern));
    assert_eq!(cfg("s", "<IP>", 0, 1, 1).err(), Some(ConfigError::ZeroBanTime));
    assert_eq!(cfg("s", "<IP>", 1, 0, 1).err(), Some(ConfigError::ZeroFindTime));
    assert_eq!(cfg("s", "<IP>", 1, 1, 0).err(), Some(ConfigError::ZeroMaxMatches));
    assert!(cfg("s", "from <IP>", 1, 1, 1).is_ok());
}

#[test]
fn config_update_is_all_or_nothing() {
    let mut c = cfg("s", "from <IP>", 10, 20, 3).unwrap();
    let r = c.update(Some("new".to_string()), None, Some("no placeholder".to_string()), None, None, None, None);
    assert_eq!(r, Err(ConfigError::MissingPlaceholder));
    assert_eq!(c.name, "name");
    assert_eq!(c.regex, "from <IP>");
    let r = c.update(Some("new".to_string()), None, Some("to <IP>".to_string()), Some(5), None, Some(7), Some(vec!["1.1.1.1".to_string()]));
    assert_eq!(r, Ok(()));
    assert_eq!(c.name, "new");
    assert_eq!(c.regex, "to <IP>");
    assert_eq!(c.ban_time, 5);
    assert_eq!(c.find_time, 20);
    assert_eq!(c.max_matches, 7);
    assert_eq!(c.ignore_ips, vec!["1.1.1.1".to_string()]);
    assert_eq!(c.update(None, None, None, Some(0), None, None, None), Err(ConfigError::ZeroBanTime));
    assert_eq!(c.ban_time, 5);
}

#[test]
fn config_data_round_trip() {
    let c = cfg("s", "from <IP>", 10, 20, 3).unwrap();
    let d = c.to_data();
    assert_eq!(d.id, "s");
    assert_eq!(d.find_time, 20);
    let back = Config::from_data(d).ok().unwrap();
    assert_eq!(back.regex, "from <IP>");
    assert_eq!(back.max_matches, 3);
}

#[test]
fn ignore_list_ipv6_exact_and_cidr() {
    let list = vec!["::1".to_string(), "2001:db8::/32".to_string()];
    assert!(is_ip_in_list("::1", &list));
    assert!(is_ip_in_list("2001:db8::5", &list));
    assert!(!is_ip_in_list("2001:db9::1", &list));
    assert!(!is_ip_in_list("10.0.0.1", &vec!["::/0".to_string()]));
    assert!(!is_ip_in_list("::1", &vec!["0.0.0.0/0".to_string()]));
    assert!(is_ip_in_list("10.0.0.1", &vec!["0.0.0.0/0".to_string()]));
}

#[test]
fn parse_address_both_families() {
    assert_eq!(parse_address("2001:db8::1"), Some((true, 0x2001_0db8_0000_0000_0000_0000_0000_0001)));
    assert_eq!(parse_address("::"), Some((true, 0)));
    assert_eq!(parse_address("10.0.0.5"), Some((false, 0x0A000005)));
    assert_eq!(parse_address("::1/64"), None);
    assert_eq!(parse_address("not an address"), None);
}

#[test]
fn net6_contains_values() {
    assert!(net6_contains(0x2001_0db8 << 96, 32, (0x2001_0db8 << 96) | 5));
    assert!(!net6_contains(0x2001_0db8 << 96, 32, 0x2001_0db9 << 96));
    assert!(net6_contains(0, 0, u128::MAX));
    assert!(net6_contains(1, 128, 1));
    assert!(!net6_contains(1, 128, 2));
}
