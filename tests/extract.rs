use banalize_core::pattern::{expand_pattern, extract_ip, find_embedded_address, first_address, IpExtractor};

#[test]
fn test_extract_ip() {
    let pattern = ".*<IP>.*";
    let line = "Connection from 192.168.1.1";
    let ip = extract_ip(pattern, line);
    assert!(ip.is_some());
    assert_eq!(ip.unwrap().to_string(), "192.168.1.1");
}

#[test]
fn extract_takes_the_address_group_after_other_groups() {
    let ip = extract_ip(r"Failed password for (\w+) from <IP> port", "Failed password for root from 10.0.0.5 port 22");
    assert_eq!(ip, Some("10.0.0.5".to_string()));
}

#[test]
fn extract_rejects_out_of_range_octets() {
    assert_eq!(extract_ip("from <IP>", "from 300.1.2.3"), None);
    assert_eq!(extract_ip("from <IP>", "from 01.1.2.3"), None);
}

#[test]
fn extract_without_match_is_none() {
    assert_eq!(extract_ip("sshd.*<IP>", "nginx: 10.0.0.1"), None);
}

#[test]
fn extract_with_uncompilable_pattern_is_none() {
    assert_eq!(extract_ip("(<IP>", "1.2.3.4"), None);
}

#[test]
fn expand_replaces_every_placeholder() {
    let e = expand_pattern("a<IP>b<IP>");
    let g = r"(\b(?:\d{1,3}\.){3}\d{1,3}\b)";
    assert_eq!(e, format!("a{}b{}", g, g));
    assert_eq!(expand_pattern("no placeholder"), "no placeholder");
}

#[test]
fn extractor_caches_and_matches_free_function() {
    let mut x = IpExtractor::new();
    let a = x.extract_ip(".*<IP>.*", "Connection from 192.168.1.1");
    let b = x.extract_ip(".*<IP>.*", "Connection from 10.1.1.1");
    assert_eq!(a, Some("192.168.1.1".to_string()));
    assert_eq!(b, Some("10.1.1.1".to_string()));
    assert_eq!(x.extract_ip("x <IP>", "y 1.1.1.1"), None);
}

#[test]
fn extract_without_groups_reads_the_whole_match() {
    assert_eq!(extract_ip("Connection from .* port", "Connection from 10.2.3.4 port 22"), Some("10.2.3.4".to_string()));
    assert_eq!(extract_ip("Connection", "Connection from 10.2.3.4"), None);
}

#[test]
fn embedded_address_is_first_valid_run() {
    assert_eq!(find_embedded_address("v1.2.3 then 999.1.1.1 then 9.8.7.6, 1.1.1.1"), Some("9.8.7.6".to_string()));
    assert_eq!(find_embedded_address("no address"), None);
    assert_eq!(find_embedded_address(""), None);
}

#[test]
fn first_address_over_given_groups() {
    let g = vec![Some("user root from 1.2.3.4".to_string()), Some("root".to_string()), None, Some("1.2.3.4".to_string())];
    assert_eq!(first_address(&g), Some("1.2.3.4".to_string()));
    let whole = vec![Some("from 9.9.9.9 port".to_string())];
    assert_eq!(first_address(&whole), Some("9.9.9.9".to_string()));
    let none = vec![Some("x".to_string()), Some("300.1.1.1".to_string())];
    assert_eq!(first_address(&none), None);
    assert_eq!(first_address(&vec![]), None);
}
