//! IPv4 addresses written in dotted-quad form, and the ignore filter over
//! single addresses and CIDR ranges.

use vstd::prelude::*;
use crate::text::{all_digits, is_digit, digits_value, has_char, parse_u64, split_on, split_text, views};

verus! {

/// The value of one dotted-quad component: one to three digits, no leading zero, at most 255.
pub open spec fn octet_of(s: Seq<char>) -> Option<nat> {
    if all_digits(s) && s.len() <= 3 && (s.len() == 1 || s[0] != '0') && digits_value(s) <= 255 {
        Some(digits_value(s))
    } else {
        None
    }
}

/// The 32-bit value of an address written as four components separated by dots.
pub open spec fn ipv4_of(s: Seq<char>) -> Option<u32> {
    let f = split_on(s, '.');
    if f.len() == 4 && octet_of(f[0]) is Some && octet_of(f[1]) is Some && octet_of(f[2]) is Some
        && octet_of(f[3]) is Some {
        Some(
            (octet_of(f[0])->0 * 16777216 + octet_of(f[1])->0 * 65536 + octet_of(f[2])->0 * 256
                + octet_of(f[3])->0) as u32,
        )
    } else {
        None
    }
}

/// One address component as a network is written: one to three digits, leading
/// zeros allowed, below 256.
pub open spec fn net_octet(s: Seq<char>) -> Option<nat> {
    if all_digits(s) && s.len() <= 3 && digits_value(s) < 256 {
        Some(digits_value(s))
    } else {
        None
    }
}

/// The address and prefix length of a network written `a.b.c.d/n`: four
/// components separated by dots, a slash, and one or two digits below 33. The
/// address is kept as written, host bits included.
pub open spec fn ipv4_net_of(s: Seq<char>) -> Option<(u32, u8)> {
    let halves = split_on(s, '/');
    if halves.len() == 2 {
        let f = split_on(halves[0], '.');
        let p = halves[1];
        if f.len() == 4 && net_octet(f[0]) is Some && net_octet(f[1]) is Some && net_octet(f[2]) is Some
            && net_octet(f[3]) is Some && all_digits(p) && p.len() <= 2 && digits_value(p) < 33 {
            Some(
                (
                    (net_octet(f[0])->0 * 16777216 + net_octet(f[1])->0 * 65536 + net_octet(f[2])->0 * 256
                        + net_octet(f[3])->0) as u32,
                    digits_value(p) as u8,
                ),
            )
        } else {
            None
        }
    } else {
        None
    }
}

/// Whether `ip` lies in the network of `prefix_len` leading bits of `base`.
pub open spec fn in_net(base: u32, prefix_len: u8, ip: u32) -> bool {
    prefix_len == 0 || (ip >> ((32 - prefix_len) as u32)) == (base >> ((32 - prefix_len) as u32))
}

/// Whether `ip` lies in the IPv6 network of `prefix_len` leading bits of `base`.
pub open spec fn in_net6(base: u128, prefix_len: u8, ip: u128) -> bool {
    prefix_len == 0 || (ip >> ((128 - prefix_len) as u128)) == (base >> ((128 - prefix_len) as u128))
}

/// The address and prefix length that `ipnet` reads from an IPv6 network
/// written `address/n`, for text that is not an IPv4 network.
pub uninterp spec fn ipv6_net_of(s: Seq<char>) -> Option<(u128, u8)>;

/// The network that `ipnet` reads from `s`: whether it is IPv6, its address and
/// its prefix length. An IPv4 reading is tried first.
pub open spec fn ip_net_of(s: Seq<char>) -> Option<(bool, u128, u8)> {
    match ipv4_net_of(s) {
        Some(n) => Some((false, n.0 as u128, n.1)),
        None => match ipv6_net_of(s) {
            Some(n) => Some((true, n.0, n.1)),
            None => None,
        },
    }
}

/// An address of either family: whether it is IPv6, and its value. An IPv4
/// address is written in dotted-quad form; an IPv6 address is any text that,
/// followed by `/128`, `ipnet` reads as an IPv6 host network.
pub open spec fn address_of(s: Seq<char>) -> Option<(bool, u128)> {
    match ipv4_of(s) {
        Some(a) => Some((false, a as u128)),
        None => match ip_net_of(s + "/128"@) {
            Some(n) => if n.0 && n.2 == 128 {
                Some((true, n.1))
            } else {
                None
            },
            None => None,
        },
    }
}

/// Whether one ignore-list entry covers the address `a`: an entry with a slash is a
/// network of the same family that holds it, any other entry the same address; an
/// entry that does not parse covers nothing.
pub open spec fn entry_covers(entry: Seq<char>, a: (bool, u128)) -> bool {
    if entry.contains('/') {
        match ip_net_of(entry) {
            Some(n) => n.0 == a.0 && if a.0 {
                in_net6(n.1, n.2, a.1)
            } else {
                in_net(n.1 as u32, n.2, a.1 as u32)
            },
            None => false,
        }
    } else {
        address_of(entry) == Some(a)
    }
}

/// Whether the address written `ip` is exempted by some entry of `list`.
pub open spec fn listed(ip: Seq<char>, list: Seq<Seq<char>>) -> bool {
    match address_of(ip) {
        Some(a) => exists|i: int| 0 <= i < list.len() && entry_covers(#[trigger] list[i], a),
        None => false,
    }
}

/// Relies on `ipnet::IpNet`'s `FromStr`: it first reads an IPv4 network (four
/// components of at most three digits below 256, a slash, at most two digits
/// below 33, to the end of the text, the address kept as written), and
/// otherwise an IPv6 network, whose prefix length is at most 128.
#[verifier::external_body]
fn parse_ip_net(s: &str) -> (r: Option<(bool, u128, u8)>)
    ensures
        r == ip_net_of(s@),
        r matches Some(n) ==> n.2 <= (if n.0 { 128u8 } else { 32u8 }),
        r matches Some(n) ==> (n.0 ==> ipv6_net_of(s@) == Some((n.1, n.2))),
{
    match s.parse::<ipnet::IpNet>() {
        Ok(ipnet::IpNet::V4(n)) => Some((false, u128::from(u32::from(n.addr())), n.prefix_len())),
        Ok(ipnet::IpNet::V6(n)) => Some((true, u128::from(n.addr()), n.prefix_len())),
        Err(_) => None,
    }
}

fn parse_octet(s: &str) -> (r: Option<u32>)
    ensures
        r matches Some(v) ==> octet_of(s@) == Some(v as nat),
        r is None ==> octet_of(s@) is None,
{
    let n = s.unicode_len();
    if n == 0 || n > 3 {
        return None;
    }
    if n > 1 && s.get_char(0) == '0' {
        return None;
    }
    match parse_u64(s) {
        Some(v) => {
            if v <= 255 {
                Some(v as u32)
            } else {
                None
            }
        },
        None => {
            proof {
                if all_digits(s@) {
                    lemma_short_digits_fit(s@);
                }
            }
            None
        },
    }
}

spec fn ten_pow(n: nat) -> nat
    decreases n,
{
    if n == 0 { 1 } else { ten_pow((n - 1) as nat) * 10 }
}

proof fn lemma_digits_below_power(s: Seq<char>)
    requires
        forall|i: int| 0 <= i < s.len() ==> is_digit(#[trigger] s[i]),
    ensures
        digits_value(s) < ten_pow(s.len()),
    decreases s.len(),
{
    if s.len() > 0 {
        let p = s.drop_last();
        assert forall|i: int| 0 <= i < p.len() implies is_digit(#[trigger] p[i]) by {
            assert(p[i] == s[i]);
        }
        lemma_digits_below_power(p);
        assert(is_digit(s[s.len() - 1]));
        let d = (s.last() as u32 - '0' as u32) as nat;
        let v = digits_value(p);
        let t = ten_pow(p.len());
        assert(v * 10 + d < t * 10) by (nonlinear_arith)
            requires
                v < t,
                d < 10,
        ;
    }
}

proof fn lemma_short_digits_fit(s: Seq<char>)
    requires
        all_digits(s),
        s.len() <= 3,
    ensures
        digits_value(s) <= 999,
{
    lemma_digits_below_power(s);
    reveal_with_fuel(ten_pow, 4);
    assert(ten_pow(0) == 1);
    assert(ten_pow(1) == 10);
    assert(ten_pow(2) == 100);
    assert(ten_pow(3) == 1000);
}

/// Reads an IPv4 address written in dotted-quad form.
pub fn parse_ipv4(s: &str) -> (r: Option<u32>)
    ensures
        r == ipv4_of(s@),
{
    let parts = split_text(s, '.');
    assert(views(parts@).len() == parts@.len());
    if parts.len() != 4 {
        return None;
    }
    assert(views(parts@)[0] == parts@[0]@);
    assert(views(parts@)[1] == parts@[1]@);
    assert(views(parts@)[2] == parts@[2]@);
    assert(views(parts@)[3] == parts@[3]@);
    let a = match parse_octet(parts[0].as_str()) {
        Some(v) => v,
        None => return None,
    };
    let b = match parse_octet(parts[1].as_str()) {
        Some(v) => v,
        None => return None,
    };
    let c = match parse_octet(parts[2].as_str()) {
        Some(v) => v,
        None => return None,
    };
    let d = match parse_octet(parts[3].as_str()) {
        Some(v) => v,
        None => return None,
    };
    Some(a * 16777216 + b * 65536 + c * 256 + d)
}

/// Whether `ip` lies in the network of `prefix_len` leading bits of `base`.
pub fn net_contains(base: u32, prefix_len: u8, ip: u32) -> (r: bool)
    requires
        prefix_len <= 32,
    ensures
        r == in_net(base, prefix_len, ip),
{
    if prefix_len == 0 {
        true
    } else {
        let shift: u32 = (32 - prefix_len) as u32;
        (ip >> shift) == (base >> shift)
    }
}

/// Whether `ip` lies in the IPv6 network of `prefix_len` leading bits of `base`.
pub fn net6_contains(base: u128, prefix_len: u8, ip: u128) -> (r: bool)
    requires
        prefix_len <= 128,
    ensures
        r == in_net6(base, prefix_len, ip),
{
    if prefix_len == 0 {
        true
    } else {
        let shift: u128 = (128 - prefix_len) as u128;
        (ip >> shift) == (base >> shift)
    }
}

/// Reads an address of either family.
pub fn parse_address(s: &str) -> (r: Option<(bool, u128)>)
    ensures
        r == address_of(s@),
{
    match parse_ipv4(s) {
        Some(a) => Some((false, a as u128)),
        None => {
            let mut host = s.to_string();
            host.append("/128");
            match parse_ip_net(host.as_str()) {
                Some(n) => if n.0 && n.2 == 128 {
                    Some((true, n.1))
                } else {
                    None
                },
                None => None,
            }
        },
    }
}

fn entry_covers_exec(entry: &str, a: (bool, u128)) -> (r: bool)
    ensures
        r == entry_covers(entry@, a),
{
    if has_char(entry, '/') {
        match parse_ip_net(entry) {
            Some(n) => {
                if n.0 != a.0 {
                    false
                } else if a.0 {
                    net6_contains(n.1, n.2, a.1)
                } else {
                    net_contains(n.1 as u32, n.2, a.1 as u32)
                }
            },
            None => false,
        }
    } else {
        match parse_address(entry) {
            Some(b) => b.0 == a.0 && b.1 == a.1,
            None => false,
        }
    }
}

/// Whether the address `ip` is exempted by `ignore_list`, whose entries are single
/// addresses or CIDR networks; an address that does not parse is never exempt, and an
/// entry that does not parse is skipped.
pub fn is_ip_in_list(ip: &str, ignore_list: &[String]) -> (r: bool)
    ensures
        r == listed(ip@, views(ignore_list@)),
{
    let a = match parse_address(ip) {
        Some(a) => a,
        None => return false,
    };
    let mut i: usize = 0;
    while i < ignore_list.len()
        invariant
            i <= ignore_list@.len(),
            address_of(ip@) == Some(a),
            forall|k: int| 0 <= k < i ==> !entry_covers(#[trigger] views(ignore_list@)[k], a),
        decreases ignore_list@.len() - i,
    {
        if entry_covers_exec(ignore_list[i].as_str(), a) {
            assert(views(ignore_list@)[i as int] == ignore_list@[i as int]@);
            return true;
        }
        assert(views(ignore_list@)[i as int] == ignore_list@[i as int]@);
        i = i + 1;
    }
    false
}

} // verus!
