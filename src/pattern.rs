//! The pattern matcher: a configured pattern holds the placeholder `<IP>`, which is
//! replaced by an IPv4-matching group before the pattern is compiled; a line then
//! yields the first captured group that reads as an address.

use vstd::prelude::*;
use crate::addr::{ipv4_of, parse_ipv4};
use crate::text::{is_digit, split_on, split_text, views};

verus! {

#[verifier::external_type_specification]
#[verifier::external_body]
pub struct ExRegex(regex::Regex);

/// The placeholder that a configured pattern must hold.
pub open spec fn placeholder() -> Seq<char> {
    seq!['<', 'I', 'P', '>']
}

/// The group that stands for the placeholder once a pattern is expanded.
pub open spec fn ip_group() -> Seq<char> {
    "(\\b(?:\\d{1,3}\\.){3}\\d{1,3}\\b)"@
}

/// Whether `p` holds the placeholder at position `i`.
pub open spec fn placeholder_at(p: Seq<char>, i: int) -> bool {
    0 <= i && i + 4 <= p.len() && p.subrange(i, i + 4) == placeholder()
}

/// Whether `p` holds the placeholder anywhere.
pub open spec fn has_placeholder(p: Seq<char>) -> bool {
    exists|i: int| placeholder_at(p, i)
}

/// `p` with every occurrence of the placeholder, taken left to right without
/// overlap, replaced by the address group.
pub open spec fn expand(p: Seq<char>) -> Seq<char>
    decreases p.len(),
{
    if p.len() == 0 {
        p
    } else if placeholder_at(p, 0) {
        ip_group() + expand(p.subrange(4, p.len() as int))
    } else {
        seq![p[0]] + expand(p.subrange(1, p.len() as int))
    }
}

/// Whether `regex` compiles the pattern `p`.
pub uninterp spec fn regex_accepts(p: Seq<char>) -> bool;

/// The capture groups of the first match of the compiled pattern `p` in `line`,
/// group 0 being the whole match; `None` where nothing matches.
pub uninterp spec fn regex_captures(p: Seq<char>, line: Seq<char>) -> Option<Seq<Option<Seq<char>>>>;

/// The views of capture groups.
pub open spec fn groups_view(g: Seq<Option<String>>) -> Seq<Option<Seq<char>>> {
    g.map_values(|x: Option<String>| match x {
        Some(s) => Some(s@),
        None => None,
    })
}

/// The first group at or after `i` that matched and reads as an IPv4 address.
pub open spec fn first_address_from(g: Seq<Option<Seq<char>>>, i: int) -> Option<Seq<char>>
    decreases g.len() - i,
{
    if i < 0 || i >= g.len() {
        None
    } else if g[i] is Some && ipv4_of(g[i]->0) is Some {
        g[i]
    } else {
        first_address_from(g, i + 1)
    }
}

/// `s` with every character that cannot be part of an address replaced by a space.
pub open spec fn address_chars(s: Seq<char>) -> Seq<char> {
    s.map_values(|c: char| if is_digit(c) || c == '.' { c } else { ' ' })
}

/// The first of `tokens` at or after `i` that reads as an address.
pub open spec fn first_token_address(tokens: Seq<Seq<char>>, i: int) -> Option<Seq<char>>
    decreases tokens.len() - i,
{
    if i < 0 || i >= tokens.len() {
        None
    } else if ipv4_of(tokens[i]) is Some {
        Some(tokens[i])
    } else {
        first_token_address(tokens, i + 1)
    }
}

/// The first address embedded in `s`: the first run of digits and dots that
/// reads as an address.
pub open spec fn embedded_address(s: Seq<char>) -> Option<Seq<char>> {
    first_token_address(split_on(address_chars(s), ' '), 0)
}

/// The address that the groups of a match yield: the first group after the
/// whole match that reads as an address where the pattern has groups, and
/// otherwise the first address embedded in the whole match.
pub open spec fn address_of_groups(g: Seq<Option<Seq<char>>>) -> Option<Seq<char>> {
    if g.len() > 1 {
        first_address_from(g, 1)
    } else if g.len() == 1 && g[0] is Some {
        embedded_address(g[0]->0)
    } else {
        None
    }
}

/// The address that `line` yields under the raw pattern `p`; none where the
/// expanded pattern does not compile or does not match.
pub open spec fn extraction(p: Seq<char>, line: Seq<char>) -> Option<Seq<char>> {
    if regex_accepts(expand(p)) {
        match regex_captures(expand(p), line) {
            Some(g) => address_of_groups(g),
            None => None,
        }
    } else {
        None
    }
}

/// A compiled regular expression together with the text it was compiled from.
pub struct CompiledPattern {
    source: String,
    re: regex::Regex,
}

impl CompiledPattern {
    /// The text the expression was compiled from.
    pub closed spec fn source(&self) -> Seq<char> {
        self.source@
    }
}

/// Relies on `regex::Regex::new`: it fails exactly on the patterns it refuses,
/// which depend on the pattern text alone.
#[verifier::external_body]
fn compile(p: &str) -> (r: Option<CompiledPattern>)
    ensures
        r is Some <==> regex_accepts(p@),
        r matches Some(c) ==> c.source() == p@,
{
    match regex::Regex::new(p) {
        Ok(re) => Some(CompiledPattern { source: p.to_string(), re }),
        Err(_) => None,
    }
}

/// Relies on `regex::Regex::captures` and `Captures::iter`: the groups of the
/// leftmost match, in the order of their opening parentheses.
#[verifier::external_body]
fn capture_groups(c: &CompiledPattern, line: &str) -> (r: Option<Vec<Option<String>>>)
    ensures
        r matches Some(g) ==> regex_captures(c.source(), line@) == Some(groups_view(g@)),
        r is None ==> regex_captures(c.source(), line@) is None,
{
    c.re.captures(line).map(|caps| caps.iter().map(|m| m.map(|m| m.as_str().to_string())).collect())
}

/// Whether the expansion of the raw pattern `p` compiles.
pub fn pattern_compiles(p: &str) -> (r: bool)
    ensures
        r == regex_accepts(expand(p@)),
{
    let expanded = expand_pattern(p);
    compile(expanded.as_str()).is_some()
}

fn placeholder_at_exec(p: &str, n: usize, i: usize) -> (r: bool)
    requires
        n == p@.len(),
        i <= n,
    ensures
        r == placeholder_at(p@, i as int),
{
    if n < 4 || i > n - 4 {
        return false;
    }
    let r = p.get_char(i) == '<' && p.get_char(i + 1) == 'I' && p.get_char(i + 2) == 'P'
        && p.get_char(i + 3) == '>';
    if r {
        assert(p@.subrange(i as int, i as int + 4) =~= placeholder());
    } else {
        assert(p@.subrange(i as int, i as int + 4) != placeholder()) by {
            if p@.subrange(i as int, i as int + 4) == placeholder() {
                assert(p@.subrange(i as int, i as int + 4)[0] == p@[i as int]);
                assert(p@.subrange(i as int, i as int + 4)[1] == p@[i as int + 1]);
                assert(p@.subrange(i as int, i as int + 4)[2] == p@[i as int + 2]);
                assert(p@.subrange(i as int, i as int + 4)[3] == p@[i as int + 3]);
            }
        }
    }
    r
}

/// Whether `p` holds the placeholder `<IP>`.
pub fn contains_placeholder(p: &str) -> (r: bool)
    ensures
        r == has_placeholder(p@),
{
    let n = p.unicode_len();
    let mut i: usize = 0;
    while i < n
        invariant
            n == p@.len(),
            i <= n,
            forall|k: int| 0 <= k < i ==> !placeholder_at(p@, k),
        decreases n - i,
    {
        if placeholder_at_exec(p, n, i) {
            return true;
        }
        i = i + 1;
    }
    assert forall|k: int| !placeholder_at(p@, k) by {
        if !(0 <= k < n) {
            assert(!placeholder_at(p@, k));
        }
    }
    false
}

/// Replaces every placeholder of `p` by the IPv4 address group.
pub fn expand_pattern(p: &str) -> (r: String)
    ensures
        r@ == expand(p@),
{
    let n = p.unicode_len();
    let mut out = String::new();
    let mut i: usize = 0;
    assert(p@.subrange(0, n as int) =~= p@);
    while i < n
        invariant
            n == p@.len(),
            i <= n,
            out@ + expand(p@.subrange(i as int, n as int)) == expand(p@),
        decreases n - i,
    {
        let ghost rest = p@.subrange(i as int, n as int);
        if placeholder_at_exec(p, n, i) {
            assert(placeholder_at(rest, 0)) by {
                assert(rest.subrange(0, 4) =~= p@.subrange(i as int, i as int + 4));
            }
            assert(rest.subrange(4, rest.len() as int) =~= p@.subrange(i as int + 4, n as int));
            out.append("(\\b(?:\\d{1,3}\\.){3}\\d{1,3}\\b)");
            i = i + 4;
            assert(out@ + expand(p@.subrange(i as int, n as int)) =~= expand(p@));
        } else {
            assert(!placeholder_at(rest, 0)) by {
                if rest.len() >= 4 {
                    assert(rest.subrange(0, 4) =~= p@.subrange(i as int, i as int + 4));
                }
            }
            assert(rest.subrange(1, rest.len() as int) =~= p@.subrange(i as int + 1, n as int));
            let one = p.substring_char(i, i + 1);
            assert(one@ =~= seq![rest[0]]);
            out.append(one);
            i = i + 1;
            assert(out@ + expand(p@.subrange(i as int, n as int)) =~= expand(p@));
        }
    }
    assert(p@.subrange(n as int, n as int) =~= Seq::<char>::empty());
    assert(out@ + expand(Seq::<char>::empty()) =~= out@);
    out
}

fn first_group_address(groups: &Vec<Option<String>>) -> (r: Option<String>)
    requires
        groups@.len() > 1,
    ensures
        r matches Some(s) ==> first_address_from(groups_view(groups@), 1) == Some(s@),
        r is None ==> first_address_from(groups_view(groups@), 1) is None,
{
    let ghost g = groups_view(groups@);
    let mut i: usize = groups.len();
    let mut found: Option<String> = None;
    assert(first_address_from(g, i as int) is None);
    while i > 1
        invariant
            1 <= i <= groups@.len(),
            g == groups_view(groups@),
            found matches Some(s) ==> first_address_from(g, i as int) == Some(s@),
            found is None ==> first_address_from(g, i as int) is None,
        decreases i,
    {
        i = i - 1;
        match &groups[i] {
            Some(s) => {
                if parse_ipv4(s.as_str()).is_some() {
                    found = Some(s.clone());
                    assert(first_address_from(g, i as int) == Some(s@));
                } else {
                    assert(first_address_from(g, i as int) == first_address_from(g, i as int + 1));
                }
            },
            None => {
                assert(first_address_from(g, i as int) == first_address_from(g, i as int + 1));
            },
        }
    }
    found
}

/// Replaces every character of `s` that cannot be part of an address by a space.
fn mask_address_chars(s: &str) -> (r: String)
    ensures
        r@ == address_chars(s@),
{
    let n = s.unicode_len();
    let mut out = String::new();
    let mut i: usize = 0;
    while i < n
        invariant
            n == s@.len(),
            i <= n,
            out@ == address_chars(s@.subrange(0, i as int)),
        decreases n - i,
    {
        let c = s.get_char(i);
        let ghost prev = out@;
        if ('0' <= c && c <= '9') || c == '.' {
            let one = s.substring_char(i, i + 1);
            assert(one@ =~= seq![c]);
            out.append(one);
        } else {
            out.append(" ");
            proof {
                reveal_strlit(" ");
            }
        }
        assert(address_chars(s@.subrange(0, i as int + 1)) =~= address_chars(s@.subrange(0, i as int)).push(
            if is_digit(c) || c == '.' { c } else { ' ' },
        ));
        assert(out@ =~= prev.push(if is_digit(c) || c == '.' { c } else { ' ' }));
        i = i + 1;
    }
    assert(s@.subrange(0, n as int) =~= s@);
    out
}

/// The first address embedded in `s`.
pub fn find_embedded_address(s: &str) -> (r: Option<String>)
    ensures
        r matches Some(a) ==> embedded_address(s@) == Some(a@),
        r is None ==> embedded_address(s@) is None,
{
    let masked = mask_address_chars(s);
    let tokens = split_text(masked.as_str(), ' ');
    let ghost t = views(tokens@);
    let mut i: usize = tokens.len();
    let mut found: Option<String> = None;
    assert(first_token_address(t, i as int) is None);
    while i > 0
        invariant
            i <= tokens@.len(),
            t == views(tokens@),
            t == split_on(address_chars(s@), ' '),
            found matches Some(x) ==> first_token_address(t, i as int) == Some(x@),
            found is None ==> first_token_address(t, i as int) is None,
        decreases i,
    {
        i = i - 1;
        assert(t[i as int] == tokens@[i as int]@);
        if parse_ipv4(tokens[i].as_str()).is_some() {
            found = Some(tokens[i].clone());
        }
    }
    found
}

/// The address that the capture groups of a match yield.
pub fn first_address(groups: &Vec<Option<String>>) -> (r: Option<String>)
    ensures
        r matches Some(s) ==> address_of_groups(groups_view(groups@)) == Some(s@),
        r is None ==> address_of_groups(groups_view(groups@)) is None,
{
    if groups.len() > 1 {
        first_group_address(groups)
    } else if groups.len() == 1 {
        match &groups[0] {
            Some(whole) => find_embedded_address(whole.as_str()),
            None => None,
        }
    } else {
        None
    }
}

/// Extracts the address from `line` under the raw pattern `pattern`, compiling the
/// expanded pattern afresh.
pub fn extract_ip(pattern: &str, line: &str) -> (r: Option<String>)
    ensures
        r matches Some(s) ==> extraction(pattern@, line@) == Some(s@),
        r is None ==> extraction(pattern@, line@) is None,
{
    let expanded = expand_pattern(pattern);
    match compile(expanded.as_str()) {
        Some(c) => match capture_groups(&c, line) {
            Some(groups) => first_address(&groups),
            None => None,
        },
        None => None,
    }
}

/// One cached compilation: the raw pattern and, where it compiled, its expansion.
struct CacheEntry {
    raw: String,
    compiled: Option<CompiledPattern>,
}

/// The pattern matcher with its cache: each distinct raw pattern is expanded and
/// compiled once, on first use.
pub struct IpExtractor {
    cache: Vec<CacheEntry>,
}

impl IpExtractor {
    /// The raw patterns compiled so far, in order of first use.
    pub closed spec fn patterns(&self) -> Seq<Seq<char>> {
        self.cache@.map_values(|e: CacheEntry| e.raw@)
    }

    /// Each entry holds the compilation of its own raw pattern, and no raw pattern
    /// is held twice.
    pub closed spec fn wf(&self) -> bool {
        &&& forall|i: int|
            0 <= i < self.cache@.len() ==> {
                let e = #[trigger] self.cache@[i];
                &&& (e.compiled is Some <==> regex_accepts(expand(e.raw@)))
                &&& (e.compiled matches Some(c) ==> c.source() == expand(e.raw@))
            }
        &&& forall|i: int, j: int|
            0 <= i < j < self.cache@.len() ==> self.cache@[i].raw@ != self.cache@[j].raw@
    }

    /// A matcher with nothing compiled yet.
    pub fn new() -> (r: IpExtractor)
        ensures
            r.wf(),
            r.patterns().len() == 0,
    {
        IpExtractor { cache: Vec::new() }
    }

    fn find(&self, pattern: &str) -> (r: Option<usize>)
        ensures
            r matches Some(i) ==> i < self.cache@.len() && self.cache@[i as int].raw@ == pattern@,
            r is None ==> !self.patterns().contains(pattern@),
    {
        let mut i: usize = 0;
        while i < self.cache.len()
            invariant
                i <= self.cache@.len(),
                forall|k: int| 0 <= k < i ==> self.cache@[k].raw@ != pattern@,
            decreases self.cache@.len() - i,
        {
            if self.cache[i].raw == pattern.to_string() {
                return Some(i);
            }
            i = i + 1;
        }
        assert(!self.patterns().contains(pattern@)) by {
            if self.patterns().contains(pattern@) {
                let k = choose|k: int| 0 <= k < self.patterns().len() && self.patterns()[k] == pattern@;
                assert(self.cache@[k].raw@ == pattern@);
            }
        }
        None
    }

    /// Extracts the address from `line` under the raw pattern `pattern`, compiling
    /// the pattern only if it has not been seen before.
    pub fn extract_ip(&mut self, pattern: &str, line: &str) -> (r: Option<String>)
        requires
            old(self).wf(),
        ensures
            final(self).wf(),
            r matches Some(s) ==> extraction(pattern@, line@) == Some(s@),
            r is None ==> extraction(pattern@, line@) is None,
            old(self).patterns().contains(pattern@) ==> final(self).patterns() == old(self).patterns(),
            !old(self).patterns().contains(pattern@) ==> final(self).patterns() == old(
                self,
            ).patterns().push(pattern@),
    {
        let idx = match self.find(pattern) {
            Some(i) => {
                assert(self.patterns()[i as int] == pattern@);
                i
            },
            None => {
                let expanded = expand_pattern(pattern);
                let compiled = compile(expanded.as_str());
                let ghost before = self.cache@;
                self.cache.push(CacheEntry { raw: pattern.to_string(), compiled });
                assert(self.patterns() =~= old(self).patterns().push(pattern@));
                assert forall|i: int, j: int| 0 <= i < j < self.cache@.len() implies self.cache@[i].raw@
                    != self.cache@[j].raw@ by {
                    if j == self.cache@.len() - 1 {
                        assert(old(self).patterns()[i] == before[i].raw@);
                    }
                }
                self.cache.len() - 1
            },
        };
        let entry = &self.cache[idx];
        assert(entry.raw@ == pattern@);
        match &entry.compiled {
            Some(c) => match capture_groups(c, line) {
                Some(groups) => first_address(&groups),
                None => None,
            },
            None => None,
        }
    }
}

} // verus!
