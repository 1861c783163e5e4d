//! Decimal rendering and parsing of unsigned integers, and character-level helpers.

use vstd::prelude::*;

verus! {

/// The character of a decimal digit.
pub open spec fn digit_char(d: nat) -> char
    recommends
        d < 10,
{
    if d == 0 { '0' }
    else if d == 1 { '1' }
    else if d == 2 { '2' }
    else if d == 3 { '3' }
    else if d == 4 { '4' }
    else if d == 5 { '5' }
    else if d == 6 { '6' }
    else if d == 7 { '7' }
    else if d == 8 { '8' }
    else { '9' }
}

/// The shortest decimal rendering of `n`, most significant digit first.
pub open spec fn decimal(n: nat) -> Seq<char>
    decreases n,
{
    if n < 10 {
        seq![digit_char(n)]
    } else {
        decimal(n / 10).push(digit_char(n % 10))
    }
}

/// Renders `n` in decimal.
pub fn decimal_string(n: u64) -> (r: String)
    ensures
        r@ == decimal(n as nat),
    decreases n,
{
    let digits = "0123456789";
    proof {
        reveal_strlit("0123456789");
    }
    let d: usize = (n % 10) as usize;
    let one = digits.substring_char(d, d + 1);
    if n < 10 {
        assert(one@ =~= seq![digit_char(n as nat)]);
        one.to_string()
    } else {
        let mut s = decimal_string(n / 10);
        s.append(one);
        assert(one@ =~= seq![digit_char((n % 10) as nat)]);
        assert(s@ =~= decimal(n as nat));
        s
    }
}


/// Whether `c` is an ASCII decimal digit.
pub open spec fn is_digit(c: char) -> bool {
    '0' <= c && c <= '9'
}

/// Whether `s` is a non-empty run of decimal digits.
pub open spec fn all_digits(s: Seq<char>) -> bool {
    s.len() > 0 && forall|i: int| 0 <= i < s.len() ==> is_digit(#[trigger] s[i])
}

/// The value of a run of decimal digits, read most significant first.
pub open spec fn digits_value(s: Seq<char>) -> nat
    decreases s.len(),
{
    if s.len() == 0 {
        0
    } else {
        digits_value(s.drop_last()) * 10 + ((s.last() as u32 - '0' as u32) as nat)
    }
}

/// The number that `s` writes in decimal, where `s` is all digits and the number fits in 64 bits.
pub open spec fn u64_of(s: Seq<char>) -> Option<u64> {
    if all_digits(s) && digits_value(s) <= u64::MAX as nat {
        Some(digits_value(s) as u64)
    } else {
        None
    }
}

/// `s` cut at every occurrence of `sep`: one more piece than there are separators.
pub open spec fn split_on(s: Seq<char>, sep: char) -> Seq<Seq<char>>
    decreases s.len(),
{
    if s.len() == 0 {
        seq![Seq::<char>::empty()]
    } else {
        let f = split_on(s.drop_last(), sep);
        if s.last() == sep {
            f.push(Seq::<char>::empty())
        } else {
            f.update(f.len() - 1, f.last().push(s.last()))
        }
    }
}

/// The views of a sequence of strings.
pub open spec fn views(v: Seq<String>) -> Seq<Seq<char>> {
    v.map_values(|x: String| x@)
}

pub proof fn lemma_split_on_nonempty(s: Seq<char>, sep: char)
    ensures
        split_on(s, sep).len() >= 1,
    decreases s.len(),
{
    if s.len() > 0 {
        lemma_split_on_nonempty(s.drop_last(), sep);
    }
}

/// Cutting at a separator splits the pieces: the pieces of `x`, then those of `y`.
pub proof fn lemma_split_on_concat(x: Seq<char>, y: Seq<char>, sep: char)
    ensures
        split_on(x + seq![sep] + y, sep) == split_on(x, sep) + split_on(y, sep),
    decreases y.len(),
{
    let z = x + seq![sep] + y;
    if y.len() == 0 {
        assert(z =~= x.push(sep));
        assert(z.drop_last() =~= x);
        assert(split_on(y, sep) =~= seq![Seq::<char>::empty()]);
        assert(split_on(x, sep).push(Seq::<char>::empty()) =~= split_on(x, sep) + split_on(y, sep));
    } else {
        let yp = y.drop_last();
        lemma_split_on_concat(x, yp, sep);
        assert(z.drop_last() =~= x + seq![sep] + yp);
        assert(z.last() == y.last());
        lemma_split_on_nonempty(yp, sep);
        let f = split_on(x, sep);
        let g = split_on(yp, sep);
        if y.last() == sep {
            assert((f + g).push(Seq::<char>::empty()) =~= f + g.push(Seq::<char>::empty()));
        } else {
            assert((f + g).update((f + g).len() - 1, (f + g).last().push(y.last())) =~= f + g.update(
                g.len() - 1,
                g.last().push(y.last()),
            ));
        }
    }
}

/// Text without the separator is a single piece.
pub proof fn lemma_split_on_single(x: Seq<char>, sep: char)
    requires
        !x.contains(sep),
    ensures
        split_on(x, sep) == seq![x],
    decreases x.len(),
{
    if x.len() == 0 {
        assert(x =~= Seq::<char>::empty());
        assert(split_on(x, sep) =~= seq![x]);
    } else {
        let p = x.drop_last();
        assert(!p.contains(sep)) by {
            if p.contains(sep) {
                let k = choose|k: int| 0 <= k < p.len() && p[k] == sep;
                assert(x[k] == sep);
            }
        }
        lemma_split_on_single(p, sep);
        assert(x[x.len() - 1] == x.last());
        assert(p.push(x.last()) =~= x);
        assert(seq![p].update(0, p.push(x.last())) =~= seq![x]);
    }
}

/// The decimal rendering of `n` is all digits and reads back as `n`.
pub proof fn lemma_decimal_reads_back(n: nat)
    ensures
        all_digits(decimal(n)),
        digits_value(decimal(n)) == n,
    decreases n,
{
    lemma_digit_char(n % 10);
    if n < 10 {
        let d = decimal(n);
        assert(d.drop_last() =~= Seq::<char>::empty());
        assert(digits_value(d.drop_last()) == 0);
        assert(d.last() == digit_char(n));
        assert(n % 10 == n);
    } else {
        lemma_decimal_reads_back(n / 10);
        let d = decimal(n);
        assert(d.drop_last() =~= decimal(n / 10));
        assert(d.last() == digit_char(n % 10));
        assert((n / 10) * 10 + n % 10 == n) by (nonlinear_arith);
        assert forall|i: int| 0 <= i < d.len() implies is_digit(#[trigger] d[i]) by {
            if i < d.len() - 1 {
                assert(d[i] == decimal(n / 10)[i]);
            }
        }
    }
}

proof fn lemma_digit_char(d: nat)
    requires
        d < 10,
    ensures
        is_digit(digit_char(d)),
        (digit_char(d) as u32 - '0' as u32) as nat == d,
{
}

/// The decimal rendering holds no character but digits.
pub proof fn lemma_decimal_has_only_digits(n: nat, c: char)
    requires
        !is_digit(c),
    ensures
        !decimal(n).contains(c),
{
    lemma_decimal_reads_back(n);
    if decimal(n).contains(c) {
        let k = choose|k: int| 0 <= k < decimal(n).len() && decimal(n)[k] == c;
        assert(is_digit(decimal(n)[k]));
    }
}

proof fn lemma_digits_value_grows(s: Seq<char>, i: int)
    requires
        0 <= i <= s.len(),
        forall|k: int| 0 <= k < s.len() ==> is_digit(#[trigger] s[k]),
    ensures
        digits_value(s.subrange(0, i)) <= digits_value(s),
    decreases s.len() - i,
{
    if i == s.len() {
        assert(s.subrange(0, i) =~= s);
    } else {
        lemma_digits_value_grows(s, i + 1);
        assert(s.subrange(0, i + 1).drop_last() =~= s.subrange(0, i));
        assert(s.subrange(0, i + 1).last() == s[i]);
    }
}

/// Whether `c` occurs in `s`.
pub fn has_char(s: &str, c: char) -> (r: bool)
    ensures
        r == s@.contains(c),
{
    let n = s.unicode_len();
    let mut i: usize = 0;
    while i < n
        invariant
            n == s@.len(),
            i <= n,
            forall|k: int| 0 <= k < i ==> s@[k] != c,
        decreases n - i,
    {
        if s.get_char(i) == c {
            return true;
        }
        i = i + 1;
    }
    false
}

/// Cuts `s` at every occurrence of `sep`.
pub fn split_text(s: &str, sep: char) -> (r: Vec<String>)
    ensures
        views(r@) == split_on(s@, sep),
{
    let n = s.unicode_len();
    let mut fields: Vec<String> = Vec::new();
    let mut start: usize = 0;
    let mut i: usize = 0;
    assert(s@.subrange(0, 0) =~= Seq::<char>::empty());
    assert(views(fields@).push(s@.subrange(0, 0)) =~= split_on(s@.subrange(0, 0), sep));
    while i < n
        invariant
            n == s@.len(),
            start <= i <= n,
            views(fields@).push(s@.subrange(start as int, i as int)) =~= split_on(
                s@.subrange(0, i as int),
                sep,
            ),
        decreases n - i,
    {
        let c = s.get_char(i);
        let ghost pre = s@.subrange(0, i as int);
        assert(s@.subrange(0, i as int + 1).drop_last() =~= pre);
        assert(s@.subrange(0, i as int + 1).last() == c);
        proof {
            lemma_split_on_nonempty(pre, sep);
        }
        let ghost f = split_on(pre, sep);
        let ghost old_fields = fields@;
        if c == sep {
            let piece = s.substring_char(start, i).to_string();
            fields.push(piece);
            i = i + 1;
            start = i;
            assert(views(fields@) =~= views(old_fields).push(piece@));
            assert(views(fields@) =~= f);
            assert(s@.subrange(start as int, i as int) =~= Seq::<char>::empty());
        } else {
            i = i + 1;
            assert(s@.subrange(start as int, i as int) =~= s@.subrange(start as int, i as int - 1).push(c));
            assert(views(fields@).push(s@.subrange(start as int, i as int)) =~= f.update(
                f.len() - 1,
                f.last().push(c),
            ));
        }
    }
    let last = s.substring_char(start, n).to_string();
    let ghost before = fields@;
    fields.push(last);
    assert(views(fields@) =~= views(before).push(last@));
    assert(s@.subrange(0, n as int) =~= s@);
    assert(views(fields@) =~= split_on(s@, sep));
    fields
}

/// Reads a decimal number that fits in 64 bits.
pub fn parse_u64(s: &str) -> (r: Option<u64>)
    ensures
        r == u64_of(s@),
{
    let n = s.unicode_len();
    if n == 0 {
        return None;
    }
    let mut v: u64 = 0;
    let mut i: usize = 0;
    while i < n
        invariant
            n == s@.len(),
            n > 0,
            i <= n,
            forall|k: int| 0 <= k < i ==> is_digit(#[trigger] s@[k]),
            v as nat == digits_value(s@.subrange(0, i as int)),
        decreases n - i,
    {
        let c = s.get_char(i);
        assert(s@.subrange(0, i as int + 1).drop_last() =~= s@.subrange(0, i as int));
        if !('0' <= c && c <= '9') {
            assert(!is_digit(s@[i as int]));
            return None;
        }
        let d: u64 = (c as u32 - '0' as u32) as u64;
        if v > (u64::MAX - d) / 10 {
            proof {
                assert(digits_value(s@.subrange(0, i as int + 1)) > u64::MAX as nat) by (nonlinear_arith)
                    requires
                        v > (u64::MAX - d) / 10,
                        digits_value(s@.subrange(0, i as int + 1)) == v * 10 + d,
                        d < 10,
                ;
                if forall|j: int| 0 <= j < s@.len() ==> is_digit(#[trigger] s@[j]) {
                    lemma_digits_value_grows(s@, i as int + 1);
                }
            }
            return None;
        }
        v = v * 10 + d;
        i = i + 1;
    }
    assert(s@.subrange(0, n as int) =~= s@);
    Some(v)
}

} // verus!
