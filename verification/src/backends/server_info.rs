//! Reading the server version out of the text that Redis answers to `INFO`.
//!
//! The text is taken as its UTF-8 bytes. Every byte that the reading looks for (line
//! feed, carriage return, `:`, `.`, `+`, digits, the ASCII key) is ASCII, and an ASCII
//! byte never occurs inside the encoding of another character, so splitting the bytes
//! gives the same pieces as splitting the characters.
use vstd::prelude::*;
use vstd::string::StringSliceAdditionalSpecFns;

verus! {

/// `redis_version:`, the key of the line that holds the server version.
pub open spec fn version_key() -> Seq<u8> {
    seq![114u8, 101u8, 100u8, 105u8, 115u8, 95u8, 118u8, 101u8, 114u8, 115u8, 105u8, 111u8, 110u8, 58u8]
}

/// The position of the first `x` in `s`, or the length of `s` when there is none.
pub open spec fn find_byte(s: Seq<u8>, x: u8) -> nat
    decreases s.len(),
{
    if s.len() == 0 {
        0
    } else if s[0] == x {
        0
    } else {
        1 + find_byte(s.drop_first(), x)
    }
}

/// `key` occurs in `line` starting at position `k`.
pub open spec fn occurs_at(line: Seq<u8>, key: Seq<u8>, k: int) -> bool {
    &&& 0 <= k
    &&& k + key.len() <= line.len()
    &&& forall|j: int| 0 <= j < key.len() ==> line[k + j] == #[trigger] key[j]
}

/// `key` occurs somewhere in `line`.
pub open spec fn contains_key(line: Seq<u8>, key: Seq<u8>) -> bool {
    exists|k: int| occurs_at(line, key, k)
}

/// A line as a line iterator gives it: a carriage return before the line feed that ends
/// the line is dropped with it.
pub open spec fn strip_cr(raw: Seq<u8>, ended_by_feed: bool) -> Seq<u8> {
    if ended_by_feed && raw.len() > 0 && raw.last() == 13u8 {
        raw.drop_last()
    } else {
        raw
    }
}

/// The first line of `s` that holds `redis_version:`, if any. Lines are separated by line
/// feeds; a final line feed ends the last line and starts none.
pub open spec fn version_line(s: Seq<u8>) -> Option<Seq<u8>>
    decreases s.len(),
{
    if s.len() == 0 {
        None
    } else {
        let e = find_byte(s, 10u8);
        let line = strip_cr(s.take(e as int), e < s.len());
        if contains_key(line, version_key()) {
            Some(line)
        } else if e < s.len() {
            version_line(s.skip(e + 1int))
        } else {
            None
        }
    }
}

/// What follows the last `:` of `line`, or all of `line` when it holds none.
pub open spec fn after_last_colon(line: Seq<u8>) -> Seq<u8>
    decreases line.len(),
{
    if line.len() == 0 {
        line
    } else if line.last() == 58u8 {
        Seq::empty()
    } else {
        after_last_colon(line.drop_last()).push(line.last())
    }
}

/// Every byte of `d` is a decimal digit.
pub open spec fn all_digits(d: Seq<u8>) -> bool {
    forall|i: int| 0 <= i < d.len() ==> 48u8 <= #[trigger] d[i] <= 57u8
}

/// The number that the decimal digits `d` write.
pub open spec fn decimal_value(d: Seq<u8>) -> nat
    decreases d.len(),
{
    if d.len() == 0 {
        0
    } else {
        decimal_value(d.drop_last()) * 10 + (d.last() - 48) as nat
    }
}

/// A `u8` read from `p` as the standard library's `u8::from_str` reads it: an optional
/// `+`, then one or more decimal digits whose value is at most 255.
pub open spec fn parse_u8(p: Seq<u8>) -> Option<u8> {
    let digits = if p.len() > 0 && p[0] == 43u8 { p.drop_first() } else { p };
    if digits.len() > 0 && all_digits(digits) && decimal_value(digits) <= 255 {
        Some(decimal_value(digits) as u8)
    } else {
        None
    }
}

/// The version (major, minor) that a version line gives: the text after its last `:`,
/// split at `.`; the first two pieces read as `u8`. `None` where a piece is missing or is
/// no `u8`.
pub open spec fn version_in_line(line: Seq<u8>) -> Option<(u8, u8)> {
    let v = after_last_colon(line);
    let d = find_byte(v, 46u8);
    let rest = v.skip(d + 1int);
    if d < v.len() {
        match (parse_u8(v.take(d as int)), parse_u8(rest.take(find_byte(rest, 46u8) as int))) {
            (Some(major), Some(minor)) => Some((major, minor)),
            _ => None,
        }
    } else {
        None
    }
}

/// The version (major, minor) that `info` reports on its first line holding
/// `redis_version:`; `None` where there is no such line or it gives no version.
pub open spec fn server_version(info: Seq<u8>) -> Option<(u8, u8)> {
    match version_line(info) {
        None => None,
        Some(line) => version_in_line(line),
    }
}

/// Version (major, minor) is 6.2 or later, the least that the pop script needs.
pub open spec fn supported_version(version: (u8, u8)) -> bool {
    version.0 > 6 || (version.0 == 6 && version.1 >= 2)
}

proof fn lemma_find_byte(s: Seq<u8>, x: u8, e: int)
    requires
        0 <= e <= s.len(),
        forall|j: int| 0 <= j < e ==> s[j] != x,
        e < s.len() ==> s[e] == x,
    ensures
        find_byte(s, x) == e,
    decreases e,
{
    if e > 0 {
        lemma_find_byte(s.drop_first(), x, e - 1);
    }
}

/// The first position in `from..to` of `b` that holds `x`, or `to`.
fn find_in(b: &[u8], from: usize, to: usize, x: u8) -> (r: usize)
    requires
        from <= to <= b@.len(),
    ensures
        from <= r <= to,
        find_byte(b@.subrange(from as int, to as int), x) == r - from,
{
    let mut i = from;
    while i < to && b[i] != x
        invariant
            from <= i <= to <= b@.len(),
            forall|j: int| from <= j < i ==> b@[j] != x,
        decreases to - i,
    {
        i = i + 1;
    }
    proof {
        let sub = b@.subrange(from as int, to as int);
        lemma_find_byte(sub, x, i - from);
    }
    i
}

/// `redis_version:` as bytes.
fn version_key_bytes() -> (r: Vec<u8>)
    ensures
        r@ == version_key(),
{
    let r = vec![114u8, 101u8, 100u8, 105u8, 115u8, 95u8, 118u8, 101u8, 114u8, 115u8, 105u8, 111u8, 110u8, 58u8];
    assert(r@ == version_key());
    r
}

/// Whether `key` occurs in `from..to` of `b`.
fn occurs_in(b: &[u8], from: usize, to: usize, key: &Vec<u8>) -> (r: bool)
    requires
        from <= to <= b@.len(),
    ensures
        r == contains_key(b@.subrange(from as int, to as int), key@),
{
    let ghost line = b@.subrange(from as int, to as int);
    let klen = key.len();
    let mut k = from;
    while k <= to && to - k >= klen
        invariant
            from <= k,
            from <= to <= b@.len(),
            klen == key@.len(),
            line == b@.subrange(from as int, to as int),
            forall|q: int| 0 <= q < k - from ==> !occurs_at(line, key@, q),
        decreases to - k + 1,
    {
        let mut j: usize = 0;
        while j < klen && b[k + j] == key[j]
            invariant
                0 <= j <= klen,
                klen == key@.len(),
                k + klen <= to <= b@.len(),
                forall|m: int| 0 <= m < j ==> b@[k + m] == key@[m],
            decreases klen - j,
        {
            j = j + 1;
        }
        if j == klen {
            assert(occurs_at(line, key@, k - from));
            return true;
        }
        assert(!occurs_at(line, key@, k - from));
        k = k + 1;
    }
    assert forall|q: int| !occurs_at(line, key@, q) by {
        if 0 <= q && q + key@.len() <= line.len() {
            assert(q < k - from);
        }
    }
    false
}

proof fn lemma_after_last_colon(line: Seq<u8>, v: int)
    requires
        0 <= v <= line.len(),
        forall|j: int| v <= j < line.len() ==> line[j] != 58u8,
        v == 0 || line[v - 1] == 58u8,
    ensures
        after_last_colon(line) == line.skip(v),
    decreases line.len(),
{
    if line.len() > 0 {
        if v == line.len() {
            assert(line.skip(v) =~= Seq::<u8>::empty());
        } else {
            lemma_after_last_colon(line.drop_last(), v);
            assert(line.drop_last().skip(v).push(line.last()) =~= line.skip(v));
        }
    }
}

proof fn lemma_decimal_prefix(d: Seq<u8>, k: int)
    requires
        all_digits(d),
        0 <= k <= d.len(),
    ensures
        decimal_value(d.take(k)) <= decimal_value(d),
    decreases d.len(),
{
    if k < d.len() {
        assert(d.drop_last().take(k) == d.take(k));
        assert(all_digits(d.drop_last())) by {
            assert forall|i: int| 0 <= i < d.drop_last().len() implies 48u8 <= #[trigger] d.drop_last()[i]
                <= 57u8 by {
                assert(d.drop_last()[i] == d[i]);
            }
        }
        lemma_decimal_prefix(d.drop_last(), k);
    } else {
        assert(d.take(k) == d);
    }
}

/// Where the text after the last `:` of `from..to` of `b` starts.
fn value_start(b: &[u8], from: usize, to: usize) -> (r: usize)
    requires
        from <= to <= b@.len(),
    ensures
        from <= r <= to,
        after_last_colon(b@.subrange(from as int, to as int)) == b@.subrange(r as int, to as int),
{
    let mut v = to;
    while v > from && b[v - 1] != 58
        invariant
            from <= v <= to <= b@.len(),
            forall|j: int| v <= j < to ==> b@[j] != 58u8,
        decreases v - from,
    {
        v = v - 1;
    }
    proof {
        let line = b@.subrange(from as int, to as int);
        lemma_after_last_colon(line, v - from);
        assert(line.skip(v - from) == b@.subrange(v as int, to as int));
    }
    v
}

/// Reads `from..to` of `b` as `u8::from_str` does.
fn parse_u8_in(b: &[u8], from: usize, to: usize) -> (r: Option<u8>)
    requires
        from <= to <= b@.len(),
    ensures
        r == parse_u8(b@.subrange(from as int, to as int)),
{
    let ghost p = b@.subrange(from as int, to as int);
    if from == to {
        return None;
    }
    let mut ds = from;
    if b[from] == 43 {
        ds = from + 1;
    }
    let ghost digits = b@.subrange(ds as int, to as int);
    assert(digits == if p.len() > 0 && p[0] == 43u8 { p.drop_first() } else { p });
    if ds == to {
        return None;
    }
    let mut acc: u32 = 0;
    let mut i = ds;
    while i < to
        invariant
            ds <= i <= to <= b@.len(),
            digits == b@.subrange(ds as int, to as int),
            p == b@.subrange(from as int, to as int),
            digits == if p.len() > 0 && p[0] == 43u8 { p.drop_first() } else { p },
            acc <= 255,
            all_digits(b@.subrange(ds as int, i as int)),
            acc == decimal_value(b@.subrange(ds as int, i as int)),
        decreases to - i,
    {
        let c = b[i];
        if c < 48 || c > 57 {
            assert(digits[i - ds] == c);
            return None;
        }
        let ghost before = b@.subrange(ds as int, i as int);
        let ghost now = b@.subrange(ds as int, i + 1);
        assert(now.drop_last() == before);
        assert(all_digits(now)) by {
            assert forall|j: int| 0 <= j < now.len() implies 48u8 <= #[trigger] now[j] <= 57u8 by {
                if j < before.len() {
                    assert(now[j] == before[j]);
                }
            }
        }
        acc = acc * 10 + (c - 48) as u32;
        if acc > 255 {
            proof {
                if all_digits(digits) {
                    assert(digits.take(i + 1 - ds) == now);
                    lemma_decimal_prefix(digits, i + 1 - ds);
                }
            }
            return None;
        }
        i = i + 1;
    }
    assert(b@.subrange(ds as int, i as int) == digits);
    Some(acc as u8)
}

/// Reads the version out of the line `from..to` of `b`.
fn version_in(b: &[u8], from: usize, to: usize) -> (r: Option<(u8, u8)>)
    requires
        from <= to <= b@.len(),
    ensures
        r == version_in_line(b@.subrange(from as int, to as int)),
{
    let ghost line = b@.subrange(from as int, to as int);
    let vs = value_start(b, from, to);
    let ghost v = b@.subrange(vs as int, to as int);
    let d = find_in(b, vs, to, 46);
    if d == to {
        return None;
    }
    assert(v.take(d - vs) == b@.subrange(vs as int, d as int));
    let major = parse_u8_in(b, vs, d);
    let rs = d + 1;
    assert(v.skip(d - vs + 1) == b@.subrange(rs as int, to as int));
    let d2 = find_in(b, rs, to, 46);
    assert(b@.subrange(rs as int, to as int).take(d2 - rs) == b@.subrange(rs as int, d2 as int));
    let minor = parse_u8_in(b, rs, d2);
    match (major, minor) {
        (Some(a), Some(m)) => Some((a, m)),
        _ => None,
    }
}

/// The version (major, minor) that the text Redis answers to `INFO` reports; `None` where
/// the text holds no version line, or its version is not two numbers that fit in a `u8`.
pub fn parse_server_version(info: &str) -> (r: Option<(u8, u8)>)
    ensures
        r == server_version(info.spec_bytes()),
{
    let b = info.as_bytes();
    let n = b.len();
    let key = version_key_bytes();
    let mut start: usize = 0;
    assert(b@.skip(0) == b@);
    while start < n
        invariant
            start <= n,
            n == b@.len(),
            b@ == info.spec_bytes(),
            key@ == version_key(),
            version_line(b@) == version_line(b@.skip(start as int)),
        decreases n - start,
    {
        let ghost s = b@.skip(start as int);
        assert(s == b@.subrange(start as int, n as int));
        let e = find_in(b, start, n, 10);
        let mut stop = e;
        if e < n && e > start && b[e - 1] == 13 {
            stop = e - 1;
        }
        assert(strip_cr(s.take(e - start), e < n) == b@.subrange(start as int, stop as int));
        if occurs_in(b, start, stop, &key) {
            return version_in(b, start, stop);
        }
        if e == n {
            return None;
        }
        assert(s.skip(e - start + 1) == b@.skip(e + 1));
        start = e + 1;
    }
    assert(b@.skip(start as int) == Seq::<u8>::empty());
    None
}

/// Whether a server of version (major, minor) can run the pop script: 6.2 or later.
pub fn is_supported_version(version: (u8, u8)) -> (r: bool)
    ensures
        r == supported_version(version),
{
    version.0 > 6 || (version.0 == 6 && version.1 >= 2)
}

/// The decimal digits of `n`, without leading zeros, as `u8::to_string` writes them.
pub open spec fn decimal(n: nat) -> Seq<u8>
    decreases n,
{
    if n < 10 {
        seq![(48 + n) as u8]
    } else {
        decimal(n / 10).push((48 + n % 10) as u8)
    }
}

proof fn lemma_decimal(n: nat)
    ensures
        decimal(n).len() > 0,
        all_digits(decimal(n)),
        decimal_value(decimal(n)) == n,
    decreases n,
{
    let d = decimal(n);
    if n >= 10 {
        lemma_decimal(n / 10);
        assert(n % 10 < 10);
        assert(d.drop_last() == decimal(n / 10));
        assert(d.last() == 48 + n % 10);
        assert(n == (n / 10) * 10 + n % 10);
        assert(decimal_value(d) == decimal_value(d.drop_last()) * 10 + (d.last() - 48) as nat);
        assert(decimal_value(d.drop_last()) == n / 10);
        assert((d.last() - 48) as nat == n % 10);
        assert(decimal_value(d) == n);
        assert forall|i: int| 0 <= i < d.len() implies 48u8 <= #[trigger] d[i] <= 57u8 by {
            if i < d.len() - 1 {
                assert(d[i] == decimal(n / 10)[i]);
            }
        }
    } else {
        assert(d.drop_last() =~= Seq::<u8>::empty());
        assert(d.last() == 48 + n);
        assert(decimal_value(d) == decimal_value(d.drop_last()) * 10 + (d.last() - 48) as nat);
        assert(decimal_value(d) == n);
    }
}

/// Decimal digits hold no line feed, carriage return, `:` or `.`.
proof fn lemma_digits_hold_no_separator(d: Seq<u8>)
    requires
        all_digits(d),
    ensures
        forall|j: int| 0 <= j < d.len() ==> #[trigger] d[j] != 10u8 && d[j] != 13u8 && d[j] != 58u8 && d[j] != 46u8,
{
    assert forall|j: int| 0 <= j < d.len() implies #[trigger] d[j] != 10u8 && d[j] != 13u8 && d[j] != 58u8 && d[j] != 46u8 by {
        assert(48u8 <= d[j] <= 57u8);
    }
}

/// A first line that holds the key and no line feed, ended by a carriage return and a line
/// feed, is the version line, whatever follows it.
proof fn lemma_first_line_is_version_line(line: Seq<u8>, rest: Seq<u8>)
    requires
        forall|j: int| 0 <= j < line.len() ==> #[trigger] line[j] != 10u8,
        contains_key(line, version_key()),
    ensures
        version_line(line + seq![13u8, 10u8] + rest) == Some(line),
{
    let s = line + seq![13u8, 10u8] + rest;
    let e: int = line.len() + 1int;
    assert forall|j: int| 0 <= j < e implies s[j] != 10u8 by {
        if j < line.len() {
            assert(s[j] == line[j]);
        }
    }
    lemma_find_byte(s, 10u8, e);
    assert(s.take(e).drop_last() == line);
}

/// After the key, a value with no `:` is what follows the last `:`.
proof fn lemma_value_after_key(value: Seq<u8>)
    requires
        forall|j: int| 0 <= j < value.len() ==> #[trigger] value[j] != 58u8,
    ensures
        after_last_colon(version_key() + value) == value,
{
    let key = version_key();
    let line = key + value;
    assert forall|j: int| key.len() <= j < line.len() implies line[j] != 58u8 by {
        assert(line[j] == value[j - key.len()]);
    }
    assert(line[key.len() - 1] == 58u8);
    lemma_after_last_colon(line, key.len() as int);
    assert(line.skip(key.len() as int) == value);
}

/// `<major>.<minor>` in decimal reads as (major, minor).
proof fn lemma_value_reads(major: u8, minor: u8)
    ensures
        version_in_line(version_key() + (decimal(major as nat) + seq![46u8] + decimal(minor as nat)))
            == Some((major, minor)),
{
    let a = decimal(major as nat);
    let b = decimal(minor as nat);
    lemma_decimal(major as nat);
    lemma_decimal(minor as nat);
    lemma_digits_hold_no_separator(a);
    lemma_digits_hold_no_separator(b);
    let value = a + seq![46u8] + b;
    assert forall|j: int| 0 <= j < value.len() implies #[trigger] value[j] != 58u8 by {
        if j < a.len() {
            assert(value[j] == a[j]);
        } else if j > a.len() {
            assert(value[j] == b[j - a.len() - 1]);
        }
    }
    lemma_value_after_key(value);
    assert forall|j: int| 0 <= j < a.len() implies value[j] != 46u8 by {
        assert(value[j] == a[j]);
    }
    lemma_find_byte(value, 46u8, a.len() as int);
    assert(value.take(a.len() as int) == a);
    assert(value.skip(a.len() + 1int) == b);
    lemma_find_byte(b, 46u8, b.len() as int);
    assert(b.take(b.len() as int) == b);
    assert(a[0] != 43u8);
    assert(b[0] != 43u8);
    assert(parse_u8(a) == Some(major));
    assert(parse_u8(b) == Some(minor));
}

/// A first line `redis_version:<major>.<minor>`, the two numbers written in decimal, ended
/// by a carriage return and a line feed, reports that version, whatever follows it.
pub proof fn law_version_line_reports_version(major: u8, minor: u8, rest: Seq<u8>)
    ensures
        server_version(
            version_key() + (decimal(major as nat) + seq![46u8] + decimal(minor as nat)) + seq![13u8, 10u8]
                + rest,
        ) == Some((major, minor)),
{
    let a = decimal(major as nat);
    let b = decimal(minor as nat);
    lemma_decimal(major as nat);
    lemma_decimal(minor as nat);
    lemma_digits_hold_no_separator(a);
    lemma_digits_hold_no_separator(b);
    let key = version_key();
    let value = a + seq![46u8] + b;
    let line = key + value;
    assert forall|j: int| 0 <= j < line.len() implies #[trigger] line[j] != 10u8 by {
        if j >= key.len() {
            let k = j - key.len();
            assert(line[j] == value[k]);
            if k < a.len() {
                assert(value[k] == a[k]);
            } else if k > a.len() {
                assert(value[k] == b[k - a.len() - 1]);
            }
        }
    }
    assert(occurs_at(line, key, 0));
    lemma_first_line_is_version_line(line, rest);
    lemma_value_reads(major, minor);
}

proof fn lemma_find_byte_bound(s: Seq<u8>, x: u8)
    ensures
        find_byte(s, x) <= s.len(),
    decreases s.len(),
{
    if s.len() > 0 && s[0] != x {
        lemma_find_byte_bound(s.drop_first(), x);
    }
}

/// A text in which `redis_version:` occurs nowhere reports no version.
pub proof fn law_no_key_no_version(info: Seq<u8>)
    requires
        !contains_key(info, version_key()),
    ensures
        server_version(info) is None,
    decreases info.len(),
{
    let key = version_key();
    if info.len() > 0 {
        let e = find_byte(info, 10u8);
        lemma_find_byte_bound(info, 10u8);
        let raw = info.take(e as int);
        let line = strip_cr(raw, e < info.len());
        if contains_key(line, key) {
            let k = choose|k: int| occurs_at(line, key, k);
            assert(occurs_at(info, key, k)) by {
                assert forall|j: int| 0 <= j < key.len() implies info[k + j] == #[trigger] key[j] by {
                    assert(line[k + j] == raw[k + j]);
                    assert(raw[k + j] == info[k + j]);
                }
            }
        }
        if e < info.len() {
            let next = info.skip(e + 1int);
            if contains_key(next, key) {
                let k = choose|k: int| occurs_at(next, key, k);
                assert(occurs_at(info, key, k + e + 1)) by {
                    assert forall|j: int| 0 <= j < key.len() implies info[k + e + 1 + j] == #[trigger] key[j] by {
                        assert(next[k + j] == info[k + e + 1 + j]);
                    }
                }
            }
            law_no_key_no_version(next);
        }
    }
}

} // verus!
