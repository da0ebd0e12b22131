//! Port specifications and per-port scan results.
use vstd::prelude::*;

verus! {

/// Outcome of one connection attempt: the port and whether the handshake
/// succeeded. Refusals, errors and timeouts all count as closed.
#[derive(Clone, Copy, Debug, PartialEq, Eq, Structural)]
pub struct ScanResult {
    pub port: u16,
    pub is_open: bool,
}

pub open spec fn is_digit(c: char) -> bool {
    '0' <= c && c <= '9'
}

pub open spec fn digit_value(c: char) -> nat {
    (c as nat - '0' as nat) as nat
}

/// Value of a run of decimal digits, most significant first.
pub open spec fn decimal_value(s: Seq<char>) -> nat
    decreases s.len(),
{
    if s.len() == 0 {
        0
    } else {
        decimal_value(s.drop_last()) * 10 + digit_value(s.last())
    }
}

pub open spec fn all_digits(s: Seq<char>) -> bool {
    forall|i: int| 0 <= i < s.len() ==> is_digit(#[trigger] s[i])
}

/// The digits that follow an optional leading `+`.
pub open spec fn unsigned_body(s: Seq<char>) -> Seq<char> {
    if s.len() > 0 && s[0] == '+' {
        s.drop_first()
    } else {
        s
    }
}

/// A port number written in decimal: an optional `+`, at least one digit,
/// and a value that fits in 16 bits (leading zeros allowed).
pub open spec fn port_number(s: Seq<char>) -> Option<u16> {
    let d = unsigned_body(s);
    if d.len() > 0 && all_digits(d) && decimal_value(d) <= 0xffff {
        Some(decimal_value(d) as u16)
    } else {
        None
    }
}

/// `k` is the position of the only `-` in `s`.
pub open spec fn sole_dash(s: Seq<char>, k: int) -> bool {
    0 <= k < s.len() && s[k] == '-' && forall|j: int|
        0 <= j < s.len() && j != k ==> #[trigger] s[j] != '-'
}

/// Every port from `a` to `b` inclusive, ascending; empty when `a > b`.
pub open spec fn port_range(a: u16, b: u16) -> Seq<u16> {
    Seq::new(
        if a <= b { (b - a + 1) as nat } else { 0 },
        |i: int| (a + i) as u16,
    )
}

/// The ports a specification denotes: a single port, or an inclusive range
/// `start-end`. Anything malformed denotes no port at all.
pub open spec fn port_spec(s: Seq<char>) -> Seq<u16> {
    if s.contains('-') {
        if exists|k: int| sole_dash(s, k) {
            let k = choose|k: int| sole_dash(s, k);
            match (port_number(s.subrange(0, k)), port_number(s.subrange(k + 1, s.len() as int))) {
                (Some(a), Some(b)) => port_range(a, b),
                _ => Seq::empty(),
            }
        } else {
            Seq::empty()
        }
    } else {
        match port_number(s) {
            Some(p) => seq![p],
            None => Seq::empty(),
        }
    }
}

/// A range `a-b` (both ends valid port numbers, one dash) denotes exactly
/// the ports `a, a+1, ..., b` in ascending order, and no port when `a > b`.
pub proof fn lemma_port_range_exact(s: Seq<char>, k: int, a: u16, b: u16)
    requires
        sole_dash(s, k),
        port_number(s.subrange(0, k)) == Some(a),
        port_number(s.subrange(k + 1, s.len() as int)) == Some(b),
    ensures
        a <= b ==> port_spec(s).len() == b - a + 1,
        a <= b ==> forall|i: int| 0 <= i < port_spec(s).len() ==> port_spec(s)[i] == a + i,
        forall|p: u16| port_spec(s).contains(p) <==> a <= p <= b,
        a > b ==> port_spec(s).len() == 0,
{
    assert(s.contains('-')) by {
        assert(s[k] == '-');
    }
    let j = choose|j: int| sole_dash(s, j);
    assert(j == k) by {
        if j != k {
            assert(s[k] == '-');
        }
    }
    let r = port_spec(s);
    assert(r == port_range(a, b));
    assert forall|p: u16| r.contains(p) implies a <= p <= b by {
        let i = choose|i: int| 0 <= i < r.len() && r[i] == p;
        assert(r[i] == p);
    }
    assert forall|p: u16| a <= p <= b implies r.contains(p) by {
        assert(r[p - a] == p);
    }
}

proof fn lemma_decimal_prefix_grows(s: Seq<char>, i: int)
    requires
        0 <= i <= s.len(),
    ensures
        decimal_value(s.subrange(0, i)) <= decimal_value(s),
    decreases s.len() - i,
{
    if i < s.len() {
        lemma_decimal_prefix_grows(s, i + 1);
        assert(s.subrange(0, i + 1).drop_last() =~= s.subrange(0, i));
    } else {
        assert(s.subrange(0, i) =~= s);
    }
}

/// Parses the characters `from..to` of `s` as a port number.
fn parse_port_number(s: &str, from: usize, to: usize) -> (r: Option<u16>)
    requires
        from <= to <= s@.len(),
    ensures
        r == port_number(s@.subrange(from as int, to as int)),
{
    let ghost t = s@.subrange(from as int, to as int);
    let mut start = from;
    if from < to && s.get_char(from) == '+' {
        start = from + 1;
    }
    let ghost d = s@.subrange(start as int, to as int);
    assert(d =~= unsigned_body(t));
    if start == to {
        return None;
    }
    let mut value: u32 = 0;
    let mut i = start;
    while i < to
        invariant
            from <= start <= i <= to <= s@.len(),
            d == s@.subrange(start as int, to as int),
            t == s@.subrange(from as int, to as int),
            d == unsigned_body(t),
            value as nat == decimal_value(d.subrange(0, i - start)),
            all_digits(d.subrange(0, i - start)),
            value <= 0xffff,
        decreases to - i,
    {
        let c = s.get_char(i);
        if c < '0' || c > '9' {
            assert(d[(i - start) as int] == c);
            assert(!is_digit(d[(i - start) as int]));
            assert(!all_digits(d));
            return None;
        }
        let ghost prev = d.subrange(0, i - start);
        let ghost next = d.subrange(0, i - start + 1);
        assert(next.drop_last() =~= prev);
        assert(next.last() == c);
        value = value * 10 + (c as u32 - '0' as u32);
        i = i + 1;
        assert(all_digits(next)) by {
            assert forall|j: int| 0 <= j < next.len() implies is_digit(#[trigger] next[j]) by {
                if j < prev.len() {
                    assert(next[j] == prev[j]);
                }
            }
        }
        if value > 0xffff {
            proof {
                assert(value as nat == decimal_value(next));
                assert(next == d.subrange(0, i - start));
                lemma_decimal_prefix_grows(d, i - start);
                assert(decimal_value(d) > 0xffff);
            }
            return None;
        }
    }
    assert(d.subrange(0, i - start) =~= d);
    Some(value as u16)
}

/// Expands a port specification into the ports it denotes, in ascending
/// order. A malformed specification, or a range whose start exceeds its
/// end, yields no ports.
pub fn parse_ports_range(ports: &str) -> (r: Vec<u16>)
    ensures
        r@ == port_spec(ports@),
{
    let n = ports.unicode_len();
    let mut first: usize = n;
    let mut i: usize = 0;
    while i < n
        invariant
            n == ports@.len(),
            i <= n,
            first == n || (first < i && ports@[first as int] == '-'),
            forall|j: int| 0 <= j < i && (first == n || j < first) ==> ports@[j] != '-',
        decreases n - i,
    {
        if first == n && ports.get_char(i) == '-' {
            first = i;
        }
        i = i + 1;
    }
    let mut results: Vec<u16> = Vec::new();
    if first == n {
        assert(!ports@.contains('-'));
        match parse_port_number(ports, 0, n) {
            Some(p) => {
                results.push(p);
            },
            None => {},
        }
        assert(ports@.subrange(0, n as int) =~= ports@);
        assert(results@ =~= port_spec(ports@));
        return results;
    }
    assert(ports@.contains('-')) by {
        assert(ports@[first as int] == '-');
    }
    let mut j: usize = first + 1;
    while j < n
        invariant
            n == ports@.len(),
            first < j <= n,
            ports@[first as int] == '-',
            ports@.contains('-'),
            results@.len() == 0,
            forall|m: int| first < m < j ==> ports@[m] != '-',
        decreases n - j,
    {
        if ports.get_char(j) == '-' {
            assert(!sole_dash(ports@, first as int));
            assert forall|k: int| !sole_dash(ports@, k) by {
                if sole_dash(ports@, k) {
                    assert(ports@[first as int] == '-');
                }
            }
            return results;
        }
        j = j + 1;
    }
    assert(sole_dash(ports@, first as int));
    assert forall|k: int| sole_dash(ports@, k) implies k == first by {
        if k != first {
            assert(ports@[first as int] == '-');
        }
    }
    let a = parse_port_number(ports, 0, first);
    let b = parse_port_number(ports, first + 1, n);
    match (a, b) {
        (Some(start), Some(end)) => {
            let mut q: u32 = start as u32;
            while q <= end as u32
                invariant
                    start as u32 <= q,
                    start <= end ==> q <= end as u32 + 1,
                    start > end ==> q == start as u32,
                    results@.len() == q - start,
                    forall|m: int| 0 <= m < results@.len() ==> results@[m] == start + m,
                decreases end as u32 + 1 - q,
            {
                results.push(q as u16);
                q = q + 1;
            }
            assert(results@ =~= port_range(start, end));
        },
        _ => {},
    }
    results
}

/// The result of one connection attempt on `port`: open exactly when the
/// handshake completed in time.
pub fn port_result(port: u16, connected: bool) -> (r: ScanResult)
    ensures
        r == (ScanResult { port, is_open: connected }),
{
    ScanResult { port, is_open: connected }
}

} // verus!
