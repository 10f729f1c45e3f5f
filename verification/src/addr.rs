//! IPv4 and IPv6 addresses and their text.
use crate::number::{
    dec, dec_text, dec_value, hex, hex_text, hex_value, is_dec, is_digit, is_hex_digit,
    is_hex_group, lemma_dec, lemma_dec_of_value, lemma_hex, number_of, parse_hex_group,
    parse_number,
};
use crate::text::{find, first_index, lemma_first_index, lemma_first_index_unique, part};
use vstd::prelude::*;

verus! {

// ---------------------------------------------------------------------------
// IPv4
// ---------------------------------------------------------------------------

/// An IPv4 address: its four octets, the most significant first.
#[derive(Clone, Copy, Debug, PartialEq, Eq)]
pub struct Ipv4Addr {
    pub octets: [u8; 4],
}

/// The text of an IPv4 address: its octets in decimal, with a dot between two.
pub open spec fn ipv4_text(a: Ipv4Addr) -> Seq<char> {
    dec(a.octets[0] as nat) + seq!['.'] + dec(a.octets[1] as nat) + seq!['.'] + dec(
        a.octets[2] as nat,
    ) + seq!['.'] + dec(a.octets[3] as nat)
}

/// The address that `s` is the text of, if there is one.
pub open spec fn ipv4_of(s: Seq<char>) -> Option<Ipv4Addr> {
    if exists|a: Ipv4Addr| s == #[trigger] ipv4_text(a) {
        Some(choose|a: Ipv4Addr| s == #[trigger] ipv4_text(a))
    } else {
        None
    }
}

impl Ipv4Addr {
    /// The address `a.b.c.d`.
    pub fn new(a: u8, b: u8, c: u8, d: u8) -> (r: Self)
        ensures
            r.octets@ == seq![a, b, c, d],
    {
        Ipv4Addr { octets: [a, b, c, d] }
    }

    /// The address `0.0.0.0`, in the language of contracts.
    pub open spec fn zero() -> Self {
        Ipv4Addr { octets: [0u8, 0u8, 0u8, 0u8] }
    }

    /// The address `0.0.0.0`, which stands for no address.
    pub fn unspecified() -> (r: Self)
        ensures
            r == Self::zero(),
    {
        Ipv4Addr { octets: [0u8, 0u8, 0u8, 0u8] }
    }

    /// Whether this is `0.0.0.0`.
    pub fn is_unspecified(&self) -> (r: bool)
        ensures
            r == (*self == Self::zero()),
    {
        let r = self.octets[0] == 0 && self.octets[1] == 0 && self.octets[2] == 0 && self.octets[3]
            == 0;
        proof {
            let z = Self::zero();
            if r {
                assert(self.octets =~= z.octets);
            }
            assert(z.octets[0] == 0 && z.octets[1] == 0 && z.octets[2] == 0 && z.octets[3] == 0);
        }
        r
    }

    /// The text of the address, as characters.
    pub fn text(&self) -> (r: Vec<char>)
        ensures
            r@ == ipv4_text(*self),
    {
        let mut out = dec_text(self.octets[0] as u32);
        out.push('.');
        let mut b = dec_text(self.octets[1] as u32);
        out.append(&mut b);
        out.push('.');
        let mut c = dec_text(self.octets[2] as u32);
        out.append(&mut c);
        out.push('.');
        let mut d = dec_text(self.octets[3] as u32);
        out.append(&mut d);
        out
    }

    /// Reads an address: the one that `v` is the text of, if there is one.
    pub fn parse(v: &Vec<char>) -> (r: Option<Self>)
        ensures
            r == ipv4_of(v@),
    {
        let r = Self::read(v);
        proof {
            match r {
                Some(a) => {
                    lemma_ipv4_text_injective(a, choose|b: Self| v@ == #[trigger] ipv4_text(b));
                },
                None => {},
            }
        }
        r
    }

    #[verifier::rlimit(40)]
    fn read(v: &Vec<char>) -> (r: Option<Self>)
        ensures
            match r {
                Some(a) => v@ == ipv4_text(a),
                None => forall|a: Self| v@ != #[trigger] ipv4_text(a),
            },
    {
        let ghost s = v@;
        proof {
            assert(s.skip(0) == s);
            assert forall|a: Self| s == #[trigger] ipv4_text(a) implies ipv4_splits(s, a) by {
                lemma_ipv4_splits(a);
            }
        }
        let n: usize = v.len();
        let p0: usize = find(v, 0, '.');
        if p0 >= n {
            return None;
        }
        let p1: usize = find(v, p0 + 1, '.');
        if p1 >= n {
            return None;
        }
        let p2: usize = find(v, p1 + 1, '.');
        if p2 >= n {
            return None;
        }
        let p3: usize = find(v, p2 + 1, '.');
        if p3 < n {
            return None;
        }
        let a = match parse_octet(v, 0, p0) {
            Some(a) => a,
            None => {
                return None;
            },
        };
        let b = match parse_octet(v, p0 + 1, p1) {
            Some(b) => b,
            None => {
                return None;
            },
        };
        let c = match parse_octet(v, p1 + 1, p2) {
            Some(c) => c,
            None => {
                return None;
            },
        };
        let d = match parse_octet(v, p2 + 1, n) {
            Some(d) => d,
            None => {
                return None;
            },
        };
        let r = Ipv4Addr { octets: [a, b, c, d] };
        proof {
            lemma_first_index(s.skip(0), '.');
            lemma_first_index(s.skip(p0 + 1), '.');
            lemma_first_index(s.skip(p1 + 1), '.');
            assert(s.skip(0)[p0 as int] == s[p0 as int]);
            assert(s.skip(p0 + 1)[p1 - p0 - 1] == s[p1 as int]);
            assert(s.skip(p1 + 1)[p2 - p1 - 1] == s[p2 as int]);
            lemma_ipv4_joined(s, p0 as int, p1 as int, p2 as int, r);
        }
        Some(r)
    }
}

/// Where the dots of the text of `a` stand, and what stands between them.
pub open spec fn ipv4_splits(s: Seq<char>, a: Ipv4Addr) -> bool {
    let p0 = first_index(s.skip(0), '.');
    let p1 = p0 + 1 + first_index(s.skip(p0 + 1), '.');
    let p2 = p1 + 1 + first_index(s.skip(p1 + 1), '.');
    let p3 = p2 + 1 + first_index(s.skip(p2 + 1), '.');
    &&& 0 <= p0 < p1 < p2 < p3 == s.len()
    &&& s.subrange(0, p0) == dec(a.octets[0] as nat)
    &&& s.subrange(p0 + 1, p1) == dec(a.octets[1] as nat)
    &&& s.subrange(p1 + 1, p2) == dec(a.octets[2] as nat)
    &&& s.subrange(p2 + 1, p3) == dec(a.octets[3] as nat)
}

/// A run of digits before a dot ends where the first dot is.
proof fn lemma_digits_then(s: Seq<char>, from: int, d: Seq<char>, end: bool)
    requires
        0 <= from <= s.len(),
        is_dec(d),
        from + d.len() <= s.len(),
        s.subrange(from, from + d.len()) == d,
        end ==> from + d.len() == s.len(),
        !end ==> from + d.len() < s.len() && s[from + d.len()] == '.',
    ensures
        first_index(s.skip(from), '.') == d.len(),
{
    let t = s.skip(from);
    assert forall|k: int| 0 <= k < d.len() implies t[k] != '.' by {
        assert(d[k] == s[from + k]);
        assert(is_digit(d[k]));
    }
    lemma_first_index_unique(t, '.', d.len() as int);
}

proof fn lemma_ipv4_splits(a: Ipv4Addr)
    ensures
        ipv4_splits(ipv4_text(a), a),
{
    let s = ipv4_text(a);
    let d0 = dec(a.octets[0] as nat);
    let d1 = dec(a.octets[1] as nat);
    let d2 = dec(a.octets[2] as nat);
    let d3 = dec(a.octets[3] as nat);
    lemma_dec(a.octets[0] as nat);
    lemma_dec(a.octets[1] as nat);
    lemma_dec(a.octets[2] as nat);
    lemma_dec(a.octets[3] as nat);
    let q0 = d0.len() as int;
    let q1 = q0 + 1 + d1.len();
    let q2 = q1 + 1 + d2.len();
    let q3 = q2 + 1 + d3.len();
    assert(s.len() == q3);
    assert(s.subrange(0, q0) == d0);
    assert(s.subrange(q0 + 1, q1) == d1);
    assert(s.subrange(q1 + 1, q2) == d2);
    assert(s.subrange(q2 + 1, q3) == d3);
    assert(s[q0] == '.' && s[q1] == '.' && s[q2] == '.');
    lemma_digits_then(s, 0, d0, false);
    lemma_digits_then(s, q0 + 1, d1, false);
    lemma_digits_then(s, q1 + 1, d2, false);
    lemma_digits_then(s, q2 + 1, d3, true);
}

/// Four octets in decimal with dots between them are the text of the address.
proof fn lemma_ipv4_joined(s: Seq<char>, p0: int, p1: int, p2: int, a: Ipv4Addr)
    requires
        0 <= p0 < p1 < p2 < s.len(),
        s[p0] == '.' && s[p1] == '.' && s[p2] == '.',
        s.subrange(0, p0) == dec(a.octets[0] as nat),
        s.subrange(p0 + 1, p1) == dec(a.octets[1] as nat),
        s.subrange(p1 + 1, p2) == dec(a.octets[2] as nat),
        s.subrange(p2 + 1, s.len() as int) == dec(a.octets[3] as nat),
    ensures
        s == ipv4_text(a),
{
    assert(s =~= s.subrange(0, p0) + seq!['.'] + s.subrange(p0 + 1, p1) + seq!['.'] + s.subrange(
        p1 + 1,
        p2,
    ) + seq!['.'] + s.subrange(p2 + 1, s.len() as int));
}

/// Two addresses with one text are one address.
pub proof fn lemma_ipv4_text_injective(a: Ipv4Addr, b: Ipv4Addr)
    requires
        ipv4_text(a) == ipv4_text(b),
    ensures
        a == b,
{
    lemma_ipv4_splits(a);
    lemma_ipv4_splits(b);
    lemma_dec(a.octets[0] as nat);
    lemma_dec(a.octets[1] as nat);
    lemma_dec(a.octets[2] as nat);
    lemma_dec(a.octets[3] as nat);
    lemma_dec(b.octets[0] as nat);
    lemma_dec(b.octets[1] as nat);
    lemma_dec(b.octets[2] as nat);
    lemma_dec(b.octets[3] as nat);
    assert(a.octets =~= b.octets);
}

/// Reads the octet that `v` holds from `from` up to `to`: digits without a leading
/// zero that denote at most 255.
fn parse_octet(v: &Vec<char>, from: usize, to: usize) -> (r: Option<u8>)
    requires
        from <= to <= v@.len(),
    ensures
        match r {
            Some(n) => v@.subrange(from as int, to as int) == dec(n as nat),
            None => forall|n: u8| v@.subrange(from as int, to as int) != #[trigger] dec(n as nat),
        },
{
    let p = part(v, from, to);
    proof {
        assert forall|n: u8| p@ == #[trigger] dec(n as nat) implies number_of(p@, 255) == Some(
            n as nat,
        ) && p@[0] != '+' && p@.len() > 0 && (p@.len() > 1 ==> p@[0] != '0') by {
            lemma_dec(n as nat);
            assert(is_digit(p@[0]));
            if n == 0 {
                assert(dec(0).len() == 1);
            }
        }
    }
    if p.len() == 0 || p[0] == '+' || (p.len() > 1 && p[0] == '0') {
        return None;
    }
    match parse_number(&p, 255) {
        Some(n) => {
            proof {
                lemma_dec_of_value(p@);
            }
            Some(n as u8)
        },
        None => None,
    }
}

// ---------------------------------------------------------------------------
// IPv6
// ---------------------------------------------------------------------------

/// An IPv6 address: its eight segments of sixteen bits, the most significant first.
#[derive(Clone, Copy, Debug, PartialEq, Eq)]
pub struct Ipv6Addr {
    pub segments: [u16; 8],
}

/// Two octets as one segment.
pub open spec fn segment(high: u8, low: u8) -> u16 {
    (high * 256 + low) as u16
}

fn make_segment(high: u8, low: u8) -> (r: u16)
    ensures
        r == segment(high, low),
{
    high as u16 * 256 + low as u16
}

/// The address whose sixteen octets `s` holds from `from` on.
pub open spec fn octets_address(s: Seq<u8>, from: int) -> Ipv6Addr {
    Ipv6Addr {
        segments: [
            segment(s[from], s[from + 1]),
            segment(s[from + 2], s[from + 3]),
            segment(s[from + 4], s[from + 5]),
            segment(s[from + 6], s[from + 7]),
            segment(s[from + 8], s[from + 9]),
            segment(s[from + 10], s[from + 11]),
            segment(s[from + 12], s[from + 13]),
            segment(s[from + 14], s[from + 15]),
        ],
    }
}

/// The two segments that an IPv4 address takes up at the end of an IPv6 address.
pub open spec fn ipv4_segments(a: Ipv4Addr) -> Seq<u16> {
    seq![segment(a.octets[0], a.octets[1]), segment(a.octets[2], a.octets[3])]
}

/// The segments that `s` denotes if it is the text of an IPv4 address.
pub open spec fn embedded_ipv4(s: Seq<char>) -> Option<Seq<u16>> {
    match ipv4_of(s) {
        Some(a) => Some(ipv4_segments(a)),
        None => None,
    }
}

/// The segments of a text of groups with a colon between two. Each group is one to
/// four hexadecimal digits; where `v4` holds, the last may be an IPv4 address.
pub open spec fn groups_of(s: Seq<char>, v4: bool) -> Option<Seq<u16>>
    decreases s.len(),
{
    proof {
        lemma_first_index(s, ':');
    }
    let n = first_index(s, ':');
    if n < s.len() {
        match groups_of(s.skip(n + 1), v4) {
            Some(rest) if is_hex_group(s.take(n)) => Some(
                seq![hex_value(s.take(n)) as u16] + rest,
            ),
            _ => None,
        }
    } else if is_hex_group(s) {
        Some(seq![hex_value(s) as u16])
    } else if v4 {
        embedded_ipv4(s)
    } else {
        None
    }
}

/// The same, where there may be no group at all.
pub open spec fn maybe_groups(s: Seq<char>, v4: bool) -> Option<Seq<u16>> {
    if s.len() == 0 {
        Some(seq![])
    } else {
        groups_of(s, v4)
    }
}

/// The place of the first two colons in a row, or a place with no room for two
/// where there are none.
pub open spec fn gap_index(s: Seq<char>) -> int
    decreases s.len(),
{
    if s.len() < 2 || (s[0] == ':' && s[1] == ':') {
        0
    } else {
        1 + gap_index(s.drop_first())
    }
}

pub proof fn lemma_gap_index(s: Seq<char>)
    ensures
        0 <= gap_index(s) <= s.len(),
        s.len() > 0 ==> gap_index(s) < s.len(),
        gap_index(s) + 1 < s.len() ==> s[gap_index(s)] == ':' && s[gap_index(s) + 1] == ':',
        forall|k: int| 0 <= k < gap_index(s) ==> !(#[trigger] s[k] == ':' && s[k + 1] == ':'),
    decreases s.len(),
{
    if s.len() < 2 || (s[0] == ':' && s[1] == ':') {
    } else {
        let t = s.drop_first();
        lemma_gap_index(t);
        assert forall|k: int| 0 <= k < gap_index(s) implies !(#[trigger] s[k] == ':' && s[k + 1]
            == ':') by {
            if k > 0 {
                assert(t[k - 1] == s[k] && t[k] == s[k + 1]);
            }
        }
    }
}

pub proof fn lemma_gap_index_unique(s: Seq<char>, n: int)
    requires
        0 <= n < s.len(),
        forall|k: int| 0 <= k < n ==> !(#[trigger] s[k] == ':' && s[k + 1] == ':'),
        n + 1 < s.len() ==> s[n] == ':' && s[n + 1] == ':',
    ensures
        gap_index(s) == n,
    decreases n,
{
    if n > 0 {
        assert(!(s[0] == ':' && s[1] == ':'));
        let t = s.drop_first();
        assert forall|k: int| 0 <= k < n - 1 implies !(#[trigger] t[k] == ':' && t[k + 1] == ':') by {
            assert(t[k] == s[k + 1] && t[k + 1] == s[k + 2]);
        }
        lemma_gap_index_unique(t, n - 1);
    }
}

/// The segments of the IPv6 address that `s` is a text of. One run of zero segments,
/// at least one of them, may be written as two colons; without it all eight segments
/// are written.
pub open spec fn ipv6_of(s: Seq<char>) -> Option<Seq<u16>> {
    let i = gap_index(s);
    if i + 1 < s.len() {
        match (maybe_groups(s.take(i), false), maybe_groups(s.skip(i + 2), true)) {
            (Some(head), Some(tail)) if head.len() + tail.len() <= 7 => Some(
                head + Seq::new((8 - head.len() - tail.len()) as nat, |k: int| 0u16) + tail,
            ),
            _ => None,
        }
    } else {
        match groups_of(s, true) {
            Some(groups) if groups.len() == 8 => Some(groups),
            _ => None,
        }
    }
}

/// The length of the run of zeros that starts at place `i` of `g`.
pub open spec fn zeros_at(g: Seq<u16>, i: int) -> int
    decreases g.len() - i,
{
    if 0 <= i < g.len() && g[i] == 0 {
        1 + zeros_at(g, i + 1)
    } else {
        0
    }
}

/// Where the longest run of zeros starts, of the runs that start at one of the
/// first `n` places; the first of them where several are longest.
pub open spec fn longest_zeros(g: Seq<u16>, n: nat) -> int
    decreases n,
{
    if n <= 1 {
        0
    } else {
        let best = longest_zeros(g, (n - 1) as nat);
        if zeros_at(g, n - 1) > zeros_at(g, best) {
            n - 1
        } else {
            best
        }
    }
}

/// The text of some segments: their hexadecimal digits with a colon between two.
pub open spec fn groups_text(g: Seq<u16>) -> Seq<char>
    decreases g.len(),
{
    if g.len() == 0 {
        seq![]
    } else if g.len() == 1 {
        hex(g[0] as nat)
    } else {
        groups_text(g.drop_last()) + seq![':'] + hex(g.last() as nat)
    }
}

/// Whether the address stands for an IPv4 address.
pub open spec fn is_ipv4_mapped(g: Seq<u16>) -> bool {
    g[0] == 0 && g[1] == 0 && g[2] == 0 && g[3] == 0 && g[4] == 0 && g[5] == 0xffff
}

/// The IPv4 address that two segments hold.
pub open spec fn ipv4_of_segments(high: u16, low: u16) -> Ipv4Addr {
    Ipv4Addr {
        octets: [(high / 256) as u8, (high % 256) as u8, (low / 256) as u8, (low % 256) as u8],
    }
}

/// The text of an IPv6 address. One that stands for an IPv4 address shows that
/// address; in others the longest run of zero segments, if it is longer than one, is
/// written as two colons.
pub open spec fn ipv6_text(a: Ipv6Addr) -> Seq<char> {
    let g = a.segments@;
    let start = longest_zeros(g, 8);
    let len = zeros_at(g, start);
    if is_ipv4_mapped(g) {
        seq![':', ':', 'f', 'f', 'f', 'f', ':'] + ipv4_text(ipv4_of_segments(g[6], g[7]))
    } else if len > 1 {
        groups_text(g.take(start)) + seq![':', ':'] + groups_text(g.skip(start + len))
    } else {
        groups_text(g)
    }
}

proof fn lemma_zeros_at(g: Seq<u16>, i: int)
    ensures
        0 <= zeros_at(g, i),
        0 <= i <= g.len() ==> i + zeros_at(g, i) <= g.len(),
        forall|k: int| i <= k < i + zeros_at(g, i) ==> 0 <= k < g.len() && g[k] == 0,
        0 <= i && i + zeros_at(g, i) < g.len() ==> g[i + zeros_at(g, i)] != 0,
    decreases g.len() - i,
{
    if 0 <= i < g.len() && g[i] == 0 {
        lemma_zeros_at(g, i + 1);
    }
}

proof fn lemma_longest_zeros(g: Seq<u16>, n: nat)
    ensures
        0 <= longest_zeros(g, n),
        n > 0 ==> longest_zeros(g, n) < n,
    decreases n,
{
    if n > 1 {
        lemma_longest_zeros(g, (n - 1) as nat);
    }
}

impl Ipv6Addr {
    /// The address `::`, in the language of contracts.
    pub open spec fn zero() -> Self {
        Ipv6Addr { segments: [0u16, 0u16, 0u16, 0u16, 0u16, 0u16, 0u16, 0u16] }
    }

    /// The address with the given segments.
    pub fn new(a: u16, b: u16, c: u16, d: u16, e: u16, f: u16, g: u16, h: u16) -> (r: Self)
        ensures
            r.segments@ == seq![a, b, c, d, e, f, g, h],
    {
        Ipv6Addr { segments: [a, b, c, d, e, f, g, h] }
    }

    /// The address `::`, which stands for no address.
    pub fn unspecified() -> (r: Self)
        ensures
            r == Self::zero(),
    {
        Ipv6Addr { segments: [0u16, 0u16, 0u16, 0u16, 0u16, 0u16, 0u16, 0u16] }
    }

    /// Whether this is `::`.
    pub fn is_unspecified(&self) -> (r: bool)
        ensures
            r == (*self == Self::zero()),
    {
        let s = &self.segments;
        let r = s[0] == 0 && s[1] == 0 && s[2] == 0 && s[3] == 0 && s[4] == 0 && s[5] == 0 && s[6]
            == 0 && s[7] == 0;
        proof {
            let z = Self::zero();
            assert(z.segments@ =~= seq![0u16, 0u16, 0u16, 0u16, 0u16, 0u16, 0u16, 0u16]);
            if r {
                assert(self.segments =~= z.segments);
            }
        }
        r
    }

    /// The address whose sixteen octets `v` holds from `from` on.
    pub fn from_octets(v: &Vec<u8>, from: usize) -> (r: Self)
        requires
            from + 16 <= v@.len(),
        ensures
            r == octets_address(v@, from as int),
    {
        assert(from + 16 <= v.len());
        Ipv6Addr {
            segments: [
                make_segment(v[from], v[from + 1]),
                make_segment(v[from + 2], v[from + 3]),
                make_segment(v[from + 4], v[from + 5]),
                make_segment(v[from + 6], v[from + 7]),
                make_segment(v[from + 8], v[from + 9]),
                make_segment(v[from + 10], v[from + 11]),
                make_segment(v[from + 12], v[from + 13]),
                make_segment(v[from + 14], v[from + 15]),
            ],
        }
    }

    /// The address with the segments that `g` holds.
    fn from_groups(g: &Vec<u16>) -> (r: Self)
        requires
            g@.len() == 8,
        ensures
            r.segments@ == g@,
    {
        Ipv6Addr { segments: [g[0], g[1], g[2], g[3], g[4], g[5], g[6], g[7]] }
    }

    /// Reads an address.
    pub fn parse(v: &Vec<char>) -> (r: Option<Self>)
        ensures
            match r {
                Some(a) => ipv6_of(v@) == Some(a.segments@),
                None => ipv6_of(v@) is None,
            },
    {
        let n: usize = v.len();
        let i: usize = find_gap(v);
        proof {
            lemma_gap_index(v@);
        }
        if i < n && i + 1 < n {
            let head = match parse_maybe_groups(v, 0, i, false) {
                Some(head) => head,
                None => {
                    return None;
                },
            };
            let tail = match parse_maybe_groups(v, i + 2, n, true) {
                Some(tail) => tail,
                None => {
                    return None;
                },
            };
            assert(v@.subrange(0, i as int) == v@.take(i as int));
            assert(v@.subrange(i + 2, n as int) == v@.skip(i + 2));
            if head.len() > 7 || tail.len() > 7 - head.len() {
                return None;
            }
            let h: usize = head.len();
            let t: usize = tail.len();
            let mut all: Vec<u16> = Vec::new();
            let mut k: usize = 0;
            let ghost want = head@ + Seq::new((8 - h - t) as nat, |k: int| 0u16) + tail@;
            while k < 8
                invariant
                    k <= 8,
                    h == head@.len(),
                    t == tail@.len(),
                    h + t <= 7,
                    want == head@ + Seq::new((8 - h - t) as nat, |k: int| 0u16) + tail@,
                    all@ == want.take(k as int),
                decreases 8 - k,
            {
                let g: u16 = if k < h {
                    head[k]
                } else if k < 8 - t {
                    0
                } else {
                    tail[k + t - 8]
                };
                assert(g == want[k as int]);
                all.push(g);
                k += 1;
            }
            assert(want.take(8) == want);
            Some(Self::from_groups(&all))
        } else {
            match parse_groups(v, 0, n, true) {
                Some(groups) => {
                    assert(v@.subrange(0, n as int) == v@);
                    if groups.len() == 8 {
                        Some(Self::from_groups(&groups))
                    } else {
                        None
                    }
                },
                None => {
                    assert(v@.subrange(0, n as int) == v@);
                    None
                },
            }
        }
    }

    /// The text of the address, as characters.
    pub fn text(&self) -> (r: Vec<char>)
        ensures
            r@ == ipv6_text(*self),
    {
        let s = &self.segments;
        let ghost g = s@;
        if s[0] == 0 && s[1] == 0 && s[2] == 0 && s[3] == 0 && s[4] == 0 && s[5] == 0xffff {
            let v4 = Ipv4Addr {
                octets: [
                    (s[6] / 256) as u8,
                    (s[6] % 256) as u8,
                    (s[7] / 256) as u8,
                    (s[7] % 256) as u8,
                ],
            };
            let mut out: Vec<char> = vec![':', ':', 'f', 'f', 'f', 'f', ':'];
            let mut tail = v4.text();
            out.append(&mut tail);
            assert(out@ == seq![':', ':', 'f', 'f', 'f', 'f', ':'] + ipv4_text(v4));
            return out;
        }
        let mut start: usize = 0;
        let mut len: usize = run_of_zeros(self, 0);
        let mut i: usize = 1;
        while i < 8
            invariant
                1 <= i <= 8,
                start < i,
                g == self.segments@,
                start == longest_zeros(g, i as nat),
                len == zeros_at(g, start as int),
            decreases 8 - i,
        {
            let here: usize = run_of_zeros(self, i);
            if here > len {
                start = i;
                len = here;
            }
            i += 1;
        }
        proof {
            lemma_zeros_at(g, start as int);
        }
        if len > 1 {
            let mut out = write_groups(self, 0, start);
            out.push(':');
            out.push(':');
            let mut tail = write_groups(self, start + len, 8);
            out.append(&mut tail);
            assert(g.subrange(0, start as int) == g.take(start as int));
            assert(g.subrange(start + len, 8) == g.skip(start + len));
            assert(out@ == groups_text(g.take(start as int)) + seq![':', ':'] + groups_text(
                g.skip(start + len),
            ));
            out
        } else {
            assert(g.subrange(0, 8) == g);
            write_groups(self, 0, 8)
        }
    }
}

/// The length of the run of zero segments of `a` that starts at `i`.
fn run_of_zeros(a: &Ipv6Addr, i: usize) -> (r: usize)
    requires
        i <= 8,
    ensures
        r == zeros_at(a.segments@, i as int),
        i + r <= 8,
    decreases 8 - i,
{
    if i < 8 && a.segments[i] == 0 {
        1 + run_of_zeros(a, i + 1)
    } else {
        0
    }
}

/// The text of the segments of `a` from `from` up to `to`.
fn write_groups(a: &Ipv6Addr, from: usize, to: usize) -> (r: Vec<char>)
    requires
        from <= to <= 8,
    ensures
        r@ == groups_text(a.segments@.subrange(from as int, to as int)),
{
    let mut out: Vec<char> = Vec::new();
    let ghost g = a.segments@;
    let mut i: usize = from;
    while i < to
        invariant
            from <= i <= to <= 8,
            g == a.segments@,
            out@ == groups_text(g.subrange(from as int, i as int)),
        decreases to - i,
    {
        if i > from {
            out.push(':');
        }
        let mut one = hex_text(a.segments[i]);
        proof {
            let next = g.subrange(from as int, i + 1);
            assert(next.drop_last() == g.subrange(from as int, i as int));
            assert(next.last() == g[i as int]);
        }
        out.append(&mut one);
        assert(out@ == groups_text(g.subrange(from as int, i + 1)));
        i += 1;
    }
    out
}

/// Finds the first two colons in a row.
fn find_gap(v: &Vec<char>) -> (r: usize)
    ensures
        r == gap_index(v@),
{
    let mut i: usize = 0;
    assert(v@.skip(0) == v@);
    while i < v.len() && i + 1 < v.len() && !(v[i] == ':' && v[i + 1] == ':')
        invariant
            i <= v@.len(),
            gap_index(v@) == i + gap_index(v@.skip(i as int)),
        decreases v.len() - i,
    {
        assert(v@.skip(i as int).drop_first() == v@.skip(i + 1));
        i += 1;
    }
    i
}

/// Reads the groups that `v` holds from `from` up to `to`, if any.
fn parse_maybe_groups(v: &Vec<char>, from: usize, to: usize, v4: bool) -> (r: Option<Vec<u16>>)
    requires
        from <= to <= v@.len(),
    ensures
        match r {
            Some(g) => maybe_groups(v@.subrange(from as int, to as int), v4) == Some(g@),
            None => maybe_groups(v@.subrange(from as int, to as int), v4) is None,
        },
{
    if from == to {
        Some(Vec::new())
    } else {
        parse_groups(v, from, to, v4)
    }
}

/// What stands in front of some groups, with them.
spec fn before(out: Seq<u16>, rest: Option<Seq<u16>>) -> Option<Seq<u16>> {
    match rest {
        Some(rest) => Some(out + rest),
        None => None,
    }
}

/// Reads the groups that `v` holds from `from` up to `to`.
fn parse_groups(v: &Vec<char>, from: usize, to: usize, v4: bool) -> (r: Option<Vec<u16>>)
    requires
        from <= to <= v@.len(),
    ensures
        match r {
            Some(g) => groups_of(v@.subrange(from as int, to as int), v4) == Some(g@),
            None => groups_of(v@.subrange(from as int, to as int), v4) is None,
        },
{
    let ghost all = groups_of(v@.subrange(from as int, to as int), v4);
    let mut out: Vec<u16> = Vec::new();
    let mut i: usize = from;
    assert(before(out@, all) == all) by {
        if let Some(g) = all {
            assert(Seq::<u16>::empty() + g == g);
        }
    }
    loop
        invariant
            from <= i <= to <= v@.len(),
            before(out@, groups_of(v@.subrange(i as int, to as int), v4)) == all,
            all == groups_of(v@.subrange(from as int, to as int), v4),
        decreases to - i,
    {
        let ghost s = v@.subrange(i as int, to as int);
        let j: usize = find_colon(v, i, to);
        proof {
            lemma_first_index(s, ':');
            assert(s.take(j - i) == v@.subrange(i as int, j as int));
        }
        match parse_hex_group(v, i, j) {
            Some(g) => {
                let ghost old_out = out@;
                out.push(g);
                if j == to {
                    assert(s.take(j - i) == s);
                    assert(old_out + seq![g] == out@);
                    return Some(out);
                }
                proof {
                    let t = v@.subrange(j + 1, to as int);
                    assert(s.skip(j - i + 1) == t);
                    if let Some(rest) = groups_of(t, v4) {
                        assert(old_out + (seq![g] + rest) == out@ + rest);
                    }
                }
                i = j + 1;
            },
            None => {
                if j < to || !v4 {
                    assert(j == to ==> s.take(j - i) == s);
                    return None;
                }
                let p = part(v, i, to);
                assert(s.take(j - i) == s);
                return match Ipv4Addr::parse(&p) {
                    Some(a) => {
                        proof {
                            let b = choose|b: Ipv4Addr| s == #[trigger] ipv4_text(b);
                            lemma_ipv4_text_injective(a, b);
                            assert(embedded_ipv4(s) == Some(ipv4_segments(a)));
                        }
                        let ghost old_out = out@;
                        out.push(make_segment(a.octets[0], a.octets[1]));
                        out.push(make_segment(a.octets[2], a.octets[3]));
                        assert(old_out + ipv4_segments(a) == out@);
                        Some(out)
                    },
                    None => None,
                };
            },
        }
    }
}

/// Finds the first colon from `from` up to `to`.
fn find_colon(v: &Vec<char>, from: usize, to: usize) -> (r: usize)
    requires
        from <= to <= v@.len(),
    ensures
        from <= r <= to,
        r - from == first_index(v@.subrange(from as int, to as int), ':'),
{
    let ghost s = v@.subrange(from as int, to as int);
    let mut i: usize = from;
    while i < to && v[i] != ':'
        invariant
            from <= i <= to <= v@.len(),
            s == v@.subrange(from as int, to as int),
            forall|k: int| 0 <= k < i - from ==> s[k] != ':',
        decreases to - i,
    {
        i += 1;
    }
    proof {
        lemma_first_index_unique(s, ':', i - from);
    }
    i
}

// ---------------------------------------------------------------------------
// The characters of addresses
// ---------------------------------------------------------------------------

/// A character that can stand in the text of an address.
pub open spec fn is_address_char(c: char) -> bool {
    is_hex_digit(c) || c == ':' || c == '.'
}

/// The text of an IPv4 address is made of digits and dots.
pub proof fn lemma_ipv4_text_chars(a: Ipv4Addr)
    ensures
        ipv4_text(a).len() > 0,
        forall|i: int|
            0 <= i < ipv4_text(a).len() ==> is_address_char(#[trigger] ipv4_text(a)[i])
                && ipv4_text(a)[i] != ':',
        ipv4_text(a).contains('.'),
        !ipv4_text(a).contains(':'),
{
    let s = ipv4_text(a);
    let d0 = dec(a.octets[0] as nat);
    let d1 = dec(a.octets[1] as nat);
    let d2 = dec(a.octets[2] as nat);
    let d3 = dec(a.octets[3] as nat);
    lemma_dec(a.octets[0] as nat);
    lemma_dec(a.octets[1] as nat);
    lemma_dec(a.octets[2] as nat);
    lemma_dec(a.octets[3] as nat);
    let q0 = d0.len() as int;
    let q1 = q0 + 1 + d1.len();
    let q2 = q1 + 1 + d2.len();
    assert(s[q0] == '.');
    assert forall|i: int| 0 <= i < s.len() implies is_address_char(#[trigger] s[i]) && s[i] != ':' by {
        if i < q0 {
            assert(s[i] == d0[i]);
        } else if q0 < i < q1 {
            assert(s[i] == d1[i - q0 - 1]);
        } else if q1 < i < q2 {
            assert(s[i] == d2[i - q1 - 1]);
        } else if q2 < i {
            assert(s[i] == d3[i - q2 - 1]);
        }
    }
}

proof fn lemma_groups_text_chars(g: Seq<u16>)
    ensures
        forall|i: int|
            0 <= i < groups_text(g).len() ==> is_address_char(#[trigger] groups_text(g)[i]),
        g.len() > 0 ==> groups_text(g).len() > 0,
        g.len() > 1 ==> groups_text(g).contains(':'),
    decreases g.len(),
{
    if g.len() == 1 {
        lemma_hex(g[0] as nat);
    } else if g.len() > 1 {
        lemma_groups_text_chars(g.drop_last());
        lemma_hex(g.last() as nat);
        let front = groups_text(g.drop_last());
        let s = groups_text(g);
        assert(s[front.len() as int] == ':');
    }
}

/// The text of an IPv6 address is made of hexadecimal digits, colons and dots, and has
/// a colon.
pub proof fn lemma_ipv6_text_chars(a: Ipv6Addr)
    ensures
        ipv6_text(a).len() > 0,
        forall|i: int|
            0 <= i < ipv6_text(a).len() ==> is_address_char(#[trigger] ipv6_text(a)[i]),
        ipv6_text(a).contains(':'),
{
    let g = a.segments@;
    let s = ipv6_text(a);
    let start = longest_zeros(g, 8);
    let len = zeros_at(g, start);
    if is_ipv4_mapped(g) {
        let tail = ipv4_text(ipv4_of_segments(g[6], g[7]));
        lemma_ipv4_text_chars(ipv4_of_segments(g[6], g[7]));
        assert(s[0] == ':');
        assert forall|i: int| 0 <= i < s.len() implies is_address_char(#[trigger] s[i]) by {
            if i >= 7 {
                assert(s[i] == tail[i - 7]);
            }
        }
    } else if len > 1 {
        lemma_groups_text_chars(g.take(start));
        lemma_groups_text_chars(g.skip(start + len));
        assert(s[groups_text(g.take(start)).len() as int] == ':');
    } else {
        lemma_groups_text_chars(g);
    }
}

// ---------------------------------------------------------------------------
// Text and back
// ---------------------------------------------------------------------------

/// The text of an IPv4 address is read as that address.
pub proof fn law_ipv4_text_read_back(a: Ipv4Addr)
    ensures
        ipv4_of(ipv4_text(a)) == Some(a),
{
    let s = ipv4_text(a);
    lemma_ipv4_text_injective(a, choose|b: Ipv4Addr| s == #[trigger] ipv4_text(b));
}

proof fn lemma_groups_text_front(g: Seq<u16>)
    requires
        g.len() > 1,
    ensures
        groups_text(g) == hex(g[0] as nat) + seq![':'] + groups_text(g.drop_first()),
    decreases g.len(),
{
    if g.len() == 2 {
        assert(groups_text(g.drop_last()) == hex(g[0] as nat));
        assert(groups_text(g.drop_first()) == hex(g.last() as nat));
    } else {
        let front = g.drop_last();
        lemma_groups_text_front(front);
        assert(front.drop_first() =~= g.drop_first().drop_last());
        assert(g.drop_first().last() == g.last());
        assert(groups_text(g) =~= hex(g[0] as nat) + seq![':'] + groups_text(g.drop_first()));
    }
}

/// A hexadecimal digit is no colon.
proof fn lemma_hex_is_no_colon(c: char)
    requires
        is_hex_digit(c),
    ensures
        c != ':',
        c != '.',
{
}

proof fn lemma_groups_read_back(g: Seq<u16>, v4: bool)
    requires
        g.len() > 0,
    ensures
        groups_of(groups_text(g), v4) == Some(g),
    decreases g.len(),
{
    let s = groups_text(g);
    let h = hex(g[0] as nat);
    lemma_hex(g[0] as nat);
    assert forall|k: int| 0 <= k < h.len() implies h[k] != ':' by {
        lemma_hex_is_no_colon(h[k]);
    }
    if g.len() == 1 {
        assert(s == h);
        lemma_first_index_unique(s, ':', s.len() as int);
        assert(seq![g[0]] =~= g);
    } else {
        let rest = g.drop_first();
        lemma_groups_text_front(g);
        lemma_groups_read_back(rest, v4);
        assert forall|k: int| 0 <= k < h.len() implies s[k] != ':' by {
            assert(s[k] == h[k]);
        }
        assert(s[h.len() as int] == ':');
        lemma_first_index_unique(s, ':', h.len() as int);
        assert(s.take(h.len() as int) =~= h);
        assert(s.skip(h.len() as int + 1) =~= groups_text(rest));
        assert(seq![g[0]] + rest =~= g);
    }
}

/// In the text of some segments no two colons stand in a row, and none at the ends.
proof fn lemma_groups_no_gap(g: Seq<u16>)
    ensures
        forall|k: int|
            0 <= k < groups_text(g).len() - 1 ==> !(#[trigger] groups_text(g)[k] == ':'
                && groups_text(g)[k + 1] == ':'),
        g.len() > 0 ==> groups_text(g).len() > 0 && groups_text(g)[0] != ':' && groups_text(
            g,
        ).last() != ':',
    decreases g.len(),
{
    if g.len() == 1 {
        lemma_hex(g[0] as nat);
        assert forall|k: int| 0 <= k < groups_text(g).len() implies groups_text(g)[k] != ':' by {
            lemma_hex_is_no_colon(groups_text(g)[k]);
        }
    } else if g.len() > 1 {
        let front = groups_text(g.drop_last());
        let h = hex(g.last() as nat);
        let s = groups_text(g);
        lemma_groups_no_gap(g.drop_last());
        lemma_hex(g.last() as nat);
        assert forall|k: int| 0 <= k < h.len() implies h[k] != ':' by {
            lemma_hex_is_no_colon(h[k]);
        }
        assert(s[0] == front[0]);
        assert(s.last() == h.last());
        assert forall|k: int| 0 <= k < s.len() - 1 implies !(#[trigger] s[k] == ':' && s[k + 1]
            == ':') by {
            let n = front.len() as int;
            if k < n - 1 {
                assert(s[k] == front[k] && s[k + 1] == front[k + 1]);
            } else if k == n - 1 {
                assert(s[k] == front.last());
            } else {
                assert(s[k + 1] == h[k + 1 - n - 1]);
            }
        }
    }
}

proof fn lemma_segment_of_halves(n: u16)
    ensures
        segment((n / 256) as u8, (n % 256) as u8) == n,
{
}

/// The text of an IPv6 address is read as that address.
pub proof fn law_ipv6_text_read_back(a: Ipv6Addr)
    ensures
        ipv6_of(ipv6_text(a)) == Some(a.segments@),
{
    let g = a.segments@;
    let s = ipv6_text(a);
    let start = longest_zeros(g, 8);
    let len = zeros_at(g, start);
    if is_ipv4_mapped(g) {
        lemma_mapped_read_back(a);
    } else if len > 1 {
        lemma_longest_zeros(g, 8);
        lemma_zeros_at(g, start);
        let head = g.take(start);
        let tail = g.skip(start + len);
        let h = groups_text(head);
        let t = groups_text(tail);
        lemma_groups_no_gap(head);
        let n = h.len() as int;
        assert(s[n] == ':' && s[n + 1] == ':');
        assert forall|k: int| 0 <= k < n implies !(#[trigger] s[k] == ':' && s[k + 1] == ':') by {
            assert(s[k] == h[k]);
            if k + 1 < n {
                assert(s[k + 1] == h[k + 1]);
            } else {
                assert(h[k] == h.last());
            }
        }
        lemma_gap_index_unique(s, n);
        assert(s.take(n) =~= h);
        assert(s.skip(n + 2) =~= t);
        lemma_groups_text_chars(head);
        lemma_groups_text_chars(tail);
        if head.len() > 0 {
            lemma_groups_read_back(head, false);
        } else {
            assert(h =~= Seq::empty());
            assert(head =~= Seq::empty());
        }
        if tail.len() > 0 {
            lemma_groups_read_back(tail, true);
        } else {
            assert(t =~= Seq::empty());
            assert(tail =~= Seq::empty());
        }
        assert(head + Seq::new((8 - head.len() - tail.len()) as nat, |k: int| 0u16) + tail =~= g);
    } else {
        lemma_groups_no_gap(g);
        lemma_gap_index(s);
        assert(gap_index(s) + 1 >= s.len());
        lemma_groups_read_back(g, true);
    }
}

proof fn lemma_mapped_read_back(a: Ipv6Addr)
    requires
        is_ipv4_mapped(a.segments@),
    ensures
        ipv6_of(ipv6_text(a)) == Some(a.segments@),
{
    let g = a.segments@;
    let s = ipv6_text(a);
    let v4 = ipv4_of_segments(g[6], g[7]);
    let t = ipv4_text(v4);
    lemma_ipv4_text_chars(v4);
    lemma_gap_index_unique(s, 0);
    assert(s.take(0) =~= Seq::empty());
    let rest = s.skip(2);
    let f = seq!['f', 'f', 'f', 'f'];
    assert(rest =~= f + seq![':'] + t);
    assert forall|k: int| 0 <= k < 4 implies rest[k] != ':' by {
        assert(rest[k] == f[k]);
    }
    assert(rest[4] == ':');
    lemma_first_index_unique(rest, ':', 4);
    assert(rest.take(4) =~= f);
    assert(rest.skip(5) =~= t);
    assert(is_hex_group(f));
    assert(hex_value(f) == 0xffff) by {
        assert(f.drop_last() =~= seq!['f', 'f', 'f']);
        assert(f.drop_last().drop_last() =~= seq!['f', 'f']);
        assert(f.drop_last().drop_last().drop_last() =~= seq!['f']);
        assert(f.drop_last().drop_last().drop_last().drop_last() =~= Seq::empty());
        reveal_with_fuel(hex_value, 6);
    }
    assert forall|k: int| 0 <= k < t.len() implies t[k] != ':' by {}
    lemma_first_index_unique(t, ':', t.len() as int);
    assert(!is_hex_group(t)) by {
        let k = choose|k: int| 0 <= k < t.len() && t[k] == '.';
        if is_hex_group(t) {
            assert(is_hex_digit(t[k]));
            lemma_hex_is_no_colon(t[k]);
        }
    }
    law_ipv4_text_read_back(v4);
    lemma_segment_of_halves(g[6]);
    lemma_segment_of_halves(g[7]);
    assert(ipv4_segments(v4) =~= seq![g[6], g[7]]);
    assert(groups_of(t, true) == Some(seq![g[6], g[7]]));
    assert(groups_of(rest, true) == Some(seq![0xffffu16] + seq![g[6], g[7]]));
    assert(Seq::<u16>::empty() + Seq::new(5, |k: int| 0u16) + (seq![0xffffu16] + seq![g[6], g[7]])
        =~= g);
}

// ---------------------------------------------------------------------------
// What the texts look like
// ---------------------------------------------------------------------------

/// The text of an IPv4 address is four runs of decimal digits with a dot between two,
/// each of which denotes an octet, the most significant first, and none of which starts
/// with a zero unless it is one.
pub proof fn law_ipv4_text_shape(a: Ipv4Addr) -> (parts: Seq<Seq<char>>)
    ensures
        parts.len() == 4,
        ipv4_text(a) == parts[0] + "."@ + parts[1] + "."@ + parts[2] + "."@ + parts[3],
        forall|i: int|
            0 <= i < 4 ==> {
                let part = #[trigger] parts[i];
                &&& is_dec(part)
                &&& dec_value(part) == a.octets[i]
                &&& a.octets[i] != 0 ==> part[0] != '0'
                &&& a.octets[i] == 0 ==> part.len() == 1
            },
{
    reveal_strlit(".");
    let parts = Seq::new(4, |i: int| dec(a.octets[i] as nat));
    assert("."@ =~= seq!['.']);
    assert forall|i: int| 0 <= i < 4 implies is_dec(#[trigger] parts[i]) && dec_value(parts[i])
        == a.octets[i] && (a.octets[i] != 0 ==> parts[i][0] != '0') && (a.octets[i] == 0
        ==> parts[i].len() == 1) by {
        lemma_dec(a.octets[i] as nat);
    }
    parts
}

/// Whether the segments from `from` up to `to` are all zero.
pub open spec fn all_zero(g: Seq<u16>, from: int, to: int) -> bool {
    forall|k: int| from <= k < to ==> #[trigger] g[k] == 0
}

/// Whether from `from` up to `to` stands the run of zero segments that a text leaves
/// out: of at least two, the longest, and the first of those that are as long.
pub open spec fn is_gap(g: Seq<u16>, from: int, to: int) -> bool {
    &&& 0 <= from && from + 2 <= to && to <= g.len()
    &&& all_zero(g, from, to)
    &&& forall|i: int, j: int|
        0 <= i <= j <= g.len() && #[trigger] all_zero(g, i, j) ==> j - i < to - from || j - i == to
            - from && from <= i
}

proof fn lemma_zero_run(g: Seq<u16>, i: int, j: int)
    requires
        0 <= i <= j <= g.len(),
        all_zero(g, i, j),
    ensures
        zeros_at(g, i) >= j - i,
    decreases j - i,
{
    lemma_zeros_at(g, i);
    if i < j {
        assert(g[i] == 0);
        lemma_zero_run(g, i + 1, j);
    }
}

proof fn lemma_longest(g: Seq<u16>, n: nat)
    requires
        0 < n <= g.len(),
    ensures
        forall|i: int|
            0 <= i < n ==> #[trigger] zeros_at(g, i) <= zeros_at(g, longest_zeros(g, n)),
        forall|i: int|
            0 <= i < longest_zeros(g, n) ==> #[trigger] zeros_at(g, i) < zeros_at(
                g,
                longest_zeros(g, n),
            ),
    decreases n,
{
    lemma_longest_zeros(g, n);
    if n > 1 {
        lemma_longest(g, (n - 1) as nat);
        lemma_longest_zeros(g, (n - 1) as nat);
    }
}

/// The text of an IPv6 address that does not stand for an IPv4 address shows its
/// segments, apart from the longest run of zeros, if that is of at least two, which is
/// two colons; of several that are as long, it is the first.
pub proof fn law_ipv6_text_shape(a: Ipv6Addr, from: int, to: int)
    ensures
        ({
            let g = a.segments@;
            &&& !is_ipv4_mapped(g) && is_gap(g, from, to) ==> ipv6_text(a) == groups_text(
                g.take(from),
            ) + "::"@ + groups_text(g.skip(to))
            &&& (forall|k: int| 0 <= k < 7 ==> !(#[trigger] g[k] == 0 && g[k + 1] == 0))
                ==> ipv6_text(a) == groups_text(g)
            &&& is_ipv4_mapped(g) <==> g.take(6) == seq![0u16, 0u16, 0u16, 0u16, 0u16, 0xffffu16]
            &&& is_ipv4_mapped(g) ==> ipv6_text(a) == "::ffff:"@ + ipv4_text(
                ipv4_of_segments(g[6], g[7]),
            )
        }),
{
    reveal_strlit("::");
    reveal_strlit("::ffff:");
    let g = a.segments@;
    let start = longest_zeros(g, 8);
    let len = zeros_at(g, start);
    assert("::"@ =~= seq![':', ':']);
    assert("::ffff:"@ =~= seq![':', ':', 'f', 'f', 'f', 'f', ':']);
    lemma_longest(g, 8);
    lemma_longest_zeros(g, 8);
    lemma_zeros_at(g, start);
    if is_gap(g, from, to) {
        lemma_zero_run(g, from, to);
        assert(zeros_at(g, from) <= len);
        assert(all_zero(g, start, start + len));
        assert(len == to - from);
        assert(from <= start);
        if from < start {
            assert(zeros_at(g, from) < len);
        }
    }
    if forall|k: int| 0 <= k < 7 ==> !(#[trigger] g[k] == 0 && g[k + 1] == 0) {
        if len > 1 {
            assert(g[start] == 0 && g[start + 1] == 0);
        }
        assert(!(g[0] == 0 && g[1] == 0));
    }
    if is_ipv4_mapped(g) {
        assert(g.take(6) =~= seq![0u16, 0u16, 0u16, 0u16, 0u16, 0xffffu16]);
    }
    if g.take(6) == seq![0u16, 0u16, 0u16, 0u16, 0u16, 0xffffu16] {
        let t = g.take(6);
        assert(t[0] == g[0] && t[1] == g[1] && t[2] == g[2]);
        assert(t[3] == g[3] && t[4] == g[4] && t[5] == g[5]);
    }
}

/// The text of some segments shows each by one to four hexadecimal digits in lower case,
/// without a zero in front, that denote it, and has a colon between two segments.
pub proof fn law_groups_text_shape(a: Seq<u16>, b: Seq<u16>, g: u16)
    requires
        a.len() > 0,
        b.len() > 0,
    ensures
        groups_text(a + b) == groups_text(a) + ":"@ + groups_text(b),
        groups_text(seq![]).len() == 0,
        ({
            let one = groups_text(seq![g]);
            &&& is_hex_group(one) && hex_value(one) == g
            &&& g > 0 ==> one[0] != '0'
            &&& g == 0 ==> one.len() == 1
            &&& forall|i: int|
                0 <= i < one.len() ==> {
                    let c = #[trigger] one[i] as u32;
                    48 <= c <= 57 || 97 <= c <= 102
                }
        }),
    decreases b.len(),
{
    reveal_strlit(":");
    assert(":"@ =~= seq![':']);
    lemma_hex(g as nat);
    lemma_hex_lower(g as nat);
    let whole = a + b;
    assert(whole.drop_last() =~= a + b.drop_last());
    assert(whole.last() == b.last());
    let x = groups_text(a);
    let z = hex(b.last() as nat);
    if b.len() == 1 {
        assert(a + b.drop_last() =~= a);
        assert(groups_text(b) == z);
    } else {
        law_groups_text_shape(a, b.drop_last(), g);
        let y = groups_text(b.drop_last());
        assert(x + seq![':'] + y + seq![':'] + z =~= x + seq![':'] + (y + seq![':'] + z));
    }
}

proof fn lemma_hex_lower(n: nat)
    ensures
        hex(n).len() > 0,
        n > 0 ==> hex(n)[0] != '0',
        n < 16 ==> hex(n).len() == 1,
        forall|i: int|
            0 <= i < hex(n).len() ==> {
                let c = #[trigger] hex(n)[i] as u32;
                48 <= c <= 57 || 97 <= c <= 102
            },
    decreases n,
{
    if n >= 16 {
        lemma_hex_lower(n / 16);
        let h = hex(n / 16);
        assert(hex(n)[0] == h[0]);
        assert forall|i: int| 0 <= i < hex(n).len() implies ({
            let c = #[trigger] hex(n)[i] as u32;
            48 <= c <= 57 || 97 <= c <= 102
        }) by {
            if i < h.len() {
                assert(hex(n)[i] == h[i]);
            }
        }
    }
}

// ---------------------------------------------------------------------------
// What is read
// ---------------------------------------------------------------------------

/// Segments are read one by one: up to a colon stands a hexadecimal number of one to
/// four digits, and behind it the others. The last may be an IPv4 address where that is
/// allowed, and is then two segments with two octets each.
pub proof fn law_groups_read(group: Seq<char>, rest: Seq<char>, v4: bool)
    requires
        !group.contains(':'),
    ensures
        ({
            let r = groups_of(group + ":"@ + rest, v4);
            let others = groups_of(rest, v4);
            &&& r is Some <==> is_hex_group(group) && others is Some
            &&& r is Some ==> r->Some_0.len() == others->Some_0.len() + 1 && r->Some_0[0]
                == hex_value(group) as u16 && r->Some_0.skip(1) == others->Some_0
        }),
        is_hex_group(group) ==> groups_of(group, v4) == Some(seq![hex_value(group) as u16]),
        !is_hex_group(group) && !v4 ==> groups_of(group, v4) is None,
        !is_hex_group(group) && v4 ==> match ipv4_of(group) {
            Some(a) => groups_of(group, v4) matches Some(g) && g.len() == 2 && g[0] == 256
                * a.octets[0] + a.octets[1] && g[1] == 256 * a.octets[2] + a.octets[3],
            None => groups_of(group, v4) is None,
        },
{
    reveal_strlit(":");
    let s = group + ":"@ + rest;
    let n = group.len() as int;
    assert forall|k: int| 0 <= k < n implies s[k] != ':' && group[k] != ':' by {
        assert(s[k] == group[k]);
        assert(group.contains(group[k]));
    }
    lemma_first_index_unique(s, ':', n);
    lemma_first_index_unique(group, ':', n);
    assert(s.take(n) =~= group);
    assert(s.skip(n + 1) =~= rest);
    if groups_of(s, v4) is Some {
        let others = groups_of(rest, v4)->Some_0;
        assert(groups_of(s, v4)->Some_0.skip(1) =~= others);
    }
}

/// An IPv6 address without two colons in a row is eight segments. One with two colons
/// in a row is what is read before them, what is read behind them, and between the two
/// as many zeros as are missing, which must be one at least.
pub proof fn law_ipv6_read(s: Seq<char>, head: Seq<char>, tail: Seq<char>)
    requires
        forall|k: int| 0 <= k < s.len() - 1 ==> !(#[trigger] s[k] == ':' && s[k + 1] == ':'),
        forall|k: int|
            0 <= k < head.len() - 1 ==> !(#[trigger] head[k] == ':' && head[k + 1] == ':'),
        head.len() > 0 ==> head.last() != ':',
    ensures
        forall|g: Seq<u16>| #[trigger]
            ipv6_of(s) == Some(g) <==> groups_of(s, true) == Some(g) && g.len() == 8,
        ({
            let r = ipv6_of(head + "::"@ + tail);
            let before = if head.len() == 0 {
                Some(Seq::<u16>::empty())
            } else {
                groups_of(head, false)
            };
            let behind = if tail.len() == 0 {
                Some(Seq::<u16>::empty())
            } else {
                groups_of(tail, true)
            };
            match (before, behind) {
                (Some(a), Some(b)) => {
                    &&& r is Some <==> a.len() + b.len() < 8
                    &&& r is Some ==> {
                        let g = r->Some_0;
                        &&& g.len() == 8
                        &&& g.take(a.len() as int) == a
                        &&& g.skip(8 - b.len()) == b
                        &&& forall|k: int| a.len() <= k < 8 - b.len() ==> #[trigger] g[k] == 0
                    }
                },
                _ => r is None,
            }
        }),
{
    reveal_strlit("::");
    lemma_gap_index(s);
    let t = head + "::"@ + tail;
    let n = head.len() as int;
    assert(t[n] == ':' && t[n + 1] == ':');
    assert forall|k: int| 0 <= k < n implies !(#[trigger] t[k] == ':' && t[k + 1] == ':') by {
        assert(t[k] == head[k]);
        if k < n - 1 {
            assert(t[k + 1] == head[k + 1]);
        } else {
            assert(head[k] == head.last());
        }
    }
    lemma_gap_index_unique(t, n);
    assert(t.take(n) =~= head);
    assert(t.skip(n + 2) =~= tail);
    if gap_index(s) + 1 < s.len() {
        assert(s[gap_index(s)] == ':' && s[gap_index(s) + 1] == ':');
    }
    if let (Some(a), Some(b)) = (maybe_groups(head, false), maybe_groups(tail, true)) {
        if a.len() + b.len() <= 7 {
            let g = ipv6_of(t)->Some_0;
            assert(g.take(a.len() as int) =~= a);
            assert(g.skip(8 - b.len()) =~= b);
        }
    }
}

}
