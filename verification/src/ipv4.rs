//! IPv4 addresses: their text form, their classes, and the subnet a gateway and a mask span.

use vstd::prelude::*;

use crate::text;
use crate::text::{chars_of, push_decimal};

verus! {

/// An IPv4 address, the first octet in the most significant byte.
#[derive(Clone, Copy, Debug, PartialEq, Eq, Structural)]
pub struct Ipv4Addr {
    pub bits: u32,
}

/// The address `a.b.c.d` as a 32-bit number.
pub open spec fn join_octets(a: int, b: int, c: int, d: int) -> int {
    a * 0x100_0000 + b * 0x1_0000 + c * 0x100 + d
}

impl Ipv4Addr {
    /// The `i`-th octet, counted from 0 at the most significant end.
    pub open spec fn octet(self, i: int) -> int {
        if i == 0 {
            self.bits as int / 0x100_0000
        } else if i == 1 {
            self.bits as int / 0x1_0000 % 0x100
        } else if i == 2 {
            self.bits as int / 0x100 % 0x100
        } else {
            self.bits as int % 0x100
        }
    }

    /// The dotted form: the four octets in decimal, separated by dots.
    pub open spec fn dotted(self) -> Seq<char> {
        text::decimal(self.octet(0) as nat) + seq!['.'] + text::decimal(
            self.octet(1) as nat,
        ) + seq!['.'] + text::decimal(self.octet(2) as nat) + seq!['.']
            + text::decimal(self.octet(3) as nat)
    }

    /// `0.0.0.0`.
    pub open spec fn unspecified(self) -> bool {
        self.bits == 0
    }

    /// `255.255.255.255`.
    pub open spec fn limited_broadcast(self) -> bool {
        self.bits == 0xffff_ffff
    }

    /// `224.0.0.0/4`.
    pub open spec fn multicast(self) -> bool {
        224 <= self.octet(0) <= 239
    }

    /// `10.0.0.0/8`, `172.16.0.0/12` and `192.168.0.0/16`.
    pub open spec fn private_use(self) -> bool {
        ||| self.octet(0) == 10
        ||| self.octet(0) == 172 && 16 <= self.octet(1) <= 31
        ||| self.octet(0) == 192 && self.octet(1) == 168
    }

    /// Builds an address from its four octets.
    pub fn new(a: u8, b: u8, c: u8, d: u8) -> (addr: Self)
        ensures
            addr.octet(0) == a,
            addr.octet(1) == b,
            addr.octet(2) == c,
            addr.octet(3) == d,
            addr.bits == join_octets(a as int, b as int, c as int, d as int),
    {
        proof {
            lemma_join_octets(a as int, b as int, c as int, d as int);
        }
        Ipv4Addr {
            bits: a as u32 * 0x100_0000 + b as u32 * 0x1_0000 + c as u32 * 0x100 + d as u32,
        }
    }

    /// Whether this is the unspecified address `0.0.0.0`.
    pub fn is_unspecified(&self) -> (r: bool)
        ensures
            r == self.unspecified(),
    {
        self.bits == 0
    }

    /// Whether this is the limited broadcast address `255.255.255.255`.
    pub fn is_broadcast(&self) -> (r: bool)
        ensures
            r == self.limited_broadcast(),
    {
        self.bits == 0xffff_ffff
    }

    /// Whether this is a multicast address.
    pub fn is_multicast(&self) -> (r: bool)
        ensures
            r == self.multicast(),
    {
        let first: u32 = self.bits / 0x100_0000;
        224 <= first && first <= 239
    }

    /// Whether this is an address of the three private ranges.
    pub fn is_private(&self) -> (r: bool)
        ensures
            r == self.private_use(),
    {
        let first: u32 = self.bits / 0x100_0000;
        let second: u32 = self.bits / 0x1_0000 % 0x100;
        first == 10 || (first == 172 && 16 <= second && second <= 31) || (first == 192 && second
            == 168)
    }

    /// The dotted form as a string.
    pub fn to_text(&self) -> (s: String)
        ensures
            s@ == self.dotted(),
    {
        let mut s = String::new();
        push_decimal(&mut s, (self.bits / 0x100_0000) as u64);
        s.push('.');
        push_decimal(&mut s, (self.bits / 0x1_0000 % 0x100) as u64);
        s.push('.');
        push_decimal(&mut s, (self.bits / 0x100 % 0x100) as u64);
        s.push('.');
        push_decimal(&mut s, (self.bits % 0x100) as u64);
        assert(s@ =~= self.dotted());
        s
    }

    /// The address that `text` is the dotted form of, if it is one.
    pub open spec fn parsed(text: Seq<char>) -> Option<Self> {
        if exists|addr: Self| text == #[trigger] addr.dotted() {
            Some(choose|addr: Self| text == #[trigger] addr.dotted())
        } else {
            None
        }
    }

    /// Where the first, second and third dot of the dotted form stand.
    spec fn dot(self, i: int) -> int
        decreases i,
    {
        if i <= 0 {
            text::decimal(self.octet(0) as nat).len() as int
        } else {
            self.dot(i - 1) + 1 + text::decimal(self.octet(i) as nat).len()
        }
    }

    /// Reads a dotted address. The text must be exactly the dotted form of an address: four
    /// decimal octets without leading zeros and nothing around them.
    pub fn parse(text: &str) -> (r: Option<Self>)
        ensures
            match r {
                Some(addr) => text@ == addr.dotted(),
                None => forall|addr: Self| text@ != #[trigger] addr.dotted(),
            },
            r == Self::parsed(text@),
    {
        let cs = chars_of(text);
        let ghost s = cs@;
        match parse_quad(&cs) {
            Some(q) => {
                let addr = Ipv4Addr::new(q.octets.0, q.octets.1, q.octets.2, q.octets.3);
                proof {
                    let (p1, p2, p3) = (q.dots.0 as int, q.dots.1 as int, q.dots.2 as int);
                    assert(s =~= s.subrange(0, p1) + seq!['.'] + s.subrange(p1 + 1, p2) + seq!['.']
                        + s.subrange(p2 + 1, p3) + seq!['.'] + s.subrange(p3 + 1, s.len() as int));
                    law_dotted_read_back(addr);
                }
                Some(addr)
            },
            None => {
                proof {
                    assert forall|addr: Self| s != #[trigger] addr.dotted() by {
                        lemma_dotted_layout(addr);
                    }
                }
                None
            },
        }
    }
}

/// Reading the dotted form of an address gives the address back.
pub proof fn law_dotted_read_back(addr: Ipv4Addr)
    ensures
        Ipv4Addr::parsed(addr.dotted()) == Some(addr),
{
    let text = addr.dotted();
    let other = choose|other: Ipv4Addr| text == #[trigger] other.dotted();
    assert(text == other.dotted());
    lemma_dotted_layout(addr);
    lemma_dotted_layout(other);
    lemma_run_determined(text, 0, addr.dot(0), addr.octet(0) as nat);
    lemma_run_determined(text, addr.dot(0) + 1, addr.dot(1), addr.octet(1) as nat);
    lemma_run_determined(text, addr.dot(1) + 1, addr.dot(2), addr.octet(2) as nat);
    lemma_run_determined(text, addr.dot(2) + 1, text.len() as int, addr.octet(3) as nat);
    lemma_octets_determine(addr);
    lemma_octets_determine(other);
}

/// An address is what its octets join to.
proof fn lemma_octets_determine(addr: Ipv4Addr)
    ensures
        addr.bits == join_octets(addr.octet(0), addr.octet(1), addr.octet(2), addr.octet(3)),
{
}

/// `s[from..to]` is the whole run of digits at `from`, and the numeral of the octet `n`.
spec fn octet_run(s: Seq<char>, from: int, to: int, n: nat) -> bool {
    &&& 0 <= from < to <= s.len()
    &&& n <= 255
    &&& s.subrange(from, to) == text::decimal(n)
    &&& to == s.len() || !text::is_digit(s[to])
}

/// `s` is `a.b.c.d`, with the dots at `p1`, `p2` and `p3`.
spec fn quad_at(
    s: Seq<char>,
    a: nat,
    b: nat,
    c: nat,
    d: nat,
    p1: int,
    p2: int,
    p3: int,
) -> bool {
    &&& octet_run(s, 0, p1, a)
    &&& p1 < s.len() && s[p1] == '.'
    &&& octet_run(s, p1 + 1, p2, b)
    &&& p2 < s.len() && s[p2] == '.'
    &&& octet_run(s, p2 + 1, p3, c)
    &&& p3 < s.len() && s[p3] == '.'
    &&& octet_run(s, p3 + 1, s.len() as int, d)
}

/// A run of digits has one end and one value.
proof fn lemma_run_determined(s: Seq<char>, from: int, to: int, n: nat)
    requires
        octet_run(s, from, to, n),
    ensures
        forall|e: int, m: nat| #[trigger] octet_run(s, from, e, m) ==> e == to && m == n,
{
    assert forall|e: int, m: nat| #[trigger] octet_run(s, from, e, m) implies e == to && m
        == n by {
        let known = text::decimal(n);
        let other = text::decimal(m);
        text::lemma_decimal_small(n);
        text::lemma_decimal_small(m);
        if to < e {
            assert(s[to] == s.subrange(from, e)[to - from]);
        }
        if e < to {
            assert(s[e] == s.subrange(from, to)[e - from]);
        }
        assert(known == other);
        assert(known[0] == other[0]);
        if known.len() > 1 {
            assert(known[1] == other[1]);
        }
        if known.len() > 2 {
            assert(known[2] == other[2]);
        }
    }
}

/// The octets of a joined address are the ones it was joined from.
proof fn lemma_join_octets(a: int, b: int, c: int, d: int)
    requires
        0 <= a < 256,
        0 <= b < 256,
        0 <= c < 256,
        0 <= d < 256,
    ensures
        0 <= join_octets(a, b, c, d) <= 0xffff_ffff,
        join_octets(a, b, c, d) / 0x100_0000 == a,
        join_octets(a, b, c, d) / 0x1_0000 % 0x100 == b,
        join_octets(a, b, c, d) / 0x100 % 0x100 == c,
        join_octets(a, b, c, d) % 0x100 == d,
{
    let x = join_octets(a, b, c, d);
    let low = b * 0x1_0000 + c * 0x100 + d;
    vstd::arithmetic::div_mod::lemma_fundamental_div_mod_converse(x, 0x100_0000, a, low);
    vstd::arithmetic::div_mod::lemma_fundamental_div_mod_converse(x, 0x1_0000, a * 0x100 + b, c * 0x100 + d);
    vstd::arithmetic::div_mod::lemma_fundamental_div_mod_converse(a * 0x100 + b, 0x100, a, b);
    vstd::arithmetic::div_mod::lemma_fundamental_div_mod_converse(x, 0x100, a * 0x1_0000 + b * 0x100 + c, d);
    vstd::arithmetic::div_mod::lemma_fundamental_div_mod_converse(
        a * 0x1_0000 + b * 0x100 + c,
        0x100,
        a * 0x100 + b,
        c,
    );
}

/// The dotted form of an address is the quad of its octets.
proof fn lemma_dotted_layout(addr: Ipv4Addr)
    ensures
        quad_at(
            addr.dotted(),
            addr.octet(0) as nat,
            addr.octet(1) as nat,
            addr.octet(2) as nat,
            addr.octet(3) as nat,
            addr.dot(0),
            addr.dot(1),
            addr.dot(2),
        ),
{
    reveal_with_fuel(Ipv4Addr::dot, 3);
    text::lemma_decimal_small(addr.octet(0) as nat);
    text::lemma_decimal_small(addr.octet(1) as nat);
    text::lemma_decimal_small(addr.octet(2) as nat);
    text::lemma_decimal_small(addr.octet(3) as nat);
    let s = addr.dotted();
    assert(s.subrange(0, addr.dot(0)) =~= text::decimal(addr.octet(0) as nat));
    assert(s.subrange(addr.dot(0) + 1, addr.dot(1)) =~= text::decimal(addr.octet(1) as nat));
    assert(s.subrange(addr.dot(1) + 1, addr.dot(2)) =~= text::decimal(addr.octet(2) as nat));
    assert(s.subrange(addr.dot(2) + 1, s.len() as int) =~= text::decimal(addr.octet(3) as nat));
}

/// Reads the octet at `from`: the whole run of digits there, if it is the numeral of one.
fn parse_octet(cs: &Vec<char>, from: usize) -> (r: Option<(u8, usize)>)
    requires
        from <= cs@.len(),
    ensures
        match r {
            Some((n, to)) => octet_run(cs@, from as int, to as int, n as nat),
            None => forall|to: int, n: nat| !octet_run(cs@, from as int, to, n),
        },
{
    let ghost s = cs@;
    let mut to: usize = from;
    let mut value: u32 = 0;
    while to < cs.len() && to - from < 4 && is_digit_char(cs[to])
        invariant
            from <= to <= cs@.len(),
            to - from <= 4,
            forall|i: int| from <= i < to ==> text::is_digit(#[trigger] cs@[i]),
            to == from ==> value == 0,
            to == from + 1 ==> value == cs@[from as int] as int - 48,
            to == from + 2 ==> value == 10 * (cs@[from as int] as int - 48) + (cs@[from + 1] as int
                - 48),
            to == from + 3 ==> value == 100 * (cs@[from as int] as int - 48) + 10 * (cs@[from
                + 1] as int - 48) + (cs@[from + 2] as int - 48),
            to < from + 4 ==> value <= 999,
        decreases cs@.len() - to,
    {
        value = (value * 10) + (cs[to] as u32 - 48);
        to += 1;
    }
    let len: usize = to - from;
    if len == 0 || len == 4 || (len > 1 && cs[from] == '0') || value > 255 {
        proof {
            assert forall|e: int, n: nat| !octet_run(s, from as int, e, n) by {
                if octet_run(s, from as int, e, n) {
                    text::lemma_decimal_small(n);
                    let d = text::decimal(n);
                    assert(d[0] == s[from as int]);
                    if e < to {
                        assert(text::is_digit(s[e]));
                    }
                    if d.len() > 1 {
                        assert(d[1] == s[from + 1]);
                    }
                    if d.len() > 2 {
                        assert(d[2] == s[from + 2]);
                    }
                    if e > to {
                        assert(text::is_digit(s[to as int]));
                    }
                }
            }
        }
        return None;
    }
    proof {
        text::lemma_decimal_small(value as nat);
        assert(s.subrange(from as int, to as int) =~= text::decimal(value as nat));
    }
    Some((value as u8, to))
}

/// Four octets and the positions of the dots between them.
struct Quad {
    octets: (u8, u8, u8, u8),
    dots: (usize, usize, usize),
}

/// Reads four octets separated by dots that make up the whole of `cs`.
fn parse_quad(cs: &Vec<char>) -> (r: Option<Quad>)
    ensures
        match r {
            Some(q) => quad_at(
                cs@,
                q.octets.0 as nat,
                q.octets.1 as nat,
                q.octets.2 as nat,
                q.octets.3 as nat,
                q.dots.0 as int,
                q.dots.1 as int,
                q.dots.2 as int,
            ),
            None => forall|a: nat, b: nat, c: nat, d: nat, p1: int, p2: int, p3: int|
                !#[trigger] quad_at(cs@, a, b, c, d, p1, p2, p3),
        },
{
    let (a, p1) = match parse_octet(cs, 0) {
        Some(found) => found,
        None => return None,
    };
    proof {
        lemma_run_determined(cs@, 0, p1 as int, a as nat);
    }
    if p1 >= cs.len() || cs[p1] != '.' {
        return None;
    }
    let (b, p2) = match parse_octet(cs, p1 + 1) {
        Some(found) => found,
        None => return None,
    };
    proof {
        lemma_run_determined(cs@, p1 + 1, p2 as int, b as nat);
    }
    if p2 >= cs.len() || cs[p2] != '.' {
        return None;
    }
    let (c, p3) = match parse_octet(cs, p2 + 1) {
        Some(found) => found,
        None => return None,
    };
    proof {
        lemma_run_determined(cs@, p2 + 1, p3 as int, c as nat);
    }
    if p3 >= cs.len() || cs[p3] != '.' {
        return None;
    }
    let (d, end) = match parse_octet(cs, p3 + 1) {
        Some(found) => found,
        None => return None,
    };
    proof {
        lemma_run_determined(cs@, p3 + 1, end as int, d as nat);
    }
    if end != cs.len() {
        return None;
    }
    Some(Quad { octets: (a, b, c, d), dots: (p1, p2, p3) })
}

/// Whether `c` is a decimal digit.
fn is_digit_char(c: char) -> (r: bool)
    ensures
        r == text::is_digit(c),
{
    48 <= c as u32 && c as u32 <= 57
}

/// The dotted form of `a.b.c.d` is the four numerals with dots between them, in this order.
pub proof fn law_dotted_shows_the_octets(addr: Ipv4Addr, a: nat, b: nat, c: nat, d: nat)
    requires
        a < 256,
        b < 256,
        c < 256,
        d < 256,
        addr.bits == a * 0x100_0000 + b * 0x1_0000 + c * 0x100 + d,
    ensures
        addr.dotted() == text::decimal(a) + seq!['.'] + text::decimal(b) + seq!['.']
            + text::decimal(c) + seq!['.'] + text::decimal(d),
{
    lemma_join_octets(a as int, b as int, c as int, d as int);
}

/// A text is read as an address if and only if it is the dotted form of that address.
pub proof fn law_only_dotted_forms_are_read(text: Seq<char>, addr: Ipv4Addr)
    ensures
        Ipv4Addr::parsed(text) == Some(addr) <==> text == addr.dotted(),
        Ipv4Addr::parsed(text) is None <==> forall|other: Ipv4Addr| text != #[trigger] other.dotted(),
{
    if text == addr.dotted() {
        law_dotted_read_back(addr);
    }
    if exists|other: Ipv4Addr| text == #[trigger] other.dotted() {
        let other = choose|other: Ipv4Addr| text == #[trigger] other.dotted();
        assert(text == other.dotted());
    }
}

/// The classes of addresses are ranges of numbers: multicast is `224.0.0.0` to
/// `239.255.255.255`, and the private ranges are `10.0.0.0` to `10.255.255.255`, `172.16.0.0` to
/// `172.31.255.255` and `192.168.0.0` to `192.168.255.255`.
pub proof fn law_classes_are_ranges(addr: Ipv4Addr)
    ensures
        addr.unspecified() <==> addr.bits == 0,
        addr.limited_broadcast() <==> addr.bits == u32::MAX,
        addr.multicast() <==> 0xe000_0000 <= addr.bits <= 0xefff_ffff,
        addr.private_use() <==> (0x0a00_0000 <= addr.bits <= 0x0aff_ffff || 0xac10_0000 <= addr.bits
            <= 0xac1f_ffff || 0xc0a8_0000 <= addr.bits <= 0xc0a8_ffff),
{
}

} // verus!
