//! Internet addresses as numbers: their classes, their order and their text form.
use vstd::prelude::*;
use crate::text::{decimal, push_decimal};

verus! {

/// An internet address: the 32 bits of an IPv4 address or the 128 bits of an IPv6 address, the
/// first octet in the highest bits.
#[derive(Debug, Clone, Copy, PartialEq, Eq, Structural)]
pub enum IpAddress {
    V4(u32),
    V6(u128),
}

/// An address and a port.
#[derive(Debug, Clone, Copy, PartialEq, Eq, Structural)]
pub struct Endpoint {
    pub ip: IpAddress,
    pub port: u16,
}

/// The IPv4 address that an IPv6 address maps (`::ffff:0:0/96`), or the address itself.
pub open spec fn canonical(ip: IpAddress) -> IpAddress {
    match ip {
        IpAddress::V6(v) => if v / 0x1_0000_0000 == 0xffff {
            IpAddress::V4((v % 0x1_0000_0000) as u32)
        } else {
            ip
        },
        IpAddress::V4(_) => ip,
    }
}

/// `0.0.0.0` or `::`.
pub open spec fn unspecified(ip: IpAddress) -> bool {
    match ip {
        IpAddress::V4(v) => v == 0,
        IpAddress::V6(v) => v == 0,
    }
}

/// `127.0.0.0/8` or `::1`.
pub open spec fn loopback(ip: IpAddress) -> bool {
    match ip {
        IpAddress::V4(v) => v / 0x100_0000 == 127,
        IpAddress::V6(v) => v == 1,
    }
}

/// `224.0.0.0/4` or `ff00::/8`.
pub open spec fn multicast(ip: IpAddress) -> bool {
    match ip {
        IpAddress::V4(v) => 224 <= v / 0x100_0000 <= 239,
        IpAddress::V6(v) => v / 0x1_0000_0000_0000_0000_0000_0000_0000_00 == 0xff,
    }
}

/// `255.255.255.255`.
pub open spec fn broadcast_v4(ip: IpAddress) -> bool {
    ip == IpAddress::V4(0xffff_ffff)
}

/// `fe80::/10`.
pub open spec fn link_local_v6(ip: IpAddress) -> bool {
    match ip {
        IpAddress::V4(_) => false,
        IpAddress::V6(v) => v / 0x40_0000_0000_0000_0000_0000_0000_0000 == 0x3fa,
    }
}

/// The order of addresses: IPv4 before IPv6, then by number.
pub open spec fn ip_le(a: IpAddress, b: IpAddress) -> bool {
    match (a, b) {
        (IpAddress::V4(x), IpAddress::V4(y)) => x <= y,
        (IpAddress::V4(_), IpAddress::V6(_)) => true,
        (IpAddress::V6(_), IpAddress::V4(_)) => false,
        (IpAddress::V6(x), IpAddress::V6(y)) => x <= y,
    }
}

impl IpAddress {
    /// The IPv4 address that a mapped IPv6 address stands for, or the address itself.
    pub fn to_canonical(&self) -> (r: IpAddress)
        ensures
            r == canonical(*self),
    {
        match *self {
            IpAddress::V6(v) => {
                if v / 0x1_0000_0000 == 0xffff {
                    IpAddress::V4((v % 0x1_0000_0000) as u32)
                } else {
                    *self
                }
            },
            IpAddress::V4(_) => *self,
        }
    }

    pub fn is_unspecified(&self) -> (r: bool)
        ensures
            r == unspecified(*self),
    {
        match *self {
            IpAddress::V4(v) => v == 0,
            IpAddress::V6(v) => v == 0,
        }
    }

    pub fn is_loopback(&self) -> (r: bool)
        ensures
            r == loopback(*self),
    {
        match *self {
            IpAddress::V4(v) => v / 0x100_0000 == 127,
            IpAddress::V6(v) => v == 1,
        }
    }

    pub fn is_multicast(&self) -> (r: bool)
        ensures
            r == multicast(*self),
    {
        match *self {
            IpAddress::V4(v) => {
                let first: u32 = v / 0x100_0000;
                224 <= first && first <= 239
            },
            IpAddress::V6(v) => v / 0x1_0000_0000_0000_0000_0000_0000_0000_00 == 0xff,
        }
    }

    pub fn is_broadcast_v4(&self) -> (r: bool)
        ensures
            r == broadcast_v4(*self),
    {
        match *self {
            IpAddress::V4(v) => v == 0xffff_ffff,
            IpAddress::V6(_) => false,
        }
    }

    pub fn is_link_local_v6(&self) -> (r: bool)
        ensures
            r == link_local_v6(*self),
    {
        match *self {
            IpAddress::V4(_) => false,
            IpAddress::V6(v) => v / 0x40_0000_0000_0000_0000_0000_0000_0000 == 0x3fa,
        }
    }

    /// Whether this address comes before `other` or is `other`.
    pub fn not_after(&self, other: &IpAddress) -> (r: bool)
        ensures
            r == ip_le(*self, *other),
    {
        match *self {
            IpAddress::V4(x) => match *other {
                IpAddress::V4(y) => x <= y,
                IpAddress::V6(_) => true,
            },
            IpAddress::V6(x) => match *other {
                IpAddress::V4(_) => false,
                IpAddress::V6(y) => x <= y,
            },
        }
    }
}

/// The hexadecimal digit of a number below sixteen.
pub open spec fn hex_digit(d: nat) -> char {
    if d < 10 {
        ((48 + d) as u8) as char
    } else {
        ((87 + d) as u8) as char
    }
}

/// A number in lower-case hexadecimal, without leading zeros.
pub open spec fn hex(n: nat) -> Seq<char>
    decreases n,
{
    if n < 16 {
        seq![hex_digit(n)]
    } else {
        hex(n / 16).push(hex_digit(n % 16))
    }
}

/// The hexadecimal digit of a number below sixteen.
pub fn hex_digit_char(d: u8) -> (r: char)
    requires
        d < 16,
    ensures
        r == hex_digit(d as nat),
{
    if d < 10 {
        (48 + d) as char
    } else {
        (87 + d) as char
    }
}

fn push_hex(out: &mut String, n: u16)
    ensures
        final(out)@ == old(out)@ + hex(n as nat),
    decreases n,
{
    if n >= 16 {
        push_hex(out, n / 16);
    }
    let d: u8 = (n % 16) as u8;
    out.push(hex_digit_char(d));
    assert(out@ =~= old(out)@ + hex(n as nat));
}

/// Four octets in dotted decimal.
pub open spec fn ipv4_text(v: u32) -> Seq<char> {
    decimal((v / 0x100_0000) as nat) + "."@ + decimal((v / 0x1_0000 % 0x100) as nat) + "."@
        + decimal((v / 0x100 % 0x100) as nat) + "."@ + decimal((v % 0x100) as nat)
}

/// The lowest `n` 16-bit groups of a number, the highest first.
pub open spec fn groups(v: u128, n: nat) -> Seq<u16>
    decreases n,
{
    if n == 0 {
        Seq::empty()
    } else {
        groups(v / 0x1_0000, (n - 1) as nat).push((v % 0x1_0000) as u16)
    }
}

/// Groups in hexadecimal with a colon between each two.
pub open spec fn groups_text(g: Seq<u16>) -> Seq<char>
    decreases g.len(),
{
    if g.len() == 0 {
        Seq::empty()
    } else if g.len() == 1 {
        hex(g[0] as nat)
    } else {
        groups_text(g.drop_last()) + ":"@ + hex(g.last() as nat)
    }
}

/// The number of zeros in a row from position `i` on.
pub open spec fn zero_run(g: Seq<u16>, i: int) -> nat
    decreases g.len() - i,
{
    if 0 <= i < g.len() && g[i] == 0 {
        1 + zero_run(g, i + 1)
    } else {
        0
    }
}

/// Whether the run of zeros at `i` is the longest, and the first of that length.
pub open spec fn longest_run_at(g: Seq<u16>, i: int) -> bool {
    &&& 0 <= i < g.len()
    &&& forall|j: int| 0 <= j < g.len() ==> zero_run(g, j) <= zero_run(g, i)
    &&& forall|j: int| 0 <= j < i ==> zero_run(g, j) < zero_run(g, i)
}

/// Eight groups as an IPv6 address is written: the first of the longest runs of two or more zero
/// groups is left out between two colons.
pub open spec fn ipv6_groups_text(g: Seq<u16>) -> Seq<char> {
    let i = choose|i: int| longest_run_at(g, i);
    let n = zero_run(g, i);
    if n > 1 {
        groups_text(g.take(i)) + "::"@ + groups_text(g.skip(i + n))
    } else {
        groups_text(g)
    }
}

/// An IPv6 address in text; one that maps an IPv4 address ends in dotted decimal.
pub open spec fn ipv6_text(v: u128) -> Seq<char> {
    match canonical(IpAddress::V6(v)) {
        IpAddress::V4(mapped) => "::ffff:"@ + ipv4_text(mapped),
        IpAddress::V6(_) => ipv6_groups_text(groups(v, 8)),
    }
}

/// An endpoint in text: an IPv6 address stands in square brackets.
pub open spec fn endpoint_text(e: Endpoint) -> Seq<char> {
    match e.ip {
        IpAddress::V4(v) => ipv4_text(v) + ":"@ + decimal(e.port as nat),
        IpAddress::V6(v) => "["@ + ipv6_text(v) + "]:"@ + decimal(e.port as nat),
    }
}

fn push_ipv4(out: &mut String, v: u32)
    ensures
        final(out)@ == old(out)@ + ipv4_text(v),
{
    push_decimal(out, (v / 0x100_0000) as u64);
    out.append(".");
    push_decimal(out, (v / 0x1_0000 % 0x100) as u64);
    out.append(".");
    push_decimal(out, (v / 0x100 % 0x100) as u64);
    out.append(".");
    push_decimal(out, (v % 0x100) as u64);
    assert(out@ =~= old(out)@ + ipv4_text(v));
}

fn split_groups(v: u128, n: usize) -> (r: Vec<u16>)
    ensures
        r@ == groups(v, n as nat),
        r@.len() == n,
    decreases n,
{
    if n == 0 {
        return Vec::new();
    }
    let mut r = split_groups(v / 0x1_0000, n - 1);
    r.push((v % 0x1_0000) as u16);
    r
}

fn push_groups(out: &mut String, g: &Vec<u16>, from: usize, to: usize)
    requires
        from <= to <= g@.len(),
    ensures
        final(out)@ == old(out)@ + groups_text(g@.subrange(from as int, to as int)),
{
    let mut i: usize = from;
    assert(out@ =~= old(out)@ + groups_text(g@.subrange(from as int, i as int)));
    while i < to
        invariant
            from <= i <= to <= g@.len(),
            out@ == old(out)@ + groups_text(g@.subrange(from as int, i as int)),
        decreases to - i,
    {
        let ghost before = g@.subrange(from as int, i as int);
        let ghost after = g@.subrange(from as int, i + 1);
        if i > from {
            out.append(":");
        }
        push_hex(out, g[i]);
        proof {
            assert(after.drop_last() =~= before);
            assert(after.last() == g@[i as int]);
            assert(out@ =~= old(out)@ + groups_text(after));
        }
        i = i + 1;
    }
}

fn count_zeros(g: &Vec<u16>, i: usize) -> (r: usize)
    requires
        i <= g@.len(),
    ensures
        r == zero_run(g@, i as int),
        i + r <= g@.len(),
    decreases g@.len() - i,
{
    if i < g.len() && g[i] == 0 {
        1 + count_zeros(g, i + 1)
    } else {
        0
    }
}

fn push_ipv6_groups(out: &mut String, g: &Vec<u16>)
    requires
        g@.len() > 0,
    ensures
        final(out)@ == old(out)@ + ipv6_groups_text(g@),
{
    let mut best: usize = 0;
    let mut best_len: usize = count_zeros(g, 0);
    let mut i: usize = 1;
    while i < g.len()
        invariant
            1 <= i <= g@.len(),
            best < i,
            best_len == zero_run(g@, best as int),
            best + best_len <= g@.len(),
            forall|j: int| 0 <= j < i ==> zero_run(g@, j) <= best_len,
            forall|j: int| 0 <= j < best ==> zero_run(g@, j) < best_len,
        decreases g@.len() - i,
    {
        let n: usize = count_zeros(g, i);
        if n > best_len {
            best = i;
            best_len = n;
        }
        i = i + 1;
    }
    proof {
        assert(longest_run_at(g@, best as int));
        let c = choose|i: int| longest_run_at(g@, i);
        assert(c == best) by {
            if c < best {
                assert(zero_run(g@, c) < zero_run(g@, best as int));
            }
            if best < c {
                assert(zero_run(g@, best as int) < zero_run(g@, c));
            }
        }
        assert(g@.subrange(0, best as int) =~= g@.take(best as int));
        assert(g@.subrange(best + best_len, g@.len() as int) =~= g@.skip(best + best_len));
        assert(g@.subrange(0, g@.len() as int) =~= g@);
    }
    if best_len > 1 {
        push_groups(out, g, 0, best);
        out.append("::");
        push_groups(out, g, best + best_len, g.len());
    } else {
        push_groups(out, g, 0, g.len());
    }
    assert(out@ =~= old(out)@ + ipv6_groups_text(g@));
}

fn push_ipv6(out: &mut String, v: u128)
    ensures
        final(out)@ == old(out)@ + ipv6_text(v),
{
    match IpAddress::V6(v).to_canonical() {
        IpAddress::V4(mapped) => {
            out.append("::ffff:");
            push_ipv4(out, mapped);
        },
        IpAddress::V6(_) => {
            let g = split_groups(v, 8);
            push_ipv6_groups(out, &g);
        },
    }
    assert(out@ =~= old(out)@ + ipv6_text(v));
}

impl Endpoint {
    /// The endpoint in text, as `address:port`.
    pub fn to_text(&self) -> (r: String)
        ensures
            r@ == endpoint_text(*self),
    {
        let mut out = String::new();
        match self.ip {
            IpAddress::V4(v) => {
                push_ipv4(&mut out, v);
                out.append(":");
            },
            IpAddress::V6(v) => {
                out.append("[");
                push_ipv6(&mut out, v);
                out.append("]:");
            },
        }
        push_decimal(&mut out, self.port as u64);
        assert(out@ =~= endpoint_text(*self));
        out
    }
}

/// The classes of addresses, by their numbers.
pub proof fn law_classes_by_number(v4: u32, v6: u128)
    ensures
        unspecified(IpAddress::V4(v4)) <==> v4 == 0,
        unspecified(IpAddress::V6(v6)) <==> v6 == 0,
        loopback(IpAddress::V4(v4)) <==> 0x7f00_0000 <= v4 <= 0x7fff_ffff,
        loopback(IpAddress::V6(v6)) <==> v6 == 1,
        multicast(IpAddress::V4(v4)) <==> 0xe000_0000 <= v4 <= 0xefff_ffff,
        multicast(IpAddress::V6(v6)) <==> v6 >= 0xff00_0000_0000_0000_0000_0000_0000_0000,
        broadcast_v4(IpAddress::V4(v4)) <==> v4 == u32::MAX,
        !broadcast_v4(IpAddress::V6(v6)),
        !link_local_v6(IpAddress::V4(v4)),
        link_local_v6(IpAddress::V6(v6)) <==> 0xfe80_0000_0000_0000_0000_0000_0000_0000 <= v6
            < 0xfec0_0000_0000_0000_0000_0000_0000_0000,
{
}

/// An IPv6 address stands for an IPv4 address exactly if its number is that of the IPv4 address
/// beyond `::ffff:0:0`; every other address stands for itself.
pub proof fn law_mapped_addresses(v4: u32, v6: u128)
    ensures
        canonical(IpAddress::V4(v4)) == IpAddress::V4(v4),
        v6 == 0xffff_0000_0000 + v4 ==> canonical(IpAddress::V6(v6)) == IpAddress::V4(v4),
        v6 < 0xffff_0000_0000 || v6 > 0xffff_ffff_ffff ==> canonical(IpAddress::V6(v6))
            == IpAddress::V6(v6),
{
}

/// The order of addresses is total, has IPv4 before IPv6, and follows the numbers within each.
pub proof fn law_order_of_addresses(a: u32, b: u32, x: u128, y: u128)
    ensures
        ip_le(IpAddress::V4(a), IpAddress::V6(x)),
        !ip_le(IpAddress::V6(x), IpAddress::V4(a)),
        ip_le(IpAddress::V4(a), IpAddress::V4(b)) <==> a <= b,
        ip_le(IpAddress::V6(x), IpAddress::V6(y)) <==> x <= y,
{
}

/// An IPv4 address is written as its four octets, the highest first, with a point between each two.
pub proof fn law_ipv4_written(a: u8, b: u8, c: u8, d: u8, v: u32)
    requires
        v == a * 0x100_0000 + b * 0x1_0000 + c * 0x100 + d,
    ensures
        ipv4_text(v) == decimal(a as nat) + seq!['.'] + decimal(b as nat) + seq!['.'] + decimal(
            c as nat,
        ) + seq!['.'] + decimal(d as nat),
{
    assert(v / 0x100_0000 == a && v / 0x1_0000 % 0x100 == b && v / 0x100 % 0x100 == c && v % 0x100
        == d) by (bit_vector)
        requires
            v == a * 0x100_0000 + b * 0x1_0000 + c * 0x100 + d,
    ;
    assert("."@ == seq!['.']) by {
        reveal_strlit(".");
        assert("."@ =~= seq!['.']);
    }
}

/// A number in hexadecimal: a number below sixteen is one digit, and another digit after a number
/// makes it sixteen times as much and adds the digit.
pub proof fn law_hexadecimal(n: nat, d: nat)
    requires
        d < 16,
    ensures
        hex(d).len() == 1,
        d < 10 ==> hex(d)[0] as u32 == 48 + d,
        d >= 10 ==> hex(d)[0] as u32 == 97 + (d - 10),
        n > 0 ==> hex(n * 16 + d) == hex(n) + hex(d),
{
    if n > 0 {
        assert((n * 16 + d) / 16 == n);
        assert((n * 16 + d) % 16 == d);
        assert(hex(n) + hex(d) =~= hex(n).push(hex_digit(d)));
    }
}

/// The groups of an IPv6 address are its eight pairs of octets, the highest first.
#[verifier::rlimit(50)]
pub proof fn law_groups_of_address(v: u128, g: u16, n: nat)
    requires
        v < 0x1_0000_0000_0000_0000_0000_0000_0000,
    ensures
        groups(v, n).len() == n,
        groups((v * 0x1_0000 + g) as u128, n + 1) == groups(v, n).push(g),
        groups(0, n) == Seq::new(n, |i: int| 0u16),
    decreases n,
{
    let w = (v * 0x1_0000 + g) as u128;
    assert(w / 0x1_0000 == v);
    assert(w % 0x1_0000 == g);
    if n > 0 {
        law_groups_of_address(v / 0x1_0000, g, (n - 1) as nat);
        assert(groups(0, n) =~= Seq::new(n, |i: int| 0u16));
    } else {
        assert(groups(0, n) =~= Seq::new(n, |i: int| 0u16));
    }
}

/// Groups are written one after the other with a colon between each two.
pub proof fn law_groups_written(g: Seq<u16>, x: u16)
    ensures
        groups_text(seq![x]) == hex(x as nat),
        g.len() > 0 ==> groups_text(g.push(x)) == groups_text(g) + seq![':'] + hex(x as nat),
{
    reveal_strlit(":");
    assert(":"@ =~= seq![':']);
    assert(g.push(x).drop_last() =~= g);
}

proof fn lemma_zero_run(g: Seq<u16>, i: int)
    requires
        0 <= i <= g.len(),
    ensures
        i + zero_run(g, i) <= g.len(),
        forall|k: int| i <= k < i + zero_run(g, i) ==> g[k] == 0,
        i + zero_run(g, i) < g.len() ==> g[i + zero_run(g, i)] != 0,
    decreases g.len() - i,
{
    if i < g.len() && g[i] == 0 {
        lemma_zero_run(g, i + 1);
    }
}

/// Where groups of an IPv6 address are zero, the first of the longest runs of at least two is
/// written as two colons, and the groups on both sides are written out.
pub proof fn law_zeros_left_out(g: Seq<u16>, i: int, n: int)
    requires
        0 <= i,
        2 <= n,
        i + n <= g.len(),
        forall|k: int| i <= k < i + n ==> g[k] == 0,
        forall|j: int, m: int|
            #![trigger g.subrange(j, j + m)]
            0 <= j && 0 <= m && j + m <= g.len() && (forall|k: int| j <= k < j + m ==> g[k] == 0)
                ==> m <= n && (j < i ==> m < n),
    ensures
        ipv6_groups_text(g) == groups_text(g.take(i)) + seq![':', ':'] + groups_text(
            g.skip(i + n),
        ),
{
    reveal_strlit("::");
    assert("::"@ =~= seq![':', ':']);
    assert forall|j: int| 0 <= j < g.len() implies zero_run(g, j) <= n && (j < i ==> zero_run(g, j)
        < n) by {
        lemma_zero_run(g, j);
        let part = g.subrange(j, j + zero_run(g, j) as int);
        assert(part.len() == zero_run(g, j));
    }
    lemma_zero_run(g, i);
    assert(zero_run(g, i) == n);
    assert(longest_run_at(g, i));
    let k = choose|k: int| longest_run_at(g, k);
    assert(longest_run_at(g, k));
    if k < i {
        assert(zero_run(g, k) < zero_run(g, i));
    }
    if i < k {
        assert(zero_run(g, i) < zero_run(g, k));
    }
}

/// Where no two groups in a row are zero, all groups of an IPv6 address are written out.
pub proof fn law_all_groups_written(g: Seq<u16>)
    requires
        g.len() > 0,
        forall|i: int| 0 <= i && i + 1 < g.len() ==> (#[trigger] g[i]) != 0 || g[i + 1] != 0,
    ensures
        ipv6_groups_text(g) == groups_text(g),
{
    let k = choose|k: int| longest_run_at(g, k);
    if zero_run(g, k) > 1 {
        assert(0 <= k < g.len() && g[k] == 0);
        lemma_zero_run(g, k);
        assert(g[k + 1] == 0);
    }
}

/// An endpoint is written as its address and its port with a colon between them; an IPv6 address
/// stands in square brackets, and one that maps an IPv4 address ends in that address.
pub proof fn law_endpoints_written(v4: u32, v6: u128, port: u16)
    ensures
        endpoint_text(Endpoint { ip: IpAddress::V4(v4), port }) == ipv4_text(v4) + seq![':']
            + decimal(port as nat),
        endpoint_text(Endpoint { ip: IpAddress::V6(v6), port }) == seq!['['] + ipv6_text(v6)
            + seq![']', ':'] + decimal(port as nat),
        v6 == 0xffff_0000_0000 + v4 ==> ipv6_text(v6) == seq![':', ':', 'f', 'f', 'f', 'f', ':']
            + ipv4_text(v4),
        v6 < 0xffff_0000_0000 || v6 > 0xffff_ffff_ffff ==> ipv6_text(v6) == ipv6_groups_text(
            groups(v6, 8),
        ),
{
    reveal_strlit(":");
    reveal_strlit("[");
    reveal_strlit("]:");
    reveal_strlit("::ffff:");
    assert(":"@ =~= seq![':']);
    assert("["@ =~= seq!['[']);
    assert("]:"@ =~= seq![']', ':']);
    assert("::ffff:"@ =~= seq![':', ':', 'f', 'f', 'f', 'f', ':']);
    law_mapped_addresses(v4, v6);
}

} // verus!
