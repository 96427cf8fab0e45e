//! IP addresses: what they are made of, when two are the same, and how they are written.

use crate::octets::same_bytes;
use crate::text::{self, push_decimal, push_hexadecimal};
use vstd::prelude::*;

verus! {

/// An IP address, IPv4 or IPv6, by its octets in network order.
#[derive(Clone, Copy, Debug, PartialEq, Eq)]
pub enum IpAddr {
    /// The four octets of an IPv4 address
    V4([u8; 4]),
    /// The sixteen octets of an IPv6 address
    V6([u8; 16]),
}

/// What an [`IpAddr`] is: its octets. An IPv4 address has four, an IPv6 address sixteen.
impl View for IpAddr {
    type V = Seq<u8>;

    open spec fn view(&self) -> Seq<u8> {
        match self {
            IpAddr::V4(octets) => octets@,
            IpAddr::V6(octets) => octets@,
        }
    }
}

/// An IPv4 address in dotted decimal.
pub open spec fn ipv4_text(octets: Seq<u8>) -> Seq<char>
    recommends
        octets.len() == 4,
{
    text::decimal(octets[0] as nat).push('.') + text::decimal(octets[1] as nat).push(
        '.',
    ) + text::decimal(octets[2] as nat).push('.') + text::decimal(octets[3] as nat)
}

/// The eight groups of sixteen bits of an IPv6 address.
pub open spec fn groups(octets: Seq<u8>) -> Seq<u16> {
    Seq::new(8, |i: int| (octets[2 * i] * 256 + octets[2 * i + 1]) as u16)
}

/// Groups in hexadecimal, with a colon between each two.
pub open spec fn groups_text(groups: Seq<u16>) -> Seq<char>
    decreases groups.len(),
{
    if groups.len() == 0 {
        seq![]
    } else if groups.len() == 1 {
        text::hexadecimal(groups[0] as nat)
    } else {
        groups_text(groups.drop_last()).push(':') + text::hexadecimal(groups.last() as nat)
    }
}

/// The `len` groups from `start` on are at least two, and all zero.
pub open spec fn zero_run(groups: Seq<u16>, start: int, len: int) -> bool {
    &&& 0 <= start
    &&& 2 <= len
    &&& start + len <= groups.len()
    &&& forall|i: int| start <= i < start + len ==> groups[i] == 0
}

/// The run of zero groups that the text abbreviates: the longest, and of these the first.
pub open spec fn abbreviated_run(groups: Seq<u16>, start: int, len: int) -> bool {
    &&& zero_run(groups, start, len)
    &&& forall|s: int, l: int| #[trigger]
        zero_run(groups, s, l) ==> l < len || (l == len && start <= s)
}

/// Groups with their abbreviated run, if there is one, written as two colons.
pub open spec fn abbreviated_text(groups: Seq<u16>) -> Seq<char> {
    if exists|start: int, len: int| abbreviated_run(groups, start, len) {
        let (start, len) = choose|start: int, len: int| abbreviated_run(groups, start, len);
        groups_text(groups.take(start)) + "::"@ + groups_text(groups.skip(start + len))
    } else {
        groups_text(groups)
    }
}

/// An IPv4 address that is mapped into IPv6: ten zero octets, two of all ones, then the address.
pub open spec fn is_ipv4_mapped(octets: Seq<u8>) -> bool {
    &&& forall|i: int| 0 <= i < 10 ==> octets[i] == 0
    &&& octets[10] == 0xff
    &&& octets[11] == 0xff
}

/// An IPv6 address in the canonical form of RFC 5952.
pub open spec fn ipv6_text(octets: Seq<u8>) -> Seq<char>
    recommends
        octets.len() == 16,
{
    if is_ipv4_mapped(octets) {
        "::ffff:"@ + ipv4_text(octets.skip(12))
    } else {
        abbreviated_text(groups(octets))
    }
}

/// The text of an address: by its octets, which are four or sixteen.
pub open spec fn ip_text(octets: Seq<u8>) -> Seq<char> {
    if octets.len() == 4 {
        ipv4_text(octets)
    } else {
        ipv6_text(octets)
    }
}

/// No two runs of zero groups can both be the one that is abbreviated.
proof fn lemma_abbreviated_run_unique(groups: Seq<u16>, s: int, l: int, t: int, m: int)
    requires
        abbreviated_run(groups, s, l),
        abbreviated_run(groups, t, m),
    ensures
        s == t,
        l == m,
{
}

fn push_ipv4(out: &mut String, a: u8, b: u8, c: u8, d: u8)
    ensures
        final(out)@ == old(out)@ + ipv4_text(seq![a, b, c, d]),
{
    push_decimal(out, a as u64);
    out.push('.');
    push_decimal(out, b as u64);
    out.push('.');
    push_decimal(out, c as u64);
    out.push('.');
    push_decimal(out, d as u64);
    assert(out@ =~= old(out)@ + ipv4_text(seq![a, b, c, d]));
}

/// Write the groups from `from` up to `to` at the end of `out`.
fn push_groups(out: &mut String, groups: &[u16; 8], from: usize, to: usize)
    requires
        from <= to <= 8,
    ensures
        final(out)@ == old(out)@ + groups_text(groups@.subrange(from as int, to as int)),
{
    let mut i: usize = from;
    while i < to
        invariant
            from <= i <= to <= 8,
            out@ == old(out)@ + groups_text(groups@.subrange(from as int, i as int)),
        decreases to - i,
    {
        if i > from {
            out.push(':');
        }
        push_hexadecimal(out, groups[i]);
        proof {
            let next = groups@.subrange(from as int, i + 1);
            assert(next.drop_last() =~= groups@.subrange(from as int, i as int));
        }
        assert(out@ =~= old(out)@ + groups_text(groups@.subrange(from as int, i + 1)));
        i = i + 1;
    }
}

/// The run of zero groups to abbreviate, as its start and its length; a length below two means
/// that there is none.
fn find_run(groups: &[u16; 8]) -> (run: (usize, usize))
    ensures
        run.0 + run.1 <= 8,
        run.1 >= 2 ==> abbreviated_run(groups@, run.0 as int, run.1 as int),
        run.1 < 2 ==> forall|s: int, l: int| !abbreviated_run(groups@, s, l),
{
    let mut best_start: usize = 0;
    let mut best_len: usize = 0;
    let mut start: usize = 0;
    let mut len: usize = 0;
    let mut i: usize = 0;
    while i < 8
        invariant
            0 <= i <= 8,
            groups@.len() == 8,
            start + len == i || len == 0,
            forall|k: int| i - len <= k < i ==> groups@[k] == 0,
            len < i ==> groups@[i - len - 1] != 0,
            best_start + best_len <= i,
            len <= best_len,
            forall|k: int| best_start <= k < best_start + best_len ==> groups@[k] == 0,
            forall|s: int, l: int|
                #![trigger zero_run(groups@, s, l)]
                zero_run(groups@, s, l) && s + l <= i ==> l < best_len || (l == best_len
                    && best_start <= s),
        decreases 8 - i,
    {
        let ghost old_len = best_len;
        if groups[i] == 0 {
            if len == 0 {
                start = i;
            }
            len = len + 1;
            if len > best_len {
                best_start = start;
                best_len = len;
            }
        } else {
            len = 0;
        }
        proof {
            assert forall|s: int, l: int|
                #![trigger zero_run(groups@, s, l)]
                zero_run(groups@, s, l) && s + l <= i + 1 implies l < best_len || (l == best_len
                && best_start <= s) by {
                if s + l == i + 1 {
                    assert(groups@[s + l - 1] == 0);
                    if s < i + 1 - len {
                        assert(groups@[i + 1 - len - 1] != 0);
                    }
                    assert(l <= len);
                }
            }
        }
        i = i + 1;
    }
    proof {
        if best_len >= 2 {
            assert(zero_run(groups@, best_start as int, best_len as int));
            assert forall|s: int, l: int| #[trigger] zero_run(groups@, s, l) implies l < best_len || (
            l == best_len && best_start <= s) by {}
        } else {
            assert forall|s: int, l: int| !abbreviated_run(groups@, s, l) by {
                if zero_run(groups@, s, l) {
                    assert(l < best_len || l == best_len);
                }
            }
        }
    }
    (best_start, best_len)
}

/// Write the groups at the end of `out`, with the run of zeros abbreviated.
fn push_abbreviated(out: &mut String, groups: &[u16; 8])
    ensures
        final(out)@ == old(out)@ + abbreviated_text(groups@),
{
    let (start, len) = find_run(groups);
    if len >= 2 {
        push_groups(out, groups, 0, start);
        out.append("::");
        push_groups(out, groups, start + len, 8);
        proof {
            let (s, l) = choose|s: int, l: int| abbreviated_run(groups@, s, l);
            lemma_abbreviated_run_unique(groups@, s, l, start as int, len as int);
            assert(groups@.subrange(0, start as int) =~= groups@.take(start as int));
            assert(groups@.subrange(start + len, 8) =~= groups@.skip(start + len));
        }
        assert(out@ =~= old(out)@ + abbreviated_text(groups@));
    } else {
        push_groups(out, groups, 0, 8);
        assert(groups@.subrange(0, 8) =~= groups@);
    }
}

fn group(high: u8, low: u8) -> (g: u16)
    ensures
        g == high * 256 + low,
{
    high as u16 * 256 + low as u16
}

impl IpAddr {
    /// The address with these octets in network order, if they are four (IPv4) or sixteen (IPv6)
    pub fn from_octets(octets: &[u8]) -> (addr: Option<IpAddr>)
        ensures
            match addr {
                Some(addr) => addr@ == octets@,
                None => octets@.len() != 4 && octets@.len() != 16,
            },
    {
        let o = octets;
        if o.len() == 4 {
            let v4 = [o[0], o[1], o[2], o[3]];
            assert(v4@ =~= octets@);
            Some(IpAddr::V4(v4))
        } else if o.len() == 16 {
            let v6 = [
                o[0],
                o[1],
                o[2],
                o[3],
                o[4],
                o[5],
                o[6],
                o[7],
                o[8],
                o[9],
                o[10],
                o[11],
                o[12],
                o[13],
                o[14],
                o[15],
            ];
            assert(v6@ =~= octets@);
            Some(IpAddr::V6(v6))
        } else {
            None
        }
    }

    /// The octets of the address in network order
    pub fn octets(&self) -> (octets: &[u8])
        ensures
            octets@ == self@,
    {
        match self {
            IpAddr::V4(octets) => octets.as_slice(),
            IpAddr::V6(octets) => octets.as_slice(),
        }
    }

    /// Whether this is the address `other`
    ///
    /// An IPv4 address is never an IPv6 address, not even the one it is mapped to.
    pub fn same(&self, other: &IpAddr) -> (same: bool)
        ensures
            same == (self@ == other@),
    {
        same_bytes(self.octets(), other.octets())
    }

    /// The address as text: dotted decimal, or the canonical IPv6 form of RFC 5952
    pub fn to_string(&self) -> (text: String)
        ensures
            text@ == ip_text(self@),
    {
        let mut text = String::new();
        match self {
            IpAddr::V4(o) => {
                push_ipv4(&mut text, o[0], o[1], o[2], o[3]);
                assert(seq![o@[0], o@[1], o@[2], o@[3]] =~= o@);
                assert(text@ =~= ip_text(self@));
            },
            IpAddr::V6(o) => {
                let mapped = o[0] == 0 && o[1] == 0 && o[2] == 0 && o[3] == 0 && o[4] == 0 && o[5]
                    == 0 && o[6] == 0 && o[7] == 0 && o[8] == 0 && o[9] == 0 && o[10] == 0xff
                    && o[11] == 0xff;
                assert(mapped == is_ipv4_mapped(o@));
                if mapped {
                    text.append("::ffff:");
                    push_ipv4(&mut text, o[12], o[13], o[14], o[15]);
                    assert(seq![o@[12], o@[13], o@[14], o@[15]] =~= o@.skip(12));
                } else {
                    let parts = [
                        group(o[0], o[1]),
                        group(o[2], o[3]),
                        group(o[4], o[5]),
                        group(o[6], o[7]),
                        group(o[8], o[9]),
                        group(o[10], o[11]),
                        group(o[12], o[13]),
                        group(o[14], o[15]),
                    ];
                    assert(parts@ =~= groups(o@));
                    push_abbreviated(&mut text, &parts);
                }
                assert(text@ =~= ip_text(self@));
            },
        }
        text
    }
}

/// Four octets are an IPv4 address and sixteen an IPv6 address, with these very octets; no other
/// number of octets is an address. The octets are given back as they are, and two addresses are the
/// same exactly if they are of one version and have the same octets.
pub proof fn law_addresses_are_their_octets(
    octets: &[u8],
    addr: Option<IpAddr>,
    this: &IpAddr,
    back: &[u8],
    that: &IpAddr,
    same: bool,
)
    requires
        call_ensures(IpAddr::from_octets, (octets,), addr),
        call_ensures(IpAddr::octets, (this,), back),
        call_ensures(IpAddr::same, (this, that), same),
    ensures
        match addr {
            Some(IpAddr::V4(found)) => octets@.len() == 4 && found@ == octets@,
            Some(IpAddr::V6(found)) => octets@.len() == 16 && found@ == octets@,
            None => octets@.len() != 4 && octets@.len() != 16,
        },
        match *this {
            IpAddr::V4(held) => back@ == held@,
            IpAddr::V6(held) => back@ == held@,
        },
        same <==> match (*this, *that) {
            (IpAddr::V4(a), IpAddr::V4(b)) => a@ == b@,
            (IpAddr::V6(a), IpAddr::V6(b)) => a@ == b@,
            _ => false,
        },
{
    if let (IpAddr::V4(a), IpAddr::V6(b)) = (*this, *that) {
        assert(a@.len() == 4 && b@.len() == 16);
    }
    if let (IpAddr::V6(a), IpAddr::V4(b)) = (*this, *that) {
        assert(a@.len() == 16 && b@.len() == 4);
    }
    if let Some(IpAddr::V4(found)) = addr {
        assert(found@.len() == 4);
    }
    if let Some(IpAddr::V6(found)) = addr {
        assert(found@.len() == 16);
    }
}

/// An IPv4 address is written as its four octets in decimal, with dots between them.
pub proof fn law_ipv4_text_is_dotted_decimal(octets: [u8; 4], text: String)
    requires
        call_ensures(IpAddr::to_string, (&IpAddr::V4(octets),), text),
    ensures
        text@ == text::joined(
            seq![
                text::decimal(octets@[0] as nat),
                text::decimal(octets@[1] as nat),
                text::decimal(octets@[2] as nat),
                text::decimal(octets@[3] as nat),
            ],
            seq!['.'],
        ),
{
    lemma_dotted(octets@);
}

proof fn lemma_dotted(octets: Seq<u8>)
    requires
        octets.len() == 4,
    ensures
        ipv4_text(octets) == text::joined(
            seq![
                text::decimal(octets[0] as nat),
                text::decimal(octets[1] as nat),
                text::decimal(octets[2] as nat),
                text::decimal(octets[3] as nat),
            ],
            seq!['.'],
        ),
{
    let a = text::decimal(octets[0] as nat);
    let b = text::decimal(octets[1] as nat);
    let c = text::decimal(octets[2] as nat);
    let d = text::decimal(octets[3] as nat);
    let texts = seq![a, b, c, d];
    assert(texts.drop_last() =~= seq![a, b, c]);
    assert(seq![a, b, c].drop_last() =~= seq![a, b]);
    assert(seq![a, b].drop_last() =~= seq![a]);
    reveal_with_fuel(text::joined, 5);
    assert(text::joined(texts, seq!['.']) =~= a + seq!['.'] + b + seq!['.'] + c + seq!['.'] + d);
    assert(ipv4_text(octets) =~= a + seq!['.'] + b + seq!['.'] + c + seq!['.'] + d);
}

/// Two or more groups in a row, of two octets each, are zero.
pub open spec fn zero_groups(octets: Seq<u8>, start: int, len: int) -> bool {
    &&& 0 <= start
    &&& 2 <= len
    &&& start + len <= 8
    &&& forall|i: int| 2 * start <= i < 2 * (start + len) ==> octets[i] == 0
}

/// The groups from one place up to another in hexadecimal, with colons between them.
pub open spec fn hexadecimal_groups(octets: Seq<u8>, from: int, to: int) -> Seq<char> {
    text::joined(
        Seq::new(
            (to - from) as nat,
            |i: int|
                text::hexadecimal(
                    (octets[2 * (from + i)] * 256 + octets[2 * (from + i) + 1]) as nat,
                ),
        ),
        seq![':'],
    )
}

proof fn lemma_groups_text(octets: Seq<u8>, from: int, to: int)
    requires
        octets.len() == 16,
        0 <= from <= to <= 8,
    ensures
        groups_text(groups(octets).subrange(from, to)) == hexadecimal_groups(octets, from, to),
    decreases to - from,
{
    let part = groups(octets).subrange(from, to);
    let texts = Seq::new(
        (to - from) as nat,
        |i: int|
            text::hexadecimal((octets[2 * (from + i)] * 256 + octets[2 * (from + i) + 1]) as nat),
    );
    if from < to {
        lemma_groups_text(octets, from, to - 1);
        assert(part.drop_last() =~= groups(octets).subrange(from, to - 1));
        assert(texts.drop_last() =~= Seq::new(
            (to - 1 - from) as nat,
            |i: int|
                text::hexadecimal(
                    (octets[2 * (from + i)] * 256 + octets[2 * (from + i) + 1]) as nat,
                ),
        ));
        assert(part.last() == groups(octets)[to - 1]);
        assert(texts.last() == text::hexadecimal(part.last() as nat));
        assert(text::joined(texts, seq![':']) =~= groups_text(part));
    } else {
        assert(texts =~= Seq::empty());
    }
}

proof fn lemma_zero_groups(octets: Seq<u8>, start: int, len: int)
    requires
        octets.len() == 16,
    ensures
        zero_groups(octets, start, len) <==> zero_run(groups(octets), start, len),
{
    let g = groups(octets);
    if zero_groups(octets, start, len) {
        assert forall|i: int| start <= i < start + len implies g[i] == 0 by {
            assert(octets[2 * i] == 0 && octets[2 * i + 1] == 0);
        }
    }
    if zero_run(g, start, len) {
        assert forall|i: int| 2 * start <= i < 2 * (start + len) implies octets[i] == 0 by {
            assert(g[i / 2] == 0);
            assert(g[i / 2] == (octets[2 * (i / 2)] * 256 + octets[2 * (i / 2) + 1]) as u16);
        }
    }
}

/// An IPv6 address is written as its eight groups in hexadecimal, with colons between them. Of its
/// runs of two or more zero groups the longest, and of those the first, is written as two colons. One
/// that maps an IPv4 address ends in the text of that instead.
pub proof fn law_ipv6_text_is_canonical(octets: [u8; 16], text: String)
    requires
        call_ensures(IpAddr::to_string, (&IpAddr::V6(octets),), text),
    ensures
        if (forall|i: int| 0 <= i < 10 ==> octets@[i] == 0) && octets@[10] == 255 && octets@[11]
            == 255 {
            text@ == seq![':', ':', 'f', 'f', 'f', 'f', ':'] + text::joined(
                seq![
                    text::decimal(octets@[12] as nat),
                    text::decimal(octets@[13] as nat),
                    text::decimal(octets@[14] as nat),
                    text::decimal(octets@[15] as nat),
                ],
                seq!['.'],
            )
        } else {
            ||| {
                &&& text@ == hexadecimal_groups(octets@, 0, 8)
                &&& forall|start: int, len: int| !#[trigger] zero_groups(octets@, start, len)
            }
            ||| exists|start: int, len: int|
                {
                    &&& #[trigger] zero_groups(octets@, start, len)
                    &&& forall|s: int, l: int| #[trigger]
                        zero_groups(octets@, s, l) ==> l < len || (l == len && start <= s)
                    &&& text@ == hexadecimal_groups(octets@, 0, start) + seq![':', ':']
                        + hexadecimal_groups(octets@, start + len, 8)
                }
        },
{
    let o = octets@;
    let g = groups(o);
    reveal_strlit("::ffff:");
    reveal_strlit("::");
    if is_ipv4_mapped(o) {
        lemma_dotted(o.skip(12));
        assert("::ffff:"@ =~= seq![':', ':', 'f', 'f', 'f', 'f', ':']);
    } else {
        assert forall|s: int, l: int| #[trigger] zero_groups(o, s, l) <==> zero_run(g, s, l) by {
            lemma_zero_groups(o, s, l);
        }
        if exists|start: int, len: int| abbreviated_run(g, start, len) {
            let (start, len) = choose|start: int, len: int| abbreviated_run(g, start, len);
            lemma_groups_text(o, 0, start);
            lemma_groups_text(o, start + len, 8);
            assert(g.take(start) =~= g.subrange(0, start));
            assert(g.skip(start + len) =~= g.subrange(start + len, 8));
            assert("::"@ =~= seq![':', ':']);
            assert(zero_groups(o, start, len));
        } else {
            lemma_groups_text(o, 0, 8);
            assert(g.subrange(0, 8) =~= g);
            assert forall|start: int, len: int| !#[trigger] zero_groups(o, start, len) by {
                if zero_groups(o, start, len) {
                    lemma_zero_groups(o, start, len);
                    lemma_some_run_is_abbreviated(g, start, len);
                }
            }
        }
    }
}

/// Where there is a run of zero groups at all, one is abbreviated.
proof fn lemma_some_run_is_abbreviated(groups: Seq<u16>, start: int, len: int)
    requires
        zero_run(groups, start, len),
    ensures
        exists|s: int, l: int| abbreviated_run(groups, s, l),
    decreases groups.len() - len, start,
{
    if !abbreviated_run(groups, start, len) {
        let (s, l) = choose|s: int, l: int| #[trigger]
            zero_run(groups, s, l) && !(l < len || (l == len && start <= s));
        lemma_some_run_is_abbreviated(groups, s, l);
    }
}

} // verus!
