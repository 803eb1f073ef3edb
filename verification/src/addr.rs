//! IPv4 addresses.

use vstd::prelude::*;

use crate::number::{decimal, decimal_text, law_decimal_reads_back, number_value, IntFault};
use crate::text::{law_pieces_follow_the_cuts, pieces, Cut};

verus! {

/// An IPv4 address, by its four octets.
#[derive(Clone, Copy, Debug, PartialEq, Eq, Structural)]
pub struct Ipv4Addr {
    pub a: u8,
    pub b: u8,
    pub c: u8,
    pub d: u8,
}

/// The octets of `ip`, in order.
pub open spec fn octets_of(ip: Ipv4Addr) -> Seq<u8> {
    seq![ip.a, ip.b, ip.c, ip.d]
}

/// `ip` in dotted decimal.
pub open spec fn dotted(ip: Ipv4Addr) -> Seq<char> {
    decimal(ip.a as nat) + "."@ + decimal(ip.b as nat) + "."@ + decimal(ip.c as nat) + "."@
        + decimal(ip.d as nat)
}

impl Ipv4Addr {
    /// The address `a.b.c.d`.
    pub fn new(a: u8, b: u8, c: u8, d: u8) -> (r: Self)
        ensures
            r == (Ipv4Addr { a, b, c, d }),
    {
        Ipv4Addr { a, b, c, d }
    }

    /// The limited broadcast address, `255.255.255.255`.
    pub fn broadcast() -> (r: Self)
        ensures
            octets_of(r) == seq![255u8, 255, 255, 255],
    {
        Ipv4Addr { a: 255, b: 255, c: 255, d: 255 }
    }

    /// The four octets.
    pub fn octets(&self) -> (r: [u8; 4])
        ensures
            r@ == octets_of(*self),
    {
        [self.a, self.b, self.c, self.d]
    }

    /// The address in dotted decimal.
    pub fn to_text(&self) -> (r: String)
        ensures
            r@ == dotted(*self),
    {
        let mut r: String = decimal_text(self.a as u64);
        r.append(".");
        r.append(decimal_text(self.b as u64).as_str());
        r.append(".");
        r.append(decimal_text(self.c as u64).as_str());
        r.append(".");
        r.append(decimal_text(self.d as u64).as_str());
        r
    }
}

/// An address in dotted decimal is its four octets, in order, between dots.
pub proof fn law_dotted_reads_back(ip: Ipv4Addr)
    ensures
        ({
            let parts = pieces(dotted(ip), Cut::At('.'));
            &&& parts.len() == 4
            &&& number_value(parts[0], 10, 255) == Ok::<nat, IntFault>(ip.a as nat)
            &&& number_value(parts[1], 10, 255) == Ok::<nat, IntFault>(ip.b as nat)
            &&& number_value(parts[2], 10, 255) == Ok::<nat, IntFault>(ip.c as nat)
            &&& number_value(parts[3], 10, 255) == Ok::<nat, IntFault>(ip.d as nat)
        }),
{
    reveal_strlit(".");
    let cut = Cut::At('.');
    let a = decimal(ip.a as nat);
    let b = decimal(ip.b as nat);
    let c = decimal(ip.c as nat);
    let d = decimal(ip.d as nat);
    lemma_no_dot(ip.a as nat);
    lemma_no_dot(ip.b as nat);
    lemma_no_dot(ip.c as nat);
    lemma_no_dot(ip.d as nat);
    let ab = a + seq!['.'] + b;
    let abc = ab + seq!['.'] + c;
    law_pieces_follow_the_cuts(a, '.', a, cut);
    law_pieces_follow_the_cuts(a, '.', b, cut);
    law_pieces_follow_the_cuts(ab, '.', c, cut);
    law_pieces_follow_the_cuts(abc, '.', d, cut);
    assert(dotted(ip) =~= abc + seq!['.'] + d);
    law_decimal_reads_back(ip.a as nat, 255);
    law_decimal_reads_back(ip.b as nat, 255);
    law_decimal_reads_back(ip.c as nat, 255);
    law_decimal_reads_back(ip.d as nat, 255);
}

proof fn lemma_no_dot(n: nat)
    ensures
        forall|i: int| 0 <= i < decimal(n).len() ==> #[trigger] decimal(n)[i] != '.',
    decreases n,
{
    if n >= 10 {
        lemma_no_dot(n / 10);
        let front = decimal(n / 10);
        assert forall|i: int| 0 <= i < decimal(n).len() implies #[trigger] decimal(n)[i] != '.' by {
            if i < front.len() {
                assert(decimal(n)[i] == front[i]);
            }
        }
    }
}

} // verus!
