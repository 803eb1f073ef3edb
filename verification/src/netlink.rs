//! Route-netlink messages: the requests that configure a link, and the kernel's answers.

use vstd::prelude::*;

use crate::addr::{octets_of, Ipv4Addr};
use crate::bytes::{
    le16, le16_at, le32, le32_at, le_i32_at, lemma_le16_stands, lemma_le32_stands, push_bytes,
    push_le16, push_le32, push_zeros, read_le16, read_le32,
};
use crate::number::{decimal, decimal_text};
use crate::text::shown;

verus! {

// Message types.
pub const RTM_NEWLINK: u16 = 16;

pub const RTM_NEWADDR: u16 = 20;

pub const RTM_NEWROUTE: u16 = 24;

pub const RTM_DELROUTE: u16 = 25;

pub const NLMSG_ERROR: u16 = 2;

// Message flags.
pub const NLM_F_REQUEST: u16 = 0x1;

pub const NLM_F_ACK: u16 = 0x4;

pub const NLM_F_REPLACE: u16 = 0x100;

pub const NLM_F_CREATE: u16 = 0x400;

// Address families and link flags.
pub const AF_UNSPEC: u8 = 0;

pub const AF_INET: u8 = 2;

pub const IFF_UP: u32 = 0x1;

// Scopes, route types, protocols and tables.
pub const RT_SCOPE_UNIVERSE: u8 = 0;

pub const RT_SCOPE_LINK: u8 = 253;

pub const RTN_UNICAST: u8 = 1;

pub const RTPROT_BOOT: u8 = 3;

pub const RT_TABLE_MAIN: u8 = 254;

// Attribute types.
pub const RTA_DST: u16 = 1;

pub const RTA_OIF: u16 = 4;

pub const RTA_GATEWAY: u16 = 5;

pub const IFA_ADDRESS: u16 = 1;

pub const IFA_LOCAL: u16 = 2;

/// `n` rounded up to a multiple of four.
pub open spec fn aligned4(n: nat) -> nat {
    (n + 3) / 4 * 4
}

/// `n` rounded up to a multiple of four.
pub fn align4(n: usize) -> (r: usize)
    requires
        n + 3 <= usize::MAX,
    ensures
        r == aligned4(n as nat),
{
    (n + 3) / 4 * 4
}

/// A message: a 16-byte header (length, type, flags, sequence number, port 0), then the body.
/// The length field has 32 bits and counts the header too.
pub open spec fn nlmsg(msg_type: u16, flags: u16, seq: u32, body: Seq<u8>) -> Seq<u8> {
    le32(((16 + body.len()) % 0x1_0000_0000) as u32) + le16(msg_type) + le16(flags) + le32(seq)
        + le32(0) + body
}

/// Builds a full message around `body`.
pub fn build_nlmsg(msg_type: u16, flags: u16, seq: u32, body: &[u8]) -> (buf: Vec<u8>)
    requires
        16 + body@.len() <= usize::MAX,
    ensures
        buf@ == nlmsg(msg_type, flags, seq, body@),
{
    let total: usize = 16 + body.len();
    let mut buf: Vec<u8> = Vec::with_capacity(total);
    push_le32(&mut buf, (total as u64 % 0x1_0000_0000) as u32);
    push_le16(&mut buf, msg_type);
    push_le16(&mut buf, flags);
    push_le32(&mut buf, seq);
    push_le32(&mut buf, 0);
    push_bytes(&mut buf, body);
    assert(buf@ =~= nlmsg(msg_type, flags, seq, body@));
    buf
}

/// An attribute: a 16-bit length that counts its 4-byte header, the type, the payload, and
/// zeros up to the next multiple of four.
pub open spec fn rtattr(attr_type: u16, payload: Seq<u8>) -> Seq<u8> {
    let len = 4 + payload.len();
    le16((len % 0x1_0000) as u16) + le16(attr_type) + payload + Seq::new(
        (aligned4(len) - len) as nat,
        |i: int| 0u8,
    )
}

/// Appends an attribute.
pub fn push_rtattr(buf: &mut Vec<u8>, attr_type: u16, payload: &[u8])
    requires
        payload@.len() + 7 <= usize::MAX,
    ensures
        final(buf)@ == old(buf)@ + rtattr(attr_type, payload@),
{
    let len: usize = 4 + payload.len();
    push_le16(buf, (len % 0x1_0000) as u16);
    push_le16(buf, attr_type);
    push_bytes(buf, payload);
    let pad: usize = align4(len) - len;
    push_zeros(buf, pad);
    assert(buf@ =~= old(buf)@ + rtattr(attr_type, payload@));
}

/// A link message: family, padding, type, index, flags, change mask.
pub open spec fn ifinfomsg(index: u32, flags: u32, change: u32) -> Seq<u8> {
    seq![AF_UNSPEC, 0u8] + le16(0) + le32(index) + le32(flags) + le32(change)
}

/// Builds the body of a link message.
pub fn build_ifinfomsg(index: u32, flags: u32, change: u32) -> (b: Vec<u8>)
    ensures
        b@ == ifinfomsg(index, flags, change),
        b@.len() == 16,
{
    let mut b: Vec<u8> = Vec::with_capacity(16);
    b.push(AF_UNSPEC);
    b.push(0);
    push_le16(&mut b, 0);
    push_le32(&mut b, index);
    push_le32(&mut b, flags);
    push_le32(&mut b, change);
    assert(b@ =~= ifinfomsg(index, flags, change));
    b
}

/// The fixed part of a route message: family, destination length, source length, type of
/// service, table, protocol, scope, type, flags.
pub open spec fn rtmsg_header(
    family: u8,
    dst_len: u8,
    scope: u8,
    rt_type: u8,
    protocol: u8,
    table: u8,
) -> Seq<u8> {
    seq![family, dst_len, 0u8, 0u8, table, protocol, scope, rt_type] + le32(0)
}

/// Builds the fixed part of a route message.
pub fn build_rtmsg_header(
    family: u8,
    dst_len: u8,
    scope: u8,
    rt_type: u8,
    protocol: u8,
    table: u8,
) -> (b: Vec<u8>)
    ensures
        b@ == rtmsg_header(family, dst_len, scope, rt_type, protocol, table),
        b@.len() == 12,
{
    let mut b: Vec<u8> = Vec::with_capacity(12);
    b.push(family);
    b.push(dst_len);
    b.push(0);
    b.push(0);
    b.push(table);
    b.push(protocol);
    b.push(scope);
    b.push(rt_type);
    push_le32(&mut b, 0);
    assert(b@ =~= rtmsg_header(family, dst_len, scope, rt_type, protocol, table));
    b
}

/// The route of the limited broadcast address out of link `index`, in link scope.
pub open spec fn host_route(index: u32) -> Seq<u8> {
    rtmsg_header(AF_INET, 32, RT_SCOPE_LINK, RTN_UNICAST, RTPROT_BOOT, RT_TABLE_MAIN) + rtattr(
        RTA_DST,
        seq![255u8, 255, 255, 255],
    ) + rtattr(RTA_OIF, le32(index))
}

/// Builds the body for the temporary `255.255.255.255/32` route out of link `index`.
pub fn build_host_route(index: u32) -> (b: Vec<u8>)
    ensures
        b@ == host_route(index),
        b@.len() == 28,
{
    let mut b: Vec<u8> = build_rtmsg_header(
        AF_INET,
        32,
        RT_SCOPE_LINK,
        RTN_UNICAST,
        RTPROT_BOOT,
        RT_TABLE_MAIN,
    );
    push_rtattr(&mut b, RTA_DST, Ipv4Addr::broadcast().octets().as_slice());
    let mut oif: Vec<u8> = Vec::new();
    push_le32(&mut oif, index);
    assert(oif@ =~= le32(index));
    push_rtattr(&mut b, RTA_OIF, oif.as_slice());
    b
}

/// The default route through `gateway` out of link `index`, in universe scope.
pub open spec fn default_route(index: u32, gateway: Ipv4Addr) -> Seq<u8> {
    rtmsg_header(AF_INET, 0, RT_SCOPE_UNIVERSE, RTN_UNICAST, RTPROT_BOOT, RT_TABLE_MAIN) + rtattr(
        RTA_GATEWAY,
        octets_of(gateway),
    ) + rtattr(RTA_OIF, le32(index))
}

/// Builds the body for the default route through `gateway` out of link `index`.
pub fn build_default_route(index: u32, gateway: Ipv4Addr) -> (b: Vec<u8>)
    ensures
        b@ == default_route(index, gateway),
        b@.len() == 28,
{
    let mut b: Vec<u8> = build_rtmsg_header(
        AF_INET,
        0,
        RT_SCOPE_UNIVERSE,
        RTN_UNICAST,
        RTPROT_BOOT,
        RT_TABLE_MAIN,
    );
    push_rtattr(&mut b, RTA_GATEWAY, gateway.octets().as_slice());
    let mut oif: Vec<u8> = Vec::new();
    push_le32(&mut oif, index);
    assert(oif@ =~= le32(index));
    push_rtattr(&mut b, RTA_OIF, oif.as_slice());
    b
}

/// An address message: family, prefix length, flags, scope, index; then the address, once as
/// the local one and once as the interface's.
pub open spec fn ifaddrmsg(index: u32, addr: Ipv4Addr, prefix_len: u8) -> Seq<u8> {
    seq![AF_INET, prefix_len, 0u8, RT_SCOPE_UNIVERSE] + le32(index) + rtattr(
        IFA_LOCAL,
        octets_of(addr),
    ) + rtattr(IFA_ADDRESS, octets_of(addr))
}

/// Builds the body of an address message.
pub fn build_ifaddrmsg(index: u32, addr: Ipv4Addr, prefix_len: u8) -> (b: Vec<u8>)
    ensures
        b@ == ifaddrmsg(index, addr, prefix_len),
        b@.len() == 24,
{
    let mut b: Vec<u8> = Vec::with_capacity(8);
    b.push(AF_INET);
    b.push(prefix_len);
    b.push(0);
    b.push(RT_SCOPE_UNIVERSE);
    push_le32(&mut b, index);
    assert(b@ =~= seq![AF_INET, prefix_len, 0u8, RT_SCOPE_UNIVERSE] + le32(index));
    push_rtattr(&mut b, IFA_LOCAL, addr.octets().as_slice());
    push_rtattr(&mut b, IFA_ADDRESS, addr.octets().as_slice());
    b
}

/// `n` in decimal, with a minus sign before a negative number.
pub open spec fn signed_decimal(n: int) -> Seq<char> {
    if n < 0 {
        "-"@ + decimal((-n) as nat)
    } else {
        decimal(n as nat)
    }
}

/// `n` in decimal, with a minus sign before a negative number.
fn signed_text(n: i64) -> (r: String)
    requires
        n > i64::MIN,
    ensures
        r@ == signed_decimal(n as int),
{
    if n < 0 {
        let mut r: String = "-".to_owned();
        r.append(decimal_text((-n) as u64).as_str());
        r
    } else {
        decimal_text(n as u64)
    }
}

/// What an answer says about a request of type `req_type`: it must be an error message, and
/// its code must be 0.
pub open spec fn ack_outcome(buf: Seq<u8>, req_type: u16) -> Result<(), Seq<char>> {
    let req = decimal(req_type as nat);
    if buf.len() < 16 {
        Err("netlink ack (req type "@ + req + ") too short: "@ + decimal(buf.len()) + " bytes"@)
    } else if le16_at(buf, 4) != NLMSG_ERROR {
        Err(
            "netlink ack (req type "@ + req + "): unexpected reply type "@ + decimal(
                le16_at(buf, 4) as nat,
            ),
        )
    } else if buf.len() < 20 {
        Err("netlink NLMSG_ERROR payload too short"@)
    } else if le_i32_at(buf, 16) == 0 {
        Ok(())
    } else {
        Err(
            "netlink request (type "@ + req + ") failed: errno "@ + signed_decimal(
                -le_i32_at(buf, 16),
            ),
        )
    }
}

/// Reads the answer to a request of type `req_type`.
pub fn parse_nlmsg_ack(buf: &[u8], req_type: u16) -> (r: Result<(), String>)
    ensures
        shown(r) == ack_outcome(buf@, req_type),
{
    if buf.len() < 16 {
        let mut e: String = "netlink ack (req type ".to_owned();
        e.append(decimal_text(req_type as u64).as_str());
        e.append(") too short: ");
        e.append(decimal_text(buf.len() as u64).as_str());
        e.append(" bytes");
        return Err(e);
    }
    let msg_type: u16 = read_le16(buf, 4);
    if msg_type != NLMSG_ERROR {
        let mut e: String = "netlink ack (req type ".to_owned();
        e.append(decimal_text(req_type as u64).as_str());
        e.append("): unexpected reply type ");
        e.append(decimal_text(msg_type as u64).as_str());
        return Err(e);
    }
    if buf.len() < 20 {
        return Err("netlink NLMSG_ERROR payload too short".to_owned());
    }
    let raw: u32 = read_le32(buf, 16);
    let errno: i64 = if raw < 0x8000_0000 {
        raw as i64
    } else {
        raw as i64 - 0x1_0000_0000
    };
    if errno == 0 {
        Ok(())
    } else {
        let mut e: String = "netlink request (type ".to_owned();
        e.append(decimal_text(req_type as u64).as_str());
        e.append(") failed: errno ");
        e.append(signed_text(-errno).as_str());
        Err(e)
    }
}

/// One request, ready to be sent, with the type that its answer is read against.
#[derive(Debug, PartialEq, Eq)]
pub struct NetlinkRequest {
    pub msg_type: u16,
    pub bytes: Vec<u8>,
}

/// A request as its type and its bytes.
impl View for NetlinkRequest {
    type V = (u16, Seq<u8>);

    open spec fn view(&self) -> (u16, Seq<u8>) {
        (self.msg_type, self.bytes@)
    }
}

/// The sequence number after `seq`; the counter wraps.
pub open spec fn seq_after(seq: u32) -> u32 {
    if seq == u32::MAX {
        0
    } else {
        (seq + 1) as u32
    }
}

/// The request of type `msg_type` with sequence number `seq`; every request asks for an answer.
pub open spec fn request_of(msg_type: u16, flags: u16, seq: u32, body: Seq<u8>) -> (u16, Seq<u8>) {
    (msg_type, nlmsg(msg_type, flags | NLM_F_REQUEST | NLM_F_ACK, seq, body))
}

/// The request side of a route socket: it numbers the requests.
#[derive(Clone, Copy, Debug, PartialEq, Eq, Structural)]
pub struct NetlinkSock {
    pub seq: u32,
}

impl NetlinkSock {
    /// A socket on which nothing was requested yet.
    pub fn open() -> (r: Self)
        ensures
            r.seq == 1,
    {
        NetlinkSock { seq: 1 }
    }

    /// The number for the next request.
    pub fn next_seq(&mut self) -> (r: u32)
        ensures
            r == old(self).seq,
            final(self).seq == seq_after(old(self).seq),
    {
        let s: u32 = self.seq;
        self.seq = s.wrapping_add(1);
        s
    }

    /// A numbered request.
    pub fn request(&mut self, msg_type: u16, flags: u16, body: &[u8]) -> (r: NetlinkRequest)
        requires
            16 + body@.len() <= usize::MAX,
        ensures
            r@ == request_of(msg_type, flags, old(self).seq, body@),
            final(self).seq == seq_after(old(self).seq),
    {
        let seq: u32 = self.next_seq();
        let bytes: Vec<u8> = build_nlmsg(msg_type, flags | NLM_F_REQUEST | NLM_F_ACK, seq, body);
        NetlinkRequest { msg_type, bytes }
    }

    /// Takes link `index` up.
    pub fn link_set_up(&mut self, index: u32) -> (r: NetlinkRequest)
        ensures
            r@ == request_of(RTM_NEWLINK, 0, old(self).seq, ifinfomsg(index, IFF_UP, 0x1)),
            final(self).seq == seq_after(old(self).seq),
    {
        let body: Vec<u8> = build_ifinfomsg(index, IFF_UP, 0x1);
        self.request(RTM_NEWLINK, 0, body.as_slice())
    }

    /// Takes link `index` down.
    pub fn link_set_down(&mut self, index: u32) -> (r: NetlinkRequest)
        ensures
            r@ == request_of(RTM_NEWLINK, 0, old(self).seq, ifinfomsg(index, 0, 0x1)),
            final(self).seq == seq_after(old(self).seq),
    {
        let body: Vec<u8> = build_ifinfomsg(index, 0, 0x1);
        self.request(RTM_NEWLINK, 0, body.as_slice())
    }

    /// Routes the limited broadcast address out of link `index`, so that a broadcast leaves by
    /// it.
    pub fn add_host_route_broadcast(&mut self, index: u32) -> (r: NetlinkRequest)
        ensures
            r@ == request_of(
                RTM_NEWROUTE,
                NLM_F_CREATE | NLM_F_REPLACE,
                old(self).seq,
                host_route(index),
            ),
            final(self).seq == seq_after(old(self).seq),
    {
        let body: Vec<u8> = build_host_route(index);
        self.request(RTM_NEWROUTE, NLM_F_CREATE | NLM_F_REPLACE, body.as_slice())
    }

    /// Takes the route of the limited broadcast address away again.
    pub fn del_host_route_broadcast(&mut self, index: u32) -> (r: NetlinkRequest)
        ensures
            r@ == request_of(RTM_DELROUTE, 0, old(self).seq, host_route(index)),
            final(self).seq == seq_after(old(self).seq),
    {
        let body: Vec<u8> = build_host_route(index);
        self.request(RTM_DELROUTE, 0, body.as_slice())
    }

    /// Gives link `index` an address.
    pub fn add_addr(&mut self, index: u32, addr: Ipv4Addr, prefix_len: u8) -> (r: NetlinkRequest)
        ensures
            r@ == request_of(
                RTM_NEWADDR,
                NLM_F_CREATE | NLM_F_REPLACE,
                old(self).seq,
                ifaddrmsg(index, addr, prefix_len),
            ),
            final(self).seq == seq_after(old(self).seq),
    {
        let body: Vec<u8> = build_ifaddrmsg(index, addr, prefix_len);
        self.request(RTM_NEWADDR, NLM_F_CREATE | NLM_F_REPLACE, body.as_slice())
    }

    /// Routes everything else through `gateway` out of link `index`.
    pub fn add_default_route(&mut self, index: u32, gateway: Ipv4Addr) -> (r: NetlinkRequest)
        ensures
            r@ == request_of(
                RTM_NEWROUTE,
                NLM_F_CREATE | NLM_F_REPLACE,
                old(self).seq,
                default_route(index, gateway),
            ),
            final(self).seq == seq_after(old(self).seq),
    {
        let body: Vec<u8> = build_default_route(index, gateway);
        self.request(RTM_NEWROUTE, NLM_F_CREATE | NLM_F_REPLACE, body.as_slice())
    }
}

/// The attributes that a run of bytes holds, if it is made of whole attributes.
pub open spec fn rtattrs(s: Seq<u8>) -> Option<Seq<(u16, Seq<u8>)>>
    decreases s.len(),
{
    if s.len() == 0 {
        Some(Seq::empty())
    } else if s.len() < 4 {
        None
    } else {
        let len = le16_at(s, 0) as nat;
        if len < 4 || aligned4(len) > s.len() {
            None
        } else {
            match rtattrs(s.skip(aligned4(len) as int)) {
                Some(rest) => Some(seq![(le16_at(s, 2), s.subrange(4, len as int))] + rest),
                None => None,
            }
        }
    }
}

/// Rounding up gives the least multiple of four that is not below `n`.
pub proof fn law_align4_is_least(n: nat, m: nat)
    requires
        m % 4 == 0,
        n <= m,
    ensures
        aligned4(n) % 4 == 0,
        n <= aligned4(n) <= m,
{
}

/// A header gives back what the message was built from; its length field does so where the
/// length fits in 32 bits. A message around a whole number of words is one itself.
pub proof fn law_nlmsg_reads_back(msg_type: u16, flags: u16, seq: u32, body: Seq<u8>)
    ensures
        nlmsg(msg_type, flags, seq, body).len() == 16 + body.len(),
        16 + body.len() < 0x1_0000_0000 ==> le32_at(nlmsg(msg_type, flags, seq, body), 0) == 16
            + body.len(),
        le16_at(nlmsg(msg_type, flags, seq, body), 4) == msg_type,
        le16_at(nlmsg(msg_type, flags, seq, body), 6) == flags,
        le32_at(nlmsg(msg_type, flags, seq, body), 8) == seq,
        le32_at(nlmsg(msg_type, flags, seq, body), 12) == 0,
        nlmsg(msg_type, flags, seq, body).skip(16) == body,
        body.len() % 4 == 0 ==> nlmsg(msg_type, flags, seq, body).len() % 4 == 0,
{
    let m = nlmsg(msg_type, flags, seq, body);
    let len = ((16 + body.len()) % 0x1_0000_0000) as u32;
    assert(m.len() == 16 + body.len());
    assert(m.skip(16) =~= body);
    assert(m.subrange(0, 4) =~= le32(len));
    assert(m.subrange(4, 6) =~= le16(msg_type));
    assert(m.subrange(6, 8) =~= le16(flags));
    assert(m.subrange(8, 12) =~= le32(seq));
    assert(m.subrange(12, 16) =~= le32(0));
    lemma_le32_stands(m, 0, len);
    lemma_le16_stands(m, 4, msg_type);
    lemma_le16_stands(m, 6, flags);
    lemma_le32_stands(m, 8, seq);
    lemma_le32_stands(m, 12, 0);
}

/// Whatever stands before it and whatever its payload, an attribute ends on a multiple
/// of four where it started on one.
pub proof fn law_rtattr_keeps_alignment(before: Seq<u8>, attr_type: u16, payload: Seq<u8>)
    requires
        before.len() % 4 == 0,
    ensures
        (before + rtattr(attr_type, payload)).len() % 4 == 0,
{
}

/// An attribute whose length fits in 16 bits reads back as its type and its payload,
/// whatever attributes follow.
pub proof fn law_rtattr_reads_back(attr_type: u16, payload: Seq<u8>, rest: Seq<u8>)
    requires
        4 + payload.len() < 0x1_0000,
    ensures
        rtattrs(rtattr(attr_type, payload) + rest) == match rtattrs(rest) {
            Some(others) => Some(seq![(attr_type, payload)] + others),
            None => None,
        },
{
    let one = rtattr(attr_type, payload);
    let s = one + rest;
    assert(s.subrange(0, 2) =~= le16(((4 + payload.len()) % 0x1_0000) as u16));
    assert(s.subrange(2, 4) =~= le16(attr_type));
    lemma_le16_stands(s, 0, ((4 + payload.len()) % 0x1_0000) as u16);
    lemma_le16_stands(s, 2, attr_type);
    assert(s.subrange(4, (4 + payload.len()) as int) =~= payload);
    assert(s.skip(aligned4(4 + payload.len()) as int) =~= rest);
}

/// The attributes of the three configuring messages read back as what the messages were
/// built from: a destination and a link, a gateway and a link, and the address twice, as the
/// local one and as the interface's.
pub proof fn law_bodies_read_back(index: u32, addr: Ipv4Addr, prefix_len: u8)
    ensures
        rtattrs(host_route(index).skip(12)) == Some(
            seq![(1u16, seq![255u8, 255, 255, 255]), (4u16, le32(index))],
        ),
        rtattrs(default_route(index, addr).skip(12)) == Some(
            seq![(5u16, octets_of(addr)), (4u16, le32(index))],
        ),
        rtattrs(ifaddrmsg(index, addr, prefix_len).skip(8)) == Some(
            seq![(2u16, octets_of(addr)), (1u16, octets_of(addr))],
        ),
        ifaddrmsg(index, addr, prefix_len)[1] == prefix_len,
        le32_at(ifaddrmsg(index, addr, prefix_len), 4) == index,
{
    let none = Seq::<u8>::empty();
    let all = seq![255u8, 255, 255, 255];
    let oif = rtattr(RTA_OIF, le32(index));
    law_rtattr_reads_back(RTA_OIF, le32(index), none);
    assert(oif + none =~= oif);
    law_rtattr_reads_back(RTA_DST, all, oif);
    assert(host_route(index).skip(12) =~= rtattr(RTA_DST, all) + oif);
    assert(rtattrs(host_route(index).skip(12))->0 =~= seq![(RTA_DST, all), (RTA_OIF, le32(index))]);
    law_rtattr_reads_back(RTA_GATEWAY, octets_of(addr), oif);
    assert(default_route(index, addr).skip(12) =~= rtattr(RTA_GATEWAY, octets_of(addr)) + oif);
    assert(rtattrs(default_route(index, addr).skip(12))->0 =~= seq![
        (RTA_GATEWAY, octets_of(addr)),
        (RTA_OIF, le32(index)),
    ]);
    let second = rtattr(IFA_ADDRESS, octets_of(addr));
    law_rtattr_reads_back(IFA_ADDRESS, octets_of(addr), none);
    assert(second + none =~= second);
    law_rtattr_reads_back(IFA_LOCAL, octets_of(addr), second);
    assert(ifaddrmsg(index, addr, prefix_len).skip(8) =~= rtattr(IFA_LOCAL, octets_of(addr))
        + second);
    assert(rtattrs(ifaddrmsg(index, addr, prefix_len).skip(8))->0 =~= seq![
        (IFA_LOCAL, octets_of(addr)),
        (IFA_ADDRESS, octets_of(addr)),
    ]);
}

/// An answer that carries an error code is a success exactly where the code is 0,
/// whatever follows the code; an answer of any other type is none.
pub proof fn law_ack_is_ok_exactly_on_zero(
    msg_type: u16,
    flags: u16,
    seq: u32,
    code: u32,
    rest: Seq<u8>,
    req_type: u16,
)
    ensures
        ack_outcome(nlmsg(msg_type, flags, seq, le32(code) + rest), req_type) is Ok <==> msg_type
            == NLMSG_ERROR && code == 0,
{
    let body = le32(code) + rest;
    let m = nlmsg(msg_type, flags, seq, body);
    law_nlmsg_reads_back(msg_type, flags, seq, body);
    lemma_ack_of_code(m, code, rest, req_type);
}

proof fn lemma_ack_of_code(m: Seq<u8>, code: u32, rest: Seq<u8>, req_type: u16)
    requires
        m.len() == 20 + rest.len(),
        m.skip(16) == le32(code) + rest,
    ensures
        ack_outcome(m, req_type) is Ok <==> le16_at(m, 4) == NLMSG_ERROR && code == 0,
{
    assert(m.subrange(16, 20) =~= m.skip(16).take(4));
    assert(m.subrange(16, 20) =~= le32(code));
    lemma_le32_stands(m, 16, code);
}

/// A link message reads back: sixteen bytes of which the first four are zero, then the index, the
/// flags and the change mask as words.
pub proof fn law_link_message_reads_back(index: u32, flags: u32, change: u32)
    ensures
        ({
            let m = ifinfomsg(index, flags, change);
            &&& m.len() == 16
            &&& m[0] == 0 && m[1] == 0 && m[2] == 0 && m[3] == 0
            &&& le32_at(m, 4) == index
            &&& le32_at(m, 8) == flags
            &&& le32_at(m, 12) == change
        }),
{
    let m = ifinfomsg(index, flags, change);
    assert(m.subrange(4, 8) =~= le32(index));
    assert(m.subrange(8, 12) =~= le32(flags));
    assert(m.subrange(12, 16) =~= le32(change));
    lemma_le32_stands(m, 4, index);
    lemma_le32_stands(m, 8, flags);
    lemma_le32_stands(m, 12, change);
}

/// The fixed part of a route message has each of its fields in its place.
pub proof fn law_route_header_reads_back(
    family: u8,
    dst_len: u8,
    scope: u8,
    rt_type: u8,
    protocol: u8,
    table: u8,
)
    ensures
        ({
            let m = rtmsg_header(family, dst_len, scope, rt_type, protocol, table);
            &&& m.len() == 12
            &&& m[0] == family && m[1] == dst_len
            &&& m[2] == 0 && m[3] == 0
            &&& m[4] == table && m[5] == protocol && m[6] == scope && m[7] == rt_type
            &&& m[8] == 0 && m[9] == 0 && m[10] == 0 && m[11] == 0
        }),
{
}

/// The broadcast route is an IPv4 route to a whole address in link scope; it is a unicast route
/// of the main table that is set at boot. The default route is one to everything, in universe
/// scope.
pub proof fn law_routes_have_their_fields(index: u32, gateway: Ipv4Addr)
    ensures
        host_route(index).len() == 28,
        host_route(index).take(12) == seq![2u8, 32, 0, 0, 254, 3, 253, 1, 0, 0, 0, 0],
        default_route(index, gateway).len() == 28,
        default_route(index, gateway).take(12) == seq![2u8, 0, 0, 0, 254, 3, 0, 1, 0, 0, 0, 0],
{
    let host = rtmsg_header(2, 32, 253, 1, 3, 254);
    let all = rtmsg_header(2, 0, 0, 1, 3, 254);
    assert(host =~= seq![2u8, 32, 0, 0, 254, 3, 253, 1, 0, 0, 0, 0]);
    assert(all =~= seq![2u8, 0, 0, 0, 254, 3, 0, 1, 0, 0, 0, 0]);
    assert(host_route(index).take(12) =~= host);
    assert(default_route(index, gateway).take(12) =~= all);
}

/// An address message is an IPv4 one in universe scope, for its link, with its prefix length.
pub proof fn law_address_message_has_its_fields(index: u32, addr: Ipv4Addr, prefix_len: u8)
    ensures
        ifaddrmsg(index, addr, prefix_len).len() == 24,
        ifaddrmsg(index, addr, prefix_len).take(4) == seq![2u8, prefix_len, 0, 0],
        le32_at(ifaddrmsg(index, addr, prefix_len), 4) == index,
{
    let m = ifaddrmsg(index, addr, prefix_len);
    assert(m.take(4) =~= seq![2u8, prefix_len, 0, 0]);
    assert(m.subrange(4, 8) =~= le32(index));
    lemma_le32_stands(m, 4, index);
}

/// A request carries its type twice, asks for an answer by the flags 1 and 4 beside those it was
/// given, has its number, and ends with its body.
pub proof fn law_requests_ask_for_an_answer(msg_type: u16, flags: u16, seq: u32, body: Seq<u8>)
    ensures
        ({
            let r = request_of(msg_type, flags, seq, body);
            &&& r.0 == msg_type
            &&& le16_at(r.1, 4) == msg_type
            &&& le16_at(r.1, 6) == flags | 5
            &&& le32_at(r.1, 8) == seq
            &&& r.1.len() == 16 + body.len()
            &&& r.1.skip(16) == body
        }),
{
    law_nlmsg_reads_back(msg_type, flags | NLM_F_REQUEST | NLM_F_ACK, seq, body);
    assert(flags | 1u16 | 4u16 == flags | 5u16) by (bit_vector);
}

/// Request numbers follow one another, and start again at zero after the last.
pub proof fn law_numbers_follow(seq: u32)
    ensures
        seq_after(seq) == (seq + 1) % 0x1_0000_0000,
{
}

/// An answer is a success exactly where it is long enough, of the error type, and its code is
/// zero; otherwise the message names the type of the request, and the code with its sign turned
/// round where there is one.
pub proof fn law_ack_says_what_went_wrong(buf: Seq<u8>, req_type: u16)
    ensures
        ack_outcome(buf, req_type) is Ok <==> buf.len() >= 20 && buf[4] == 2 && buf[5] == 0
            && buf[16] == 0 && buf[17] == 0 && buf[18] == 0 && buf[19] == 0,
        buf.len() >= 20 && buf[4] == 2 && buf[5] == 0 && le_i32_at(buf, 16) < 0 ==> ack_outcome(
            buf,
            req_type,
        ) == Err::<(), Seq<char>>(
            "netlink request (type "@ + decimal(req_type as nat) + ") failed: errno "@ + decimal(
                (0 - le_i32_at(buf, 16)) as nat,
            ),
        ),
{
}

/// An attribute starts with its length, header included, and its type; its payload follows, and
/// then zeros up to the next multiple of four.
pub proof fn law_rtattr_is_padded_with_zeros(attr_type: u16, payload: Seq<u8>)
    requires
        4 + payload.len() < 0x1_0000,
    ensures
        ({
            let m = rtattr(attr_type, payload);
            &&& m.len() % 4 == 0 && 4 + payload.len() <= m.len() < 8 + payload.len()
            &&& m[0] + 256 * m[1] == 4 + payload.len()
            &&& m[2] + 256 * m[3] == attr_type
            &&& m.subrange(4, 4 + payload.len() as int) == payload
            &&& forall|i: int| 4 + payload.len() <= i < m.len() ==> #[trigger] m[i] == 0
        }),
{
    let m = rtattr(attr_type, payload);
    assert(m.subrange(4, 4 + payload.len() as int) =~= payload);
}

} // verus!
