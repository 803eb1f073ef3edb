//! DHCP packets: what the client sends, and what it reads out of a reply.

use vstd::prelude::*;
use vstd::slice::slice_subrange;

use crate::addr::{dotted, octets_of, Ipv4Addr};
use crate::bytes::{
    be16, be32, be32_at, law_be32_determines_bytes, law_integers_read_back, push_be16, push_be32,
    push_bytes, push_zeros, read_be32,
};
use crate::number::{decimal, decimal_text, hex_digits, hex_text};
use crate::text::{lemma_pieces_extend, lines, pieces, without_return, Cut};

verus! {

pub const DHCP_MAGIC: u32 = 0x6382_5363;

pub const DHCP_CLIENT_PORT: u16 = 68;

pub const DHCP_SERVER_PORT: u16 = 67;

// Operations.
pub const BOOTP_OP_REQUEST: u8 = 1;

pub const BOOTP_OP_REPLY: u8 = 2;

pub const BOOTP_HTYPE_ETHER: u8 = 1;

pub const BOOTP_HLEN_ETHER: u8 = 6;

pub const BOOTP_FLAG_BROADCAST: u16 = 0x8000;

// Message types.
pub const DHCP_DISCOVER: u8 = 1;

pub const DHCP_OFFER: u8 = 2;

pub const DHCP_REQUEST: u8 = 3;

pub const DHCP_ACK: u8 = 5;

// Option codes.
pub const OPT_SUBNET_MASK: u8 = 1;

pub const OPT_ROUTER: u8 = 3;

pub const OPT_DNS: u8 = 6;

pub const OPT_REQ_IP: u8 = 50;

pub const OPT_LEASE_TIME: u8 = 51;

pub const OPT_MSG_TYPE: u8 = 53;

pub const OPT_SERVER_ID: u8 = 54;

pub const OPT_PARAM_REQ: u8 = 55;

pub const OPT_END: u8 = 255;

/// `count` zero bytes.
pub open spec fn zeros(count: nat) -> Seq<u8> {
    Seq::new(count, |i: int| 0u8)
}

/// The transaction number of a client: the last four octets of its hardware address, with the
/// first two folded in.
pub open spec fn xid_of(mac: Seq<u8>) -> u32 {
    be32_at(seq![mac[2] ^ mac[0], mac[3] ^ mac[1], mac[4], mac[5]], 0)
}

/// Derives a transaction number from a hardware address.
pub fn xid_from_mac(mac: [u8; 6]) -> (r: u32)
    ensures
        r == xid_of(mac@),
{
    let folded: [u8; 4] = [mac[2] ^ mac[0], mac[3] ^ mac[1], mac[4], mac[5]];
    assert(folded@ =~= seq![mac@[2] ^ mac@[0], mac@[3] ^ mac@[1], mac@[4], mac@[5]]);
    read_be32(folded.as_slice(), 0)
}

/// The fixed 236-byte header of a client's request: operation, hardware type and length, hops,
/// transaction, seconds, flags, four addresses, hardware address, and room for names.
pub open spec fn bootp_header(mac: Seq<u8>, xid: u32) -> Seq<u8> {
    seq![BOOTP_OP_REQUEST, BOOTP_HTYPE_ETHER, BOOTP_HLEN_ETHER, 0u8] + be32(xid) + zeros(2) + be16(
        BOOTP_FLAG_BROADCAST,
    ) + zeros(16) + mac + zeros(202)
}

/// Builds the fixed header of a client's request.
pub fn build_bootp_header(mac: [u8; 6], xid: u32) -> (b: Vec<u8>)
    ensures
        b@ == bootp_header(mac@, xid),
        b@.len() == 236,
{
    let mut b: Vec<u8> = Vec::with_capacity(236);
    b.push(BOOTP_OP_REQUEST);
    b.push(BOOTP_HTYPE_ETHER);
    b.push(BOOTP_HLEN_ETHER);
    b.push(0);
    assert(b@ =~= seq![BOOTP_OP_REQUEST, BOOTP_HTYPE_ETHER, BOOTP_HLEN_ETHER, 0u8]);
    push_be32(&mut b, xid);
    push_zeros(&mut b, 2);
    push_be16(&mut b, BOOTP_FLAG_BROADCAST);
    push_zeros(&mut b, 16);
    push_bytes(&mut b, mac.as_slice());
    push_zeros(&mut b, 202);
    b
}

/// One option: its code, its length, its value.
pub open spec fn option_bytes(code: u8, value: Seq<u8>) -> Seq<u8> {
    seq![code, value.len() as u8] + value
}

/// Options one after the other.
pub open spec fn options_bytes(list: Seq<(u8, Seq<u8>)>) -> Seq<u8>
    decreases list.len(),
{
    if list.len() == 0 {
        Seq::empty()
    } else {
        option_bytes(list[0].0, list[0].1) + options_bytes(list.drop_first())
    }
}

/// What the client asks the server to tell it: subnet mask, routers, name servers, broadcast
/// address, domain name.
pub open spec fn wanted() -> Seq<u8> {
    seq![OPT_SUBNET_MASK, OPT_ROUTER, OPT_DNS, 28u8, 15u8]
}

/// The options of a DISCOVER.
pub open spec fn discover_options() -> Seq<(u8, Seq<u8>)> {
    seq![(OPT_MSG_TYPE, seq![DHCP_DISCOVER]), (OPT_PARAM_REQ, wanted())]
}

/// The options of a REQUEST for `yiaddr`; the server is named where it is known.
pub open spec fn request_options(yiaddr: Ipv4Addr, server_id: Option<Ipv4Addr>) -> Seq<
    (u8, Seq<u8>),
> {
    let front = seq![(OPT_MSG_TYPE, seq![DHCP_REQUEST]), (OPT_REQ_IP, octets_of(yiaddr))];
    match server_id {
        Some(sid) => front + seq![(OPT_SERVER_ID, octets_of(sid)), (OPT_PARAM_REQ, wanted())],
        None => front + seq![(OPT_PARAM_REQ, wanted())],
    }
}

/// A client's packet: header, magic cookie, options, end mark.
pub open spec fn client_packet(mac: Seq<u8>, xid: u32, list: Seq<(u8, Seq<u8>)>) -> Seq<u8> {
    bootp_header(mac, xid) + be32(DHCP_MAGIC) + options_bytes(list) + seq![OPT_END]
}

/// Appends the list of what the client asks for.
fn push_wanted(b: &mut Vec<u8>)
    ensures
        final(b)@ == old(b)@ + option_bytes(OPT_PARAM_REQ, wanted()),
{
    b.push(OPT_PARAM_REQ);
    b.push(5);
    b.push(OPT_SUBNET_MASK);
    b.push(OPT_ROUTER);
    b.push(OPT_DNS);
    b.push(28);
    b.push(15);
    assert(b@ =~= old(b)@ + option_bytes(OPT_PARAM_REQ, wanted()));
}

/// Appends an option whose value is one byte.
fn push_byte_option(b: &mut Vec<u8>, code: u8, value: u8)
    ensures
        final(b)@ == old(b)@ + option_bytes(code, seq![value]),
{
    b.push(code);
    b.push(1);
    b.push(value);
    assert(b@ =~= old(b)@ + option_bytes(code, seq![value]));
}

/// Appends an option whose value is an address.
fn push_addr_option(b: &mut Vec<u8>, code: u8, value: Ipv4Addr)
    ensures
        final(b)@ == old(b)@ + option_bytes(code, octets_of(value)),
{
    b.push(code);
    b.push(4);
    push_bytes(b, value.octets().as_slice());
    assert(b@ =~= old(b)@ + option_bytes(code, octets_of(value)));
}

/// The first option of a list stands in front of the others.
proof fn lemma_options_bytes_cons(code: u8, value: Seq<u8>, rest: Seq<(u8, Seq<u8>)>)
    ensures
        options_bytes(seq![(code, value)] + rest) == option_bytes(code, value) + options_bytes(
            rest,
        ),
{
    assert((seq![(code, value)] + rest).drop_first() =~= rest);
}

proof fn lemma_options_bytes_one(code: u8, value: Seq<u8>)
    ensures
        options_bytes(seq![(code, value)]) == option_bytes(code, value),
{
    let none = Seq::<(u8, Seq<u8>)>::empty();
    lemma_options_bytes_cons(code, value, none);
    assert(seq![(code, value)] + none =~= seq![(code, value)]);
    assert(option_bytes(code, value) + Seq::<u8>::empty() =~= option_bytes(code, value));
}

/// Builds a DISCOVER.
pub fn build_dhcp_discover(mac: [u8; 6], xid: u32) -> (b: Vec<u8>)
    ensures
        b@ == client_packet(mac@, xid, discover_options()),
{
    let mut b: Vec<u8> = build_bootp_header(mac, xid);
    push_be32(&mut b, DHCP_MAGIC);
    let ghost head = b@;
    push_byte_option(&mut b, OPT_MSG_TYPE, DHCP_DISCOVER);
    push_wanted(&mut b);
    proof {
        let last = seq![(OPT_PARAM_REQ, wanted())];
        lemma_options_bytes_one(OPT_PARAM_REQ, wanted());
        lemma_options_bytes_cons(OPT_MSG_TYPE, seq![DHCP_DISCOVER], last);
        assert(discover_options() =~= seq![(OPT_MSG_TYPE, seq![DHCP_DISCOVER])] + last);
        assert(b@ =~= head + options_bytes(discover_options()));
    }
    b.push(OPT_END);
    assert(b@ =~= client_packet(mac@, xid, discover_options()));
    b
}

/// Builds a REQUEST for `yiaddr` from the server `server_id`.
pub fn build_dhcp_request(
    mac: [u8; 6],
    xid: u32,
    yiaddr: Ipv4Addr,
    server_id: Option<Ipv4Addr>,
) -> (b: Vec<u8>)
    ensures
        b@ == client_packet(mac@, xid, request_options(yiaddr, server_id)),
{
    let mut b: Vec<u8> = build_bootp_header(mac, xid);
    push_be32(&mut b, DHCP_MAGIC);
    let ghost head = b@;
    push_byte_option(&mut b, OPT_MSG_TYPE, DHCP_REQUEST);
    push_addr_option(&mut b, OPT_REQ_IP, yiaddr);
    if let Some(sid) = server_id {
        push_addr_option(&mut b, OPT_SERVER_ID, sid);
    }
    push_wanted(&mut b);
    proof {
        let list = request_options(yiaddr, server_id);
        let last = seq![(OPT_PARAM_REQ, wanted())];
        lemma_options_bytes_one(OPT_PARAM_REQ, wanted());
        let tail = match server_id {
            Some(sid) => seq![(OPT_SERVER_ID, octets_of(sid))] + last,
            None => last,
        };
        if let Some(sid) = server_id {
            lemma_options_bytes_cons(OPT_SERVER_ID, octets_of(sid), last);
        }
        let second = seq![(OPT_REQ_IP, octets_of(yiaddr))] + tail;
        lemma_options_bytes_cons(OPT_REQ_IP, octets_of(yiaddr), tail);
        lemma_options_bytes_cons(OPT_MSG_TYPE, seq![DHCP_REQUEST], second);
        assert(list =~= seq![(OPT_MSG_TYPE, seq![DHCP_REQUEST])] + second);
        assert(b@ =~= head + options_bytes(list));
    }
    b.push(OPT_END);
    assert(b@ =~= client_packet(mac@, xid, request_options(yiaddr, server_id)));
    b
}

/// How a walk over options ended.
#[derive(Clone, Copy, PartialEq, Eq, Structural)]
pub enum OptionsEnd {
    /// At the end mark, or where the bytes ran out between two options.
    Complete,
    /// At a code without a length.
    NoLength,
    /// At an option whose value is cut short.
    Truncated(u8),
}

/// The options that stand in `s` up to the first end mark or fault, and how the walk ended.
/// A code of 0 is padding.
pub open spec fn options(s: Seq<u8>) -> (Seq<(u8, Seq<u8>)>, OptionsEnd)
    decreases s.len(),
{
    if s.len() == 0 || s[0] == OPT_END {
        (Seq::empty(), OptionsEnd::Complete)
    } else if s[0] == 0 {
        options(s.drop_first())
    } else if s.len() < 2 {
        (Seq::empty(), OptionsEnd::NoLength)
    } else if s.len() < 2 + s[1] {
        (Seq::empty(), OptionsEnd::Truncated(s[0]))
    } else {
        let rest = options(s.skip(2 + s[1]));
        (seq![(s[0], s.subrange(2, 2 + s[1]))] + rest.0, rest.1)
    }
}

/// Whether an operation is one that there is: a request or a reply.
pub open spec fn valid_op(op: u8) -> bool {
    op == BOOTP_OP_REQUEST || op == BOOTP_OP_REPLY
}

/// The bytes after the header and the magic cookie, if both are there and the header is that of
/// a request or a reply.
pub open spec fn options_part(buf: Seq<u8>) -> Option<Seq<u8>> {
    if buf.len() < 240 || !valid_op(buf[0]) || be32_at(buf, 236) != DHCP_MAGIC {
        None
    } else {
        Some(buf.skip(240))
    }
}

/// The option bytes of a packet: everything after the magic cookie. There are none where the
/// operation is neither a request nor a reply, or where the cookie is wrong.
pub fn dhcp_options_slice<'a>(buf: &'a [u8]) -> (r: Option<&'a [u8]>)
    ensures
        match r {
            Some(opts) => options_part(buf@) == Some(opts@),
            None => options_part(buf@) is None,
        },
{
    if buf.len() < 240 {
        return None;
    }
    if buf[0] != BOOTP_OP_REQUEST && buf[0] != BOOTP_OP_REPLY {
        return None;
    }
    if read_be32(buf, 236) != DHCP_MAGIC {
        return None;
    }
    let opts: &'a [u8] = slice_subrange(buf, 240, buf.len());
    assert(opts@ =~= buf@.skip(240));
    Some(opts)
}

/// The first message type in a list of options; one byte long, or it is none.
pub open spec fn first_type(list: Seq<(u8, Seq<u8>)>) -> Option<u8>
    decreases list.len(),
{
    if list.len() == 0 {
        None
    } else if list[0].0 == OPT_MSG_TYPE && list[0].1.len() == 1 {
        Some(list[0].1[0])
    } else {
        first_type(list.drop_first())
    }
}

/// The message type of a packet.
pub open spec fn message_type(buf: Seq<u8>) -> Option<u8> {
    match options_part(buf) {
        Some(opts) => first_type(options(opts).0),
        None => None,
    }
}

/// Reads the message type out of a packet.
pub fn parse_message_type(buf: &[u8]) -> (r: Option<u8>)
    ensures
        r == message_type(buf@),
{
    let opts: &[u8] = match dhcp_options_slice(buf) {
        Some(opts) => opts,
        None => return None,
    };
    let mut i: usize = 0;
    assert(opts@.skip(0) =~= opts@);
    while i < opts.len()
        invariant
            i <= opts@.len(),
            first_type(options(opts@.skip(i as int)).0) == message_type(buf@),
        decreases opts@.len() - i,
    {
        let ghost rest = opts@.skip(i as int);
        let code: u8 = opts[i];
        assert(code == rest[0]);
        if code == OPT_END {
            return None;
        }
        if code == 0 {
            assert(rest.drop_first() =~= opts@.skip(i + 1));
            i = i + 1;
        } else {
            if opts.len() - i < 2 {
                return None;
            }
            let len: usize = opts[i + 1] as usize;
            assert(len == rest[1]);
            if opts.len() - i - 2 < len {
                return None;
            }
            let ghost value = rest.subrange(2, 2 + len);
            let ghost more = rest.skip(2 + len);
            assert((seq![(code, value)] + options(more).0).drop_first() =~= options(more).0);
            if code == OPT_MSG_TYPE && len == 1 {
                return Some(opts[i + 2]);
            }
            assert(more =~= opts@.skip(i + 2 + len));
            i = i + 2 + len;
        }
    }
    None
}

/// Whether a packet has message type `want`.
pub fn reply_is(buf: &[u8], want: u8) -> (r: bool)
    ensures
        r == (message_type(buf@) == Some(want)),
{
    match parse_message_type(buf) {
        Some(found) => found == want,
        None => false,
    }
}

/// Whether bit `i` of a run of bytes is set, counted from the highest bit of the first byte.
pub open spec fn bit_set(mask: Seq<u8>, i: int) -> bool {
    (mask[i / 8] >> ((7 - i % 8) as u8)) & 1u8 == 1u8
}

/// How many bits are set in a row from bit `i` on.
pub open spec fn set_from(mask: Seq<u8>, i: int) -> nat
    decreases 8 * mask.len() - i,
{
    if i < 8 * mask.len() && bit_set(mask, i) {
        1 + set_from(mask, i + 1)
    } else {
        0
    }
}

/// The number of leading set bits of a run of bytes.
pub open spec fn leading_bits(mask: Seq<u8>) -> nat {
    set_from(mask, 0)
}

/// The prefix length of a subnet mask: its leading set bits.
pub fn mask_to_prefix(mask: [u8; 4]) -> (r: u8)
    ensures
        r == leading_bits(mask@),
        r <= 32,
{
    let mut i: usize = 0;
    while i < 32 && (mask[i / 8] >> ((7 - i % 8) as u8)) & 1u8 == 1u8
        invariant
            i <= 32,
            i + set_from(mask@, i as int) == leading_bits(mask@),
        decreases 32 - i,
    {
        i = i + 1;
    }
    i as u8
}

/// What a lease holds.
pub struct LeaseView {
    pub yiaddr: Ipv4Addr,
    pub prefix_len: u8,
    pub router: Option<Ipv4Addr>,
    pub dns: Seq<Ipv4Addr>,
    pub server_id: Option<Ipv4Addr>,
    pub lease_secs: Option<u32>,
}

/// What a reply offers or grants.
#[derive(Clone, Debug, PartialEq, Eq)]
pub struct Lease {
    pub yiaddr: Ipv4Addr,
    pub prefix_len: u8,
    pub router: Option<Ipv4Addr>,
    pub dns: Vec<Ipv4Addr>,
    pub server_id: Option<Ipv4Addr>,
    pub lease_secs: Option<u32>,
}

impl View for Lease {
    type V = LeaseView;

    open spec fn view(&self) -> LeaseView {
        LeaseView {
            yiaddr: self.yiaddr,
            prefix_len: self.prefix_len,
            router: self.router,
            dns: self.dns@,
            server_id: self.server_id,
            lease_secs: self.lease_secs,
        }
    }
}

/// The address that four bytes at `at` hold.
pub open spec fn addr_at(s: Seq<u8>, at: int) -> Ipv4Addr {
    Ipv4Addr { a: s[at], b: s[at + 1], c: s[at + 2], d: s[at + 3] }
}

/// The addresses that stand one after the other in `s`; bytes left over at the end are ignored.
pub open spec fn addrs_in(s: Seq<u8>) -> Seq<Ipv4Addr> {
    Seq::new(s.len() / 4, |k: int| addr_at(s, 4 * k))
}

/// How long an option's value has to be.
pub enum Room {
    /// Four bytes.
    Four,
    /// Four bytes or more.
    FourOrMore,
}

/// Whether a value of `len` bytes has the room.
pub open spec fn fits(room: Room, len: nat) -> bool {
    match room {
        Room::Four => len == 4,
        Room::FourOrMore => len >= 4,
    }
}

/// The value of the last option with code `code` that has the room.
pub open spec fn last_value(list: Seq<(u8, Seq<u8>)>, code: u8, room: Room) -> Option<Seq<u8>>
    decreases list.len(),
{
    if list.len() == 0 {
        None
    } else if list.last().0 == code && fits(room, list.last().1.len()) {
        Some(list.last().1)
    } else {
        last_value(list.drop_last(), code, room)
    }
}

/// The prefix length that a list of options gives; 24 where it gives none.
pub open spec fn prefix_in(list: Seq<(u8, Seq<u8>)>) -> u8 {
    match last_value(list, OPT_SUBNET_MASK, Room::Four) {
        Some(v) => leading_bits(v) as u8,
        None => 24,
    }
}

/// The address that the last fitting option with code `code` starts with.
pub open spec fn addr_in(list: Seq<(u8, Seq<u8>)>, code: u8, room: Room) -> Option<Ipv4Addr> {
    match last_value(list, code, room) {
        Some(v) => Some(addr_at(v, 0)),
        None => None,
    }
}

/// The lease time that a list of options gives.
pub open spec fn lease_secs_in(list: Seq<(u8, Seq<u8>)>) -> Option<u32> {
    match last_value(list, OPT_LEASE_TIME, Room::Four) {
        Some(v) => Some(be32_at(v, 0)),
        None => None,
    }
}

/// All name servers of a list of options, in order.
pub open spec fn dns_in(list: Seq<(u8, Seq<u8>)>) -> Seq<Ipv4Addr>
    decreases list.len(),
{
    if list.len() == 0 {
        Seq::empty()
    } else if list.last().0 == OPT_DNS {
        dns_in(list.drop_last()) + addrs_in(list.last().1)
    } else {
        dns_in(list.drop_last())
    }
}

/// The lease that a reply's address and its options make.
pub open spec fn lease_of(yiaddr: Ipv4Addr, list: Seq<(u8, Seq<u8>)>) -> LeaseView {
    LeaseView {
        yiaddr,
        prefix_len: prefix_in(list),
        router: addr_in(list, OPT_ROUTER, Room::FourOrMore),
        dns: dns_in(list),
        server_id: addr_in(list, OPT_SERVER_ID, Room::Four),
        lease_secs: lease_secs_in(list),
    }
}

/// What a reply to transaction `expect_xid` says.
pub open spec fn reply_outcome(buf: Seq<u8>, expect_xid: u32) -> Result<LeaseView, Seq<char>> {
    match options_part(buf) {
        None => Err("DHCP reply too short or bad magic cookie"@),
        Some(opts) => if be32_at(buf, 4) != expect_xid {
            Err(
                "DHCP reply xid 0x"@ + hex_digits(be32_at(buf, 4) as nat, 8) + " != expected 0x"@
                    + hex_digits(expect_xid as nat, 8),
            )
        } else {
            match options(opts).1 {
                OptionsEnd::Complete => Ok(lease_of(addr_at(buf, 16), options(opts).0)),
                OptionsEnd::NoLength => Err("DHCP option truncated (no length)"@),
                OptionsEnd::Truncated(code) => Err(
                    "DHCP option "@ + decimal(code as nat) + " truncated"@,
                ),
            }
        },
    }
}

/// The result of reading a reply, with the lease and the message taken by what they hold.
pub open spec fn lease_shown(r: Result<Lease, String>) -> Result<LeaseView, Seq<char>> {
    match r {
        Ok(lease) => Ok(lease@),
        Err(e) => Err(e@),
    }
}

/// Reads the address that four bytes at `at` hold.
fn read_addr(buf: &[u8], at: usize) -> (r: Ipv4Addr)
    requires
        at + 4 <= buf@.len(),
    ensures
        r == addr_at(buf@, at as int),
{
    Ipv4Addr { a: buf[at], b: buf[at + 1], c: buf[at + 2], d: buf[at + 3] }
}

/// Appends the addresses that stand in `value`.
fn push_addrs(dns: &mut Vec<Ipv4Addr>, value: &[u8])
    ensures
        final(dns)@ == old(dns)@ + addrs_in(value@),
{
    let ghost was = dns@;
    let mut k: usize = 0;
    assert(dns@ =~= was + addrs_in(value@).take(0));
    while k < value.len() / 4
        invariant
            k <= value@.len() / 4,
            dns@ == was + addrs_in(value@).take(k as int),
        decreases value@.len() / 4 - k,
    {
        dns.push(read_addr(value, 4 * k));
        k = k + 1;
        assert(dns@ =~= was + addrs_in(value@).take(k as int));
    }
    assert(addrs_in(value@).take(k as int) =~= addrs_in(value@));
}

/// Reads an OFFER or ACK that answers transaction `expect_xid`.
pub fn parse_dhcp_reply(buf: &[u8], expect_xid: u32) -> (r: Result<Lease, String>)
    ensures
        lease_shown(r) == reply_outcome(buf@, expect_xid),
{
    let opts: &[u8] = match dhcp_options_slice(buf) {
        Some(opts) => opts,
        None => return Err("DHCP reply too short or bad magic cookie".to_owned()),
    };
    let xid: u32 = read_be32(buf, 4);
    if xid != expect_xid {
        let mut e: String = "DHCP reply xid 0x".to_owned();
        e.append(hex_text(xid as u64, 8).as_str());
        e.append(" != expected 0x");
        e.append(hex_text(expect_xid as u64, 8).as_str());
        return Err(e);
    }
    let yiaddr: Ipv4Addr = read_addr(buf, 16);

    let mut prefix_len: u8 = 24;
    let mut router: Option<Ipv4Addr> = None;
    let mut dns: Vec<Ipv4Addr> = Vec::new();
    let mut server_id: Option<Ipv4Addr> = None;
    let mut lease_secs: Option<u32> = None;

    let ghost mut seen: Seq<(u8, Seq<u8>)> = Seq::empty();
    let mut i: usize = 0;
    let mut ended: bool = false;
    proof {
        assert(opts@.skip(0) =~= opts@);
        assert(seen + options(opts@).0 =~= options(opts@).0);
    }
    while !ended && i < opts.len()
        invariant
            i <= opts@.len(),
            options_part(buf@) == Some(opts@),
            be32_at(buf@, 4) == expect_xid,
            yiaddr == addr_at(buf@, 16),
            !ended ==> seen + options(opts@.skip(i as int)).0 == options(opts@).0,
            !ended ==> options(opts@.skip(i as int)).1 == options(opts@).1,
            ended ==> seen == options(opts@).0,
            ended ==> options(opts@).1 == OptionsEnd::Complete,
            prefix_len == prefix_in(seen),
            router == addr_in(seen, OPT_ROUTER, Room::FourOrMore),
            dns@ == dns_in(seen),
            server_id == addr_in(seen, OPT_SERVER_ID, Room::Four),
            lease_secs == lease_secs_in(seen),
        decreases opts@.len() - i, if ended { 0int } else { 1int },
    {
        let ghost rest = opts@.skip(i as int);
        let code: u8 = opts[i];
        assert(code == rest[0]);
        if code == OPT_END {
            assert(seen + Seq::<(u8, Seq<u8>)>::empty() =~= seen);
            ended = true;
        } else if code == 0 {
            assert(rest.drop_first() =~= opts@.skip(i + 1));
            i = i + 1;
        } else {
            if opts.len() - i < 2 {
                return Err("DHCP option truncated (no length)".to_owned());
            }
            let len: usize = opts[i + 1] as usize;
            assert(len == rest[1]);
            if opts.len() - i - 2 < len {
                let mut e: String = "DHCP option ".to_owned();
                e.append(decimal_text(code as u64).as_str());
                e.append(" truncated");
                return Err(e);
            }
            let value: &[u8] = slice_subrange(opts, i + 2, i + 2 + len);
            let ghost before = seen;
            proof {
                assert(value@ =~= rest.subrange(2, 2 + len));
                let more = rest.skip(2 + len);
                assert(more =~= opts@.skip(i + 2 + len));
                seen = seen.push((code, value@));
                assert(seen.drop_last() =~= before);
                assert(seen + options(more).0 =~= before + (seq![(code, value@)] + options(
                    more,
                ).0));
            }
            if code == OPT_SUBNET_MASK && len == 4 {
                let mask: [u8; 4] = [value[0], value[1], value[2], value[3]];
                assert(mask@ =~= value@);
                prefix_len = mask_to_prefix(mask);
            } else if code == OPT_ROUTER && len >= 4 {
                router = Some(read_addr(value, 0));
            } else if code == OPT_DNS {
                push_addrs(&mut dns, value);
            } else if code == OPT_SERVER_ID && len == 4 {
                server_id = Some(read_addr(value, 0));
            } else if code == OPT_LEASE_TIME && len == 4 {
                lease_secs = Some(read_be32(value, 0));
            }
            i = i + 2 + len;
        }
    }
    proof {
        if !ended {
            assert(opts@.skip(i as int) =~= Seq::<u8>::empty());
            assert(seen + Seq::<(u8, Seq<u8>)>::empty() =~= seen);
        }
    }
    Ok(Lease { yiaddr, prefix_len, router, dns, server_id, lease_secs })
}

/// The name-server file for `dns`: one line per server, in order.
pub open spec fn resolv_text(dns: Seq<Ipv4Addr>) -> Seq<char>
    decreases dns.len(),
{
    if dns.len() == 0 {
        Seq::empty()
    } else {
        resolv_text(dns.drop_last()) + "nameserver "@ + dotted(dns.last()) + "\n"@
    }
}

/// The contents of `etc/resolv.conf` for `dns`.
pub fn resolv_conf(dns: &Vec<Ipv4Addr>) -> (r: String)
    ensures
        r@ == resolv_text(dns@),
{
    let mut r: String = String::new();
    let mut i: usize = 0;
    assert(dns@.take(0) =~= Seq::<Ipv4Addr>::empty());
    while i < dns.len()
        invariant
            i <= dns@.len(),
            r@ == resolv_text(dns@.take(i as int)),
        decreases dns@.len() - i,
    {
        r.append("nameserver ");
        r.append(dns[i].to_text().as_str());
        r.append("\n");
        assert(dns@.take(i + 1).drop_last() =~= dns@.take(i as int));
        i = i + 1;
    }
    assert(dns@.take(dns@.len() as int) =~= dns@);
    r
}

/// Whether an option can be written down: its code is neither padding nor the end mark, and its
/// length fits in a byte.
pub open spec fn writable(option: (u8, Seq<u8>)) -> bool {
    option.0 != 0 && option.0 != OPT_END && option.1.len() <= 255
}

/// Options that were written down read back as they were, whatever follows the end mark.
pub proof fn law_options_read_back(list: Seq<(u8, Seq<u8>)>, after: Seq<u8>)
    requires
        forall|i: int| 0 <= i < list.len() ==> writable(#[trigger] list[i]),
    ensures
        options(options_bytes(list) + seq![OPT_END] + after) == (list, OptionsEnd::Complete),
    decreases list.len(),
{
    let s = options_bytes(list) + seq![OPT_END] + after;
    if list.len() == 0 {
        assert(s[0] == OPT_END);
        assert(list =~= Seq::empty());
    } else {
        let (code, value) = list[0];
        assert(writable(list[0]));
        let rest = list.drop_first();
        assert forall|i: int| 0 <= i < rest.len() implies writable(#[trigger] rest[i]) by {
            assert(rest[i] == list[i + 1]);
        }
        law_options_read_back(rest, after);
        let more = options_bytes(rest) + seq![OPT_END] + after;
        assert(s =~= option_bytes(code, value) + more);
        assert(s[0] == code && s[1] == value.len() as u8);
        assert(s[1] == value.len());
        assert(s.subrange(2, 2 + s[1]) =~= value);
        assert(s.skip(2 + s[1]) =~= more);
        assert(list =~= seq![(code, value)] + rest);
    }
}

/// A packet of either operation with a complete list of options is read as the lease that its
/// address and those options make; one read under another transaction number is refused.
pub proof fn law_reply_reads_back(
    header: Seq<u8>,
    list: Seq<(u8, Seq<u8>)>,
    after: Seq<u8>,
    expect_xid: u32,
)
    requires
        header.len() == 236,
        valid_op(header[0]),
        forall|i: int| 0 <= i < list.len() ==> writable(#[trigger] list[i]),
    ensures
        ({
            let buf = header + be32(DHCP_MAGIC) + options_bytes(list) + seq![OPT_END] + after;
            &&& be32_at(header, 4) == expect_xid ==> reply_outcome(buf, expect_xid) == Ok::<
                LeaseView,
                Seq<char>,
            >(lease_of(addr_at(header, 16), list))
            &&& be32_at(header, 4) != expect_xid ==> reply_outcome(buf, expect_xid) is Err
            &&& message_type(buf) == first_type(list)
        }),
{
    let tail = options_bytes(list) + seq![OPT_END] + after;
    let buf = header + be32(DHCP_MAGIC) + options_bytes(list) + seq![OPT_END] + after;
    assert(buf =~= header + be32(DHCP_MAGIC) + tail);
    assert(buf.skip(240) =~= tail);
    law_integers_read_back(0, DHCP_MAGIC);
    assert(be32_at(buf, 236) == be32_at(be32(DHCP_MAGIC), 0)) by {
        assert(buf[236] == be32(DHCP_MAGIC)[0]);
        assert(buf[237] == be32(DHCP_MAGIC)[1]);
        assert(buf[238] == be32(DHCP_MAGIC)[2]);
        assert(buf[239] == be32(DHCP_MAGIC)[3]);
    }
    assert(buf[0] == header[0]);
    assert(be32_at(buf, 4) == be32_at(header, 4));
    assert(addr_at(buf, 16) == addr_at(header, 16));
    law_options_read_back(list, after);
}

/// A packet of any other operation has no options, no message type and no lease, whatever else
/// it holds.
pub proof fn law_other_operations_are_refused(buf: Seq<u8>, expect_xid: u32)
    requires
        buf.len() > 0,
        !valid_op(buf[0]),
    ensures
        options_part(buf) is None,
        message_type(buf) is None,
        reply_outcome(buf, expect_xid) is Err,
{
}

/// A packet of the client carries its transaction number, its hardware address and the broadcast
/// flag, and its options read back.
pub proof fn law_client_packet_reads_back(mac: Seq<u8>, xid: u32, list: Seq<(u8, Seq<u8>)>)
    requires
        mac.len() == 6,
        forall|i: int| 0 <= i < list.len() ==> writable(#[trigger] list[i]),
    ensures
        ({
            let buf = client_packet(mac, xid, list);
            &&& buf[0] == BOOTP_OP_REQUEST
            &&& be32_at(buf, 4) == xid
            &&& buf.subrange(10, 12) == be16(BOOTP_FLAG_BROADCAST)
            &&& buf.subrange(28, 34) == mac
            &&& options_part(buf) is Some
            &&& options(options_part(buf)->Some_0) == (list, OptionsEnd::Complete)
            &&& message_type(buf) == first_type(list)
        }),
{
    let header = bootp_header(mac, xid);
    let buf = client_packet(mac, xid, list);
    let none = Seq::<u8>::empty();
    assert(header.len() == 236);
    law_reply_reads_back(header, list, none, xid);
    assert(buf =~= header + be32(DHCP_MAGIC) + options_bytes(list) + seq![OPT_END] + none);
    law_integers_read_back(0, xid);
    assert(be32_at(buf, 4) == xid) by {
        assert(buf[4] == be32(xid)[0]);
        assert(buf[5] == be32(xid)[1]);
        assert(buf[6] == be32(xid)[2]);
        assert(buf[7] == be32(xid)[3]);
    }
    assert(buf.subrange(10, 12) =~= be16(BOOTP_FLAG_BROADCAST));
    assert(buf.subrange(28, 34) =~= mac);
    law_options_read_back(list, none);
    law_integers_read_back(0, DHCP_MAGIC);
    assert(be32_at(buf, 236) == be32_at(be32(DHCP_MAGIC), 0)) by {
        assert(buf[236] == be32(DHCP_MAGIC)[0]);
        assert(buf[237] == be32(DHCP_MAGIC)[1]);
        assert(buf[238] == be32(DHCP_MAGIC)[2]);
        assert(buf[239] == be32(DHCP_MAGIC)[3]);
    }
    assert(buf.skip(240) =~= options_bytes(list) + seq![OPT_END] + none);
}

/// A DISCOVER reads back as a DISCOVER.
pub proof fn law_discover_reads_back(mac: Seq<u8>, xid: u32)
    requires
        mac.len() == 6,
    ensures
        message_type(client_packet(mac, xid, discover_options())) == Some(DHCP_DISCOVER),
        options(options_part(client_packet(mac, xid, discover_options()))->Some_0) == (
            discover_options(),
            OptionsEnd::Complete,
        ),
{
    let list = discover_options();
    assert forall|i: int| 0 <= i < list.len() implies writable(#[trigger] list[i]) by {
        assert(i == 0 || i == 1);
    }
    assert(first_type(list) == Some(DHCP_DISCOVER));
    law_client_packet_reads_back(mac, xid, list);
}

/// A REQUEST reads back as a REQUEST that asks for `yiaddr`, and names the server exactly where
/// one is known.
pub proof fn law_request_reads_back(
    mac: Seq<u8>,
    xid: u32,
    yiaddr: Ipv4Addr,
    server_id: Option<Ipv4Addr>,
)
    requires
        mac.len() == 6,
    ensures
        ({
            let buf = client_packet(mac, xid, request_options(yiaddr, server_id));
            let list = options(options_part(buf)->Some_0).0;
            &&& message_type(buf) == Some(DHCP_REQUEST)
            &&& options(options_part(buf)->Some_0).1 == OptionsEnd::Complete
            &&& addr_in(list, OPT_REQ_IP, Room::Four) == Some(yiaddr)
            &&& addr_in(list, OPT_SERVER_ID, Room::Four) == server_id
        }),
{
    let list = request_options(yiaddr, server_id);
    assert forall|i: int| 0 <= i < list.len() implies writable(#[trigger] list[i]) by {
        assert(0 <= i < 4);
    }
    assert(first_type(list) == Some(DHCP_REQUEST));
    assert(addr_in(list, OPT_REQ_IP, Room::Four) == Some(yiaddr)) by {
        reveal_with_fuel(last_value, 5);
    }
    assert(addr_in(list, OPT_SERVER_ID, Room::Four) == server_id) by {
        reveal_with_fuel(last_value, 5);
    }
    law_client_packet_reads_back(mac, xid, list);
}

/// A reply is read as a lease only under its own transaction number, and the prefix length of a
/// lease is at most 32.
pub proof fn law_lease_is_sound(buf: Seq<u8>, expect_xid: u32)
    requires
        reply_outcome(buf, expect_xid) is Ok,
    ensures
        be32_at(buf, 4) == expect_xid,
        reply_outcome(buf, expect_xid)->Ok_0.prefix_len <= 32,
{
    let list = options(buf.skip(240)).0;
    lemma_last_value_fits(list, OPT_SUBNET_MASK, Room::Four);
    if let Some(mask) = last_value(list, OPT_SUBNET_MASK, Room::Four) {
        law_prefix_is_the_leading_bits(mask);
    }
}

proof fn lemma_last_value_fits(list: Seq<(u8, Seq<u8>)>, code: u8, room: Room)
    ensures
        last_value(list, code, room) matches Some(v) ==> fits(room, v.len()),
    decreases list.len(),
{
    if list.len() > 0 {
        lemma_last_value_fits(list.drop_last(), code, room);
    }
}

/// The prefix length of a mask says exactly this: all bits before it are set, and the bit at it,
/// where there is one, is clear.
pub proof fn law_prefix_is_the_leading_bits(mask: Seq<u8>)
    ensures
        leading_bits(mask) <= 8 * mask.len(),
        forall|i: int| 0 <= i < leading_bits(mask) ==> #[trigger] bit_set(mask, i),
        leading_bits(mask) < 8 * mask.len() ==> !bit_set(mask, leading_bits(mask) as int),
{
    lemma_set_from(mask, 0);
}

proof fn lemma_set_from(mask: Seq<u8>, i: int)
    requires
        0 <= i <= 8 * mask.len(),
    ensures
        i + set_from(mask, i) <= 8 * mask.len(),
        forall|j: int| i <= j < i + set_from(mask, i) ==> #[trigger] bit_set(mask, j),
        i + set_from(mask, i) < 8 * mask.len() ==> !bit_set(mask, i + set_from(mask, i)),
    decreases 8 * mask.len() - i,
{
    if i < 8 * mask.len() && bit_set(mask, i) {
        lemma_set_from(mask, i + 1);
    }
}

/// A mask whose first `prefix` bits are set and whose other bits are clear gives `prefix` back.
pub proof fn law_mask_gives_its_prefix(mask: Seq<u8>, prefix: nat)
    requires
        prefix <= 8 * mask.len(),
        forall|i: int| 0 <= i < 8 * mask.len() ==> #[trigger] bit_set(mask, i) == (i < prefix),
    ensures
        leading_bits(mask) == prefix,
{
    law_prefix_is_the_leading_bits(mask);
    let r = leading_bits(mask);
    if r < prefix {
        assert(bit_set(mask, r as int));
    } else if prefix < r {
        assert(bit_set(mask, prefix as int));
    }
}

/// Two cards with the same first two octets, or with the same last four, have different
/// transaction numbers unless they have the same hardware address.
pub proof fn law_xid_tells_cards_apart(m: Seq<u8>, n: Seq<u8>)
    requires
        m.len() == 6,
        n.len() == 6,
        xid_of(m) == xid_of(n),
        m.take(2) == n.take(2) || m.skip(2) == n.skip(2),
    ensures
        m == n,
{
    let s = seq![m[2] ^ m[0], m[3] ^ m[1], m[4], m[5]];
    let t = seq![n[2] ^ n[0], n[3] ^ n[1], n[4], n[5]];
    law_be32_determines_bytes(s, 0);
    law_be32_determines_bytes(t, 0);
    assert(s.subrange(0, 4) =~= s && t.subrange(0, 4) =~= t);
    assert(s[0] == t[0] && s[1] == t[1] && s[2] == t[2] && s[3] == t[3]);
    if m.take(2) == n.take(2) {
        assert(m.take(2)[0] == n.take(2)[0] && m.take(2)[1] == n.take(2)[1]);
    } else {
        assert(m.skip(2)[0] == n.skip(2)[0] && m.skip(2)[1] == n.skip(2)[1]);
    }
    lemma_xor_cancels(m[2], m[0], n[2], n[0]);
    lemma_xor_cancels(m[3], m[1], n[3], n[1]);
    assert(m =~= n);
}

proof fn lemma_xor_cancels(a: u8, b: u8, c: u8, d: u8)
    by (bit_vector)
    requires
        a ^ b == c ^ d,
        a == c || b == d,
    ensures
        a == c,
        b == d,
{
}

/// The line for one name server.
pub open spec fn server_line(ip: Ipv4Addr) -> Seq<char> {
    "nameserver "@ + dotted(ip)
}

/// The name-server file has exactly one line for each server, in order.
pub proof fn law_resolv_has_a_line_per_server(dns: Seq<Ipv4Addr>)
    ensures
        lines(resolv_text(dns)) == dns.map_values(|ip: Ipv4Addr| server_line(ip)),
{
    lemma_resolv_pieces(dns);
    let all = pieces(resolv_text(dns), Cut::At('\n'));
    let want = dns.map_values(|ip: Ipv4Addr| server_line(ip));
    assert(all.drop_last() =~= want);
    let ended = all.drop_last().map_values(|l: Seq<char>| without_return(l));
    assert forall|i: int| 0 <= i < ended.len() implies ended[i] == want[i] by {
        lemma_server_line(dns[i]);
    }
    assert(ended =~= want);
}

proof fn lemma_resolv_pieces(dns: Seq<Ipv4Addr>)
    ensures
        pieces(resolv_text(dns), Cut::At('\n')) == dns.map_values(
            |ip: Ipv4Addr| server_line(ip),
        ).push(Seq::empty()),
    decreases dns.len(),
{
    let want = dns.map_values(|ip: Ipv4Addr| server_line(ip));
    reveal_strlit("\n");
    if dns.len() == 0 {
        assert(want.push(Seq::<char>::empty()) =~= seq![Seq::<char>::empty()]);
    } else {
        let front = dns.drop_last();
        let line = server_line(dns.last());
        lemma_resolv_pieces(front);
        lemma_server_line(dns.last());
        let before = resolv_text(front);
        lemma_pieces_extend(before, line, '\n');
        let s = before + line;
        let whole = resolv_text(dns);
        assert(whole =~= s.push('\n'));
        assert(whole.drop_last() =~= s);
        let shorter = front.map_values(|ip: Ipv4Addr| server_line(ip));
        assert(shorter.push(Seq::<char>::empty()).drop_last() =~= shorter);
        assert(Seq::<char>::empty() + line =~= line);
        assert(shorter.push(line) =~= want);
    }
}

proof fn lemma_server_line(ip: Ipv4Addr)
    ensures
        forall|i: int| 0 <= i < server_line(ip).len() ==> server_line(ip)[i] != '\n',
        without_return(server_line(ip)) == server_line(ip),
{
    reveal_strlit("nameserver ");
    reveal_strlit(".");
    lemma_decimal_chars(ip.a as nat);
    lemma_decimal_chars(ip.b as nat);
    lemma_decimal_chars(ip.c as nat);
    lemma_decimal_chars(ip.d as nat);
    assert(server_line(ip).last() == decimal(ip.d as nat).last());
}

proof fn lemma_decimal_chars(n: nat)
    ensures
        decimal(n).len() > 0,
        forall|i: int|
            0 <= i < decimal(n).len() ==> #[trigger] decimal(n)[i] != '\n' && decimal(n)[i]
                != '\r',
    decreases n,
{
    if n >= 10 {
        lemma_decimal_chars(n / 10);
    }
}

/// The weight in its byte of the bit at place `i`, counted from the highest bit of the first byte.
pub open spec fn bit_weight(i: int) -> int {
    seq![128int, 64, 32, 16, 8, 4, 2, 1][i % 8]
}

/// A bit is set exactly where its byte, divided by the bit's weight, is odd.
pub proof fn law_bits_have_their_weights(mask: Seq<u8>, i: int)
    requires
        0 <= i < 8 * mask.len(),
    ensures
        bit_set(mask, i) <==> (mask[i / 8] as int / bit_weight(i)) % 2 == 1,
{
    let b = mask[i / 8];
    assert((b >> 7u8) & 1u8 == (b / 128u8) % 2u8 && (b >> 6u8) & 1u8 == (b / 64u8) % 2u8 && (b
        >> 5u8) & 1u8 == (b / 32u8) % 2u8 && (b >> 4u8) & 1u8 == (b / 16u8) % 2u8 && (b >> 3u8)
        & 1u8 == (b / 8u8) % 2u8 && (b >> 2u8) & 1u8 == (b / 4u8) % 2u8 && (b >> 1u8) & 1u8 == (b
        / 2u8) % 2u8 && (b >> 0u8) & 1u8 == (b / 1u8) % 2u8) by (bit_vector);
    let k = i % 8;
    if k == 0 {
        assert(bit_weight(i) == 128 && (7 - k) as u8 == 7u8);
        assert((b as int / 128) % 2 == (b / 128u8) % 2u8);
    } else if k == 1 {
        assert(bit_weight(i) == 64 && (7 - k) as u8 == 6u8);
        assert((b as int / 64) % 2 == (b / 64u8) % 2u8);
    } else if k == 2 {
        assert(bit_weight(i) == 32 && (7 - k) as u8 == 5u8);
        assert((b as int / 32) % 2 == (b / 32u8) % 2u8);
    } else if k == 3 {
        assert(bit_weight(i) == 16 && (7 - k) as u8 == 4u8);
        assert((b as int / 16) % 2 == (b / 16u8) % 2u8);
    } else if k == 4 {
        assert(bit_weight(i) == 8 && (7 - k) as u8 == 3u8);
        assert((b as int / 8) % 2 == (b / 8u8) % 2u8);
    } else if k == 5 {
        assert(bit_weight(i) == 4 && (7 - k) as u8 == 2u8);
        assert((b as int / 4) % 2 == (b / 4u8) % 2u8);
    } else if k == 6 {
        assert(bit_weight(i) == 2 && (7 - k) as u8 == 1u8);
        assert((b as int / 2) % 2 == (b / 2u8) % 2u8);
    } else {
        assert(bit_weight(i) == 1 && (7 - k) as u8 == 0u8);
        assert((b as int / 1) % 2 == (b / 1u8) % 2u8);
    }
}

/// A packet with the given header and options, whatever follows the end mark.
pub open spec fn packet_with(
    header: Seq<u8>,
    list: Seq<(u8, Seq<u8>)>,
    after: Seq<u8>,
) -> Seq<u8> {
    header + seq![99u8, 130, 83, 99] + options_bytes(list) + seq![255u8] + after
}

/// Whether a header is that of a request or a reply, and options can be written down.
pub open spec fn well_formed(header: Seq<u8>, list: Seq<(u8, Seq<u8>)>) -> bool {
    &&& header.len() == 236
    &&& header[0] == 1 || header[0] == 2
    &&& forall|i: int|
        0 <= i < list.len() ==> (#[trigger] list[i]).0 != 0 && list[i].0 != 255 && list[i].1.len()
            <= 255
}

/// Whether option `i` of a list has code `code` and a value of `least` to `most` bytes.
pub open spec fn option_is(
    list: Seq<(u8, Seq<u8>)>,
    i: int,
    code: u8,
    least: int,
    most: int,
) -> bool {
    list[i].0 == code && least <= list[i].1.len() <= most
}

/// Whether option `i` is the last of a list with code `code` and a value of `least` to `most`
/// bytes.
pub open spec fn last_option(
    list: Seq<(u8, Seq<u8>)>,
    i: int,
    code: u8,
    least: int,
    most: int,
) -> bool {
    &&& 0 <= i < list.len()
    &&& option_is(list, i, code, least, most)
    &&& forall|j: int| i < j < list.len() ==> !#[trigger] option_is(list, j, code, least, most)
}

/// Whether no option of a list has code `code` and a value of `least` to `most` bytes.
pub open spec fn no_option(list: Seq<(u8, Seq<u8>)>, code: u8, least: int, most: int) -> bool {
    forall|j: int| 0 <= j < list.len() ==> !#[trigger] option_is(list, j, code, least, most)
}

proof fn lemma_packet_read(header: Seq<u8>, list: Seq<(u8, Seq<u8>)>, after: Seq<u8>)
    requires
        well_formed(header, list),
    ensures
        reply_outcome(packet_with(header, list, after), be32_at(header, 4)) == Ok::<
            LeaseView,
            Seq<char>,
        >(lease_of(addr_at(header, 16), list)),
        message_type(packet_with(header, list, after)) == first_type(list),
{
    assert forall|i: int| 0 <= i < list.len() implies writable(#[trigger] list[i]) by {
        assert(list[i].0 != 0);
    }
    law_reply_reads_back(header, list, after, be32_at(header, 4));
    assert(be32(DHCP_MAGIC) =~= seq![99u8, 130, 83, 99]);
}

proof fn lemma_last_value(list: Seq<(u8, Seq<u8>)>, i: int, code: u8, room: Room)
    requires
        0 <= i < list.len(),
        list[i].0 == code,
        fits(room, list[i].1.len()),
        forall|j: int|
            i < j < list.len() ==> (#[trigger] list[j]).0 != code || !fits(room, list[j].1.len()),
    ensures
        last_value(list, code, room) == Some(list[i].1),
    decreases list.len(),
{
    if i < list.len() - 1 {
        let front = list.drop_last();
        assert(list[list.len() - 1].0 != code || !fits(room, list[list.len() - 1].1.len()));
        assert forall|j: int| i < j < front.len() implies (#[trigger] front[j]).0 != code || !fits(
            room,
            front[j].1.len(),
        ) by {
            assert(front[j] == list[j]);
        }
        lemma_last_value(front, i, code, room);
    }
}

proof fn lemma_no_value(list: Seq<(u8, Seq<u8>)>, code: u8, room: Room)
    requires
        forall|j: int|
            0 <= j < list.len() ==> (#[trigger] list[j]).0 != code || !fits(room, list[j].1.len()),
    ensures
        last_value(list, code, room) is None,
    decreases list.len(),
{
    if list.len() > 0 {
        let front = list.drop_last();
        assert(list[list.len() - 1].0 != code || !fits(room, list[list.len() - 1].1.len()));
        assert forall|j: int| 0 <= j < front.len() implies (#[trigger] front[j]).0 != code || !fits(
            room,
            front[j].1.len(),
        ) by {
            assert(front[j] == list[j]);
        }
        lemma_no_value(front, code, room);
    }
}

proof fn lemma_last_four(list: Seq<(u8, Seq<u8>)>, i: int, code: u8, most: int, room: Room)
    requires
        room is Four ==> most == 4,
        room is FourOrMore ==> most == 255,
        forall|j: int| 0 <= j < list.len() ==> (#[trigger] list[j]).1.len() <= 255,
    ensures
        last_option(list, i, code, 4, most) ==> last_value(list, code, room) == Some(list[i].1),
        no_option(list, code, 4, most) ==> last_value(list, code, room) is None,
{
    if last_option(list, i, code, 4, most) {
        assert forall|j: int| i < j < list.len() implies (#[trigger] list[j]).0 != code || !fits(
            room,
            list[j].1.len(),
        ) by {
            assert(!option_is(list, j, code, 4, most));
        }
        lemma_last_value(list, i, code, room);
    }
    if no_option(list, code, 4, most) {
        assert forall|j: int| 0 <= j < list.len() implies (#[trigger] list[j]).0 != code || !fits(
            room,
            list[j].1.len(),
        ) by {
            assert(!option_is(list, j, code, 4, most));
        }
        lemma_no_value(list, code, room);
    }
}

/// A reply is read with the prefix length of the last mask in it: where the first `prefix` bits
/// of that mask are set and the others are clear, the lease has prefix length `prefix`. Without a
/// mask the prefix length is 24.
pub proof fn law_lease_has_the_prefix_of_its_mask(
    header: Seq<u8>,
    list: Seq<(u8, Seq<u8>)>,
    after: Seq<u8>,
    i: int,
    prefix: int,
)
    requires
        well_formed(header, list),
        0 <= prefix <= 32,
    ensures
        reply_outcome(packet_with(header, list, after), be32_at(header, 4)) is Ok,
        last_option(list, i, 1, 4, 4) && (forall|b: int|
            0 <= b < 32 ==> #[trigger] bit_set(list[i].1, b) == (b < prefix)) ==> reply_outcome(
            packet_with(header, list, after),
            be32_at(header, 4),
        )->Ok_0.prefix_len == prefix,
        no_option(list, 1, 4, 4) ==> reply_outcome(
            packet_with(header, list, after),
            be32_at(header, 4),
        )->Ok_0.prefix_len == 24,
{
    lemma_packet_read(header, list, after);
    lemma_last_four(list, i, 1, 4, Room::Four);
    if last_option(list, i, 1, 4, 4) && (forall|b: int|
        0 <= b < 32 ==> #[trigger] bit_set(list[i].1, b) == (b < prefix)) {
        law_mask_gives_its_prefix(list[i].1, prefix as nat);
    }
}

/// A reply is read with the address in its header, with the first address of its last list of
/// routers, with its last server, and with its last lease time in seconds; what it does not say
/// is not made up.
pub proof fn law_lease_has_what_the_reply_says(
    header: Seq<u8>,
    list: Seq<(u8, Seq<u8>)>,
    after: Seq<u8>,
    i: int,
)
    requires
        well_formed(header, list),
    ensures
        ({
            let r = reply_outcome(packet_with(header, list, after), be32_at(header, 4));
            let lease = r->Ok_0;
            let v = list[i].1;
            &&& r is Ok
            &&& octets_of(lease.yiaddr) == header.subrange(16, 20)
            &&& last_option(list, i, 3, 4, 255) ==> lease.router == Some(
                Ipv4Addr { a: v[0], b: v[1], c: v[2], d: v[3] },
            )
            &&& no_option(list, 3, 4, 255) ==> lease.router is None
            &&& last_option(list, i, 54, 4, 4) ==> lease.server_id == Some(
                Ipv4Addr { a: v[0], b: v[1], c: v[2], d: v[3] },
            )
            &&& no_option(list, 54, 4, 4) ==> lease.server_id is None
            &&& last_option(list, i, 51, 4, 4) ==> lease.lease_secs is Some
                && lease.lease_secs->Some_0 == v[3] + 256 * (v[2] + 256 * (v[1] + 256 * v[0]))
            &&& no_option(list, 51, 4, 4) ==> lease.lease_secs is None
        }),
{
    lemma_packet_read(header, list, after);
    lemma_last_four(list, i, 3, 255, Room::FourOrMore);
    lemma_last_four(list, i, 54, 4, Room::Four);
    lemma_last_four(list, i, 51, 4, Room::Four);
    assert(octets_of(addr_at(header, 16)) =~= header.subrange(16, 20));
}

/// Name servers add up: a reply without options has none, a further option 6 adds one server for
/// each four bytes of its value, in order, after those there are, and any other option adds none.
pub proof fn law_name_servers_add_up(
    header: Seq<u8>,
    list: Seq<(u8, Seq<u8>)>,
    option: (u8, Seq<u8>),
    after: Seq<u8>,
    k: int,
)
    requires
        well_formed(header, list.push(option)),
    ensures
        ({
            let xid = be32_at(header, 4);
            let none = reply_outcome(packet_with(header, Seq::empty(), after), xid);
            let r = reply_outcome(packet_with(header, list, after), xid);
            let more = reply_outcome(packet_with(header, list.push(option), after), xid);
            let n = r->Ok_0.dns.len() as int;
            &&& none is Ok && r is Ok && more is Ok
            &&& none->Ok_0.dns.len() == 0
            &&& option.0 != 6 ==> more->Ok_0.dns == r->Ok_0.dns
            &&& option.0 == 6 ==> more->Ok_0.dns.len() == n + option.1.len() / 4
                && more->Ok_0.dns.take(n) == r->Ok_0.dns
            &&& option.0 == 6 && 0 <= k < option.1.len() / 4 ==> octets_of(more->Ok_0.dns[n + k])
                == option.1.subrange(4 * k, 4 * k + 4)
        }),
{
    let none = Seq::<(u8, Seq<u8>)>::empty();
    let longer = list.push(option);
    assert forall|i: int| 0 <= i < list.len() implies (#[trigger] list[i]).0 != 0 && list[i].0
        != 255 && list[i].1.len() <= 255 by {
        assert(longer[i] == list[i]);
    }
    lemma_packet_read(header, none, after);
    lemma_packet_read(header, list, after);
    lemma_packet_read(header, longer, after);
    assert(longer.drop_last() =~= list);
    if option.0 == 6 {
        let more = dns_in(list) + addrs_in(option.1);
        assert(more.take(dns_in(list).len() as int) =~= dns_in(list));
        if 0 <= k < option.1.len() / 4 {
            assert(more[dns_in(list).len() + k] == addr_at(option.1, 4 * k));
            assert(octets_of(addr_at(option.1, 4 * k)) =~= option.1.subrange(4 * k, 4 * k + 4));
        }
    }
}

/// The type of a packet is the value of its first one-byte option 53, and a packet without such
/// an option has no type.
pub proof fn law_type_is_the_first_one(
    header: Seq<u8>,
    list: Seq<(u8, Seq<u8>)>,
    after: Seq<u8>,
    i: int,
)
    requires
        well_formed(header, list),
    ensures
        0 <= i < list.len() && option_is(list, i, 53, 1, 1) && (forall|j: int|
            0 <= j < i ==> !#[trigger] option_is(list, j, 53, 1, 1)) ==> message_type(
            packet_with(header, list, after),
        ) == Some(list[i].1[0]),
        no_option(list, 53, 1, 1) ==> message_type(packet_with(header, list, after)) is None,
{
    lemma_packet_read(header, list, after);
    lemma_first_type(list, i);
}

proof fn lemma_first_type(list: Seq<(u8, Seq<u8>)>, i: int)
    ensures
        0 <= i < list.len() && option_is(list, i, 53, 1, 1) && (forall|j: int|
            0 <= j < i ==> !#[trigger] option_is(list, j, 53, 1, 1)) ==> first_type(list) == Some(
            list[i].1[0],
        ),
        no_option(list, 53, 1, 1) ==> first_type(list) is None,
    decreases list.len(),
{
    if list.len() > 0 {
        let rest = list.drop_first();
        lemma_first_type(rest, i - 1);
        if 0 <= i < list.len() && option_is(list, i, 53, 1, 1) && (forall|j: int|
            0 <= j < i ==> !#[trigger] option_is(list, j, 53, 1, 1)) && i > 0 {
            assert(!option_is(list, 0, 53, 1, 1));
            assert(option_is(rest, i - 1, 53, 1, 1));
            assert forall|j: int| 0 <= j < i - 1 implies !#[trigger] option_is(
                rest,
                j,
                53,
                1,
                1,
            ) by {
                assert(!option_is(list, j + 1, 53, 1, 1));
            }
        }
        if no_option(list, 53, 1, 1) {
            assert(!option_is(list, 0, 53, 1, 1));
            assert forall|j: int| 0 <= j < rest.len() implies !#[trigger] option_is(
                rest,
                j,
                53,
                1,
                1,
            ) by {
                assert(!option_is(list, j + 1, 53, 1, 1));
            }
        }
    }
}

/// Options stand one after the other: a code, the length of the value, and the value. Zeros are
/// passed over, 255 ends the list, and an option that the bytes do not hold in full is a fault.
pub proof fn law_options_stand_in_a_row(code: u8, value: Seq<u8>, rest: Seq<u8>)
    requires
        code != 0,
        code != 255,
        value.len() <= 255,
    ensures
        option_bytes(code, value) == seq![code, value.len() as u8] + value,
        options(seq![code, value.len() as u8] + value + rest) == (
            seq![(code, value)] + options(rest).0,
            options(rest).1,
        ),
        options(seq![0u8] + rest) == options(rest),
        options(seq![255u8] + rest) == (
            Seq::<(u8, Seq<u8>)>::empty(),
            OptionsEnd::Complete,
        ),
        options(seq![code]) == (Seq::<(u8, Seq<u8>)>::empty(), OptionsEnd::NoLength),
        rest.len() < value.len() ==> options(seq![code, value.len() as u8] + rest) == (
            Seq::<(u8, Seq<u8>)>::empty(),
            OptionsEnd::Truncated(code),
        ),
{
    let s = seq![code, value.len() as u8] + value + rest;
    assert(s[1] == value.len());
    assert(s.subrange(2, 2 + s[1]) =~= value);
    assert(s.skip(2 + s[1]) =~= rest);
    assert((seq![0u8] + rest).drop_first() =~= rest);
}

/// A packet is refused where it is too short, where its operation or its magic cookie is another,
/// where it belongs to another transaction, and where an option is not there in full; in each
/// case there is no lease.
pub proof fn law_bad_replies_are_refused(buf: Seq<u8>, expect_xid: u32)
    ensures
        reply_outcome(buf, expect_xid) is Ok <==> {
            &&& buf.len() >= 240
            &&& buf[0] == 1 || buf[0] == 2
            &&& buf[236] == 99 && buf[237] == 130 && buf[238] == 83 && buf[239] == 99
            &&& be32_at(buf, 4) == expect_xid
            &&& options(buf.skip(240)).1 == OptionsEnd::Complete
        },
{
    if buf.len() >= 240 {
        law_be32_determines_bytes(buf, 236);
        let four = buf.subrange(236, 240);
        assert(be32(DHCP_MAGIC) =~= seq![99u8, 130, 83, 99]);
        assert(four[0] == buf[236] && four[1] == buf[237] && four[2] == buf[238] && four[3]
            == buf[239]);
        if be32_at(buf, 236) == DHCP_MAGIC {
            assert(four == seq![99u8, 130, 83, 99]);
        }
    }
}

/// A packet of the client has each field of its header in its place: operation 1, an Ethernet
/// address of six octets, no hops, the transaction number, no seconds, the broadcast flag, no
/// addresses, the hardware address, no names; then the magic cookie.
pub proof fn law_client_header_has_its_fields(mac: Seq<u8>, xid: u32, list: Seq<(u8, Seq<u8>)>)
    requires
        mac.len() == 6,
    ensures
        ({
            let b = client_packet(mac, xid, list);
            &&& b.len() == 241 + options_bytes(list).len()
            &&& b[0] == 1 && b[1] == 1 && b[2] == 6 && b[3] == 0
            &&& xid == b[7] + 256 * (b[6] + 256 * (b[5] + 256 * b[4]))
            &&& b[8] == 0 && b[9] == 0 && b[10] == 128 && b[11] == 0
            &&& forall|i: int| 12 <= i < 28 ==> #[trigger] b[i] == 0
            &&& b.subrange(28, 34) == mac
            &&& forall|i: int| 34 <= i < 236 ==> #[trigger] b[i] == 0
            &&& b.subrange(236, 240) == seq![99u8, 130, 83, 99]
            &&& b.skip(240) == options_bytes(list) + seq![255u8]
        }),
{
    let b = client_packet(mac, xid, list);
    let header = bootp_header(mac, xid);
    assert(header.len() == 236);
    assert(be32(DHCP_MAGIC) =~= seq![99u8, 130, 83, 99]);
    assert forall|i: int| 0 <= i < 236 implies #[trigger] b[i] == header[i] by {}
    law_integers_read_back(0, xid);
    assert(b[4] == be32(xid)[0] && b[5] == be32(xid)[1] && b[6] == be32(xid)[2] && b[7]
        == be32(xid)[3]);
    assert(b.subrange(28, 34) =~= mac);
    assert(b.subrange(236, 240) =~= seq![99u8, 130, 83, 99]);
    assert(b.skip(240) =~= options_bytes(list) + seq![255u8]);
}

/// A DISCOVER says that it is one and asks for the subnet mask, the routers, the name servers,
/// the broadcast address and the domain name, and says nothing else.
pub proof fn law_discover_says_this(mac: Seq<u8>, xid: u32)
    requires
        mac.len() == 6,
    ensures
        client_packet(mac, xid, discover_options()).skip(240) == seq![
            53u8, 1, 1, 55, 5, 1, 3, 6, 28, 15, 255,
        ],
{
    let list = discover_options();
    law_client_header_has_its_fields(mac, xid, list);
    reveal_with_fuel(options_bytes, 3);
    assert(list.drop_first() =~= seq![(OPT_PARAM_REQ, wanted())]);
    assert(seq![(OPT_PARAM_REQ, wanted())].drop_first() =~= Seq::<(u8, Seq<u8>)>::empty());
    assert(options_bytes(list) =~= seq![53u8, 1, 1, 55, 5, 1, 3, 6, 28, 15]);
    assert(options_bytes(list) + seq![255u8] =~= seq![53u8, 1, 1, 55, 5, 1, 3, 6, 28, 15, 255]);
}

/// A REQUEST says that it is one, which address it asks for and, where that is known, from which
/// server; and it asks for what a DISCOVER asks for.
pub proof fn law_request_says_this(mac: Seq<u8>, xid: u32, ip: Ipv4Addr, sid: Ipv4Addr)
    requires
        mac.len() == 6,
    ensures
        client_packet(mac, xid, request_options(ip, None)).skip(240) == seq![
            53u8, 1, 3, 50, 4, ip.a, ip.b, ip.c, ip.d,
        ] + seq![55u8, 5, 1, 3, 6, 28, 15, 255],
        client_packet(mac, xid, request_options(ip, Some(sid))).skip(240) == seq![
            53u8, 1, 3, 50, 4, ip.a, ip.b, ip.c, ip.d,
        ] + seq![54u8, 4, sid.a, sid.b, sid.c, sid.d] + seq![55u8, 5, 1, 3, 6, 28, 15, 255],
{
    let last = seq![(OPT_PARAM_REQ, wanted())];
    let server = seq![(OPT_SERVER_ID, octets_of(sid))] + last;
    let front = seq![53u8, 1, 3, 50, 4, ip.a, ip.b, ip.c, ip.d];
    let asked = seq![55u8, 5, 1, 3, 6, 28, 15];
    lemma_options_bytes_one(OPT_PARAM_REQ, wanted());
    assert(options_bytes(last) =~= asked);
    lemma_options_bytes_cons(OPT_SERVER_ID, octets_of(sid), last);
    let named = seq![54u8, 4, sid.a, sid.b, sid.c, sid.d];
    assert(option_bytes(OPT_SERVER_ID, octets_of(sid)) =~= named);
    lemma_request_front(ip, last);
    lemma_request_front(ip, server);
    let without = request_options(ip, None);
    let with = request_options(ip, Some(sid));
    assert(with =~= seq![(OPT_MSG_TYPE, seq![DHCP_REQUEST]), (OPT_REQ_IP, octets_of(ip))] + server);
    law_client_header_has_its_fields(mac, xid, without);
    law_client_header_has_its_fields(mac, xid, with);
    assert(asked + seq![255u8] =~= seq![55u8, 5, 1, 3, 6, 28, 15, 255]);
    assert(front + asked + seq![255u8] =~= front + (asked + seq![255u8]));
    assert(front + (named + asked) + seq![255u8] =~= front + named + (asked + seq![255u8]));
}

proof fn lemma_request_front(ip: Ipv4Addr, rest: Seq<(u8, Seq<u8>)>)
    ensures
        options_bytes(
            seq![(OPT_MSG_TYPE, seq![DHCP_REQUEST]), (OPT_REQ_IP, octets_of(ip))] + rest,
        ) == seq![53u8, 1, 3, 50, 4, ip.a, ip.b, ip.c, ip.d] + options_bytes(rest),
{
    let second = seq![(OPT_REQ_IP, octets_of(ip))] + rest;
    lemma_options_bytes_cons(OPT_REQ_IP, octets_of(ip), rest);
    lemma_options_bytes_cons(OPT_MSG_TYPE, seq![DHCP_REQUEST], second);
    assert(seq![(OPT_MSG_TYPE, seq![DHCP_REQUEST]), (OPT_REQ_IP, octets_of(ip))] + rest =~= seq![
        (OPT_MSG_TYPE, seq![DHCP_REQUEST]),
    ] + second);
    let one = option_bytes(OPT_MSG_TYPE, seq![DHCP_REQUEST]);
    let two = option_bytes(OPT_REQ_IP, octets_of(ip));
    assert(one + two =~= seq![53u8, 1, 3, 50, 4, ip.a, ip.b, ip.c, ip.d]);
    assert(one + (two + options_bytes(rest)) =~= (one + two) + options_bytes(rest));
}

/// The transaction number has the last two octets of the hardware address at its end, and before
/// them the third and the fourth octet, with the first and the second folded in.
pub proof fn law_xid_folds_the_address(mac: Seq<u8>)
    requires
        mac.len() == 6,
    ensures
        xid_of(mac) % 65536 == 256 * mac[4] + mac[5],
        ((xid_of(mac) / 65536) % 256) as u8 ^ mac[1] == mac[3],
        (xid_of(mac) / 16777216) as u8 ^ mac[0] == mac[2],
{
    let a = mac[2] ^ mac[0];
    let b = mac[3] ^ mac[1];
    let s = seq![a, b, mac[4], mac[5]];
    law_be32_determines_bytes(s, 0);
    let n = xid_of(mac);
    assert(n == be32_at(s, 0));
    assert(s.subrange(0, 4) =~= s);
    assert(be32(n)[0] == a && be32(n)[1] == b && be32(n)[2] == mac[4] && be32(n)[3] == mac[5]);
    lemma_unfold(mac[2], mac[0]);
    lemma_unfold(mac[3], mac[1]);
    assert(n % 65536 == 256 * (n / 256 % 256) + n % 256);
}

proof fn lemma_unfold(a: u8, b: u8)
    by (bit_vector)
    ensures
        (a ^ b) ^ b == a,
{
}

proof fn lemma_options_short(s: Seq<u8>)
    ensures
        forall|j: int| 0 <= j < options(s).0.len() ==> (#[trigger] options(s).0[j]).1.len() <= 255,
    decreases s.len(),
{
    if s.len() == 0 || s[0] == OPT_END {
    } else if s[0] == 0 {
        lemma_options_short(s.drop_first());
        let all = options(s.drop_first()).0;
        assert forall|j: int| 0 <= j < options(s).0.len() implies (
        #[trigger] options(s).0[j]).1.len() <= 255 by {
            assert(options(s).0[j] == all[j]);
        }
    } else if s.len() >= 2 && s.len() >= 2 + s[1] {
        let rest = s.skip(2 + s[1]);
        lemma_options_short(rest);
        let all = options(s).0;
        assert forall|j: int| 0 <= j < all.len() implies (#[trigger] all[j]).1.len() <= 255 by {
            if j > 0 {
                assert(all[j] == options(rest).0[j - 1]);
            }
        }
    }
}

/// However its options stand, with padding between them or without an end mark, a packet that is
/// read as a lease says in it the address of its header and what its options say: the leading
/// bits of the last mask, or 24; the first of the last routers; the last server; and the last
/// lease time.
pub proof fn law_any_lease_is_what_the_options_say(buf: Seq<u8>, expect_xid: u32, i: int)
    requires
        reply_outcome(buf, expect_xid) is Ok,
    ensures
        ({
            let list = options(buf.skip(240)).0;
            let lease = reply_outcome(buf, expect_xid)->Ok_0;
            let v = list[i].1;
            &&& octets_of(lease.yiaddr) == buf.subrange(16, 20)
            &&& last_option(list, i, 1, 4, 4) ==> lease.prefix_len == leading_bits(v)
            &&& no_option(list, 1, 4, 4) ==> lease.prefix_len == 24
            &&& last_option(list, i, 3, 4, 255) ==> lease.router == Some(
                Ipv4Addr { a: v[0], b: v[1], c: v[2], d: v[3] },
            )
            &&& no_option(list, 3, 4, 255) ==> lease.router is None
            &&& last_option(list, i, 54, 4, 4) ==> lease.server_id == Some(
                Ipv4Addr { a: v[0], b: v[1], c: v[2], d: v[3] },
            )
            &&& no_option(list, 54, 4, 4) ==> lease.server_id is None
            &&& last_option(list, i, 51, 4, 4) ==> lease.lease_secs is Some
                && lease.lease_secs->Some_0 == v[3] + 256 * (v[2] + 256 * (v[1] + 256 * v[0]))
            &&& no_option(list, 51, 4, 4) ==> lease.lease_secs is None
            &&& no_option(list, 6, 0, 255) ==> lease.dns.len() == 0
        }),
{
    let list = options(buf.skip(240)).0;
    lemma_options_short(buf.skip(240));
    lemma_last_four(list, i, 1, 4, Room::Four);
    lemma_last_four(list, i, 3, 255, Room::FourOrMore);
    lemma_last_four(list, i, 54, 4, Room::Four);
    lemma_last_four(list, i, 51, 4, Room::Four);
    assert(octets_of(addr_at(buf, 16)) =~= buf.subrange(16, 20));
    if last_option(list, i, 1, 4, 4) {
        law_prefix_is_the_leading_bits(list[i].1);
    }
    if no_option(list, 6, 0, 255) {
        lemma_no_servers(list);
    }
}

proof fn lemma_no_servers(list: Seq<(u8, Seq<u8>)>)
    requires
        no_option(list, 6, 0, 255),
        forall|j: int| 0 <= j < list.len() ==> (#[trigger] list[j]).1.len() <= 255,
    ensures
        dns_in(list).len() == 0,
    decreases list.len(),
{
    if list.len() > 0 {
        let front = list.drop_last();
        assert(!option_is(list, list.len() - 1, 6, 0, 255));
        assert forall|j: int| 0 <= j < front.len() implies !#[trigger] option_is(
            front,
            j,
            6,
            0,
            255,
        ) by {
            assert(!option_is(list, j, 6, 0, 255));
        }
        lemma_no_servers(front);
    }
}

/// A lease is shown as it is.
pub proof fn law_leases_are_shown_as_they_are(lease: Lease, e: String)
    ensures
        lease@.yiaddr == lease.yiaddr,
        lease@.prefix_len == lease.prefix_len,
        lease@.router == lease.router,
        lease@.dns == lease.dns@,
        lease@.server_id == lease.server_id,
        lease@.lease_secs == lease.lease_secs,
        lease_shown(Ok(lease)) == Ok::<LeaseView, Seq<char>>(lease@),
        lease_shown(Err(e)) == Err::<LeaseView, Seq<char>>(e@),
{
}

/// Two replies with the same options are read with the same name servers, however the options
/// stand in their bytes and whatever else the replies say.
pub proof fn law_same_options_give_the_same_servers(
    one: Seq<u8>,
    one_xid: u32,
    other: Seq<u8>,
    other_xid: u32,
)
    requires
        reply_outcome(one, one_xid) is Ok,
        reply_outcome(other, other_xid) is Ok,
        options(one.skip(240)).0 == options(other.skip(240)).0,
    ensures
        reply_outcome(one, one_xid)->Ok_0.dns == reply_outcome(other, other_xid)->Ok_0.dns,
{
}

} // verus!
