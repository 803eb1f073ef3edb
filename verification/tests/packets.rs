use conglobate::addr::Ipv4Addr;
use conglobate::dhcp::{
    build_dhcp_discover, build_dhcp_request, dhcp_options_slice, mask_to_prefix, parse_dhcp_reply,
    parse_message_type, reply_is, BOOTP_FLAG_BROADCAST, BOOTP_HLEN_ETHER, BOOTP_HTYPE_ETHER,
    BOOTP_OP_REPLY, BOOTP_OP_REQUEST, DHCP_ACK, DHCP_DISCOVER, DHCP_MAGIC, DHCP_REQUEST, OPT_DNS, OPT_END,
    OPT_LEASE_TIME, OPT_MSG_TYPE, OPT_REQ_IP, OPT_ROUTER, OPT_SERVER_ID, OPT_SUBNET_MASK,
};
use conglobate::iface::parse_mac;
use conglobate::netlink::{
    align4, build_host_route, build_ifaddrmsg, build_ifinfomsg, build_nlmsg, parse_nlmsg_ack,
    AF_INET, IFA_LOCAL, IFF_UP, NLMSG_ERROR, NLM_F_ACK, NLM_F_REQUEST, RTA_DST, RTM_NEWLINK,
    RTN_UNICAST, RT_SCOPE_LINK, RT_SCOPE_UNIVERSE,
};

const MAC: [u8; 6] = [0x52, 0x54, 0x00, 0x12, 0x34, 0x56];

#[test]
fn parse_mac_roundtrip() {
    assert_eq!(parse_mac("52:54:00:12:34:56").unwrap(), MAC);
    assert!(parse_mac("52:54:00:12:34").is_err()); // too few
    assert!(parse_mac("52:54:00:12:34:56:78").is_err()); // too many
    assert!(parse_mac("gg:54:00:12:34:56").is_err()); // bad hex
}

#[test]
fn mask_to_prefix_lengths() {
    assert_eq!(mask_to_prefix([255, 255, 255, 0]), 24);
    assert_eq!(mask_to_prefix([255, 255, 0, 0]), 16);
    assert_eq!(mask_to_prefix([255, 255, 255, 252]), 30);
    assert_eq!(mask_to_prefix([0, 0, 0, 0]), 0);
}

#[test]
fn align4_rounds_up() {
    assert_eq!(align4(0), 0);
    assert_eq!(align4(1), 4);
    assert_eq!(align4(4), 4);
    assert_eq!(align4(5), 8);
}

#[test]
fn discover_is_well_formed() {
    let xid: u32 = 0xDEAD_BEEF;
    let pkt = build_dhcp_discover(MAC, xid);

    // Fixed header.
    assert_eq!(pkt[0], BOOTP_OP_REQUEST);
    assert_eq!(pkt[1], BOOTP_HTYPE_ETHER);
    assert_eq!(pkt[2], BOOTP_HLEN_ETHER);
    assert_eq!(&pkt[4..8], &xid.to_be_bytes());
    // Broadcast flag.
    assert_eq!(&pkt[10..12], &BOOTP_FLAG_BROADCAST.to_be_bytes());
    // Hardware address.
    assert_eq!(&pkt[28..34], &MAC);
    // Magic cookie.
    assert_eq!(
        u32::from_be_bytes([pkt[236], pkt[237], pkt[238], pkt[239]]),
        DHCP_MAGIC
    );
    // The message type comes right after the cookie.
    assert_eq!(&pkt[240..243], &[OPT_MSG_TYPE, 1, DHCP_DISCOVER]);
    // The end mark comes last.
    assert_eq!(*pkt.last().unwrap(), OPT_END);
    // The message type reads back.
    assert_eq!(parse_message_type(&pkt), Some(DHCP_DISCOVER));
}

#[test]
fn request_carries_requested_ip_and_server_id() {
    let xid = 0x0102_0304;
    let yi = Ipv4Addr::new(10, 0, 2, 15);
    let sid = Ipv4Addr::new(10, 0, 2, 2);
    let pkt = build_dhcp_request(MAC, xid, yi, Some(sid));

    assert_eq!(parse_message_type(&pkt), Some(DHCP_REQUEST));

    let opts = dhcp_options_slice(&pkt).unwrap();
    assert_eq!(find_option(opts, OPT_REQ_IP), Some(yi.octets().to_vec()));
    assert_eq!(
        find_option(opts, OPT_SERVER_ID),
        Some(sid.octets().to_vec())
    );
}

#[test]
fn request_omits_server_id_when_unknown() {
    let pkt = build_dhcp_request(MAC, 1, Ipv4Addr::new(1, 2, 3, 4), None);
    let opts = dhcp_options_slice(&pkt).unwrap();
    assert_eq!(find_option(opts, OPT_SERVER_ID), None);
}

#[test]
fn parse_ack_extracts_lease_fields() {
    let xid = 0xABCD_1234;
    let yi = Ipv4Addr::new(10, 0, 2, 15);
    let ack = build_test_ack(
        xid,
        yi,
        [255, 255, 255, 0],
        Some(Ipv4Addr::new(10, 0, 2, 2)),
        &[Ipv4Addr::new(10, 0, 2, 3), Ipv4Addr::new(8, 8, 8, 8)],
        Some(Ipv4Addr::new(10, 0, 2, 2)),
        Some(86400),
    );
    let lease = parse_dhcp_reply(&ack, xid).unwrap();
    assert_eq!(lease.yiaddr, yi);
    assert_eq!(lease.prefix_len, 24);
    assert_eq!(lease.router, Some(Ipv4Addr::new(10, 0, 2, 2)));
    assert_eq!(
        lease.dns,
        vec![Ipv4Addr::new(10, 0, 2, 3), Ipv4Addr::new(8, 8, 8, 8)]
    );
    assert_eq!(lease.server_id, Some(Ipv4Addr::new(10, 0, 2, 2)));
    assert_eq!(lease.lease_secs, Some(86400));
}

#[test]
fn parse_rejects_wrong_xid_and_bad_magic() {
    let xid = 0x1111_1111;
    let ack = build_test_ack(
        xid,
        Ipv4Addr::new(1, 2, 3, 4),
        [255, 255, 255, 0],
        None,
        &[],
        None,
        None,
    );
    // Another transaction.
    assert!(parse_dhcp_reply(&ack, 0x2222_2222).is_err());
    // A broken cookie.
    let mut bad = ack.clone();
    bad[236] = 0;
    assert!(parse_dhcp_reply(&bad, xid).is_err());
    // Cut short.
    assert!(parse_dhcp_reply(&ack[..100], xid).is_err());
}

#[test]
fn nlmsg_header_length_and_alignment() {
    let body = build_ifinfomsg(3, IFF_UP, 0x1);
    assert_eq!(body.len(), 16, "ifinfomsg is 16 bytes");
    let msg = build_nlmsg(RTM_NEWLINK, NLM_F_REQUEST | NLM_F_ACK, 7, &body);
    // The length field holds the whole length.
    let len = u32::from_le_bytes([msg[0], msg[1], msg[2], msg[3]]) as usize;
    assert_eq!(len, msg.len());
    assert_eq!(len, 16 + 16);
    // Type, flags and number.
    assert_eq!(u16::from_le_bytes([msg[4], msg[5]]), RTM_NEWLINK);
    assert_eq!(
        u16::from_le_bytes([msg[6], msg[7]]),
        NLM_F_REQUEST | NLM_F_ACK
    );
    assert_eq!(u32::from_le_bytes([msg[8], msg[9], msg[10], msg[11]]), 7);
    // A whole number of words.
    assert_eq!(msg.len() % 4, 0);
}

#[test]
fn host_route_attrs_are_aligned() {
    let body = build_host_route(5);
    assert_eq!(body.len() % 4, 0);
    assert_eq!(body.len(), 12 + 8 + 8);
    assert_eq!(body[0], AF_INET);
    assert_eq!(body[1], 32);
    assert_eq!(body[6], RT_SCOPE_LINK);
    assert_eq!(body[7], RTN_UNICAST);
    let a0_len = u16::from_le_bytes([body[12], body[13]]);
    let a0_type = u16::from_le_bytes([body[14], body[15]]);
    assert_eq!(a0_len, 8);
    assert_eq!(a0_type, RTA_DST);
    assert_eq!(&body[16..20], &[255, 255, 255, 255]);
}

#[test]
fn ifaddrmsg_carries_addr_and_prefix() {
    let body = build_ifaddrmsg(9, Ipv4Addr::new(192, 168, 1, 50), 24);
    assert_eq!(body.len() % 4, 0);
    assert_eq!(body[0], AF_INET);
    assert_eq!(body[1], 24);
    assert_eq!(body[3], RT_SCOPE_UNIVERSE);
    assert_eq!(u32::from_le_bytes([body[4], body[5], body[6], body[7]]), 9);
    assert_eq!(u16::from_le_bytes([body[10], body[11]]), IFA_LOCAL);
    assert_eq!(&body[12..16], &[192, 168, 1, 50]);
}

#[test]
fn ack_errno_zero_is_ok_nonzero_is_err() {
    let ok = build_nlmsg_error(0, 7);
    assert!(parse_nlmsg_ack(&ok, RTM_NEWLINK).is_ok());
    let enodev = build_nlmsg_error(-19, 7); // -ENODEV
    assert!(parse_nlmsg_ack(&enodev, RTM_NEWLINK).is_err());
    // A reply of another type is refused.
    let not_error = build_nlmsg(RTM_NEWLINK, 0, 7, &[0u8; 16]);
    assert!(parse_nlmsg_ack(&not_error, RTM_NEWLINK).is_err());
}

#[test]
fn ack_messages_say_what_went_wrong() {
    assert_eq!(
        parse_nlmsg_ack(&build_nlmsg_error(-19, 7), RTM_NEWLINK),
        Err("netlink request (type 16) failed: errno 19".to_string())
    );
    assert_eq!(
        parse_nlmsg_ack(&build_nlmsg_error(i32::MIN, 7), RTM_NEWLINK),
        Err("netlink request (type 16) failed: errno 2147483648".to_string())
    );
    assert_eq!(
        parse_nlmsg_ack(&[0u8; 15], 24),
        Err("netlink ack (req type 24) too short: 15 bytes".to_string())
    );
    assert_eq!(
        parse_nlmsg_ack(&build_nlmsg(16, 0, 1, &[]), 24),
        Err("netlink ack (req type 24): unexpected reply type 16".to_string())
    );
    assert_eq!(
        parse_nlmsg_ack(&build_nlmsg(NLMSG_ERROR, 0, 1, &[0, 0, 0]), 24),
        Err("netlink NLMSG_ERROR payload too short".to_string())
    );
}

#[test]
fn mac_messages_say_what_went_wrong() {
    assert_eq!(
        parse_mac("gg:54"),
        Err("parse MAC octet \"gg\": invalid digit found in string".to_string())
    );
    assert_eq!(
        parse_mac("52::00:12:34:56"),
        Err("parse MAC octet \"\": cannot parse integer from empty string".to_string())
    );
    assert_eq!(
        parse_mac("52:100:00:12:34:56"),
        Err("parse MAC octet \"100\": number too large to fit in target type".to_string())
    );
    assert_eq!(
        parse_mac("1:2:3:4:5:6:zz"),
        Err("MAC has too many octets: \"1:2:3:4:5:6:zz\"".to_string())
    );
    assert_eq!(
        parse_mac("1:2"),
        Err("MAC has 2 octets, expected 6: \"1:2\"".to_string())
    );
    assert_eq!(parse_mac("1:2:3:4:5:+6"), Ok([1, 2, 3, 4, 5, 6]));
}

#[test]
fn mask_counts_leading_bits_only() {
    assert_eq!(mask_to_prefix([255, 255, 255, 255]), 32);
    assert_eq!(mask_to_prefix([128, 0, 0, 0]), 1);
    assert_eq!(mask_to_prefix([255, 0, 255, 0]), 8);
    for byte in 0..=255u8 {
        assert_eq!(mask_to_prefix([byte, 0, 0, 0]) as u32, byte.leading_ones());
        assert_eq!(mask_to_prefix([255, 255, byte, 7]) as u32, 16 + byte.leading_ones());
    }
    for prefix in 0..=32u32 {
        let mask: u32 = if prefix == 0 { 0 } else { u32::MAX << (32 - prefix) };
        assert_eq!(mask_to_prefix(mask.to_be_bytes()), prefix as u8);
    }
}

#[test]
fn reply_messages_say_what_went_wrong() {
    let mut ack = vec![0u8; 236];
    ack[0] = BOOTP_OP_REPLY;
    ack[7] = 9;
    assert_eq!(
        parse_dhcp_reply(&ack, 9),
        Err("DHCP reply too short or bad magic cookie".to_string())
    );
    ack.extend_from_slice(&DHCP_MAGIC.to_be_bytes());
    assert_eq!(
        parse_dhcp_reply(&ack, 0x0a0b_0c0d),
        Err("DHCP reply xid 0x00000009 != expected 0x0a0b0c0d".to_string())
    );
    let plain = parse_dhcp_reply(&ack, 9).unwrap();
    assert_eq!(plain.prefix_len, 24);
    assert_eq!(plain.router, None);
    assert_eq!(plain.dns, vec![]);
    ack.push(OPT_ROUTER);
    assert_eq!(
        parse_dhcp_reply(&ack, 9),
        Err("DHCP option truncated (no length)".to_string())
    );
    ack.extend_from_slice(&[4, 1, 2]);
    assert_eq!(
        parse_dhcp_reply(&ack, 9),
        Err("DHCP option 3 truncated".to_string())
    );
}

#[test]
fn only_requests_and_replies_have_options() {
    let mut packet = vec![0u8; 236];
    packet.extend_from_slice(&DHCP_MAGIC.to_be_bytes());
    packet.extend_from_slice(&[OPT_MSG_TYPE, 1, DHCP_ACK, OPT_END]);
    for op in 0..=255u8 {
        packet[0] = op;
        let valid = op == BOOTP_OP_REQUEST || op == BOOTP_OP_REPLY;
        assert_eq!(dhcp_options_slice(&packet).is_some(), valid, "{op}");
        assert_eq!(parse_message_type(&packet).is_some(), valid, "{op}");
        assert_eq!(reply_is(&packet, DHCP_ACK), valid, "{op}");
        assert_eq!(parse_dhcp_reply(&packet, 0).is_ok(), valid, "{op}");
    }
    packet[0] = 77;
    assert_eq!(
        parse_dhcp_reply(&packet, 0),
        Err("DHCP reply too short or bad magic cookie".to_string())
    );
}

#[test]
fn later_options_win_and_odd_ones_are_skipped() {
    let mut ack = vec![0u8; 236];
    ack[0] = BOOTP_OP_REPLY;
    ack.extend_from_slice(&DHCP_MAGIC.to_be_bytes());
    ack.extend_from_slice(&[0, 0]); // padding
    ack.extend_from_slice(&[OPT_ROUTER, 4, 1, 1, 1, 1]);
    ack.extend_from_slice(&[OPT_ROUTER, 8, 2, 2, 2, 2, 3, 3, 3, 3]);
    ack.extend_from_slice(&[OPT_ROUTER, 2, 9, 9]);
    ack.extend_from_slice(&[OPT_DNS, 6, 8, 8, 8, 8, 7, 7]);
    ack.extend_from_slice(&[OPT_DNS, 4, 9, 9, 9, 9]);
    ack.extend_from_slice(&[OPT_SUBNET_MASK, 3, 255, 0, 0]);
    ack.extend_from_slice(&[OPT_MSG_TYPE, 2, DHCP_ACK, 0]);
    ack.extend_from_slice(&[OPT_MSG_TYPE, 1, DHCP_ACK]);
    ack.push(OPT_END);
    ack.push(OPT_ROUTER); // after the end: not read
    let lease = parse_dhcp_reply(&ack, 0).unwrap();
    assert_eq!(lease.router, Some(Ipv4Addr::new(2, 2, 2, 2)));
    assert_eq!(
        lease.dns,
        vec![Ipv4Addr::new(8, 8, 8, 8), Ipv4Addr::new(9, 9, 9, 9)]
    );
    assert_eq!(lease.prefix_len, 24);
    assert_eq!(parse_message_type(&ack), Some(DHCP_ACK));
}

/// An option's value by code.
fn find_option(opts: &[u8], code: u8) -> Option<Vec<u8>> {
    let mut i = 0;
    while i < opts.len() {
        let c = opts[i];
        if c == OPT_END {
            break;
        }
        if c == 0 {
            i += 1;
            continue;
        }
        let len = opts[i + 1] as usize;
        let val = &opts[i + 2..i + 2 + len];
        if c == code {
            return Some(val.to_vec());
        }
        i += 2 + len;
    }
    None
}

/// An ACK, byte by byte.
fn build_test_ack(
    xid: u32,
    yiaddr: Ipv4Addr,
    mask: [u8; 4],
    router: Option<Ipv4Addr>,
    dns: &[Ipv4Addr],
    server_id: Option<Ipv4Addr>,
    lease_secs: Option<u32>,
) -> Vec<u8> {
    let mut b = vec![0u8; 236];
    b[0] = 2; // a reply
    b[1] = BOOTP_HTYPE_ETHER;
    b[2] = BOOTP_HLEN_ETHER;
    b[4..8].copy_from_slice(&xid.to_be_bytes());
    b[16..20].copy_from_slice(&yiaddr.octets());
    b.extend_from_slice(&DHCP_MAGIC.to_be_bytes());
    b.extend_from_slice(&[OPT_MSG_TYPE, 1, DHCP_ACK]);
    b.push(OPT_SUBNET_MASK);
    b.push(4);
    b.extend_from_slice(&mask);
    if let Some(r) = router {
        b.push(OPT_ROUTER);
        b.push(4);
        b.extend_from_slice(&r.octets());
    }
    if !dns.is_empty() {
        b.push(OPT_DNS);
        b.push((dns.len() * 4) as u8);
        for d in dns {
            b.extend_from_slice(&d.octets());
        }
    }
    if let Some(s) = server_id {
        b.push(OPT_SERVER_ID);
        b.push(4);
        b.extend_from_slice(&s.octets());
    }
    if let Some(l) = lease_secs {
        b.push(OPT_LEASE_TIME);
        b.push(4);
        b.extend_from_slice(&l.to_be_bytes());
    }
    b.push(OPT_END);
    b
}

/// An error reply that carries `errno`.
fn build_nlmsg_error(errno: i32, seq: u32) -> Vec<u8> {
    let mut payload = Vec::new();
    payload.extend_from_slice(&errno.to_le_bytes());
    payload.extend_from_slice(&[0u8; 16]);
    build_nlmsg(NLMSG_ERROR, 0, seq, &payload)
}
