use conglobate::addr::Ipv4Addr;
use conglobate::dhcp::{
    build_dhcp_discover, build_dhcp_request, resolv_conf, xid_from_mac, BOOTP_OP_REPLY, DHCP_ACK,
    DHCP_MAGIC, DHCP_OFFER, OPT_END, OPT_MSG_TYPE, OPT_ROUTER, OPT_SERVER_ID, OPT_SUBNET_MASK,
};
use conglobate::dhcp_client::{
    dhcp_accept, DhcpAction, DhcpClient, DhcpEvent, DhcpPhase, DHCP_MAX_TRIES,
};
use conglobate::event::{DhcpStep, NetAction, NetEvent, NetlinkStep};
use conglobate::iface::{pick_interface, Discovery, Iface};
use conglobate::net::{net_down, net_up, NetDown, NetUp, UpPhase};
use conglobate::netlink::{build_nlmsg, NetlinkSock, NLMSG_ERROR};

const MAC: [u8; 6] = [0x52, 0x54, 0x00, 0x12, 0x34, 0x56];

/// A reply to the client's transaction, with a router or without.
fn reply(kind: u8, with_router: bool) -> Vec<u8> {
    let mut b = vec![0u8; 236];
    b[0] = BOOTP_OP_REPLY;
    b[4..8].copy_from_slice(&xid_from_mac(MAC).to_be_bytes());
    b[16..20].copy_from_slice(&[10, 0, 2, 15]);
    b.extend_from_slice(&DHCP_MAGIC.to_be_bytes());
    b.extend_from_slice(&[OPT_MSG_TYPE, 1, kind]);
    b.extend_from_slice(&[OPT_SUBNET_MASK, 4, 255, 255, 0, 0]);
    b.extend_from_slice(&[OPT_SERVER_ID, 4, 10, 0, 2, 2]);
    b.extend_from_slice(&[6, 8, 8, 8, 8, 8, 10, 0, 2, 3]);
    if with_router {
        b.extend_from_slice(&[OPT_ROUTER, 4, 10, 0, 2, 1]);
    }
    b.push(OPT_END);
    b
}

fn ack_of(errno: i32) -> Vec<u8> {
    build_nlmsg(NLMSG_ERROR, 0, 1, &errno.to_le_bytes())
}

fn failed(text: &str) -> NetEvent {
    NetEvent::Failed(text.to_string())
}

#[test]
fn the_transaction_number_folds_the_address() {
    assert_eq!(xid_from_mac(MAC), 0x5246_3456);
}

#[test]
fn cards_of_one_maker_have_their_own_transactions() {
    let mut seen = Vec::new();
    for last in 0..=255u8 {
        for first in [0u8, 1, 128] {
            seen.push(xid_from_mac([0x52, 0x54, first, 0x12, 0x34, last]));
        }
    }
    seen.sort();
    seen.dedup();
    assert_eq!(seen.len(), 3 * 256);
    // Cards of two makers may share one.
    assert_eq!(xid_from_mac([1, 0, 0, 0, 0, 0]), xid_from_mac([0, 0, 1, 0, 0, 0]));
}

#[test]
fn an_exchange_ends_with_the_acknowledged_lease() {
    let c = DhcpClient::new(MAC);
    let xid = xid_from_mac(MAC);
    assert_eq!(c.action(), DhcpAction::Send(build_dhcp_discover(MAC, xid)));
    let c = c.next(DhcpEvent::Sent);
    assert_eq!(c.action(), DhcpAction::Receive);
    // Strays: an ACK before its time, another transaction, rubbish, an event out of place.
    let c = c.next(DhcpEvent::Packet(reply(DHCP_ACK, true)));
    let mut other = reply(DHCP_OFFER, true);
    other[4] ^= 1;
    let c = c.next(DhcpEvent::Packet(other));
    let c = c.next(DhcpEvent::Packet(vec![1, 2, 3]));
    let c = c.next(DhcpEvent::Sent);
    assert_eq!(c.action(), DhcpAction::Receive);
    let c = c.next(DhcpEvent::Packet(reply(DHCP_OFFER, true)));
    let want = build_dhcp_request(
        MAC,
        xid,
        Ipv4Addr::new(10, 0, 2, 15),
        Some(Ipv4Addr::new(10, 0, 2, 2)),
    );
    assert_eq!(c.action(), DhcpAction::Send(want));
    let c = c.next(DhcpEvent::Sent);
    let c = c.next(DhcpEvent::Packet(reply(DHCP_ACK, true)));
    assert_eq!(c.action(), DhcpAction::Stop);
    match c.phase {
        DhcpPhase::Leased(lease) => {
            assert_eq!(lease.yiaddr, Ipv4Addr::new(10, 0, 2, 15));
            assert_eq!(lease.prefix_len, 16);
            assert_eq!(lease.router, Some(Ipv4Addr::new(10, 0, 2, 1)));
            assert_eq!(
                resolv_conf(&lease.dns),
                "nameserver 8.8.8.8\nnameserver 10.0.2.3\n"
            );
        }
        other => panic!("expected a lease, got {other:?}"),
    }
}

#[test]
fn a_silent_network_is_given_up() {
    let mut c = DhcpClient::new(MAC);
    let mut sends = 0;
    while c.action() != DhcpAction::Stop {
        sends += 1;
        c = c.next(DhcpEvent::Sent);
        c = c.next(DhcpEvent::Failed(format!("timeout {sends}")));
    }
    assert_eq!(sends, DHCP_MAX_TRIES);
    assert_eq!(
        c.phase,
        DhcpPhase::Failed("recv DHCP reply: timeout 5".to_string())
    );
    // Nothing changes that any more.
    let c = c.next(DhcpEvent::Packet(reply(DHCP_OFFER, true)));
    assert_eq!(c.action(), DhcpAction::Stop);
}

#[test]
fn a_silent_server_is_given_up() {
    let mut c = DhcpClient::new(MAC).next(DhcpEvent::Sent);
    c = c.next(DhcpEvent::Failed("late".to_string()));
    c = c.next(DhcpEvent::Sent);
    c = c.next(DhcpEvent::Packet(reply(DHCP_OFFER, true)));
    let mut sends = 0;
    while c.action() != DhcpAction::Stop {
        sends += 1;
        c = c.next(DhcpEvent::Sent);
        c = c.next(DhcpEvent::Failed("timeout".to_string()));
    }
    assert_eq!(sends, 5);
}

#[test]
fn a_failed_send_ends_the_exchange() {
    let c = DhcpClient::new(MAC).next(DhcpEvent::Failed("no route".to_string()));
    assert_eq!(
        c.phase,
        DhcpPhase::Failed("send DHCP DISCOVER: no route".to_string())
    );
    let c = DhcpClient::new(MAC)
        .next(DhcpEvent::Sent)
        .next(DhcpEvent::Packet(reply(DHCP_OFFER, true)))
        .next(DhcpEvent::Failed("no route".to_string()));
    assert_eq!(
        c.phase,
        DhcpPhase::Failed("send DHCP REQUEST: no route".to_string())
    );
}

#[test]
fn only_the_awaited_reply_is_accepted() {
    let xid = xid_from_mac(MAC);
    assert!(dhcp_accept(&reply(DHCP_OFFER, false), xid, DHCP_OFFER).is_some());
    assert!(dhcp_accept(&reply(DHCP_OFFER, false), xid, DHCP_ACK).is_none());
    assert!(dhcp_accept(&reply(DHCP_OFFER, false), xid + 1, DHCP_OFFER).is_none());
    let mut odd = reply(DHCP_OFFER, false);
    odd[0] = 77;
    assert!(dhcp_accept(&odd, xid, DHCP_OFFER).is_none());
}

fn names(list: &[&str]) -> Vec<Result<String, String>> {
    list.iter().map(|n| Ok(n.to_string())).collect()
}

#[test]
fn the_only_interface_is_picked() {
    assert_eq!(pick_interface(&names(&["lo", "eth0"])), Ok("eth0".to_string()));
    assert_eq!(pick_interface(&names(&["eth0"])), Ok("eth0".to_string()));
    assert_eq!(
        pick_interface(&names(&["lo"])),
        Err("no non-lo network interface found".to_string())
    );
    assert_eq!(
        pick_interface(&names(&["eth0", "lo", "eth1", "eth2"])),
        Err("expected exactly one non-lo interface, found at least two (eth1)".to_string())
    );
    let mut broken = names(&["eth0"]);
    broken.push(Err("gone".to_string()));
    broken.push(Ok("eth1".to_string()));
    assert_eq!(
        pick_interface(&broken),
        Err("read /sys/class/net entry: gone".to_string())
    );
}

#[test]
fn a_search_reads_index_and_address() {
    let d = Iface::discover(Discovery::List, NetEvent::Names(names(&["lo", "eth0"])));
    assert_eq!(
        d.action(),
        NetAction::ReadText("/sys/class/net/eth0/ifindex".to_string())
    );
    let d = Iface::discover(d, NetEvent::Text(" 7\n".to_string()));
    assert_eq!(
        d.action(),
        NetAction::ReadText("/sys/class/net/eth0/address".to_string())
    );
    let d = Iface::discover(d, NetEvent::Text("52:54:00:12:34:56\n".to_string()));
    assert_eq!(
        d,
        Discovery::Found(Iface {
            name: "eth0".to_string(),
            index: 7,
            mac: MAC
        })
    );
}

#[test]
fn a_search_says_where_it_failed() {
    let fail = |d, e| match Iface::discover(d, e) {
        Discovery::Failed(text) => text,
        other => panic!("expected a failure, got {other:?}"),
    };
    assert_eq!(
        fail(Discovery::List, failed("no")),
        "read /sys/class/net: no"
    );
    let at_index = || Discovery::ReadIndex("eth0".to_string());
    assert_eq!(
        fail(at_index(), failed("no")),
        "read /sys/class/net/eth0/ifindex: no"
    );
    assert_eq!(
        fail(at_index(), NetEvent::Text("x\n".to_string())),
        "parse ifindex \"x\": invalid digit found in string"
    );
    let at_mac = || Discovery::ReadMac("eth0".to_string(), 7);
    assert_eq!(
        fail(at_mac(), failed("no")),
        "read /sys/class/net/eth0/address: no"
    );
    assert_eq!(
        fail(at_mac(), NetEvent::Text("1\n".to_string())),
        "MAC has 1 octets, expected 6: \"1\""
    );
}

/// The answer of a machine on which everything works.
fn answer(action: &NetAction, with_router: bool, received: &mut u8) -> NetEvent {
    match action {
        NetAction::ListInterfaces => NetEvent::Names(names(&["lo", "eth0"])),
        NetAction::ReadText(path) if path.ends_with("/ifindex") => {
            NetEvent::Text("3\n".to_string())
        }
        NetAction::ReadText(_) => NetEvent::Text("52:54:00:12:34:56\n".to_string()),
        NetAction::ReceiveNetlink => NetEvent::Bytes(ack_of(0)),
        NetAction::ReceiveDhcp => {
            *received += 1;
            let kind = if *received == 1 { DHCP_OFFER } else { DHCP_ACK };
            NetEvent::Bytes(reply(kind, with_router))
        }
        _ => NetEvent::Done,
    }
}

/// What is done to bring the network up where everything works, and what comes of it.
fn bring_up(with_router: bool) -> (Vec<NetAction>, UpPhase) {
    let mut state = NetUp::start("/work".to_string());
    let mut action = state.phase.action();
    let mut log = Vec::new();
    let mut received = 0;
    while action != NetAction::Stop {
        let event = answer(&action, with_router, &mut received);
        log.push(action);
        let (s, a) = net_up(state, event);
        state = s;
        action = a;
    }
    (log, state.phase)
}

#[test]
fn the_network_comes_up_in_order() {
    let (log, phase) = bring_up(true);
    assert_eq!(phase, UpPhase::Over(Ok(())));
    let sent: Vec<&NetAction> = log
        .iter()
        .filter(|a| matches!(a, NetAction::SendNetlink(_)))
        .collect();
    let mut sock = NetlinkSock::open();
    let want = vec![
        sock.link_set_up(3),
        sock.add_host_route_broadcast(3),
        sock.del_host_route_broadcast(3),
        sock.add_addr(3, Ipv4Addr::new(10, 0, 2, 15), 16),
        sock.add_default_route(3, Ipv4Addr::new(10, 0, 2, 1)),
    ];
    let want: Vec<NetAction> = want
        .into_iter()
        .map(|r| NetAction::SendNetlink(r.bytes))
        .collect();
    assert_eq!(sent, want.iter().collect::<Vec<_>>());
    assert_eq!(
        &log[..5],
        &[
            NetAction::ListInterfaces,
            NetAction::ReadText("/sys/class/net/eth0/ifindex".to_string()),
            NetAction::ReadText("/sys/class/net/eth0/address".to_string()),
            NetAction::SetUpNetlink(NetlinkStep::Open),
            NetAction::SetUpNetlink(NetlinkStep::Bind),
        ]
    );
    assert_eq!(
        &log[9..14],
        &[
            NetAction::SetUpDhcp(DhcpStep::Open),
            NetAction::SetUpDhcp(DhcpStep::ReuseAddr),
            NetAction::SetUpDhcp(DhcpStep::Broadcast),
            NetAction::SetUpDhcp(DhcpStep::Timeout),
            NetAction::SetUpDhcp(DhcpStep::Bind),
        ]
    );
    assert_eq!(
        &log[log.len() - 2..],
        &[
            NetAction::MakeEtc,
            NetAction::WriteResolvConf("nameserver 8.8.8.8\nnameserver 10.0.2.3\n".to_string()),
        ]
    );
}

#[test]
fn without_a_router_there_is_no_default_route() {
    let (log, phase) = bring_up(false);
    assert_eq!(phase, UpPhase::Over(Ok(())));
    let sends = log
        .iter()
        .filter(|a| matches!(a, NetAction::SendNetlink(_)))
        .count();
    assert_eq!(sends, 4);
}

/// What comes of it when step `at` fails.
fn fail_at(at: usize) -> (NetAction, UpPhase) {
    let mut state = NetUp::start("/work".to_string());
    let mut received = 0;
    for _ in 0..at {
        let event = answer(&state.phase.action(), true, &mut received);
        state = net_up(state, event).0;
    }
    let action = state.phase.action();
    (action, net_up(state, failed("no")).0.phase)
}

#[test]
fn the_first_failure_ends_it() {
    let wanted = [
        (3, "open netlink socket: no"),
        (4, "bind netlink socket: no"),
        (5, "netlink send (type 16): no"),
        (6, "netlink recv (type 16): no"),
        (7, "netlink send (type 24): no"),
        (9, "open DHCP UDP socket: no"),
        (10, "SO_REUSEADDR: no"),
        (11, "SO_BROADCAST: no"),
        (12, "SO_RCVTIMEO: no"),
        (13, "bind 0.0.0.0:68: no"),
        (14, "send DHCP DISCOVER: no"),
        (16, "send DHCP REQUEST: no"),
        (18, "netlink send (type 25): no"),
        (21, "netlink recv (type 20): no"),
        (24, "create /work/etc: no"),
        (25, "write /work/etc/resolv.conf: no"),
    ];
    for (at, text) in wanted {
        let (_, phase) = fail_at(at);
        assert_eq!(phase, UpPhase::Over(Err(text.to_string())));
    }
    // A receive that failed is no end yet: the client sends again.
    let (action, phase) = fail_at(15);
    assert_eq!(action, NetAction::ReceiveDhcp);
    assert!(matches!(phase.action(), NetAction::SendDhcp(_)));
}

#[test]
fn a_refused_request_ends_it() {
    let mut state = NetUp::start("/".to_string());
    let mut received = 0;
    for _ in 0..6 {
        let event = answer(&state.phase.action(), true, &mut received);
        state = net_up(state, event).0;
    }
    let (state, action) = net_up(state, NetEvent::Bytes(ack_of(-1)));
    assert_eq!(action, NetAction::Stop);
    assert_eq!(
        state.phase,
        UpPhase::Over(Err("netlink request (type 16) failed: errno 1".to_string()))
    );
}

#[test]
fn events_out_of_place_change_nothing() {
    let state = NetUp::start("/".to_string());
    let (state, action) = net_up(state, NetEvent::Done);
    assert_eq!(action, NetAction::ListInterfaces);
    let (_, action) = net_up(state, NetEvent::Bytes(vec![]));
    assert_eq!(action, NetAction::ListInterfaces);
    let (_, action) = net_down(NetDown::start(), NetEvent::Text("x".to_string()));
    assert_eq!(action, NetAction::ListInterfaces);
}

#[test]
fn the_network_goes_down() {
    let mut state = NetDown::start();
    let mut log = Vec::new();
    let mut received = 0;
    while state != NetDown::Over {
        let action = state.action();
        let event = answer(&action, true, &mut received);
        log.push(action);
        state = net_down(state, event).0;
    }
    let mut sock = NetlinkSock::open();
    assert_eq!(log.len(), 7);
    assert_eq!(log[5], NetAction::SendNetlink(sock.link_set_down(3).bytes));
    assert_eq!(log[6], NetAction::ReceiveNetlink);
}

#[test]
fn going_down_needs_no_interface() {
    let mut state = NetDown::start();
    state = net_down(state, failed("no")).0;
    assert_eq!(state.action(), NetAction::SetUpNetlink(NetlinkStep::Open));
    state = net_down(state, NetEvent::Done).0;
    state = net_down(state, NetEvent::Done).0;
    assert_eq!(state, NetDown::Over);
    // Nor a socket.
    let state = net_down(NetDown::start(), failed("no")).0;
    assert_eq!(net_down(state, failed("no")).0, NetDown::Over);
}

#[test]
fn an_empty_root_joins_without_a_slash() {
    for (root, text) in [
        ("", "create etc: no"),
        ("/", "create /etc: no"),
        ("/a", "create /a/etc: no"),
    ] {
        let state = NetUp {
            root: root.to_string(),
            phase: UpPhase::MakeEtc(String::new()),
        };
        assert_eq!(
            net_up(state, failed("no")).0.phase,
            UpPhase::Over(Err(text.to_string()))
        );
    }
}
