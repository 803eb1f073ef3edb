//! Bringing the network up for a build stage, and taking it down again.
//!
//! Both are state machines: a state asks for one action, and the event that answers it gives the
//! next state. An event that does not answer the action leaves the state as it is.

use vstd::prelude::*;

use crate::addr::{octets_of, Ipv4Addr};
use crate::bytes::{le16_at, le32, le32_at};
use crate::dhcp::{resolv_conf, resolv_text, xid_of, Lease, LeaseView, DHCP_ACK};
use crate::dhcp_client::{
    dhcp_action, dhcp_answer, dhcp_next, dhcp_start, DhcpAction, DhcpActionView, DhcpClient,
    DhcpEvent, DhcpEventView, DhcpPhase, DhcpPhaseView, DhcpView,
};
use crate::event::{DhcpStep, NetAction, NetActionView, NetEvent, NetEventView, NetlinkStep};
use crate::iface::{
    discovery_action, discovery_next, ifindex_outcome, law_discovery_stops_at_a_failure,
    mac_outcome, name_outcome, Discovery, DiscoveryView, Iface, IfaceView,
};
use crate::netlink::{
    ack_outcome, default_route, host_route, ifaddrmsg, ifinfomsg,
    law_address_message_has_its_fields, law_bodies_read_back, law_link_message_reads_back,
    law_requests_ask_for_an_answer, law_routes_have_their_fields, parse_nlmsg_ack, request_of,
    rtattrs, seq_after, NetlinkRequest, NetlinkSock, IFF_UP, NLM_F_CREATE, NLM_F_REPLACE,
    RTM_DELROUTE, RTM_NEWADDR, RTM_NEWLINK, RTM_NEWROUTE,
};
use crate::number::{decimal, decimal_text};
use crate::text::{shown, trimmed};

verus! {

/// What a failed step towards a netlink socket is called.
pub open spec fn netlink_step_text(step: NetlinkStep) -> Seq<char> {
    match step {
        NetlinkStep::Open => "open netlink socket: "@,
        NetlinkStep::Bind => "bind netlink socket: "@,
    }
}

/// What a failed step towards a DHCP socket is called.
pub open spec fn dhcp_step_text(step: DhcpStep) -> Seq<char> {
    match step {
        DhcpStep::Open => "open DHCP UDP socket: "@,
        DhcpStep::ReuseAddr => "SO_REUSEADDR: "@,
        DhcpStep::Broadcast => "SO_BROADCAST: "@,
        DhcpStep::Timeout => "SO_RCVTIMEO: "@,
        DhcpStep::Bind => "bind 0.0.0.0:68: "@,
    }
}

fn netlink_step_name(step: NetlinkStep) -> (r: &'static str)
    ensures
        r@ == netlink_step_text(step),
{
    match step {
        NetlinkStep::Open => "open netlink socket: ",
        NetlinkStep::Bind => "bind netlink socket: ",
    }
}

fn dhcp_step_name(step: DhcpStep) -> (r: &'static str)
    ensures
        r@ == dhcp_step_text(step),
{
    match step {
        DhcpStep::Open => "open DHCP UDP socket: ",
        DhcpStep::ReuseAddr => "SO_REUSEADDR: ",
        DhcpStep::Broadcast => "SO_BROADCAST: ",
        DhcpStep::Timeout => "SO_RCVTIMEO: ",
        DhcpStep::Bind => "bind 0.0.0.0:68: ",
    }
}

/// The step after `step`, or none after the last.
pub open spec fn dhcp_step_after(step: DhcpStep) -> Option<DhcpStep> {
    match step {
        DhcpStep::Open => Some(DhcpStep::ReuseAddr),
        DhcpStep::ReuseAddr => Some(DhcpStep::Broadcast),
        DhcpStep::Broadcast => Some(DhcpStep::Timeout),
        DhcpStep::Timeout => Some(DhcpStep::Bind),
        DhcpStep::Bind => None,
    }
}

fn following(step: DhcpStep) -> (r: Option<DhcpStep>)
    ensures
        r == dhcp_step_after(step),
{
    match step {
        DhcpStep::Open => Some(DhcpStep::ReuseAddr),
        DhcpStep::ReuseAddr => Some(DhcpStep::Broadcast),
        DhcpStep::Broadcast => Some(DhcpStep::Timeout),
        DhcpStep::Timeout => Some(DhcpStep::Bind),
        DhcpStep::Bind => None,
    }
}

/// The path of `name` under the directory `root`.
pub open spec fn joined(root: Seq<char>, name: Seq<char>) -> Seq<char> {
    if root.len() == 0 || root.last() == '/' {
        root + name
    } else {
        root + "/"@ + name
    }
}

fn join(root: &str, name: &str) -> (r: String)
    ensures
        r@ == joined(root@, name@),
{
    let mut r: String = root.to_owned();
    let n: usize = root.unicode_len();
    if n > 0 && root.get_char(n - 1) != '/' {
        r.append("/");
    }
    r.append(name);
    r
}

/// The message of a failed socket call for a request of type `msg_type`.
pub open spec fn netlink_fault(what: Seq<char>, msg_type: u16, e: Seq<char>) -> Seq<char> {
    "netlink "@ + what + " (type "@ + decimal(msg_type as nat) + "): "@ + e
}

fn netlink_fault_text(what: &str, msg_type: u16, e: String) -> (r: String)
    ensures
        r@ == netlink_fault(what@, msg_type, e@),
{
    let mut r: String = "netlink ".to_owned();
    r.append(what);
    r.append(" (type ");
    r.append(decimal_text(msg_type as u64).as_str());
    r.append("): ");
    r.append(e.as_str());
    r
}

fn with_prefix(prefix: &str, e: String) -> (r: String)
    ensures
        r@ == prefix@ + e@,
{
    let mut r: String = prefix.to_owned();
    r.append(e.as_str());
    r
}

/// A request that configures the interface.
#[derive(Debug, PartialEq, Eq)]
pub enum UpStep {
    /// Take the link up.
    LinkUp,
    /// Route the broadcast address out of the link, so that DHCP can be spoken.
    AddHostRoute,
    /// Take that route away again.
    DelHostRoute(Lease),
    /// Give the link its leased address.
    AddAddr(Lease),
    /// Route everything else through the gateway.
    AddDefaultRoute(Ipv4Addr, Lease),
}

/// What an [`UpStep`] holds.
pub enum UpStepView {
    LinkUp,
    AddHostRoute,
    DelHostRoute(LeaseView),
    AddAddr(LeaseView),
    AddDefaultRoute(Ipv4Addr, LeaseView),
}

impl View for UpStep {
    type V = UpStepView;

    open spec fn view(&self) -> UpStepView {
        match self {
            UpStep::LinkUp => UpStepView::LinkUp,
            UpStep::AddHostRoute => UpStepView::AddHostRoute,
            UpStep::DelHostRoute(lease) => UpStepView::DelHostRoute(lease@),
            UpStep::AddAddr(lease) => UpStepView::AddAddr(lease@),
            UpStep::AddDefaultRoute(gateway, lease) => UpStepView::AddDefaultRoute(
                *gateway,
                lease@,
            ),
        }
    }
}

/// The request for a step, on link `index`, with number `seq`.
pub open spec fn step_request(step: UpStepView, index: u32, seq: u32) -> (u16, Seq<u8>) {
    match step {
        UpStepView::LinkUp => request_of(RTM_NEWLINK, 0, seq, ifinfomsg(index, IFF_UP, 0x1)),
        UpStepView::AddHostRoute => request_of(
            RTM_NEWROUTE,
            NLM_F_CREATE | NLM_F_REPLACE,
            seq,
            host_route(index),
        ),
        UpStepView::DelHostRoute(_) => request_of(RTM_DELROUTE, 0, seq, host_route(index)),
        UpStepView::AddAddr(lease) => request_of(
            RTM_NEWADDR,
            NLM_F_CREATE | NLM_F_REPLACE,
            seq,
            ifaddrmsg(index, lease.yiaddr, lease.prefix_len),
        ),
        UpStepView::AddDefaultRoute(gateway, _) => request_of(
            RTM_NEWROUTE,
            NLM_F_CREATE | NLM_F_REPLACE,
            seq,
            default_route(index, gateway),
        ),
    }
}

/// How far the network has come up.
#[derive(Debug, PartialEq, Eq)]
pub enum UpPhase {
    /// The interface is looked for.
    Discover(Discovery),
    /// The netlink socket is opened.
    OpenNetlink(NetlinkStep, Iface),
    /// A request is to be sent.
    Send(UpStep, Iface, NetlinkSock, NetlinkRequest),
    /// The answer to a request of some type is awaited.
    Receive(UpStep, Iface, NetlinkSock, u16),
    /// The DHCP socket is opened.
    OpenDhcp(DhcpStep, Iface, NetlinkSock),
    /// The DHCP exchange runs.
    Exchange(DhcpClient, Iface, NetlinkSock),
    /// The directory of the name-server file is to be made.
    MakeEtc(String),
    /// The name-server file is to be written.
    WriteResolvConf(String),
    /// It is over.
    Over(Result<(), String>),
}

/// What an [`UpPhase`] holds.
pub enum UpPhaseView {
    Discover(DiscoveryView),
    OpenNetlink(NetlinkStep, IfaceView),
    Send(UpStepView, IfaceView, u32, (u16, Seq<u8>)),
    Receive(UpStepView, IfaceView, u32, u16),
    OpenDhcp(DhcpStep, IfaceView, u32),
    Exchange(DhcpView, IfaceView, u32),
    MakeEtc(Seq<char>),
    WriteResolvConf(Seq<char>),
    Over(Result<(), Seq<char>>),
}

impl View for UpPhase {
    type V = UpPhaseView;

    open spec fn view(&self) -> UpPhaseView {
        match self {
            UpPhase::Discover(d) => UpPhaseView::Discover(d@),
            UpPhase::OpenNetlink(step, iface) => UpPhaseView::OpenNetlink(*step, iface@),
            UpPhase::Send(step, iface, sock, request) => UpPhaseView::Send(
                step@,
                iface@,
                sock.seq,
                request@,
            ),
            UpPhase::Receive(step, iface, sock, msg_type) => UpPhaseView::Receive(
                step@,
                iface@,
                sock.seq,
                *msg_type,
            ),
            UpPhase::OpenDhcp(step, iface, sock) => UpPhaseView::OpenDhcp(*step, iface@, sock.seq),
            UpPhase::Exchange(client, iface, sock) => UpPhaseView::Exchange(
                client@,
                iface@,
                sock.seq,
            ),
            UpPhase::MakeEtc(contents) => UpPhaseView::MakeEtc(contents@),
            UpPhase::WriteResolvConf(contents) => UpPhaseView::WriteResolvConf(contents@),
            UpPhase::Over(r) => UpPhaseView::Over(shown(*r)),
        }
    }
}

/// A network that comes up for the root directory `root`.
#[derive(Debug, PartialEq, Eq)]
pub struct NetUp {
    pub root: String,
    pub phase: UpPhase,
}

/// What a [`NetUp`] holds.
pub struct NetUpView {
    pub root: Seq<char>,
    pub phase: UpPhaseView,
}

impl View for NetUp {
    type V = NetUpView;

    open spec fn view(&self) -> NetUpView {
        NetUpView { root: self.root@, phase: self.phase@ }
    }
}

/// Nothing was done yet.
pub open spec fn up_start(root: Seq<char>) -> NetUpView {
    NetUpView { root, phase: UpPhaseView::Discover(DiscoveryView::List) }
}

/// A failure ends it.
pub open spec fn up_fail(text: Seq<char>) -> UpPhaseView {
    UpPhaseView::Over(Err(text))
}

/// The phase in which `step` is to be requested; `seq` is the number of the request.
pub open spec fn begin_step(step: UpStepView, iface: IfaceView, seq: u32) -> UpPhaseView {
    UpPhaseView::Send(step, iface, seq_after(seq), step_request(step, iface.index, seq))
}

/// The phase after `step` was acknowledged.
pub open spec fn after_step(step: UpStepView, iface: IfaceView, seq: u32) -> UpPhaseView {
    match step {
        UpStepView::LinkUp => begin_step(UpStepView::AddHostRoute, iface, seq),
        UpStepView::AddHostRoute => UpPhaseView::OpenDhcp(DhcpStep::Open, iface, seq),
        UpStepView::DelHostRoute(lease) => begin_step(UpStepView::AddAddr(lease), iface, seq),
        UpStepView::AddAddr(lease) => match lease.router {
            Some(gateway) => begin_step(UpStepView::AddDefaultRoute(gateway, lease), iface, seq),
            None => UpPhaseView::MakeEtc(resolv_text(lease.dns)),
        },
        UpStepView::AddDefaultRoute(_, lease) => UpPhaseView::MakeEtc(resolv_text(lease.dns)),
    }
}

/// What an event means to the DHCP client, if anything.
pub open spec fn dhcp_event(event: NetEventView) -> Option<DhcpEventView> {
    match event {
        NetEventView::Done => Some(DhcpEventView::Sent),
        NetEventView::Bytes(packet) => Some(DhcpEventView::Packet(packet)),
        NetEventView::Failed(e) => Some(DhcpEventView::Failed(e)),
        _ => None,
    }
}

/// The phase after an event.
pub open spec fn up_next(s: NetUpView, event: NetEventView) -> UpPhaseView {
    match (s.phase, event) {
        (UpPhaseView::Discover(d), _) => match discovery_next(d, event) {
            DiscoveryView::Found(iface) => UpPhaseView::OpenNetlink(NetlinkStep::Open, iface),
            DiscoveryView::Failed(e) => up_fail(e),
            further => UpPhaseView::Discover(further),
        },
        (UpPhaseView::OpenNetlink(NetlinkStep::Open, iface), NetEventView::Done) =>
            UpPhaseView::OpenNetlink(NetlinkStep::Bind, iface),
        (UpPhaseView::OpenNetlink(NetlinkStep::Bind, iface), NetEventView::Done) => begin_step(
            UpStepView::LinkUp,
            iface,
            1,
        ),
        (UpPhaseView::OpenNetlink(step, _), NetEventView::Failed(e)) => up_fail(
            netlink_step_text(step) + e,
        ),
        (UpPhaseView::Send(step, iface, seq, request), NetEventView::Done) => UpPhaseView::Receive(
            step,
            iface,
            seq,
            request.0,
        ),
        (UpPhaseView::Send(_, _, _, request), NetEventView::Failed(e)) => up_fail(
            netlink_fault("send"@, request.0, e),
        ),
        (UpPhaseView::Receive(step, iface, seq, msg_type), NetEventView::Bytes(reply)) =>
            match ack_outcome(reply, msg_type) {
                Ok(_) => after_step(step, iface, seq),
                Err(e) => up_fail(e),
            },
        (UpPhaseView::Receive(_, _, _, msg_type), NetEventView::Failed(e)) => up_fail(
            netlink_fault("recv"@, msg_type, e),
        ),
        (UpPhaseView::OpenDhcp(step, iface, seq), NetEventView::Done) => match dhcp_step_after(
            step,
        ) {
            Some(further) => UpPhaseView::OpenDhcp(further, iface, seq),
            None => UpPhaseView::Exchange(dhcp_start(iface.mac), iface, seq),
        },
        (UpPhaseView::OpenDhcp(step, _, _), NetEventView::Failed(e)) => up_fail(
            dhcp_step_text(step) + e,
        ),
        (UpPhaseView::Exchange(client, iface, seq), _) => match dhcp_event(event) {
            None => s.phase,
            Some(e) => {
                let further = dhcp_next(client, e);
                match further.phase {
                    DhcpPhaseView::Leased(lease) => begin_step(
                        UpStepView::DelHostRoute(lease),
                        iface,
                        seq,
                    ),
                    DhcpPhaseView::Failed(text) => up_fail(text),
                    _ => UpPhaseView::Exchange(further, iface, seq),
                }
            },
        },
        (UpPhaseView::MakeEtc(contents), NetEventView::Done) => UpPhaseView::WriteResolvConf(
            contents,
        ),
        (UpPhaseView::MakeEtc(_), NetEventView::Failed(e)) => up_fail(
            "create "@ + joined(s.root, "etc"@) + ": "@ + e,
        ),
        (UpPhaseView::WriteResolvConf(_), NetEventView::Done) => UpPhaseView::Over(Ok(())),
        (UpPhaseView::WriteResolvConf(_), NetEventView::Failed(e)) => up_fail(
            "write "@ + joined(joined(s.root, "etc"@), "resolv.conf"@) + ": "@ + e,
        ),
        _ => s.phase,
    }
}

/// The action that a phase asks for.
pub open spec fn up_action(phase: UpPhaseView) -> NetActionView {
    match phase {
        UpPhaseView::Discover(d) => discovery_action(d),
        UpPhaseView::OpenNetlink(step, _) => NetActionView::SetUpNetlink(step),
        UpPhaseView::Send(_, _, _, request) => NetActionView::SendNetlink(request.1),
        UpPhaseView::Receive(_, _, _, _) => NetActionView::ReceiveNetlink,
        UpPhaseView::OpenDhcp(step, _, _) => NetActionView::SetUpDhcp(step),
        UpPhaseView::Exchange(client, _, _) => match dhcp_action(client) {
            DhcpActionView::Send(packet) => NetActionView::SendDhcp(packet),
            DhcpActionView::Receive => NetActionView::ReceiveDhcp,
            DhcpActionView::Stop => NetActionView::Stop,
        },
        UpPhaseView::MakeEtc(_) => NetActionView::MakeEtc,
        UpPhaseView::WriteResolvConf(contents) => NetActionView::WriteResolvConf(contents),
        UpPhaseView::Over(_) => NetActionView::Stop,
    }
}

/// Builds the request for `step`.
fn begin(step: UpStep, iface: Iface, sock: NetlinkSock) -> (r: UpPhase)
    ensures
        r@ == begin_step(step@, iface@, sock.seq),
{
    let mut sock: NetlinkSock = sock;
    let request: NetlinkRequest = match &step {
        UpStep::LinkUp => sock.link_set_up(iface.index),
        UpStep::AddHostRoute => sock.add_host_route_broadcast(iface.index),
        UpStep::DelHostRoute(_) => sock.del_host_route_broadcast(iface.index),
        UpStep::AddAddr(lease) => sock.add_addr(iface.index, lease.yiaddr, lease.prefix_len),
        UpStep::AddDefaultRoute(gateway, _) => sock.add_default_route(iface.index, *gateway),
    };
    UpPhase::Send(step, iface, sock, request)
}

/// Goes on after `step` was acknowledged.
fn acknowledged(step: UpStep, iface: Iface, sock: NetlinkSock) -> (r: UpPhase)
    ensures
        r@ == after_step(step@, iface@, sock.seq),
{
    match step {
        UpStep::LinkUp => begin(UpStep::AddHostRoute, iface, sock),
        UpStep::AddHostRoute => UpPhase::OpenDhcp(DhcpStep::Open, iface, sock),
        UpStep::DelHostRoute(lease) => begin(UpStep::AddAddr(lease), iface, sock),
        UpStep::AddAddr(lease) => match lease.router {
            Some(gateway) => begin(UpStep::AddDefaultRoute(gateway, lease), iface, sock),
            None => UpPhase::MakeEtc(resolv_conf(&lease.dns)),
        },
        UpStep::AddDefaultRoute(_, lease) => UpPhase::MakeEtc(resolv_conf(&lease.dns)),
    }
}

/// Goes on with the DHCP exchange.
fn exchange(client: DhcpClient, iface: Iface, sock: NetlinkSock, event: NetEvent) -> (r: UpPhase)
    ensures
        r@ == up_next(
            (NetUpView {
                root: Seq::empty(),
                phase: UpPhaseView::Exchange(client@, iface@, sock.seq),
            }),
            event@,
        ),
{
    let e: DhcpEvent = match event {
        NetEvent::Done => DhcpEvent::Sent,
        NetEvent::Bytes(packet) => DhcpEvent::Packet(packet),
        NetEvent::Failed(e) => DhcpEvent::Failed(e),
        _ => return UpPhase::Exchange(client, iface, sock),
    };
    let further: DhcpClient = client.next(e);
    let DhcpClient { mac, phase, tries } = further;
    match phase {
        DhcpPhase::Leased(lease) => begin(UpStep::DelHostRoute(lease), iface, sock),
        DhcpPhase::Failed(text) => UpPhase::Over(Err(text)),
        phase => UpPhase::Exchange(DhcpClient { mac, phase, tries }, iface, sock),
    }
}

impl UpPhase {
    /// What has to be done next.
    pub fn action(&self) -> (r: NetAction)
        ensures
            r@ == up_action(self@),
    {
        match self {
            UpPhase::Discover(d) => d.action(),
            UpPhase::OpenNetlink(step, _) => NetAction::SetUpNetlink(*step),
            UpPhase::Send(_, _, _, request) => NetAction::SendNetlink(request.bytes.clone()),
            UpPhase::Receive(_, _, _, _) => NetAction::ReceiveNetlink,
            UpPhase::OpenDhcp(step, _, _) => NetAction::SetUpDhcp(*step),
            UpPhase::Exchange(client, _, _) => match client.action() {
                DhcpAction::Send(packet) => NetAction::SendDhcp(packet),
                DhcpAction::Receive => NetAction::ReceiveDhcp,
                DhcpAction::Stop => NetAction::Stop,
            },
            UpPhase::MakeEtc(_) => NetAction::MakeEtc,
            UpPhase::WriteResolvConf(contents) => NetAction::WriteResolvConf(contents.clone()),
            UpPhase::Over(_) => NetAction::Stop,
        }
    }
}

impl NetUp {
    /// A network that is to come up for the root directory `root`.
    pub fn start(root: String) -> (r: NetUp)
        ensures
            r@ == up_start(root@),
            up_action(r@.phase) == NetActionView::ListInterfaces,
    {
        NetUp { root, phase: UpPhase::Discover(Discovery::List) }
    }
}

/// Takes the network a step further up: from a state and the event that answers its action to
/// the next state and its action.
///
/// The interface is found, its link taken up, a lease acquired by DHCP, the address and the
/// default route installed, and the leased name servers written to `etc/resolv.conf` under the
/// root. The first failure ends it.
pub fn net_up(state: NetUp, event: NetEvent) -> (r: (NetUp, NetAction))
    ensures
        r.0@ == (NetUpView { root: state@.root, phase: up_next(state@, event@) }),
        r.1@ == up_action(r.0@.phase),
{
    let NetUp { root, phase } = state;
    let next: UpPhase = match (phase, event) {
        (UpPhase::Discover(d), event) => match Iface::discover(d, event) {
            Discovery::Found(iface) => UpPhase::OpenNetlink(NetlinkStep::Open, iface),
            Discovery::Failed(e) => UpPhase::Over(Err(e)),
            further => UpPhase::Discover(further),
        },
        (UpPhase::OpenNetlink(NetlinkStep::Open, iface), NetEvent::Done) => UpPhase::OpenNetlink(
            NetlinkStep::Bind,
            iface,
        ),
        (UpPhase::OpenNetlink(NetlinkStep::Bind, iface), NetEvent::Done) => begin(
            UpStep::LinkUp,
            iface,
            NetlinkSock::open(),
        ),
        (UpPhase::OpenNetlink(step, _), NetEvent::Failed(e)) => UpPhase::Over(
            Err(with_prefix(netlink_step_name(step), e)),
        ),
        (UpPhase::Send(step, iface, sock, request), NetEvent::Done) => UpPhase::Receive(
            step,
            iface,
            sock,
            request.msg_type,
        ),
        (UpPhase::Send(_, _, _, request), NetEvent::Failed(e)) => UpPhase::Over(
            Err(netlink_fault_text("send", request.msg_type, e)),
        ),
        (UpPhase::Receive(step, iface, sock, msg_type), NetEvent::Bytes(reply)) => {
            match parse_nlmsg_ack(reply.as_slice(), msg_type) {
                Ok(_) => acknowledged(step, iface, sock),
                Err(e) => UpPhase::Over(Err(e)),
            }
        },
        (UpPhase::Receive(_, _, _, msg_type), NetEvent::Failed(e)) => UpPhase::Over(
            Err(netlink_fault_text("recv", msg_type, e)),
        ),
        (UpPhase::OpenDhcp(step, iface, sock), NetEvent::Done) => match following(step) {
            Some(further) => UpPhase::OpenDhcp(further, iface, sock),
            None => UpPhase::Exchange(DhcpClient::new(iface.mac), iface, sock),
        },
        (UpPhase::OpenDhcp(step, _, _), NetEvent::Failed(e)) => UpPhase::Over(
            Err(with_prefix(dhcp_step_name(step), e)),
        ),
        (UpPhase::Exchange(client, iface, sock), event) => exchange(client, iface, sock, event),
        (UpPhase::MakeEtc(contents), NetEvent::Done) => UpPhase::WriteResolvConf(contents),
        (UpPhase::MakeEtc(_), NetEvent::Failed(e)) => {
            let mut text: String = "create ".to_owned();
            text.append(join(root.as_str(), "etc").as_str());
            text.append(": ");
            text.append(e.as_str());
            UpPhase::Over(Err(text))
        },
        (UpPhase::WriteResolvConf(_), NetEvent::Done) => UpPhase::Over(Ok(())),
        (UpPhase::WriteResolvConf(_), NetEvent::Failed(e)) => {
            let mut text: String = "write ".to_owned();
            text.append(join(join(root.as_str(), "etc").as_str(), "resolv.conf").as_str());
            text.append(": ");
            text.append(e.as_str());
            UpPhase::Over(Err(text))
        },
        (phase, _) => phase,
    };
    let action: NetAction = next.action();
    (NetUp { root, phase: next }, action)
}

/// How far the network has come down.
#[derive(Debug, PartialEq, Eq)]
pub enum NetDown {
    /// The interface is looked for.
    Discover(Discovery),
    /// The netlink socket is opened, whether or not an interface was found.
    OpenNetlink(NetlinkStep, Option<Iface>),
    /// The request to take the link down is to be sent.
    Send(NetlinkRequest),
    /// The answer is awaited.
    Receive,
    /// It is over. Taking the network down never fails.
    Over,
}

/// What a [`NetDown`] holds.
pub enum NetDownView {
    Discover(DiscoveryView),
    OpenNetlink(NetlinkStep, Option<IfaceView>),
    Send((u16, Seq<u8>)),
    Receive,
    Over,
}

impl View for NetDown {
    type V = NetDownView;

    open spec fn view(&self) -> NetDownView {
        match self {
            NetDown::Discover(d) => NetDownView::Discover(d@),
            NetDown::OpenNetlink(step, Some(iface)) => NetDownView::OpenNetlink(
                *step,
                Some(iface@),
            ),
            NetDown::OpenNetlink(step, None) => NetDownView::OpenNetlink(*step, None),
            NetDown::Send(request) => NetDownView::Send(request@),
            NetDown::Receive => NetDownView::Receive,
            NetDown::Over => NetDownView::Over,
        }
    }
}

/// Nothing was done yet.
pub open spec fn down_start() -> NetDownView {
    NetDownView::Discover(DiscoveryView::List)
}

/// The state after an event.
pub open spec fn down_next(s: NetDownView, event: NetEventView) -> NetDownView {
    match (s, event) {
        (NetDownView::Discover(d), _) => match discovery_next(d, event) {
            DiscoveryView::Found(iface) => NetDownView::OpenNetlink(NetlinkStep::Open, Some(iface)),
            DiscoveryView::Failed(_) => NetDownView::OpenNetlink(NetlinkStep::Open, None),
            further => NetDownView::Discover(further),
        },
        (NetDownView::OpenNetlink(NetlinkStep::Open, iface), NetEventView::Done) =>
            NetDownView::OpenNetlink(NetlinkStep::Bind, iface),
        (NetDownView::OpenNetlink(NetlinkStep::Bind, Some(iface)), NetEventView::Done) =>
            NetDownView::Send(request_of(RTM_NEWLINK, 0, 1, ifinfomsg(iface.index, 0, 0x1))),
        (NetDownView::OpenNetlink(NetlinkStep::Bind, None), NetEventView::Done) =>
            NetDownView::Over,
        (NetDownView::OpenNetlink(_, _), NetEventView::Failed(_)) => NetDownView::Over,
        (NetDownView::Send(_), NetEventView::Done) => NetDownView::Receive,
        (NetDownView::Send(_), NetEventView::Failed(_)) => NetDownView::Over,
        (NetDownView::Receive, NetEventView::Bytes(_) | NetEventView::Failed(_)) =>
            NetDownView::Over,
        _ => s,
    }
}

/// The action that a state asks for.
pub open spec fn down_action(s: NetDownView) -> NetActionView {
    match s {
        NetDownView::Discover(d) => discovery_action(d),
        NetDownView::OpenNetlink(step, _) => NetActionView::SetUpNetlink(step),
        NetDownView::Send(request) => NetActionView::SendNetlink(request.1),
        NetDownView::Receive => NetActionView::ReceiveNetlink,
        NetDownView::Over => NetActionView::Stop,
    }
}

impl NetDown {
    /// A network that is to come down.
    pub fn start() -> (r: NetDown)
        ensures
            r@ == down_start(),
            down_action(r@) == NetActionView::ListInterfaces,
    {
        NetDown::Discover(Discovery::List)
    }

    /// What has to be done next.
    pub fn action(&self) -> (r: NetAction)
        ensures
            r@ == down_action(self@),
    {
        match self {
            NetDown::Discover(d) => d.action(),
            NetDown::OpenNetlink(step, _) => NetAction::SetUpNetlink(*step),
            NetDown::Send(request) => NetAction::SendNetlink(request.bytes.clone()),
            NetDown::Receive => NetAction::ReceiveNetlink,
            NetDown::Over => NetAction::Stop,
        }
    }
}

/// Takes the network a step further down: from a state and the event that answers its action to
/// the next state and its action.
///
/// The link goes down, and its addresses and routes with it. This is best effort: a missing
/// interface or a failed request ends it, but is no failure.
pub fn net_down(state: NetDown, event: NetEvent) -> (r: (NetDown, NetAction))
    ensures
        r.0@ == down_next(state@, event@),
        r.1@ == down_action(r.0@),
{
    let next: NetDown = match (state, event) {
        (NetDown::Discover(d), event) => match Iface::discover(d, event) {
            Discovery::Found(iface) => NetDown::OpenNetlink(NetlinkStep::Open, Some(iface)),
            Discovery::Failed(_) => NetDown::OpenNetlink(NetlinkStep::Open, None),
            further => NetDown::Discover(further),
        },
        (NetDown::OpenNetlink(NetlinkStep::Open, iface), NetEvent::Done) => NetDown::OpenNetlink(
            NetlinkStep::Bind,
            iface,
        ),
        (NetDown::OpenNetlink(NetlinkStep::Bind, Some(iface)), NetEvent::Done) => {
            let mut sock: NetlinkSock = NetlinkSock::open();
            NetDown::Send(sock.link_set_down(iface.index))
        },
        (NetDown::OpenNetlink(NetlinkStep::Bind, None), NetEvent::Done) => NetDown::Over,
        (NetDown::OpenNetlink(_, _), NetEvent::Failed(_)) => NetDown::Over,
        (NetDown::Send(_), NetEvent::Done) => NetDown::Receive,
        (NetDown::Send(_), NetEvent::Failed(_)) => NetDown::Over,
        (NetDown::Receive, NetEvent::Bytes(_)) => NetDown::Over,
        (NetDown::Receive, NetEvent::Failed(_)) => NetDown::Over,
        (state, _) => state,
    };
    let action: NetAction = next.action();
    (next, action)
}

/// Whether an event answers an action.
pub open spec fn answers(action: NetActionView, event: NetEventView) -> bool {
    match action {
        NetActionView::ListInterfaces => event is Names || event is Failed,
        NetActionView::ReadText(_) => event is Text || event is Failed,
        NetActionView::ReceiveNetlink | NetActionView::ReceiveDhcp => event is Bytes
            || event is Failed,
        NetActionView::Stop => false,
        _ => event is Done || event is Failed,
    }
}

/// Whether a search is still under way.
pub open spec fn searching(d: DiscoveryView) -> bool {
    !(d is Found) && !(d is Failed)
}

/// The states that a network on its way up goes through: a search or an exchange that is over is
/// left at once.
pub open spec fn up_wf(phase: UpPhaseView) -> bool {
    match phase {
        UpPhaseView::Discover(d) => searching(d),
        UpPhaseView::Exchange(client, _, _) => !(client.phase is Leased)
            && !(client.phase is Failed),
        _ => true,
    }
}

/// The states that a network on its way down goes through.
pub open spec fn down_wf(s: NetDownView) -> bool {
    s matches NetDownView::Discover(d) ==> searching(d)
}

/// Every state of a network on its way up is one that it may go through, and an event that does
/// not answer its action changes nothing.
pub proof fn law_net_up_only_answers_count(s: NetUpView, event: NetEventView)
    requires
        up_wf(s.phase),
    ensures
        up_wf(up_start(s.root).phase),
        up_wf(up_next(s, event)),
        !answers(up_action(s.phase), event) ==> up_next(s, event) == s.phase,
{
}

/// Every state of a network on its way down is one that it may go through, and an event that
/// does not answer its action changes nothing.
pub proof fn law_net_down_only_answers_count(s: NetDownView, event: NetEventView)
    requires
        down_wf(s),
    ensures
        down_wf(down_start()),
        down_wf(down_next(s, event)),
        !answers(down_action(s), event) ==> down_next(s, event) == s,
{
}

/// How many answers are still to come at most before the network is down.
pub open spec fn down_rank(s: NetDownView) -> nat {
    match s {
        NetDownView::Discover(DiscoveryView::List) => 7,
        NetDownView::Discover(DiscoveryView::ReadIndex(_)) => 6,
        NetDownView::Discover(_) => 5,
        NetDownView::OpenNetlink(NetlinkStep::Open, _) => 4,
        NetDownView::OpenNetlink(NetlinkStep::Bind, _) => 3,
        NetDownView::Send(_) => 2,
        NetDownView::Receive => 1,
        NetDownView::Over => 0,
    }
}

/// A network on its way down after a run of events.
pub open spec fn down_run(events: Seq<NetEventView>) -> NetDownView
    decreases events.len(),
{
    if events.len() == 0 {
        down_start()
    } else {
        down_next(down_run(events.drop_last()), events.last())
    }
}

/// Taking the network down ends: after seven answers, whatever they are, it is over.
pub proof fn law_net_down_ends(events: Seq<NetEventView>)
    requires
        forall|i: int|
            0 <= i < events.len() ==> #[trigger] answers(
                down_action(down_run(events.take(i))),
                events[i],
            ) || down_run(events.take(i)) is Over,
        events.len() >= 7,
    ensures
        down_run(events) is Over,
{
    lemma_down_rank(events);
}

proof fn lemma_down_rank(events: Seq<NetEventView>)
    requires
        forall|i: int|
            0 <= i < events.len() ==> #[trigger] answers(
                down_action(down_run(events.take(i))),
                events[i],
            ) || down_run(events.take(i)) is Over,
    ensures
        down_wf(down_run(events)),
        down_run(events) is Over || down_rank(down_run(events)) + events.len() <= 7,
    decreases events.len(),
{
    if events.len() > 0 {
        let before = events.drop_last();
        let last = events.len() - 1;
        assert forall|i: int| 0 <= i < before.len() implies #[trigger] answers(
            down_action(down_run(before.take(i))),
            before[i],
        ) || down_run(before.take(i)) is Over by {
            assert(before.take(i) =~= events.take(i));
            assert(answers(down_action(down_run(events.take(i))), events[i]) || down_run(
                events.take(i),
            ) is Over);
        }
        lemma_down_rank(before);
        assert(events.take(last) =~= before);
        assert(answers(down_action(down_run(events.take(last))), events[last]) || down_run(
            events.take(last),
        ) is Over);
    }
}

/// The link is asked to go down exactly where an interface was found and the socket is ready.
pub proof fn law_net_down_asks_the_link(s: NetDownView, event: NetEventView)
    requires
        down_wf(s),
        !(s is Send),
    ensures
        down_next(s, event) is Send <==> (s matches NetDownView::OpenNetlink(
            NetlinkStep::Bind,
            Some(_),
        ) && event is Done),
{
}

/// A network on its way up after a run of events.
pub open spec fn up_run(root: Seq<char>, events: Seq<NetEventView>) -> NetUpView
    decreases events.len(),
{
    if events.len() == 0 {
        up_start(root)
    } else {
        let before = up_run(root, events.drop_last());
        NetUpView { root: before.root, phase: up_next(before, events.last()) }
    }
}

/// The acknowledged steps after an event.
pub open spec fn steps_after(
    phase: UpPhaseView,
    steps: Seq<UpStepView>,
    event: NetEventView,
) -> Seq<UpStepView> {
    match (phase, event) {
        (UpPhaseView::Receive(step, _, _, msg_type), NetEventView::Bytes(reply)) =>
            if ack_outcome(reply, msg_type) is Ok {
                steps.push(step)
            } else {
                steps
            },
        _ => steps,
    }
}

/// The steps that the kernel acknowledged in a run, in order.
pub open spec fn acknowledged_in(root: Seq<char>, events: Seq<NetEventView>) -> Seq<UpStepView>
    decreases events.len(),
{
    if events.len() == 0 {
        Seq::empty()
    } else {
        steps_after(
            up_run(root, events.drop_last()).phase,
            acknowledged_in(root, events.drop_last()),
            events.last(),
        )
    }
}

/// What was written to the name-server file in a run, if anything.
pub open spec fn written_in(root: Seq<char>, events: Seq<NetEventView>) -> Option<Seq<char>>
    decreases events.len(),
{
    if events.len() == 0 {
        None
    } else {
        match (up_run(root, events.drop_last()).phase, events.last()) {
            (UpPhaseView::WriteResolvConf(contents), NetEventView::Done) => Some(contents),
            _ => written_in(root, events.drop_last()),
        }
    }
}

/// The steps that come before `step`.
pub open spec fn steps_before(step: UpStepView) -> Seq<UpStepView> {
    match step {
        UpStepView::LinkUp => seq![],
        UpStepView::AddHostRoute => seq![UpStepView::LinkUp],
        UpStepView::DelHostRoute(_) => seq![UpStepView::LinkUp, UpStepView::AddHostRoute],
        UpStepView::AddAddr(lease) => seq![
            UpStepView::LinkUp,
            UpStepView::AddHostRoute,
            UpStepView::DelHostRoute(lease),
        ],
        UpStepView::AddDefaultRoute(_, lease) => seq![
            UpStepView::LinkUp,
            UpStepView::AddHostRoute,
            UpStepView::DelHostRoute(lease),
            UpStepView::AddAddr(lease),
        ],
    }
}

/// The steps that configure a network for `lease`: a default route goes through the leased
/// router, and there is one exactly where the lease has a router.
pub open spec fn steps_for_lease(lease: LeaseView) -> Seq<UpStepView> {
    let front = seq![
        UpStepView::LinkUp,
        UpStepView::AddHostRoute,
        UpStepView::DelHostRoute(lease),
        UpStepView::AddAddr(lease),
    ];
    match lease.router {
        Some(gateway) => front.push(UpStepView::AddDefaultRoute(gateway, lease)),
        None => front,
    }
}

/// What the acknowledged steps are in each phase, and the numbers of the requests.
spec fn steps_fit(phase: UpPhaseView, steps: Seq<UpStepView>) -> bool {
    match phase {
        UpPhaseView::Discover(_) | UpPhaseView::OpenNetlink(_, _) => steps == Seq::<
            UpStepView,
        >::empty(),
        UpPhaseView::Send(step, iface, seq, request) => {
            &&& steps == steps_before(step)
            &&& seq == steps_before(step).len() + 2
            &&& request == step_request(step, iface.index, (seq - 1) as u32)
            &&& step matches UpStepView::AddDefaultRoute(gateway, lease) ==> lease.router == Some(
                gateway,
            )
        },
        UpPhaseView::Receive(step, _, seq, _) => {
            &&& steps == steps_before(step)
            &&& seq == steps_before(step).len() + 2
            &&& step matches UpStepView::AddDefaultRoute(gateway, lease) ==> lease.router == Some(
                gateway,
            )
        },
        UpPhaseView::OpenDhcp(_, _, seq) | UpPhaseView::Exchange(_, _, seq) => {
            &&& steps == seq![UpStepView::LinkUp, UpStepView::AddHostRoute]
            &&& seq == 3
        },
        _ => true,
    }
}

/// What is left to do after `step` fits what was acknowledged with it: the next step, or the
/// name-server file of the lease for which everything was done.
proof fn lemma_step_fits(step: UpStepView, iface: IfaceView, seq: u32)
    requires
        seq == steps_before(step).len() + 2,
        step matches UpStepView::AddDefaultRoute(gateway, lease) ==> lease.router == Some(gateway),
    ensures
        steps_fit(after_step(step, iface, seq), steps_before(step).push(step)),
        after_step(step, iface, seq) is MakeEtc ==> match step {
            UpStepView::AddAddr(lease) => steps_before(step).push(step) == steps_for_lease(lease),
            UpStepView::AddDefaultRoute(_, lease) => steps_before(step).push(step)
                == steps_for_lease(lease),
            _ => false,
        },
{
    let all = steps_before(step).push(step);
    match step {
        UpStepView::LinkUp => {
            assert(all =~= seq![UpStepView::LinkUp]);
        },
        UpStepView::AddHostRoute => {
            assert(all =~= seq![UpStepView::LinkUp, UpStepView::AddHostRoute]);
        },
        UpStepView::DelHostRoute(lease) => {
            assert(all =~= steps_before(UpStepView::AddAddr(lease)));
        },
        UpStepView::AddAddr(lease) => {
            if let Some(gateway) = lease.router {
                assert(all =~= steps_before(UpStepView::AddDefaultRoute(gateway, lease)));
            } else {
                assert(all =~= steps_for_lease(lease));
            }
        },
        UpStepView::AddDefaultRoute(_, lease) => {
            assert(all =~= steps_for_lease(lease));
        },
    }
}

proof fn lemma_next_fits(s: NetUpView, steps: Seq<UpStepView>, event: NetEventView)
    requires
        steps_fit(s.phase, steps),
    ensures
        steps_fit(up_next(s, event), steps_after(s.phase, steps, event)),
{
    if let UpPhaseView::Receive(step, iface, seq, _) = s.phase {
        lemma_step_fits(step, iface, seq);
    }
}

proof fn lemma_steps(root: Seq<char>, events: Seq<NetEventView>)
    ensures
        steps_fit(up_run(root, events).phase, acknowledged_in(root, events)),
    decreases events.len(),
{
    if events.len() > 0 {
        let before = events.drop_last();
        lemma_steps(root, before);
        lemma_next_fits(up_run(root, before), acknowledged_in(root, before), events.last());
    }
}

/// A request goes out only when everything before it was acknowledged, for the same lease, and
/// requests are numbered from one without gaps.
pub proof fn law_net_up_requests_in_order(
    root: Seq<char>,
    events: Seq<NetEventView>,
    step: UpStepView,
    iface: IfaceView,
    seq: u32,
    request: (u16, Seq<u8>),
)
    requires
        up_run(root, events).phase == UpPhaseView::Send(step, iface, seq, request),
    ensures
        acknowledged_in(root, events) == steps_before(step),
        request == step_request(step, iface.index, (steps_before(step).len() + 1) as u32),
{
    lemma_steps(root, events);
}

/// A network comes up only by a name-server file that was written, and what happened after it is
/// over changes nothing.
pub proof fn law_net_up_ends_with_the_file(s: NetUpView, event: NetEventView)
    ensures
        up_next(s, event) == UpPhaseView::Over(Ok(())) ==> s.phase == UpPhaseView::Over(Ok(())) || (
        s.phase is WriteResolvConf && event is Done),
        s.phase is Over ==> up_next(s, event) == s.phase,
{
}

/// Whether event `i` of a run is an ACK that grants `lease` to hardware address `mac`.
pub open spec fn grants(
    events: Seq<NetEventView>,
    i: int,
    mac: Seq<u8>,
    lease: LeaseView,
) -> bool {
    &&& 0 <= i < events.len()
    &&& events[i] matches NetEventView::Bytes(p) && dhcp_answer(p, xid_of(mac), DHCP_ACK) == Some(
        lease,
    )
}

/// Whether some event of a run grants `lease`.
pub open spec fn granted(events: Seq<NetEventView>, mac: Seq<u8>, lease: LeaseView) -> bool {
    exists|i: int| grants(events, i, mac, lease)
}

/// What a step installs, or takes away, was granted, and its gateway is the leased one.
pub open spec fn step_granted(
    events: Seq<NetEventView>,
    step: UpStepView,
    iface: IfaceView,
) -> bool {
    match step {
        UpStepView::LinkUp | UpStepView::AddHostRoute => true,
        UpStepView::DelHostRoute(lease) | UpStepView::AddAddr(lease) => granted(
            events,
            iface.mac,
            lease,
        ),
        UpStepView::AddDefaultRoute(gateway, lease) => granted(events, iface.mac, lease)
            && lease.router == Some(gateway),
    }
}

/// Whether `contents` lists the name servers of a lease that was granted.
pub open spec fn servers_granted(events: Seq<NetEventView>, contents: Seq<char>) -> bool {
    exists|mac: Seq<u8>, lease: LeaseView| #[trigger]
        granted(events, mac, lease) && contents == resolv_text(lease.dns)
}

/// Everything that is installed was granted by the DHCP server to the interface's own hardware
/// address: the address and its prefix, the gateway, and the name servers that are written.
pub proof fn law_net_up_installs_what_was_granted(root: Seq<char>, events: Seq<NetEventView>)
    ensures
        match up_run(root, events).phase {
            UpPhaseView::Send(step, iface, _, _) => step_granted(events, step, iface),
            UpPhaseView::Receive(step, iface, _, _) => step_granted(events, step, iface),
            UpPhaseView::Exchange(client, iface, _) => client.mac == iface.mac,
            UpPhaseView::MakeEtc(contents) => servers_granted(events, contents),
            UpPhaseView::WriteResolvConf(contents) => servers_granted(events, contents),
            _ => true,
        },
    decreases events.len(),
{
    if events.len() > 0 {
        let before = events.drop_last();
        law_net_up_installs_what_was_granted(root, before);
        let last = events.len() - 1;
        assert(before.push(events.last()) =~= events);
        assert forall|mac: Seq<u8>, lease: LeaseView| #[trigger]
            granted(before, mac, lease) implies granted(events, mac, lease) by {
            lemma_still_granted(before, events.last(), mac, lease);
        }
        match up_run(root, before).phase {
            UpPhaseView::Exchange(client, iface, _) => {
                if let NetEventView::Bytes(p) = events.last() {
                    if let Some(lease) = dhcp_answer(p, xid_of(client.mac), DHCP_ACK) {
                        assert(grants(events, last, iface.mac, lease));
                    }
                }
                if let DhcpPhaseView::Leased(lease) = client.phase {
                    lemma_exchange_runs(root, before);
                }
            },
            UpPhaseView::Receive(step, iface, seq, _) => {
                lemma_after_step_granted(events, step, iface, seq);
            },
            UpPhaseView::MakeEtc(contents) => {
                lemma_servers_still_granted(before, events.last(), contents);
            },
            UpPhaseView::WriteResolvConf(contents) => {
                lemma_servers_still_granted(before, events.last(), contents);
            },
            _ => {},
        }
    }
}

/// Whether in a run `lease` was granted to `mac`, and exactly the steps for it were
/// acknowledged.
pub open spec fn configured_for(
    root: Seq<char>,
    events: Seq<NetEventView>,
    mac: Seq<u8>,
    lease: LeaseView,
) -> bool {
    granted(events, mac, lease) && acknowledged_in(root, events) == steps_for_lease(lease)
}

proof fn lemma_configured(root: Seq<char>, events: Seq<NetEventView>) -> (r: (Seq<u8>, LeaseView))
    requires
        ({
            let phase = up_run(root, events).phase;
            phase is MakeEtc || phase is WriteResolvConf || phase == UpPhaseView::Over(Ok(()))
        }),
    ensures
        configured_for(root, events, r.0, r.1),
        match up_run(root, events).phase {
            UpPhaseView::MakeEtc(contents) => contents == resolv_text(r.1.dns),
            UpPhaseView::WriteResolvConf(contents) => contents == resolv_text(r.1.dns),
            _ => written_in(root, events) == Some(resolv_text(r.1.dns)),
        },
    decreases events.len(),
{
    let before = events.drop_last();
    let was = up_run(root, before);
    if let UpPhaseView::Receive(step, iface, seq, _) = was.phase {
        lemma_steps(root, before);
        law_net_up_installs_what_was_granted(root, before);
        lemma_step_fits(step, iface, seq);
        let lease = match step {
            UpStepView::AddAddr(lease) => lease,
            UpStepView::AddDefaultRoute(_, lease) => lease,
            _ => arbitrary(),
        };
        lemma_still_granted(before, events.last(), iface.mac, lease);
        assert(before.push(events.last()) =~= events);
        (iface.mac, lease)
    } else {
        let (mac, lease) = lemma_configured(root, before);
        lemma_still_granted(before, events.last(), mac, lease);
        assert(before.push(events.last()) =~= events);
        (mac, lease)
    }
}

proof fn lemma_still_granted(
    events: Seq<NetEventView>,
    event: NetEventView,
    mac: Seq<u8>,
    lease: LeaseView,
)
    ensures
        granted(events, mac, lease) ==> granted(events.push(event), mac, lease),
{
    if granted(events, mac, lease) {
        let i = choose|i: int| grants(events, i, mac, lease);
        assert(grants(events.push(event), i, mac, lease));
    }
}

proof fn lemma_servers_still_granted(
    events: Seq<NetEventView>,
    event: NetEventView,
    contents: Seq<char>,
)
    requires
        servers_granted(events, contents),
    ensures
        servers_granted(events.push(event), contents),
{
    let (mac, lease) = choose|mac: Seq<u8>, lease: LeaseView| #[trigger]
        granted(events, mac, lease) && contents == resolv_text(lease.dns);
    lemma_still_granted(events, event, mac, lease);
}

/// A network is up only when some lease was granted, and the kernel acknowledged for it the
/// link, the temporary route for DHCP, its removal, the leased address and, exactly where the
/// lease has a router, the default route through that router: each once, in that order; and the
/// name servers of the same lease were written.
pub proof fn law_net_up_changes_in_order(root: Seq<char>, events: Seq<NetEventView>)
    requires
        up_run(root, events).phase == UpPhaseView::Over(Ok(())),
    ensures
        exists|mac: Seq<u8>, lease: LeaseView| #[trigger]
            configured_for(root, events, mac, lease) && written_in(root, events) == Some(
                resolv_text(lease.dns),
            ),
{
    let (mac, lease) = lemma_configured(root, events);
    assert(configured_for(root, events, mac, lease));
}

proof fn lemma_after_step_granted(
    events: Seq<NetEventView>,
    step: UpStepView,
    iface: IfaceView,
    seq: u32,
)
    requires
        step_granted(events, step, iface),
    ensures
        match after_step(step, iface, seq) {
            UpPhaseView::Send(further, same, _, _) => same == iface && step_granted(
                events,
                further,
                iface,
            ),
            UpPhaseView::MakeEtc(contents) => servers_granted(events, contents),
            _ => true,
        },
{
}

proof fn lemma_exchange_runs(root: Seq<char>, events: Seq<NetEventView>)
    ensures
        up_wf(up_run(root, events).phase),
    decreases events.len(),
{
    if events.len() > 0 {
        lemma_exchange_runs(root, events.drop_last());
        law_net_up_only_answers_count(up_run(root, events.drop_last()), events.last());
    }
}

/// The request for each step is the right message to the kernel, on the right link, with its
/// number: the link goes up by flag 1, the broadcast address is routed and unrouted as a whole
/// address in link scope, the leased address is given with its prefix length, and everything else
/// is routed through the gateway.
pub proof fn law_steps_ask_for_this(step: UpStepView, index: u32, seq: u32)
    ensures
        ({
            let (msg_type, m) = step_request(step, index, seq);
            let body = m.skip(16);
            &&& le16_at(m, 4) == msg_type
            &&& le32_at(m, 8) == seq
            &&& match step {
                UpStepView::LinkUp => msg_type == 16 && le16_at(m, 6) == 5 && body.len() == 16
                    && body[0] == 0 && le32_at(body, 4) == index && le32_at(body, 8) == 1
                    && le32_at(body, 12) == 1,
                UpStepView::AddHostRoute => msg_type == 24 && le16_at(m, 6) == 0x505
                    && body.take(12) == seq![2u8, 32, 0, 0, 254, 3, 253, 1, 0, 0, 0, 0]
                    && rtattrs(body.skip(12)) == Some(
                    seq![(1u16, seq![255u8, 255, 255, 255]), (4u16, le32(index))],
                ),
                UpStepView::DelHostRoute(_) => msg_type == 25 && le16_at(m, 6) == 5 && body.take(12)
                    == seq![2u8, 32, 0, 0, 254, 3, 253, 1, 0, 0, 0, 0] && rtattrs(body.skip(12))
                    == Some(seq![(1u16, seq![255u8, 255, 255, 255]), (4u16, le32(index))]),
                UpStepView::AddAddr(lease) => msg_type == 20 && le16_at(m, 6) == 0x505
                    && body.take(4) == seq![2u8, lease.prefix_len, 0, 0] && le32_at(body, 4)
                    == index && rtattrs(body.skip(8)) == Some(
                    seq![(2u16, octets_of(lease.yiaddr)), (1u16, octets_of(lease.yiaddr))],
                ),
                UpStepView::AddDefaultRoute(gateway, _) => msg_type == 24 && le16_at(m, 6) == 0x505
                    && body.take(12) == seq![2u8, 0, 0, 0, 254, 3, 0, 1, 0, 0, 0, 0] && rtattrs(
                    body.skip(12),
                ) == Some(seq![(5u16, octets_of(gateway)), (4u16, le32(index))]),
            }
        }),
{
    assert(0u16 | 5u16 == 5u16) by (bit_vector);
    assert((0x400u16 | 0x100u16) | 5u16 == 0x505u16) by (bit_vector);
    match step {
        UpStepView::LinkUp => {
            let body = ifinfomsg(index, 1, 1);
            law_requests_ask_for_an_answer(RTM_NEWLINK, 0, seq, body);
            law_link_message_reads_back(index, 1, 1);
        },
        UpStepView::AddHostRoute => {
            law_requests_ask_for_an_answer(
                RTM_NEWROUTE,
                NLM_F_CREATE | NLM_F_REPLACE,
                seq,
                host_route(index),
            );
            lemma_host_route(index);
        },
        UpStepView::DelHostRoute(_) => {
            law_requests_ask_for_an_answer(RTM_DELROUTE, 0, seq, host_route(index));
            lemma_host_route(index);
        },
        UpStepView::AddAddr(lease) => {
            law_requests_ask_for_an_answer(
                RTM_NEWADDR,
                NLM_F_CREATE | NLM_F_REPLACE,
                seq,
                ifaddrmsg(index, lease.yiaddr, lease.prefix_len),
            );
            law_bodies_read_back(index, lease.yiaddr, lease.prefix_len);
            law_address_message_has_its_fields(index, lease.yiaddr, lease.prefix_len);
        },
        UpStepView::AddDefaultRoute(gateway, _) => {
            law_requests_ask_for_an_answer(
                RTM_NEWROUTE,
                NLM_F_CREATE | NLM_F_REPLACE,
                seq,
                default_route(index, gateway),
            );
            law_bodies_read_back(index, gateway, 0);
            law_routes_have_their_fields(index, gateway);
        },
    }
}

proof fn lemma_host_route(index: u32)
    ensures
        host_route(index).take(12) == seq![2u8, 32, 0, 0, 254, 3, 253, 1, 0, 0, 0, 0],
        rtattrs(host_route(index).skip(12)) == Some(
            seq![(1u16, seq![255u8, 255, 255, 255]), (4u16, le32(index))],
        ),
{
    let any = Ipv4Addr { a: 0, b: 0, c: 0, d: 0 };
    law_bodies_read_back(index, any, 0);
    law_routes_have_their_fields(index, any);
}

/// Taking the network down asks the kernel to clear flag 1 of the link that was found, and no
/// other flag of no other link.
pub proof fn law_net_down_takes_the_link_down(iface: IfaceView)
    ensures
        ({
            let bind = NetDownView::OpenNetlink(NetlinkStep::Bind, Some(iface));
            let s = down_next(bind, NetEventView::Done);
            &&& s matches NetDownView::Send(request) && down_action(s) matches
                NetActionView::SendNetlink(m) && m == request.1 && m.len() == 32 && le16_at(m, 4)
                == 16 && le16_at(m, 6) == 5 && le32_at(m, 8) == 1 && m[16] == 0 && le32_at(
                m.skip(16),
                4,
            ) == iface.index && le32_at(m.skip(16), 8) == 0 && le32_at(m.skip(16), 12) == 1
        }),
{
    assert(0u16 | 5u16 == 5u16) by (bit_vector);
    let body = ifinfomsg(iface.index, 0, 1);
    law_requests_ask_for_an_answer(RTM_NEWLINK, 0, 1, body);
    law_link_message_reads_back(iface.index, 0, 1);
    let m = request_of(RTM_NEWLINK, 0, 1, body).1;
    assert(m.skip(16)[0] == m[16]);
}

/// A network on its way down looks for the interface, opens the socket, asks, waits for an answer
/// and is then over; without an interface it is over once the socket is open.
pub proof fn law_net_down_goes_on(iface: IfaceView, reply: Seq<u8>, e: Seq<char>, d: DiscoveryView)
    requires
        d is List || d is ReadIndex || d is ReadMac,
    ensures
        ({
            let open = NetDownView::OpenNetlink(NetlinkStep::Open, Some(iface));
            let bind = down_next(open, NetEventView::Done);
            let send = down_next(bind, NetEventView::Done);
            let wait = down_next(send, NetEventView::Done);
            let lost = down_next(NetDownView::Discover(d), NetEventView::Failed(e));
            &&& down_action(open) == NetActionView::SetUpNetlink(NetlinkStep::Open)
            &&& down_action(bind) == NetActionView::SetUpNetlink(NetlinkStep::Bind)
            &&& down_action(send) is SendNetlink
            &&& down_action(wait) is ReceiveNetlink
            &&& down_next(wait, NetEventView::Bytes(reply)) is Over
            &&& down_next(wait, NetEventView::Failed(e)) is Over
            &&& down_next(down_next(lost, NetEventView::Done), NetEventView::Done) is Over
            &&& down_action(lost) == NetActionView::SetUpNetlink(NetlinkStep::Open)
        }),
{
}

/// Outside the DHCP exchange, the first failure ends it, with a message that ends with what was
/// reported; and so does an answer of the kernel that is no success, with what it says.
pub proof fn law_net_up_stops_at_a_failure(s: NetUpView, e: Seq<char>, reply: Seq<u8>)
    requires
        up_wf(s.phase),
        !(s.phase is Over),
    ensures
        !(s.phase is Exchange) ==> (up_next(s, NetEventView::Failed(e)) matches UpPhaseView::Over(
            Err(text),
        ) && e.is_suffix_of(text)),
        s.phase matches UpPhaseView::Receive(_, _, _, msg_type) ==> (ack_outcome(reply, msg_type)
            matches Err(text) ==> up_next(s, NetEventView::Bytes(reply)) == UpPhaseView::Over(
            Err::<(), Seq<char>>(text),
        )),
{
    if let UpPhaseView::Discover(d) = s.phase {
        law_discovery_stops_at_a_failure(d, e);
    } else if !(s.phase is Exchange) {
        let next = up_next(s, NetEventView::Failed(e));
        let text = next->Over_0->Err_0;
        assert(text.subrange(text.len() - e.len(), text.len() as int) =~= e);
    }
}

/// Whether an event is an answer of the kernel that acknowledges a request of type `msg_type`.
pub open spec fn acknowledges(event: NetEventView, msg_type: u16) -> bool {
    event matches NetEventView::Bytes(reply) && ack_outcome(reply, msg_type) is Ok
}

/// Whether a run of events answers every step up to the leased address with a success, on
/// interface `iface` and with `lease` granted.
pub open spec fn all_goes_well(
    events: Seq<NetEventView>,
    iface: IfaceView,
    lease: LeaseView,
) -> bool {
    &&& events.len() >= 22
    &&& events[0] matches NetEventView::Names(entries) && name_outcome(entries) == Ok::<
        Seq<char>,
        Seq<char>,
    >(iface.name)
    &&& events[1] matches NetEventView::Text(raw) && ifindex_outcome(raw) == Ok::<u32, Seq<char>>(
        iface.index,
    )
    &&& events[2] matches NetEventView::Text(raw) && mac_outcome(trimmed(raw)) == Ok::<
        Seq<u8>,
        Seq<char>,
    >(iface.mac)
    &&& forall|i: int|
        #![trigger events[i]]
        i == 3 || i == 4 || i == 5 || i == 7 || 9 <= i <= 14 || i == 16 || i == 18 || i == 20
            ==> events[i] is Done
    &&& acknowledges(events[6], 16)
    &&& acknowledges(events[8], 24)
    &&& events[15] matches NetEventView::Bytes(p) && dhcp_answer(p, xid_of(iface.mac), 2) is Some
    &&& events[17] matches NetEventView::Bytes(p) && dhcp_answer(p, xid_of(iface.mac), 5) == Some(
        lease,
    )
    &&& acknowledges(events[19], 25)
    &&& acknowledges(events[21], 20)
}

proof fn lemma_up_step(root: Seq<char>, events: Seq<NetEventView>, j: int)
    requires
        0 <= j < events.len(),
    ensures
        up_run(root, events.take(j + 1)) == (NetUpView {
            root: up_run(root, events.take(j)).root,
            phase: up_next(up_run(root, events.take(j)), events[j]),
        }),
        written_in(root, events.take(j + 1)) == match (
            up_run(root, events.take(j)).phase,
            events[j],
        ) {
            (UpPhaseView::WriteResolvConf(contents), NetEventView::Done) => Some(contents),
            _ => written_in(root, events.take(j)),
        },
{
    assert(events.take(j + 1).drop_last() =~= events.take(j));
    assert(events.take(j + 1).last() == events[j]);
}

/// The phase after the first `n` events of a run.
spec fn phase_at(root: Seq<char>, events: Seq<NetEventView>, n: int) -> UpPhaseView {
    up_run(root, events.take(n)).phase
}

proof fn lemma_well_up_to_dhcp(
    root: Seq<char>,
    events: Seq<NetEventView>,
    iface: IfaceView,
    lease: LeaseView,
)
    requires
        all_goes_well(events, iface, lease),
    ensures
        phase_at(root, events, 14) == UpPhaseView::Exchange(
            dhcp_start(iface.mac),
            iface,
            3,
        ),
{
    assert(events.take(0) =~= Seq::<NetEventView>::empty());
    assert(up_run(root, events.take(0)) == up_start(root));
    lemma_up_step(root, events, 0);
    assert(phase_at(root, events, 1) == UpPhaseView::Discover(
        DiscoveryView::ReadIndex(iface.name),
    ));
    lemma_up_step(root, events, 1);
    assert(phase_at(root, events, 2) == UpPhaseView::Discover(
        DiscoveryView::ReadMac(iface.name, iface.index),
    ));
    lemma_up_step(root, events, 2);
    assert(phase_at(root, events, 3) == UpPhaseView::OpenNetlink(NetlinkStep::Open, iface));
    lemma_up_step(root, events, 3);
    assert(phase_at(root, events, 4) == UpPhaseView::OpenNetlink(NetlinkStep::Bind, iface));
    lemma_up_step(root, events, 4);
    assert(phase_at(root, events, 5) == begin_step(UpStepView::LinkUp, iface, 1));
    lemma_up_step(root, events, 5);
    assert(phase_at(root, events, 6) == UpPhaseView::Receive(UpStepView::LinkUp, iface, 2, 16));
    lemma_up_step(root, events, 6);
    assert(phase_at(root, events, 7) == begin_step(UpStepView::AddHostRoute, iface, 2));
    lemma_up_step(root, events, 7);
    assert(phase_at(root, events, 8) == UpPhaseView::Receive(
        UpStepView::AddHostRoute,
        iface,
        3,
        24,
    ));
    lemma_up_step(root, events, 8);
    assert(phase_at(root, events, 9) == UpPhaseView::OpenDhcp(DhcpStep::Open, iface, 3));
    lemma_up_step(root, events, 9);
    assert(phase_at(root, events, 10) == UpPhaseView::OpenDhcp(DhcpStep::ReuseAddr, iface, 3));
    lemma_up_step(root, events, 10);
    assert(phase_at(root, events, 11) == UpPhaseView::OpenDhcp(DhcpStep::Broadcast, iface, 3));
    lemma_up_step(root, events, 11);
    assert(phase_at(root, events, 12) == UpPhaseView::OpenDhcp(DhcpStep::Timeout, iface, 3));
    lemma_up_step(root, events, 12);
    assert(phase_at(root, events, 13) == UpPhaseView::OpenDhcp(DhcpStep::Bind, iface, 3));
    lemma_up_step(root, events, 13);
    assert(phase_at(root, events, 14) == UpPhaseView::Exchange(dhcp_start(iface.mac), iface, 3));
}

proof fn lemma_well_up_to_address(
    root: Seq<char>,
    events: Seq<NetEventView>,
    iface: IfaceView,
    lease: LeaseView,
)
    requires
        all_goes_well(events, iface, lease),
    ensures
        phase_at(root, events, 22) == after_step(UpStepView::AddAddr(lease), iface, 5),
{
    lemma_well_up_to_dhcp(root, events, iface, lease);
    lemma_up_step(root, events, 14);
    assert(phase_at(root, events, 15) matches UpPhaseView::Exchange(c, i, 3)
        && c.phase is AwaitOffer && c.mac == iface.mac && i == iface);
    lemma_up_step(root, events, 15);
    assert(phase_at(root, events, 16) matches UpPhaseView::Exchange(c, i, 3)
        && c.phase is Request && c.mac == iface.mac && i == iface);
    lemma_up_step(root, events, 16);
    assert(phase_at(root, events, 17) matches UpPhaseView::Exchange(c, i, 3)
        && c.phase is AwaitAck && c.mac == iface.mac && i == iface);
    lemma_up_step(root, events, 17);
    assert(phase_at(root, events, 18) == begin_step(UpStepView::DelHostRoute(lease), iface, 3));
    lemma_up_step(root, events, 18);
    assert(phase_at(root, events, 19) == UpPhaseView::Receive(
        UpStepView::DelHostRoute(lease),
        iface,
        4,
        25,
    ));
    lemma_up_step(root, events, 19);
    assert(phase_at(root, events, 20) == begin_step(UpStepView::AddAddr(lease), iface, 4));
    lemma_up_step(root, events, 20);
    assert(phase_at(root, events, 21) == UpPhaseView::Receive(
        UpStepView::AddAddr(lease),
        iface,
        5,
        20,
    ));
    lemma_up_step(root, events, 21);
}

/// Where every step is answered with a success, the network comes up: with a router in the lease
/// after one more request than without, and with the leased name servers written.
pub proof fn law_net_up_comes_up(
    root: Seq<char>,
    events: Seq<NetEventView>,
    iface: IfaceView,
    lease: LeaseView,
)
    requires
        all_goes_well(events, iface, lease),
        lease.router is None ==> events.len() == 24 && events[22] is Done && events[23] is Done,
        lease.router is Some ==> events.len() == 26 && events[22] is Done && acknowledges(
            events[23],
            24,
        ) && events[24] is Done && events[25] is Done,
    ensures
        up_run(root, events).phase == UpPhaseView::Over(Ok::<(), Seq<char>>(())),
        written_in(root, events) == Some(resolv_text(lease.dns)),
{
    lemma_well_up_to_address(root, events, iface, lease);
    lemma_up_step(root, events, 22);
    lemma_up_step(root, events, 23);
    if let Some(gateway) = lease.router {
        let step = UpStepView::AddDefaultRoute(gateway, lease);
        assert(up_run(root, events.take(22)).phase == begin_step(step, iface, 5));
        assert(up_run(root, events.take(23)).phase == UpPhaseView::Receive(step, iface, 6, 24));
        lemma_up_step(root, events, 24);
        lemma_up_step(root, events, 25);
        assert(events.take(26) =~= events);
    } else {
        assert(events.take(24) =~= events);
    }
}

/// The DHCP socket is opened, shared, allowed to broadcast, given its timeout and bound, in that
/// order and each once.
pub proof fn law_dhcp_socket_steps()
    ensures
        dhcp_step_after(DhcpStep::Open) == Some(DhcpStep::ReuseAddr),
        dhcp_step_after(DhcpStep::ReuseAddr) == Some(DhcpStep::Broadcast),
        dhcp_step_after(DhcpStep::Broadcast) == Some(DhcpStep::Timeout),
        dhcp_step_after(DhcpStep::Timeout) == Some(DhcpStep::Bind),
        dhcp_step_after(DhcpStep::Bind) is None,
{
}

/// A name under a directory follows it after exactly one slash, whether or not the directory was
/// written with one; under no directory it stands alone.
pub proof fn law_names_follow_one_slash(root: Seq<char>, name: Seq<char>)
    ensures
        joined(Seq::empty(), name) == name,
        root.len() > 0 && root.last() != '/' ==> joined(root, name) == root + seq!['/'] + name
            && joined(root + seq!['/'], name) == root + seq!['/'] + name,
{
    reveal_strlit("/");
    assert(Seq::<char>::empty() + name =~= name);
    assert("/"@ =~= seq!['/']);
}

/// What is asked for is what the phase holds: a request is sent as its bytes, the name-server
/// file is written with its contents, and the DHCP exchange sends and receives what the client
/// wants.
pub proof fn law_net_up_asks_for_what_it_holds(
    step: UpStepView,
    iface: IfaceView,
    seq: u32,
    request: (u16, Seq<u8>),
    contents: Seq<char>,
    client: DhcpView,
)
    ensures
        up_action(UpPhaseView::Send(step, iface, seq, request)) == NetActionView::SendNetlink(
            request.1,
        ),
        up_action(UpPhaseView::Receive(step, iface, seq, request.0)) is ReceiveNetlink,
        up_action(UpPhaseView::MakeEtc(contents)) is MakeEtc,
        up_action(UpPhaseView::WriteResolvConf(contents)) == NetActionView::WriteResolvConf(
            contents,
        ),
        dhcp_action(client) matches DhcpActionView::Send(packet) ==> up_action(
            UpPhaseView::Exchange(client, iface, seq),
        ) == NetActionView::SendDhcp(packet),
        dhcp_action(client) is Receive ==> up_action(UpPhaseView::Exchange(client, iface, seq))
            is ReceiveDhcp,
{
}

/// Every event of the exchange reaches the client as what it is: a packet that went out, one that
/// came in, or a failure.
pub proof fn law_client_hears_what_happened(packet: Seq<u8>, e: Seq<char>, text: Seq<char>)
    ensures
        dhcp_event(NetEventView::Done) == Some(DhcpEventView::Sent),
        dhcp_event(NetEventView::Bytes(packet)) == Some(DhcpEventView::Packet(packet)),
        dhcp_event(NetEventView::Failed(e)) == Some(DhcpEventView::Failed(e)),
        dhcp_event(NetEventView::Text(text)) is None,
{
}

/// Whatever state the DHCP client is in, its exchange goes on until it has a lease or fails: with
/// a lease the broadcast route is taken away next, on the same interface, and a failure of the
/// client is the failure of the whole.
pub proof fn law_exchange_goes_on_until_the_client_is_done(
    root: Seq<char>,
    client: DhcpView,
    iface: IfaceView,
    seq: u32,
    event: NetEventView,
)
    ensures
        ({
            let s = NetUpView { root, phase: UpPhaseView::Exchange(client, iface, seq) };
            let next = up_next(s, event);
            match event {
                NetEventView::Names(_) | NetEventView::Text(_) => next == s.phase,
                _ => {
                    let heard = match event {
                        NetEventView::Bytes(packet) => DhcpEventView::Packet(packet),
                        NetEventView::Failed(e) => DhcpEventView::Failed(e),
                        _ => DhcpEventView::Sent,
                    };
                    match dhcp_next(client, heard).phase {
                        DhcpPhaseView::Leased(lease) => next matches UpPhaseView::Send(
                            step,
                            link,
                            _,
                            _,
                        ) && step == UpStepView::DelHostRoute(lease) && link == iface,
                        DhcpPhaseView::Failed(text) => next == UpPhaseView::Over(
                            Err::<(), Seq<char>>(text),
                        ),
                        _ => next == UpPhaseView::Exchange(
                            dhcp_next(client, heard),
                            iface,
                            seq,
                        ),
                    }
                },
            }
        }),
{
}

} // verus!
