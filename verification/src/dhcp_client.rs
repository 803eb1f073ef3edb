//! The DHCP exchange: DISCOVER, OFFER, REQUEST, ACK.
//!
//! The client decides; its owner sends, receives and reports what happened. Each state asks for
//! one action, and an event that does not answer that action leaves the state as it is.

use vstd::prelude::*;

use crate::addr::Ipv4Addr;
use crate::bytes::{be32_at, law_bytes_have_their_weights};
use crate::dhcp::{
    addr_in, build_dhcp_discover, build_dhcp_request, client_packet, discover_options,
    law_client_header_has_its_fields, law_discover_reads_back, law_request_reads_back,
    message_type, options, options_part, parse_dhcp_reply, reply_is, reply_outcome,
    request_options, xid_from_mac, xid_of, Lease, LeaseView, Room, DHCP_ACK,
    DHCP_CLIENT_PORT, DHCP_MAGIC, DHCP_OFFER, DHCP_SERVER_PORT,
};

verus! {

/// How often a DISCOVER, and later a REQUEST, is sent before the client gives up on a silent
/// network.
pub const DHCP_MAX_TRIES: u32 = 5;

/// How long one receive waits, in seconds.
pub const DHCP_TIMEOUT_SECS: u64 = 3;

/// What happened on the client's socket.
#[derive(Debug, PartialEq, Eq)]
pub enum DhcpEvent {
    /// The packet was sent.
    Sent,
    /// A packet came in.
    Packet(Vec<u8>),
    /// Sending or receiving failed, a timeout included.
    Failed(String),
}

/// What a [`DhcpEvent`] holds.
pub enum DhcpEventView {
    Sent,
    Packet(Seq<u8>),
    Failed(Seq<char>),
}

impl View for DhcpEvent {
    type V = DhcpEventView;

    open spec fn view(&self) -> DhcpEventView {
        match self {
            DhcpEvent::Sent => DhcpEventView::Sent,
            DhcpEvent::Packet(p) => DhcpEventView::Packet(p@),
            DhcpEvent::Failed(e) => DhcpEventView::Failed(e@),
        }
    }
}

/// What the client's owner has to do next.
#[derive(Debug, PartialEq, Eq)]
pub enum DhcpAction {
    /// Broadcast a packet to the server port.
    Send(Vec<u8>),
    /// Receive one packet.
    Receive,
    /// Nothing: the exchange is over.
    Stop,
}

/// What a [`DhcpAction`] holds.
pub enum DhcpActionView {
    Send(Seq<u8>),
    Receive,
    Stop,
}

impl View for DhcpAction {
    type V = DhcpActionView;

    open spec fn view(&self) -> DhcpActionView {
        match self {
            DhcpAction::Send(p) => DhcpActionView::Send(p@),
            DhcpAction::Receive => DhcpActionView::Receive,
            DhcpAction::Stop => DhcpActionView::Stop,
        }
    }
}

/// Where the exchange stands.
#[derive(Debug, PartialEq, Eq)]
pub enum DhcpPhase {
    /// A DISCOVER is to be sent.
    Discover,
    /// An OFFER is awaited.
    AwaitOffer,
    /// A REQUEST for the offered address, from the server that offered it, is to be sent.
    Request(Ipv4Addr, Option<Ipv4Addr>),
    /// An ACK is awaited.
    AwaitAck(Ipv4Addr, Option<Ipv4Addr>),
    /// The server acknowledged.
    Leased(Lease),
    /// The exchange failed.
    Failed(String),
}

/// What a [`DhcpPhase`] holds.
pub enum DhcpPhaseView {
    Discover,
    AwaitOffer,
    Request(Ipv4Addr, Option<Ipv4Addr>),
    AwaitAck(Ipv4Addr, Option<Ipv4Addr>),
    Leased(LeaseView),
    Failed(Seq<char>),
}

impl View for DhcpPhase {
    type V = DhcpPhaseView;

    open spec fn view(&self) -> DhcpPhaseView {
        match self {
            DhcpPhase::Discover => DhcpPhaseView::Discover,
            DhcpPhase::AwaitOffer => DhcpPhaseView::AwaitOffer,
            DhcpPhase::Request(yiaddr, sid) => DhcpPhaseView::Request(*yiaddr, *sid),
            DhcpPhase::AwaitAck(yiaddr, sid) => DhcpPhaseView::AwaitAck(*yiaddr, *sid),
            DhcpPhase::Leased(lease) => DhcpPhaseView::Leased(lease@),
            DhcpPhase::Failed(e) => DhcpPhaseView::Failed(e@),
        }
    }
}

/// What a [`DhcpClient`] holds.
pub struct DhcpView {
    pub mac: Seq<u8>,
    pub phase: DhcpPhaseView,
    pub tries: nat,
}

/// A DHCP client on the interface with hardware address `mac`; `tries` counts the packets of the
/// present phase that went unanswered.
#[derive(Debug, PartialEq, Eq)]
pub struct DhcpClient {
    pub mac: [u8; 6],
    pub phase: DhcpPhase,
    pub tries: u32,
}

impl View for DhcpClient {
    type V = DhcpView;

    open spec fn view(&self) -> DhcpView {
        DhcpView { mac: self.mac@, phase: self.phase@, tries: self.tries as nat }
    }
}

/// The client before its first packet.
pub open spec fn dhcp_start(mac: Seq<u8>) -> DhcpView {
    DhcpView { mac, phase: DhcpPhaseView::Discover, tries: 0 }
}

/// Whether the exchange is over.
pub open spec fn dhcp_over(c: DhcpView) -> bool {
    c.phase is Leased || c.phase is Failed
}

/// The lease in a packet, where the packet is a well-formed reply of type `want` to transaction
/// `xid`.
pub open spec fn dhcp_answer(packet: Seq<u8>, xid: u32, want: u8) -> Option<LeaseView> {
    match reply_outcome(packet, xid) {
        Ok(lease) => if message_type(packet) == Some(want) {
            Some(lease)
        } else {
            None
        },
        Err(_) => None,
    }
}

/// The client after a receive that failed with `text`: it sends again, or gives up.
pub open spec fn after_silence(c: DhcpView, again: DhcpPhaseView, text: Seq<char>) -> DhcpView {
    if c.tries + 1 < DHCP_MAX_TRIES {
        DhcpView { phase: again, tries: c.tries + 1, ..c }
    } else {
        DhcpView { phase: DhcpPhaseView::Failed("recv DHCP reply: "@ + text), ..c }
    }
}

/// The client after an event.
pub open spec fn dhcp_next(c: DhcpView, event: DhcpEventView) -> DhcpView {
    match (c.phase, event) {
        (DhcpPhaseView::Discover, DhcpEventView::Sent) => DhcpView {
            phase: DhcpPhaseView::AwaitOffer,
            ..c
        },
        (DhcpPhaseView::Discover, DhcpEventView::Failed(e)) => DhcpView {
            phase: DhcpPhaseView::Failed("send DHCP DISCOVER: "@ + e),
            ..c
        },
        (DhcpPhaseView::AwaitOffer, DhcpEventView::Packet(p)) => match dhcp_answer(
            p,
            xid_of(c.mac),
            DHCP_OFFER,
        ) {
            Some(offer) => DhcpView {
                phase: DhcpPhaseView::Request(offer.yiaddr, offer.server_id),
                tries: 0,
                ..c
            },
            None => c,
        },
        (DhcpPhaseView::AwaitOffer, DhcpEventView::Failed(e)) => after_silence(
            c,
            DhcpPhaseView::Discover,
            e,
        ),
        (DhcpPhaseView::Request(yiaddr, sid), DhcpEventView::Sent) => DhcpView {
            phase: DhcpPhaseView::AwaitAck(yiaddr, sid),
            ..c
        },
        (DhcpPhaseView::Request(_, _), DhcpEventView::Failed(e)) => DhcpView {
            phase: DhcpPhaseView::Failed("send DHCP REQUEST: "@ + e),
            ..c
        },
        (DhcpPhaseView::AwaitAck(_, _), DhcpEventView::Packet(p)) => match dhcp_answer(
            p,
            xid_of(c.mac),
            DHCP_ACK,
        ) {
            Some(lease) => DhcpView { phase: DhcpPhaseView::Leased(lease), ..c },
            None => c,
        },
        (DhcpPhaseView::AwaitAck(yiaddr, sid), DhcpEventView::Failed(e)) => after_silence(
            c,
            DhcpPhaseView::Request(yiaddr, sid),
            e,
        ),
        _ => c,
    }
}

/// The action that a state asks for.
pub open spec fn dhcp_action(c: DhcpView) -> DhcpActionView {
    match c.phase {
        DhcpPhaseView::Discover => DhcpActionView::Send(
            client_packet(c.mac, xid_of(c.mac), discover_options()),
        ),
        DhcpPhaseView::Request(yiaddr, sid) => DhcpActionView::Send(
            client_packet(c.mac, xid_of(c.mac), request_options(yiaddr, sid)),
        ),
        DhcpPhaseView::AwaitOffer | DhcpPhaseView::AwaitAck(_, _) => DhcpActionView::Receive,
        DhcpPhaseView::Leased(_) | DhcpPhaseView::Failed(_) => DhcpActionView::Stop,
    }
}

/// Reads a packet that may answer transaction `xid` with message type `want`.
pub fn dhcp_accept(packet: &[u8], xid: u32, want: u8) -> (r: Option<Lease>)
    ensures
        match r {
            Some(lease) => dhcp_answer(packet@, xid, want) == Some(lease@),
            None => dhcp_answer(packet@, xid, want) is None,
        },
{
    match parse_dhcp_reply(packet, xid) {
        Ok(lease) => if reply_is(packet, want) {
            Some(lease)
        } else {
            None
        },
        Err(_) => None,
    }
}

impl DhcpClient {
    /// A client that has sent nothing yet.
    pub fn new(mac: [u8; 6]) -> (r: DhcpClient)
        ensures
            r@ == dhcp_start(mac@),
    {
        DhcpClient { mac, phase: DhcpPhase::Discover, tries: 0 }
    }

    /// Sends again, or gives up after the last try.
    fn silent(self, again: DhcpPhase, e: String) -> (r: DhcpClient)
        ensures
            r@ == after_silence(self@, again@, e@),
    {
        if self.tries < DHCP_MAX_TRIES - 1 {
            DhcpClient { mac: self.mac, phase: again, tries: self.tries + 1 }
        } else {
            self.failed("recv DHCP reply: ", e)
        }
    }

    /// Ends the exchange with a message.
    fn failed(self, what: &str, e: String) -> (r: DhcpClient)
        ensures
            r@ == (DhcpView { phase: DhcpPhaseView::Failed(what@ + e@), ..self@ }),
    {
        let mut text: String = what.to_owned();
        text.append(e.as_str());
        DhcpClient { mac: self.mac, phase: DhcpPhase::Failed(text), tries: self.tries }
    }

    /// Takes in an event.
    pub fn next(self, event: DhcpEvent) -> (r: DhcpClient)
        ensures
            r@ == dhcp_next(self@, event@),
    {
        let DhcpClient { mac, phase, tries } = self;
        let xid: u32 = xid_from_mac(mac);
        match (phase, event) {
            (DhcpPhase::Discover, DhcpEvent::Sent) => DhcpClient {
                mac,
                phase: DhcpPhase::AwaitOffer,
                tries,
            },
            (DhcpPhase::Discover, DhcpEvent::Failed(e)) => {
                let c = DhcpClient { mac, phase: DhcpPhase::Discover, tries };
                c.failed("send DHCP DISCOVER: ", e)
            },
            (DhcpPhase::AwaitOffer, DhcpEvent::Packet(p)) => {
                match dhcp_accept(p.as_slice(), xid, DHCP_OFFER) {
                    Some(offer) => DhcpClient {
                        mac,
                        phase: DhcpPhase::Request(offer.yiaddr, offer.server_id),
                        tries: 0,
                    },
                    None => DhcpClient { mac, phase: DhcpPhase::AwaitOffer, tries },
                }
            },
            (DhcpPhase::AwaitOffer, DhcpEvent::Failed(e)) => {
                let c = DhcpClient { mac, phase: DhcpPhase::AwaitOffer, tries };
                c.silent(DhcpPhase::Discover, e)
            },
            (DhcpPhase::Request(yiaddr, sid), DhcpEvent::Sent) => DhcpClient {
                mac,
                phase: DhcpPhase::AwaitAck(yiaddr, sid),
                tries,
            },
            (DhcpPhase::Request(yiaddr, sid), DhcpEvent::Failed(e)) => {
                let c = DhcpClient { mac, phase: DhcpPhase::Request(yiaddr, sid), tries };
                c.failed("send DHCP REQUEST: ", e)
            },
            (DhcpPhase::AwaitAck(yiaddr, sid), DhcpEvent::Packet(p)) => {
                match dhcp_accept(p.as_slice(), xid, DHCP_ACK) {
                    Some(lease) => DhcpClient { mac, phase: DhcpPhase::Leased(lease), tries },
                    None => DhcpClient { mac, phase: DhcpPhase::AwaitAck(yiaddr, sid), tries },
                }
            },
            (DhcpPhase::AwaitAck(yiaddr, sid), DhcpEvent::Failed(e)) => {
                let c = DhcpClient { mac, phase: DhcpPhase::AwaitAck(yiaddr, sid), tries };
                c.silent(DhcpPhase::Request(yiaddr, sid), e)
            },
            (phase, _) => DhcpClient { mac, phase, tries },
        }
    }

    /// What the owner has to do next.
    pub fn action(&self) -> (r: DhcpAction)
        ensures
            r@ == dhcp_action(self@),
    {
        let xid: u32 = xid_from_mac(self.mac);
        match &self.phase {
            DhcpPhase::Discover => DhcpAction::Send(build_dhcp_discover(self.mac, xid)),
            DhcpPhase::Request(yiaddr, sid) => DhcpAction::Send(
                build_dhcp_request(self.mac, xid, *yiaddr, *sid),
            ),
            DhcpPhase::AwaitOffer | DhcpPhase::AwaitAck(_, _) => DhcpAction::Receive,
            DhcpPhase::Leased(_) | DhcpPhase::Failed(_) => DhcpAction::Stop,
        }
    }
}

/// The client after a run of events.
pub open spec fn dhcp_run(c: DhcpView, events: Seq<DhcpEventView>) -> DhcpView
    decreases events.len(),
{
    if events.len() == 0 {
        c
    } else {
        dhcp_next(dhcp_run(c, events.drop_last()), events.last())
    }
}

/// How many events of a run are failures.
pub open spec fn dhcp_failures(events: Seq<DhcpEventView>) -> nat
    decreases events.len(),
{
    if events.len() == 0 {
        0
    } else {
        dhcp_failures(events.drop_last()) + (if events.last() is Failed {
            1nat
        } else {
            0nat
        })
    }
}

/// How many failures a client can still take before its exchange is over.
pub open spec fn dhcp_patience(c: DhcpView) -> int {
    match c.phase {
        DhcpPhaseView::Discover | DhcpPhaseView::AwaitOffer => 2 * DHCP_MAX_TRIES - c.tries,
        DhcpPhaseView::Request(_, _) | DhcpPhaseView::AwaitAck(_, _) => DHCP_MAX_TRIES - c.tries,
        _ => 0,
    }
}

proof fn lemma_patience(mac: Seq<u8>, events: Seq<DhcpEventView>)
    ensures
        ({
            let c = dhcp_run(dhcp_start(mac), events);
            &&& c.tries < DHCP_MAX_TRIES
            &&& dhcp_over(c) || dhcp_patience(c) + dhcp_failures(events) <= 2 * DHCP_MAX_TRIES
        }),
    decreases events.len(),
{
    if events.len() > 0 {
        lemma_patience(mac, events.drop_last());
    }
}

/// The client gives up: when as many events have failed as two rounds of tries allow, the
/// exchange is over, whatever else happened.
pub proof fn law_dhcp_gives_up(mac: Seq<u8>, events: Seq<DhcpEventView>)
    requires
        dhcp_failures(events) >= 2 * DHCP_MAX_TRIES,
    ensures
        dhcp_over(dhcp_run(dhcp_start(mac), events)),
{
    lemma_patience(mac, events);
}

/// How many DISCOVERs a client sent in a run.
pub open spec fn discovers_sent(c: DhcpView, events: Seq<DhcpEventView>) -> nat
    decreases events.len(),
{
    if events.len() == 0 {
        0
    } else {
        let before = events.drop_last();
        discovers_sent(c, before) + (if dhcp_run(c, before).phase is Discover
            && events.last() is Sent {
            1nat
        } else {
            0nat
        })
    }
}

/// How many REQUESTs a client sent in a run.
pub open spec fn requests_sent(c: DhcpView, events: Seq<DhcpEventView>) -> nat
    decreases events.len(),
{
    if events.len() == 0 {
        0
    } else {
        let before = events.drop_last();
        requests_sent(c, before) + (if dhcp_run(c, before).phase is Request
            && events.last() is Sent {
            1nat
        } else {
            0nat
        })
    }
}

proof fn lemma_sends(mac: Seq<u8>, events: Seq<DhcpEventView>)
    ensures
        ({
            let c = dhcp_run(dhcp_start(mac), events);
            let d = discovers_sent(dhcp_start(mac), events);
            let r = requests_sent(dhcp_start(mac), events);
            &&& c.tries < DHCP_MAX_TRIES
            &&& d <= DHCP_MAX_TRIES && r <= DHCP_MAX_TRIES
            &&& match c.phase {
                DhcpPhaseView::Discover => d == c.tries && r == 0,
                DhcpPhaseView::AwaitOffer => d == c.tries + 1 && r == 0,
                DhcpPhaseView::Request(_, _) => r == c.tries,
                DhcpPhaseView::AwaitAck(_, _) => r == c.tries + 1,
                _ => true,
            }
        }),
    decreases events.len(),
{
    if events.len() > 0 {
        lemma_sends(mac, events.drop_last());
    }
}

/// No run sends more DISCOVERs, or more REQUESTs, than the client may try.
pub proof fn law_dhcp_tries_are_bounded(mac: Seq<u8>, events: Seq<DhcpEventView>)
    ensures
        discovers_sent(dhcp_start(mac), events) <= DHCP_MAX_TRIES,
        requests_sent(dhcp_start(mac), events) <= DHCP_MAX_TRIES,
{
    lemma_sends(mac, events);
}

/// Whether no packet of a run is a reply of type `want` to the client.
pub open spec fn never_answered(mac: Seq<u8>, events: Seq<DhcpEventView>, want: u8) -> bool {
    forall|i: int|
        0 <= i < events.len() ==> ((#[trigger] events[i]) matches DhcpEventView::Packet(p)
            ==> dhcp_answer(p, xid_of(mac), want) is None)
}

/// Whether no send of a run failed.
pub open spec fn never_unsent(c: DhcpView, events: Seq<DhcpEventView>) -> bool {
    forall|i: int|
        0 <= i < events.len() && (#[trigger] events[i]) is Failed ==> !(dhcp_action(
            dhcp_run(c, events.take(i)),
        ) is Send)
}

/// On a network that offers nothing, and on which every send goes out, a client sends exactly as
/// many DISCOVERs as it may try and no REQUEST, and it gives up exactly when that many receives
/// have failed.
pub proof fn law_dhcp_silent_network_gets_every_try(mac: Seq<u8>, events: Seq<DhcpEventView>)
    requires
        never_answered(mac, events, DHCP_OFFER),
        never_unsent(dhcp_start(mac), events),
    ensures
        ({
            let c = dhcp_run(dhcp_start(mac), events);
            &&& dhcp_over(c) <==> dhcp_failures(events) >= DHCP_MAX_TRIES
            &&& dhcp_over(c) ==> c.phase is Failed && discovers_sent(dhcp_start(mac), events)
                == DHCP_MAX_TRIES
            &&& requests_sent(dhcp_start(mac), events) == 0
        }),
{
    lemma_silence(dhcp_start(mac), events);
}

/// A server that offered but does not acknowledge gets exactly as many REQUESTs as the client may
/// try, where every send goes out, and the client gives up exactly when that many receives have
/// failed.
pub proof fn law_dhcp_silent_server_gets_every_try(c: DhcpView, events: Seq<DhcpEventView>)
    requires
        c.phase is Request,
        c.tries == 0,
        never_answered(c.mac, events, DHCP_ACK),
        never_unsent(c, events),
    ensures
        ({
            let now = dhcp_run(c, events);
            &&& dhcp_over(now) <==> dhcp_failures(events) >= DHCP_MAX_TRIES
            &&& dhcp_over(now) ==> now.phase is Failed && requests_sent(c, events)
                == DHCP_MAX_TRIES
            &&& discovers_sent(c, events) == 0
        }),
{
    lemma_silence(c, events);
}

proof fn lemma_silence(c: DhcpView, events: Seq<DhcpEventView>)
    requires
        c.phase is Discover || c.phase is Request,
        c.tries == 0,
        never_answered(
            c.mac,
            events,
            if c.phase is Discover {
                DHCP_OFFER
            } else {
                DHCP_ACK
            },
        ),
        never_unsent(c, events),
    ensures
        ({
            let now = dhcp_run(c, events);
            let d = discovers_sent(c, events);
            let r = requests_sent(c, events);
            let sent = if c.phase is Discover {
                d
            } else {
                r
            };
            &&& now.mac == c.mac
            &&& c.phase is Discover ==> r == 0
            &&& c.phase is Request ==> d == 0
            &&& match now.phase {
                DhcpPhaseView::Discover => c.phase is Discover && sent == now.tries,
                DhcpPhaseView::AwaitOffer => c.phase is Discover && sent == now.tries + 1,
                DhcpPhaseView::Request(_, _) => c.phase is Request && sent == now.tries,
                DhcpPhaseView::AwaitAck(_, _) => c.phase is Request && sent == now.tries + 1,
                DhcpPhaseView::Failed(_) => sent == DHCP_MAX_TRIES,
                DhcpPhaseView::Leased(_) => false,
            }
            &&& if dhcp_over(now) {
                dhcp_failures(events) >= DHCP_MAX_TRIES
            } else {
                dhcp_failures(events) == now.tries && now.tries < DHCP_MAX_TRIES
            }
        }),
    decreases events.len(),
{
    if events.len() > 0 {
        let before = events.drop_last();
        let last = events.len() - 1;
        assert forall|i: int| 0 <= i < before.len() implies ((
        #[trigger] before[i]) matches DhcpEventView::Packet(p) ==> dhcp_answer(
            p,
            xid_of(c.mac),
            if c.phase is Discover {
                DHCP_OFFER
            } else {
                DHCP_ACK
            },
        ) is None) by {
            assert(before[i] == events[i]);
        }
        assert forall|i: int| 0 <= i < before.len() && (#[trigger] before[i]) is Failed implies !(
        dhcp_action(dhcp_run(c, before.take(i))) is Send) by {
            assert(before[i] == events[i]);
            assert(before.take(i) =~= events.take(i));
        }
        lemma_silence(c, before);
        assert(events.take(last) =~= before);
        assert(events[last] == events.last());
    }
}

/// The message of a client that gives up for want of an answer is that of its last receive.
pub proof fn law_dhcp_reports_the_last_failure(c: DhcpView, e: Seq<char>)
    requires
        c.phase is AwaitOffer || c.phase is AwaitAck,
        dhcp_over(dhcp_next(c, DhcpEventView::Failed(e))),
    ensures
        dhcp_next(c, DhcpEventView::Failed(e)).phase == DhcpPhaseView::Failed(
            "recv DHCP reply: "@ + e,
        ),
{
}

/// Once the exchange is over, nothing changes its outcome.
pub proof fn law_dhcp_outcome_stays(c: DhcpView, event: DhcpEventView)
    requires
        dhcp_over(c),
    ensures
        dhcp_next(c, event) == c,
{
}

/// A packet that is neither an OFFER nor an ACK to the client's own transaction, such as one of
/// another transaction or a broken one, changes nothing in any state.
pub proof fn law_dhcp_ignores_strays(c: DhcpView, packet: Seq<u8>)
    requires
        dhcp_answer(packet, xid_of(c.mac), DHCP_OFFER) is None,
        dhcp_answer(packet, xid_of(c.mac), DHCP_ACK) is None,
    ensures
        dhcp_next(c, DhcpEventView::Packet(packet)) == c,
{
}

/// Whether event `i` of a run is that a DISCOVER was sent.
pub open spec fn discovered_at(mac: Seq<u8>, events: Seq<DhcpEventView>, i: int) -> bool {
    &&& 0 <= i < events.len()
    &&& events[i] is Sent
    &&& dhcp_run(dhcp_start(mac), events.take(i)).phase is Discover
}

/// Whether event `i` of a run is the awaited OFFER, of `yiaddr` by `sid`.
pub open spec fn offered_at(
    mac: Seq<u8>,
    events: Seq<DhcpEventView>,
    i: int,
    yiaddr: Ipv4Addr,
    sid: Option<Ipv4Addr>,
) -> bool {
    &&& 0 <= i < events.len()
    &&& dhcp_run(dhcp_start(mac), events.take(i)).phase is AwaitOffer
    &&& events[i] matches DhcpEventView::Packet(p) && (dhcp_answer(
        p,
        xid_of(mac),
        DHCP_OFFER,
    ) matches Some(offer) && offer.yiaddr == yiaddr && offer.server_id == sid)
}

/// Whether event `i` of a run is that a REQUEST for `yiaddr` from `sid` was sent.
pub open spec fn requested_at(
    mac: Seq<u8>,
    events: Seq<DhcpEventView>,
    i: int,
    yiaddr: Ipv4Addr,
    sid: Option<Ipv4Addr>,
) -> bool {
    &&& 0 <= i < events.len()
    &&& events[i] is Sent
    &&& dhcp_run(dhcp_start(mac), events.take(i)).phase == DhcpPhaseView::Request(yiaddr, sid)
}

/// Whether event `i` of a run is the awaited ACK, and grants `lease`.
pub open spec fn granted_at(
    mac: Seq<u8>,
    events: Seq<DhcpEventView>,
    i: int,
    lease: LeaseView,
) -> bool {
    &&& 0 <= i < events.len()
    &&& dhcp_run(dhcp_start(mac), events.take(i)).phase is AwaitAck
    &&& events[i] matches DhcpEventView::Packet(p) && dhcp_answer(p, xid_of(mac), DHCP_ACK)
        == Some(lease)
}

/// Whether a run holds a whole exchange, in order: a DISCOVER sent, an OFFER, a REQUEST for what
/// was offered sent, and an ACK that grants `lease`.
pub open spec fn exchanged_at(
    mac: Seq<u8>,
    events: Seq<DhcpEventView>,
    at: (int, int, int, int),
    yiaddr: Ipv4Addr,
    sid: Option<Ipv4Addr>,
    lease: LeaseView,
) -> bool {
    &&& at.0 < at.1 < at.2 < at.3
    &&& discovered_at(mac, events, at.0)
    &&& offered_at(mac, events, at.1, yiaddr, sid)
    &&& requested_at(mac, events, at.2, yiaddr, sid)
    &&& granted_at(mac, events, at.3, lease)
}

proof fn lemma_mac_stays(mac: Seq<u8>, events: Seq<DhcpEventView>)
    ensures
        dhcp_run(dhcp_start(mac), events).mac == mac,
    decreases events.len(),
{
    if events.len() > 0 {
        lemma_mac_stays(mac, events.drop_last());
    }
}

/// The front of a run is also the front of a longer one.
proof fn lemma_fronts_agree(events: Seq<DhcpEventView>)
    requires
        events.len() > 0,
    ensures
        forall|i: int|
            0 <= i < events.len() - 1 ==> #[trigger] events.drop_last().take(i) == events.take(i)
                && events.drop_last()[i] == events[i],
        events.take(events.len() - 1) == events.drop_last(),
{
    assert forall|i: int| 0 <= i < events.len() - 1 implies #[trigger] events.drop_last().take(i)
        == events.take(i) && events.drop_last()[i] == events[i] by {
        assert(events.drop_last().take(i) =~= events.take(i));
    }
    assert(events.take(events.len() - 1) =~= events.drop_last());
}

/// A client that awaits an OFFER has sent a DISCOVER.
proof fn lemma_discovered(mac: Seq<u8>, events: Seq<DhcpEventView>) -> (d: int)
    requires
        dhcp_run(dhcp_start(mac), events).phase is AwaitOffer,
    ensures
        discovered_at(mac, events, d),
    decreases events.len(),
{
    let before = events.drop_last();
    lemma_fronts_agree(events);
    if dhcp_run(dhcp_start(mac), before).phase is AwaitOffer {
        let d = lemma_discovered(mac, before);
        assert(before.take(d) == events.take(d));
        d
    } else {
        events.len() - 1
    }
}

/// A client that requests an address, or awaits its ACK, was offered it after a DISCOVER.
proof fn lemma_offered(
    mac: Seq<u8>,
    events: Seq<DhcpEventView>,
    yiaddr: Ipv4Addr,
    sid: Option<Ipv4Addr>,
) -> (at: (int, int))
    requires
        dhcp_run(dhcp_start(mac), events).phase == DhcpPhaseView::Request(yiaddr, sid)
            || dhcp_run(dhcp_start(mac), events).phase == DhcpPhaseView::AwaitAck(yiaddr, sid),
    ensures
        at.0 < at.1,
        discovered_at(mac, events, at.0),
        offered_at(mac, events, at.1, yiaddr, sid),
    decreases events.len(),
{
    let before = events.drop_last();
    let c = dhcp_run(dhcp_start(mac), before);
    lemma_fronts_agree(events);
    lemma_mac_stays(mac, before);
    if c.phase is AwaitOffer {
        let d = lemma_discovered(mac, before);
        assert(before.take(d) == events.take(d));
        (d, events.len() - 1)
    } else {
        let at = lemma_offered(mac, before, yiaddr, sid);
        assert(before.take(at.0) == events.take(at.0));
        assert(before.take(at.1) == events.take(at.1));
        at
    }
}

/// A client that awaits an ACK has sent a REQUEST for what it was offered.
proof fn lemma_requested(
    mac: Seq<u8>,
    events: Seq<DhcpEventView>,
    yiaddr: Ipv4Addr,
    sid: Option<Ipv4Addr>,
) -> (at: (int, int, int))
    requires
        dhcp_run(dhcp_start(mac), events).phase == DhcpPhaseView::AwaitAck(yiaddr, sid),
    ensures
        at.0 < at.1 < at.2,
        discovered_at(mac, events, at.0),
        offered_at(mac, events, at.1, yiaddr, sid),
        requested_at(mac, events, at.2, yiaddr, sid),
    decreases events.len(),
{
    let before = events.drop_last();
    let c = dhcp_run(dhcp_start(mac), before);
    lemma_fronts_agree(events);
    if c.phase is Request {
        let at = lemma_offered(mac, before, yiaddr, sid);
        assert(before.take(at.0) == events.take(at.0));
        assert(before.take(at.1) == events.take(at.1));
        (at.0, at.1, events.len() - 1)
    } else {
        let at = lemma_requested(mac, before, yiaddr, sid);
        assert(before.take(at.0) == events.take(at.0));
        assert(before.take(at.1) == events.take(at.1));
        assert(before.take(at.2) == events.take(at.2));
        at
    }
}

/// A REQUEST names what the server offered: the address and the server of an OFFER that came in
/// after a DISCOVER.
pub proof fn law_dhcp_requests_the_offer(
    mac: Seq<u8>,
    events: Seq<DhcpEventView>,
    yiaddr: Ipv4Addr,
    sid: Option<Ipv4Addr>,
)
    requires
        dhcp_run(dhcp_start(mac), events).phase == DhcpPhaseView::Request(yiaddr, sid)
            || dhcp_run(dhcp_start(mac), events).phase == DhcpPhaseView::AwaitAck(yiaddr, sid),
    ensures
        exists|d: int, i: int|
            d < i && #[trigger] discovered_at(mac, events, d) && #[trigger] offered_at(
                mac,
                events,
                i,
                yiaddr,
                sid,
            ),
{
    let at = lemma_offered(mac, events, yiaddr, sid);
    assert(discovered_at(mac, events, at.0) && offered_at(mac, events, at.1, yiaddr, sid));
}

/// A lease is the outcome of a whole exchange in the client's own transaction: DISCOVER, OFFER,
/// REQUEST for what was offered, and the ACK that grants the lease, in that order.
pub proof fn law_dhcp_lease_is_granted(
    mac: Seq<u8>,
    events: Seq<DhcpEventView>,
    lease: LeaseView,
)
    requires
        dhcp_run(dhcp_start(mac), events).phase == DhcpPhaseView::Leased(lease),
    ensures
        exists|at: (int, int, int, int), yiaddr: Ipv4Addr, sid: Option<Ipv4Addr>|
            exchanged_at(mac, events, at, yiaddr, sid, lease),
    decreases events.len(),
{
    let before = events.drop_last();
    let c = dhcp_run(dhcp_start(mac), before);
    lemma_fronts_agree(events);
    lemma_mac_stays(mac, before);
    if c.phase is Leased {
        law_dhcp_lease_is_granted(mac, before, lease);
        let (at, yiaddr, sid) = choose|
            at: (int, int, int, int),
            yiaddr: Ipv4Addr,
            sid: Option<Ipv4Addr>,
        |
            exchanged_at(mac, before, at, yiaddr, sid, lease);
        assert(before.take(at.0) == events.take(at.0));
        assert(before.take(at.1) == events.take(at.1));
        assert(before.take(at.2) == events.take(at.2));
        assert(before.take(at.3) == events.take(at.3));
        assert(exchanged_at(mac, events, at, yiaddr, sid, lease));
    } else {
        let yiaddr = c.phase->AwaitAck_0;
        let sid = c.phase->AwaitAck_1;
        let at = lemma_requested(mac, before, yiaddr, sid);
        assert(before.take(at.0) == events.take(at.0));
        assert(before.take(at.1) == events.take(at.1));
        assert(before.take(at.2) == events.take(at.2));
        let whole = (at.0, at.1, at.2, events.len() - 1);
        assert(exchanged_at(mac, events, whole, yiaddr, sid, lease));
    }
}

/// What the client sends are its own packets: a DISCOVER under its own transaction number and
/// hardware address, and a REQUEST for the address that was offered, from the server that offered
/// it.
pub proof fn law_dhcp_sends_its_own_packets(
    mac: Seq<u8>,
    tries: nat,
    yiaddr: Ipv4Addr,
    sid: Option<Ipv4Addr>,
)
    requires
        mac.len() == 6,
    ensures
        dhcp_action(
            (DhcpView { mac, phase: DhcpPhaseView::Discover, tries }),
        ) matches DhcpActionView::Send(p) && message_type(p) == Some(1u8) && be32_at(p, 4)
            == xid_of(mac) && p.subrange(28, 34) == mac,
        dhcp_action(
            (DhcpView { mac, phase: DhcpPhaseView::Request(yiaddr, sid), tries }),
        ) matches DhcpActionView::Send(p) && message_type(p) == Some(3u8) && be32_at(p, 4)
            == xid_of(mac) && p.subrange(28, 34) == mac && addr_in(
            options(p.skip(240)).0,
            50,
            Room::Four,
        ) == Some(yiaddr) && addr_in(options(p.skip(240)).0, 54, Room::Four) == sid,
{
    let xid = xid_of(mac);
    let request = request_options(yiaddr, sid);
    law_discover_reads_back(mac, xid);
    law_request_reads_back(mac, xid, yiaddr, sid);
    law_client_header_has_its_fields(mac, xid, discover_options());
    law_client_header_has_its_fields(mac, xid, request);
    let p = client_packet(mac, xid, discover_options());
    let q = client_packet(mac, xid, request);
    law_bytes_have_their_weights(0, 0, p, 4);
    law_bytes_have_their_weights(0, 0, q, 4);
    assert(q[0] == 1);
    assert(be32_at(q, 236) == DHCP_MAGIC) by {
        let four = q.subrange(236, 240);
        assert(q[236] == four[0] && q[237] == four[1] && q[238] == four[2] && q[239] == four[3]);
    }
    assert(options_part(q) == Some(q.skip(240)));
}

/// An exchange in which everything is answered succeeds: after the DISCOVER an OFFER of message
/// type 2 leads to a REQUEST for the address and the server in it, and after that an ACK of
/// message type 5 gives the lease in it.
pub proof fn law_dhcp_exchange_succeeds(mac: Seq<u8>, offer: Seq<u8>, ack: Seq<u8>)
    requires
        reply_outcome(offer, xid_of(mac)) is Ok,
        message_type(offer) == Some(2u8),
        reply_outcome(ack, xid_of(mac)) is Ok,
        message_type(ack) == Some(5u8),
    ensures
        ({
            let sent = dhcp_next(dhcp_start(mac), DhcpEventView::Sent);
            let offered = dhcp_next(sent, DhcpEventView::Packet(offer));
            let asked = dhcp_next(offered, DhcpEventView::Sent);
            let done = dhcp_next(asked, DhcpEventView::Packet(ack));
            let what = reply_outcome(offer, xid_of(mac))->Ok_0;
            &&& dhcp_action(dhcp_start(mac)) is Send
            &&& dhcp_action(sent) is Receive
            &&& offered.phase == DhcpPhaseView::Request(what.yiaddr, what.server_id)
            &&& dhcp_action(asked) is Receive
            &&& done.phase == DhcpPhaseView::Leased(reply_outcome(ack, xid_of(mac))->Ok_0)
            &&& dhcp_action(done) is Stop
        }),
{
}

/// A client whose receive fails sends the same again until five packets of a phase have gone
/// unanswered, counts each phase on its own, and then gives up; a send that fails is not tried
/// again, and its message ends with what was reported.
pub proof fn law_dhcp_tries_five_times(c: DhcpView, e: Seq<char>)
    ensures
        ({
            let next = dhcp_next(c, DhcpEventView::Failed(e));
            &&& c.phase is AwaitOffer && c.tries < 4 ==> next.phase is Discover && next.tries
                == c.tries + 1
            &&& c.phase matches DhcpPhaseView::AwaitAck(yiaddr, sid) ==> (c.tries < 4
                ==> next.phase == DhcpPhaseView::Request(yiaddr, sid) && next.tries == c.tries + 1)
            &&& (c.phase is AwaitOffer || c.phase is AwaitAck) && c.tries >= 4
                ==> next.phase is Failed
            &&& c.phase is Discover || c.phase is Request ==> (
            next.phase matches DhcpPhaseView::Failed(text) && e.is_suffix_of(text))
            &&& next.mac == c.mac
        }),
        dhcp_start(c.mac).tries == 0,
        forall|p: Seq<u8>|
            c.phase is AwaitOffer && (#[trigger] dhcp_next(c, DhcpEventView::Packet(p))).phase
                is Request ==> dhcp_next(c, DhcpEventView::Packet(p)).tries == 0,
        dhcp_next(c, DhcpEventView::Sent).tries == c.tries,
{
    let next = dhcp_next(c, DhcpEventView::Failed(e));
    if c.phase is Discover || c.phase is Request {
        let text = next.phase->Failed_0;
        assert(text.subrange(text.len() - e.len(), text.len() as int) =~= e);
    }
}

/// DHCP is spoken from port 68 to port 67, and one receive waits three seconds, so that a silent
/// network is given up after five times three seconds for each of the two packets.
pub proof fn law_dhcp_is_given_up_in_time(mac: Seq<u8>, events: Seq<DhcpEventView>)
    ensures
        DHCP_CLIENT_PORT == 68,
        DHCP_SERVER_PORT == 67,
        dhcp_failures(events) * DHCP_TIMEOUT_SECS >= 30 ==> dhcp_over(
            dhcp_run(dhcp_start(mac), events),
        ),
        DHCP_TIMEOUT_SECS == 3,
{
    lemma_patience(mac, events);
}

/// In whatever try it comes, an OFFER of the client's own transaction leads to the REQUEST for
/// what it offers, with all tries before it, and an ACK to the lease it grants; a packet that was
/// sent is followed by a receive.
pub proof fn law_dhcp_answers_count_in_every_try(c: DhcpView, packet: Seq<u8>)
    ensures
        ({
            let answer = reply_outcome(packet, xid_of(c.mac));
            let next = dhcp_next(c, DhcpEventView::Packet(packet));
            let sent = dhcp_next(c, DhcpEventView::Sent);
            &&& c.phase is AwaitOffer && answer is Ok && message_type(packet) == Some(2u8) ==> next
                == (DhcpView {
                mac: c.mac,
                phase: DhcpPhaseView::Request(answer->Ok_0.yiaddr, answer->Ok_0.server_id),
                tries: 0,
            })
            &&& c.phase is AwaitAck && answer is Ok && message_type(packet) == Some(5u8)
                ==> next.phase == DhcpPhaseView::Leased(answer->Ok_0)
            &&& c.phase is AwaitOffer && (answer is Err || message_type(packet) != Some(2u8))
                ==> next == c
            &&& c.phase is AwaitAck && (answer is Err || message_type(packet) != Some(5u8))
                ==> next == c
            &&& c.phase is Discover ==> sent.phase is AwaitOffer && next == c
            &&& c.phase matches DhcpPhaseView::Request(yiaddr, sid) ==> sent.phase
                == DhcpPhaseView::AwaitAck(yiaddr, sid) && next == c
        }),
{
}

} // verus!
