//! What the network steps ask of their owner, and what the owner reports back.

use vstd::prelude::*;

verus! {

/// One entry of a directory listing, with its texts taken as characters.
pub open spec fn entry_view(entry: Result<String, String>) -> Result<Seq<char>, Seq<char>> {
    match entry {
        Ok(name) => Ok(name@),
        Err(e) => Err(e@),
    }
}

/// A directory listing, with its texts taken as characters.
pub open spec fn entries_view(entries: Seq<Result<String, String>>) -> Seq<
    Result<Seq<char>, Seq<char>>,
> {
    entries.map_values(|entry: Result<String, String>| entry_view(entry))
}

/// What came of an action.
#[derive(Debug, PartialEq, Eq)]
pub enum NetEvent {
    /// It is done; there is nothing to hand back.
    Done,
    /// The entries of a directory, in order; an entry that could not be read gives its error.
    Names(Vec<Result<String, String>>),
    /// The text of a file.
    Text(String),
    /// Bytes that came in.
    Bytes(Vec<u8>),
    /// It failed, a timeout included.
    Failed(String),
}

/// What a [`NetEvent`] holds.
pub enum NetEventView {
    Done,
    Names(Seq<Result<Seq<char>, Seq<char>>>),
    Text(Seq<char>),
    Bytes(Seq<u8>),
    Failed(Seq<char>),
}

impl View for NetEvent {
    type V = NetEventView;

    open spec fn view(&self) -> NetEventView {
        match self {
            NetEvent::Done => NetEventView::Done,
            NetEvent::Names(names) => NetEventView::Names(entries_view(names@)),
            NetEvent::Text(text) => NetEventView::Text(text@),
            NetEvent::Bytes(bytes) => NetEventView::Bytes(bytes@),
            NetEvent::Failed(e) => NetEventView::Failed(e@),
        }
    }
}

/// The steps that open a netlink socket.
#[derive(Clone, Copy, Debug, PartialEq, Eq, Structural)]
pub enum NetlinkStep {
    /// Open a raw route socket.
    Open,
    /// Bind it to an address of the kernel's choice.
    Bind,
}

/// The steps that open a DHCP socket.
#[derive(Clone, Copy, Debug, PartialEq, Eq, Structural)]
pub enum DhcpStep {
    /// Open a datagram socket.
    Open,
    /// Let it share its address.
    ReuseAddr,
    /// Let it broadcast.
    Broadcast,
    /// Limit how long a receive waits.
    Timeout,
    /// Bind it to the client port on every address.
    Bind,
}

/// What has to be done next.
#[derive(Debug, PartialEq, Eq)]
pub enum NetAction {
    /// List `/sys/class/net`.
    ListInterfaces,
    /// Read a file as text.
    ReadText(String),
    /// Take a step towards a netlink socket.
    SetUpNetlink(NetlinkStep),
    /// Send bytes on the netlink socket.
    SendNetlink(Vec<u8>),
    /// Receive bytes on the netlink socket.
    ReceiveNetlink,
    /// Take a step towards a DHCP socket.
    SetUpDhcp(DhcpStep),
    /// Broadcast a packet on the DHCP socket.
    SendDhcp(Vec<u8>),
    /// Receive a packet on the DHCP socket.
    ReceiveDhcp,
    /// Create the directory of the name-server file.
    MakeEtc,
    /// Write the name-server file.
    WriteResolvConf(String),
    /// Nothing: it is over.
    Stop,
}

/// What a [`NetAction`] holds.
pub enum NetActionView {
    ListInterfaces,
    ReadText(Seq<char>),
    SetUpNetlink(NetlinkStep),
    SendNetlink(Seq<u8>),
    ReceiveNetlink,
    SetUpDhcp(DhcpStep),
    SendDhcp(Seq<u8>),
    ReceiveDhcp,
    MakeEtc,
    WriteResolvConf(Seq<char>),
    Stop,
}

impl View for NetAction {
    type V = NetActionView;

    open spec fn view(&self) -> NetActionView {
        match self {
            NetAction::ListInterfaces => NetActionView::ListInterfaces,
            NetAction::ReadText(path) => NetActionView::ReadText(path@),
            NetAction::SetUpNetlink(step) => NetActionView::SetUpNetlink(*step),
            NetAction::SendNetlink(bytes) => NetActionView::SendNetlink(bytes@),
            NetAction::ReceiveNetlink => NetActionView::ReceiveNetlink,
            NetAction::SetUpDhcp(step) => NetActionView::SetUpDhcp(*step),
            NetAction::SendDhcp(bytes) => NetActionView::SendDhcp(bytes@),
            NetAction::ReceiveDhcp => NetActionView::ReceiveDhcp,
            NetAction::MakeEtc => NetActionView::MakeEtc,
            NetAction::WriteResolvConf(text) => NetActionView::WriteResolvConf(text@),
            NetAction::Stop => NetActionView::Stop,
        }
    }
}

} // verus!
