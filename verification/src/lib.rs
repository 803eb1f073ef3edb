//! The decisions of a build driver that runs as the first process of a build VM.
//!
//! The driver reads recipes and a lock file ([`recipe`], [`lock`]), runs their directives on
//! snapshots of a base image ([`stage`], [`copy`]), seals what each directive changed as a scute
//! that is chained to the one before it ([`scute`], [`output`]), and brings the network up for a
//! stage that wants it ([`net`]): it finds the interface ([`iface`]), speaks netlink to the
//! kernel ([`netlink`]) and DHCP to the network ([`dhcp`], [`dhcp_client`]).
//!
//! Nothing here touches a socket, a file or a process. Where work outside is needed in between,
//! the decision is a state machine: each state asks for one action, and its owner performs the
//! action and hands back what came of it ([`event`]).

pub mod addr;
pub mod bytes;
pub mod copy;
pub mod dhcp;
pub mod dhcp_client;
pub mod event;
pub mod hash;
pub mod iface;
pub mod init;
pub mod lock;
pub mod net;
pub mod netlink;
pub mod number;
pub mod order;
pub mod output;
pub mod quote;
pub mod recipe;
pub mod scute;
pub mod stage;
pub mod text;
pub mod yaml;
