//! Finding the one network interface, with its index and its hardware address.

use vstd::prelude::*;

use crate::event::{entries_view, entry_view, NetAction, NetActionView, NetEvent, NetEventView};
use crate::number::{
    decimal, decimal_text, digit_char, digits_value, fault_text, hex_digits,
    law_decimal_reads_back, lemma_digit_reads_back, number_value, parse_number, IntFault,
};
use crate::quote::{debug_text, quoted};
use crate::text::{
    law_trim_takes_the_blanks, pieces, same, shown, split, texts, trim, trimmed, white_space, Cut,
};

verus! {

/// What `parts` hold as octets in hexadecimal, or the first part that is none, with its fault.
pub open spec fn hex_octets(parts: Seq<Seq<char>>) -> Result<Seq<u8>, (Seq<char>, IntFault)>
    decreases parts.len(),
{
    if parts.len() == 0 {
        Ok(Seq::empty())
    } else {
        match hex_octets(parts.drop_last()) {
            Err(bad) => Err(bad),
            Ok(front) => match number_value(parts.last(), 16, 255) {
                Err(fault) => Err((parts.last(), fault)),
                Ok(n) => Ok(front.push(n as u8)),
            },
        }
    }
}

/// What `s` says as a hardware address: six octets in hexadecimal between colons.
pub open spec fn mac_outcome(s: Seq<char>) -> Result<Seq<u8>, Seq<char>> {
    let parts = pieces(s, Cut::At(':'));
    let front = if parts.len() > 6 {
        parts.take(6)
    } else {
        parts
    };
    match hex_octets(front) {
        Err((part, fault)) => Err(
            "parse MAC octet "@ + debug_text(part) + ": "@ + fault_text(fault),
        ),
        Ok(octets) => if parts.len() > 6 {
            Err("MAC has too many octets: "@ + debug_text(s))
        } else if parts.len() < 6 {
            Err(
                "MAC has "@ + decimal(parts.len()) + " octets, expected 6: "@ + debug_text(s),
            )
        } else {
            Ok(octets)
        },
    }
}

/// A hardware address, or why there is none, with array and message taken by what they hold.
pub open spec fn mac_shown(r: Result<[u8; 6], String>) -> Result<Seq<u8>, Seq<char>> {
    match r {
        Ok(mac) => Ok(mac@),
        Err(e) => Err(e@),
    }
}

/// A bad part in front of a list of parts is the bad part of the whole list.
proof fn lemma_bad_part_stays(parts: Seq<Seq<char>>, k: int)
    requires
        0 <= k <= parts.len(),
        hex_octets(parts.take(k)) is Err,
    ensures
        hex_octets(parts) == hex_octets(parts.take(k)),
    decreases parts.len() - k,
{
    if k == parts.len() {
        assert(parts.take(k) =~= parts);
    } else {
        assert(parts.take(k + 1).drop_last() =~= parts.take(k));
        lemma_bad_part_stays(parts, k + 1);
    }
}

/// Reads a hardware address such as `aa:bb:cc:dd:ee:ff`.
pub fn parse_mac(s: &str) -> (r: Result<[u8; 6], String>)
    ensures
        mac_shown(r) == mac_outcome(s@),
{
    let parts: Vec<String> = split(s, Cut::At(':'));
    let ghost all = texts(parts@);
    let ghost front = if all.len() > 6 {
        all.take(6)
    } else {
        all
    };
    let mut out: [u8; 6] = [0, 0, 0, 0, 0, 0];
    let mut i: usize = 0;
    assert(front.take(0) =~= Seq::<Seq<char>>::empty());
    assert(out@.take(0) =~= Seq::<u8>::empty());
    while i < parts.len()
        invariant
            i <= parts@.len(),
            i <= 6,
            all == texts(parts@),
            all == pieces(s@, Cut::At(':')),
            front == (if all.len() > 6 {
                all.take(6)
            } else {
                all
            }),
            hex_octets(front.take(i as int)) == Ok::<Seq<u8>, (Seq<char>, IntFault)>(
                out@.take(i as int),
            ),
        decreases parts@.len() - i,
    {
        if i >= 6 {
            assert(front.take(6) =~= front);
            let mut e: String = "MAC has too many octets: ".to_owned();
            e.append(quoted(s).as_str());
            return Err(e);
        }
        assert(front.take(i + 1).drop_last() =~= front.take(i as int));
        assert(front.take(i + 1).last() == parts@[i as int]@);
        match parse_number(parts[i].as_str(), 16, 255) {
            Ok(n) => {
                let ghost was = out@;
                out[i] = n as u8;
                assert(out@.take(i + 1) =~= was.take(i as int).push(n as u8));
            },
            Err(fault) => {
                proof {
                    lemma_bad_part_stays(front, i + 1);
                }
                let mut e: String = "parse MAC octet ".to_owned();
                e.append(quoted(parts[i].as_str()).as_str());
                e.append(": ");
                e.append(fault.text());
                return Err(e);
            },
        }
        i = i + 1;
    }
    assert(front.take(i as int) =~= front);
    if i != 6 {
        let mut e: String = "MAC has ".to_owned();
        e.append(decimal_text(i as u64).as_str());
        e.append(" octets, expected 6: ");
        e.append(quoted(s).as_str());
        return Err(e);
    }
    assert(out@.take(6) =~= out@);
    Ok(out)
}

/// What the text of an index file says.
pub open spec fn ifindex_outcome(raw: Seq<char>) -> Result<u32, Seq<char>> {
    match number_value(trimmed(raw), 10, u32::MAX as nat) {
        Ok(n) => Ok(n as u32),
        Err(fault) => Err(
            "parse ifindex "@ + debug_text(trimmed(raw)) + ": "@ + fault_text(fault),
        ),
    }
}

/// Reads the text of an index file.
pub fn parse_ifindex(raw: &str) -> (r: Result<u32, String>)
    ensures
        shown(r) == ifindex_outcome(raw@),
{
    let text: &str = trim(raw);
    match parse_number(text, 10, u32::MAX as u64) {
        Ok(n) => Ok(n as u32),
        Err(fault) => {
            let mut e: String = "parse ifindex ".to_owned();
            e.append(quoted(text).as_str());
            e.append(": ");
            e.append(fault.text());
            Err(e)
        },
    }
}

/// The one entry of a listing that is not the loopback, as far as the listing was read.
pub open spec fn picked(entries: Seq<Result<Seq<char>, Seq<char>>>) -> Result<
    Option<Seq<char>>,
    Seq<char>,
>
    decreases entries.len(),
{
    if entries.len() == 0 {
        Ok(None)
    } else {
        match picked(entries.drop_last()) {
            Err(e) => Err(e),
            Ok(found) => match entries.last() {
                Err(e) => Err("read /sys/class/net entry: "@ + e),
                Ok(name) => if name == "lo"@ {
                    Ok(found)
                } else if found is Some {
                    Err(
                        "expected exactly one non-lo interface, found at least two ("@ + name
                            + ")"@,
                    )
                } else {
                    Ok(Some(name))
                },
            },
        }
    }
}

/// The name of the one interface that is not the loopback.
pub open spec fn name_outcome(entries: Seq<Result<Seq<char>, Seq<char>>>) -> Result<
    Seq<char>,
    Seq<char>,
> {
    match picked(entries) {
        Err(e) => Err(e),
        Ok(Some(name)) => Ok(name),
        Ok(None) => Err("no non-lo network interface found"@),
    }
}

proof fn lemma_pick_fault_stays(entries: Seq<Result<Seq<char>, Seq<char>>>, k: int)
    requires
        0 <= k <= entries.len(),
        picked(entries.take(k)) is Err,
    ensures
        picked(entries) == picked(entries.take(k)),
    decreases entries.len() - k,
{
    if k == entries.len() {
        assert(entries.take(k) =~= entries);
    } else {
        assert(entries.take(k + 1).drop_last() =~= entries.take(k));
        lemma_pick_fault_stays(entries, k + 1);
    }
}

/// Picks the one interface that is not the loopback.
pub fn pick_interface(entries: &Vec<Result<String, String>>) -> (r: Result<String, String>)
    ensures
        entry_view(r) == name_outcome(entries_view(entries@)),
{
    let ghost all = entries_view(entries@);
    let mut name: Option<String> = None;
    let mut i: usize = 0;
    assert(all.take(0) =~= Seq::empty());
    while i < entries.len()
        invariant
            i <= entries@.len(),
            all == entries_view(entries@),
            picked(all.take(i as int)) == Ok::<Option<Seq<char>>, Seq<char>>(
                match name {
                    Some(n) => Some(n@),
                    None => None,
                },
            ),
        decreases entries@.len() - i,
    {
        assert(all.take(i + 1).drop_last() =~= all.take(i as int));
        assert(all.take(i + 1).last() == entry_view(entries@[i as int]));
        match &entries[i] {
            Err(e) => {
                proof {
                    lemma_pick_fault_stays(all, i + 1);
                }
                let mut text: String = "read /sys/class/net entry: ".to_owned();
                text.append(e.as_str());
                return Err(text);
            },
            Ok(n) => {
                if !same(n.as_str(), "lo") {
                    if name.is_some() {
                        proof {
                            lemma_pick_fault_stays(all, i + 1);
                        }
                        let mut text: String =
                            "expected exactly one non-lo interface, found at least two (".to_owned();
                        text.append(n.as_str());
                        text.append(")");
                        return Err(text);
                    }
                    name = Some(n.clone());
                }
            },
        }
        i = i + 1;
    }
    assert(all.take(i as int) =~= all);
    match name {
        Some(n) => Ok(n),
        None => Err("no non-lo network interface found".to_owned()),
    }
}

/// What an [`Iface`] holds.
pub struct IfaceView {
    pub name: Seq<char>,
    pub index: u32,
    pub mac: Seq<u8>,
}

/// A network interface.
#[derive(Debug, Clone, PartialEq, Eq)]
pub struct Iface {
    pub name: String,
    pub index: u32,
    pub mac: [u8; 6],
}

impl View for Iface {
    type V = IfaceView;

    open spec fn view(&self) -> IfaceView {
        IfaceView { name: self.name@, index: self.index, mac: self.mac@ }
    }
}

/// How far the search for the interface has come.
#[derive(Debug, PartialEq, Eq)]
pub enum Discovery {
    /// The interfaces are to be listed.
    List,
    /// The index of the named interface is to be read.
    ReadIndex(String),
    /// The hardware address of the named interface is to be read.
    ReadMac(String, u32),
    /// The interface is known.
    Found(Iface),
    /// The search failed.
    Failed(String),
}

/// What a [`Discovery`] holds.
pub enum DiscoveryView {
    List,
    ReadIndex(Seq<char>),
    ReadMac(Seq<char>, u32),
    Found(IfaceView),
    Failed(Seq<char>),
}

impl View for Discovery {
    type V = DiscoveryView;

    open spec fn view(&self) -> DiscoveryView {
        match self {
            Discovery::List => DiscoveryView::List,
            Discovery::ReadIndex(name) => DiscoveryView::ReadIndex(name@),
            Discovery::ReadMac(name, index) => DiscoveryView::ReadMac(name@, *index),
            Discovery::Found(iface) => DiscoveryView::Found(iface@),
            Discovery::Failed(e) => DiscoveryView::Failed(e@),
        }
    }
}

/// The file that holds the index of interface `name`.
pub open spec fn index_path(name: Seq<char>) -> Seq<char> {
    "/sys/class/net/"@ + name + "/ifindex"@
}

/// The file that holds the hardware address of interface `name`.
pub open spec fn mac_path(name: Seq<char>) -> Seq<char> {
    "/sys/class/net/"@ + name + "/address"@
}

/// The message of a file that could not be read.
pub open spec fn unread(path: Seq<char>, e: Seq<char>) -> Seq<char> {
    "read "@ + path + ": "@ + e
}

/// The search after an event; an event that does not answer its action changes nothing.
pub open spec fn discovery_next(d: DiscoveryView, event: NetEventView) -> DiscoveryView {
    match (d, event) {
        (DiscoveryView::List, NetEventView::Names(entries)) => match name_outcome(entries) {
            Ok(name) => DiscoveryView::ReadIndex(name),
            Err(e) => DiscoveryView::Failed(e),
        },
        (DiscoveryView::List, NetEventView::Failed(e)) => DiscoveryView::Failed(
            "read /sys/class/net: "@ + e,
        ),
        (DiscoveryView::ReadIndex(name), NetEventView::Text(raw)) => match ifindex_outcome(raw) {
            Ok(index) => DiscoveryView::ReadMac(name, index),
            Err(e) => DiscoveryView::Failed(e),
        },
        (DiscoveryView::ReadIndex(name), NetEventView::Failed(e)) => DiscoveryView::Failed(
            unread(index_path(name), e),
        ),
        (DiscoveryView::ReadMac(name, index), NetEventView::Text(raw)) => match mac_outcome(
            trimmed(raw),
        ) {
            Ok(mac) => DiscoveryView::Found(IfaceView { name, index, mac }),
            Err(e) => DiscoveryView::Failed(e),
        },
        (DiscoveryView::ReadMac(name, _), NetEventView::Failed(e)) => DiscoveryView::Failed(
            unread(mac_path(name), e),
        ),
        _ => d,
    }
}

/// The action that the search asks for.
pub open spec fn discovery_action(d: DiscoveryView) -> NetActionView {
    match d {
        DiscoveryView::List => NetActionView::ListInterfaces,
        DiscoveryView::ReadIndex(name) => NetActionView::ReadText(index_path(name)),
        DiscoveryView::ReadMac(name, _) => NetActionView::ReadText(mac_path(name)),
        DiscoveryView::Found(_) | DiscoveryView::Failed(_) => NetActionView::Stop,
    }
}

fn path_of(name: &str, file: &str) -> (r: String)
    ensures
        r@ == "/sys/class/net/"@ + name@ + file@,
{
    let mut r: String = "/sys/class/net/".to_owned();
    r.append(name);
    r.append(file);
    r
}

fn unread_text(path: String, e: String) -> (r: String)
    ensures
        r@ == unread(path@, e@),
{
    let mut r: String = "read ".to_owned();
    r.append(path.as_str());
    r.append(": ");
    r.append(e.as_str());
    r
}

impl Iface {
    /// Takes the search for the one interface besides the loopback a step further.
    pub fn discover(d: Discovery, event: NetEvent) -> (r: Discovery)
        ensures
            r@ == discovery_next(d@, event@),
    {
        match (d, event) {
            (Discovery::List, NetEvent::Names(entries)) => match pick_interface(&entries) {
                Ok(name) => Discovery::ReadIndex(name),
                Err(e) => Discovery::Failed(e),
            },
            (Discovery::List, NetEvent::Failed(e)) => {
                let mut text: String = "read /sys/class/net: ".to_owned();
                text.append(e.as_str());
                Discovery::Failed(text)
            },
            (Discovery::ReadIndex(name), NetEvent::Text(raw)) => match parse_ifindex(
                raw.as_str(),
            ) {
                Ok(index) => Discovery::ReadMac(name, index),
                Err(e) => Discovery::Failed(e),
            },
            (Discovery::ReadIndex(name), NetEvent::Failed(e)) => Discovery::Failed(
                unread_text(path_of(name.as_str(), "/ifindex"), e),
            ),
            (Discovery::ReadMac(name, index), NetEvent::Text(raw)) => match parse_mac(
                trim(raw.as_str()),
            ) {
                Ok(mac) => Discovery::Found(Iface { name, index, mac }),
                Err(e) => Discovery::Failed(e),
            },
            (Discovery::ReadMac(name, _), NetEvent::Failed(e)) => Discovery::Failed(
                unread_text(path_of(name.as_str(), "/address"), e),
            ),
            (d, _) => d,
        }
    }
}

impl Discovery {
    /// What has to be done next.
    pub fn action(&self) -> (r: NetAction)
        ensures
            r@ == discovery_action(self@),
    {
        match self {
            Discovery::List => NetAction::ListInterfaces,
            Discovery::ReadIndex(name) => NetAction::ReadText(
                path_of(name.as_str(), "/ifindex"),
            ),
            Discovery::ReadMac(name, _) => NetAction::ReadText(
                path_of(name.as_str(), "/address"),
            ),
            Discovery::Found(_) | Discovery::Failed(_) => NetAction::Stop,
        }
    }
}

/// A hardware address in text: octets in two hexadecimal digits, between colons.
pub open spec fn mac_text(mac: Seq<u8>) -> Seq<char>
    decreases mac.len(),
{
    if mac.len() == 0 {
        Seq::empty()
    } else if mac.len() == 1 {
        hex_digits(mac[0] as nat, 2)
    } else {
        mac_text(mac.drop_last()) + seq![':'] + hex_digits(mac.last() as nat, 2)
    }
}

/// The two digits of an octet hold no separator and read back.
proof fn lemma_octet_text(b: u8)
    ensures
        hex_digits(b as nat, 2).len() == 2,
        forall|i: int| 0 <= i < 2 ==> hex_digits(b as nat, 2)[i] != ':',
        number_value(hex_digits(b as nat, 2), 16, 255) == Ok::<nat, IntFault>(b as nat),
{
    let n = b as nat;
    let high = digit_char(n / 16);
    let low = digit_char(n % 16);
    let s = hex_digits(n, 2);
    assert(hex_digits(n / 16 / 16, 0) =~= Seq::empty());
    assert(hex_digits(n / 16, 1) =~= seq![high]);
    assert(s =~= seq![high, low]);
    lemma_digit_reads_back(n / 16, 16);
    lemma_digit_reads_back(n % 16, 16);
    assert(s.drop_last() =~= seq![high]);
    assert(s.drop_last().drop_last() =~= Seq::<char>::empty());
    assert(digits_value(seq![high].drop_last(), 16, 255) == Ok::<nat, IntFault>(0));
    assert(digits_value(seq![high], 16, 255) == Ok::<nat, IntFault>(n / 16));
    assert(digits_value(s, 16, 255) == Ok::<nat, IntFault>(n));
}

/// A text without the separator is one piece more after a separator.
proof fn lemma_pieces_of_joined(s: Seq<char>, t: Seq<char>, sep: char)
    requires
        forall|i: int| 0 <= i < t.len() ==> t[i] != sep,
    ensures
        pieces(s + seq![sep] + t, Cut::At(sep)) == pieces(s, Cut::At(sep)).push(t),
    decreases t.len(),
{
    let whole = s + seq![sep] + t;
    if t.len() == 0 {
        assert(whole.drop_last() =~= s);
        assert(t =~= Seq::empty());
    } else {
        lemma_pieces_of_joined(s, t.drop_last(), sep);
        assert(whole.drop_last() =~= s + seq![sep] + t.drop_last());
        let before = pieces(s, Cut::At(sep)).push(t.drop_last());
        assert(before.drop_last() =~= pieces(s, Cut::At(sep)));
        assert(t.drop_last().push(t.last()) =~= t);
    }
}

/// A text without the separator is one piece.
proof fn lemma_pieces_of_one(t: Seq<char>, sep: char)
    requires
        forall|i: int| 0 <= i < t.len() ==> t[i] != sep,
    ensures
        pieces(t, Cut::At(sep)) == seq![t],
    decreases t.len(),
{
    if t.len() == 0 {
        assert(t =~= Seq::empty());
    } else {
        lemma_pieces_of_one(t.drop_last(), sep);
        assert(seq![t.drop_last()].drop_last() =~= Seq::<Seq<char>>::empty());
        assert(t.drop_last().push(t.last()) =~= t);
        assert(Seq::<Seq<char>>::empty().push(t) =~= seq![t]);
    }
}

proof fn lemma_mac_parts(mac: Seq<u8>)
    requires
        mac.len() > 0,
    ensures
        pieces(mac_text(mac), Cut::At(':')).len() == mac.len(),
        hex_octets(pieces(mac_text(mac), Cut::At(':'))) == Ok::<Seq<u8>, (Seq<char>, IntFault)>(
            mac,
        ),
    decreases mac.len(),
{
    let last = hex_digits(mac.last() as nat, 2);
    lemma_octet_text(mac.last());
    let parts = pieces(mac_text(mac), Cut::At(':'));
    if mac.len() == 1 {
        lemma_pieces_of_one(last, ':');
        assert(parts.drop_last() =~= Seq::<Seq<char>>::empty());
        assert(hex_octets(parts.drop_last()) == Ok::<Seq<u8>, (Seq<char>, IntFault)>(
            Seq::empty(),
        ));
        assert(Seq::<u8>::empty().push(mac[0]) =~= mac);
    } else {
        lemma_mac_parts(mac.drop_last());
        lemma_pieces_of_joined(mac_text(mac.drop_last()), last, ':');
        assert(parts.drop_last() =~= pieces(mac_text(mac.drop_last()), Cut::At(':')));
        assert(mac.drop_last().push(mac.last()) =~= mac);
    }
}

/// A hardware address in text reads back as it was.
pub proof fn law_mac_reads_back(mac: Seq<u8>)
    requires
        mac.len() == 6,
    ensures
        mac_outcome(mac_text(mac)) == Ok::<Seq<u8>, Seq<char>>(mac),
{
    lemma_mac_parts(mac);
}

/// A hardware address has six octets, whatever it was read from.
pub proof fn law_mac_has_six_octets(s: Seq<char>)
    ensures
        mac_outcome(s) matches Ok(mac) ==> mac.len() == 6,
{
    lemma_octets_len(pieces(s, Cut::At(':')));
}

proof fn lemma_octets_len(parts: Seq<Seq<char>>)
    ensures
        hex_octets(parts) matches Ok(octets) ==> octets.len() == parts.len(),
    decreases parts.len(),
{
    if parts.len() > 0 {
        lemma_octets_len(parts.drop_last());
    }
}

/// The names in a listing that are not the loopback.
pub open spec fn others(names: Seq<Seq<char>>) -> Seq<Seq<char>> {
    names.filter(|name: Seq<char>| name != "lo"@)
}

/// In a listing that could be read, an interface is found exactly where there is one besides the
/// loopback, and it is that one.
pub proof fn law_picks_the_only_interface(names: Seq<Seq<char>>, name: Seq<char>)
    ensures
        name_outcome(names.map_values(|n: Seq<char>| Ok::<Seq<char>, Seq<char>>(n))) == Ok::<
            Seq<char>,
            Seq<char>,
        >(name) <==> others(names) == seq![name],
{
    lemma_picked(names);
    if others(names) == seq![name] {
        assert(others(names)[0] == name);
    }
    if others(names).len() == 1 {
        assert(others(names) =~= seq![others(names)[0]]);
    }
}

proof fn lemma_picked(names: Seq<Seq<char>>)
    ensures
        match picked(names.map_values(|n: Seq<char>| Ok::<Seq<char>, Seq<char>>(n))) {
            Err(_) => others(names).len() > 1,
            Ok(None) => others(names).len() == 0,
            Ok(Some(name)) => others(names).len() == 1 && others(names)[0] == name,
        },
    decreases names.len(),
{
    reveal(Seq::filter);
    let entries = names.map_values(|n: Seq<char>| Ok::<Seq<char>, Seq<char>>(n));
    if names.len() > 0 {
        lemma_picked(names.drop_last());
        assert(entries.drop_last() =~= names.drop_last().map_values(
            |n: Seq<char>| Ok::<Seq<char>, Seq<char>>(n),
        ));
    }
}

/// An index is read as it was written, with or without white space around it.
pub proof fn law_index_reads_back(front: Seq<char>, index: u32, back: Seq<char>)
    requires
        forall|i: int| 0 <= i < front.len() ==> white_space(#[trigger] front[i]),
        forall|i: int| 0 <= i < back.len() ==> white_space(#[trigger] back[i]),
    ensures
        ifindex_outcome(front + decimal(index as nat) + back) == Ok::<u32, Seq<char>>(index),
{
    let d = decimal(index as nat);
    lemma_decimal_ends(index as nat);
    law_trim_takes_the_blanks(front, d, back);
    law_decimal_reads_back(index as nat, u32::MAX as nat);
}

proof fn lemma_decimal_ends(n: nat)
    ensures
        decimal(n).len() > 0,
        !white_space(decimal(n).first()),
        !white_space(decimal(n).last()),
    decreases n,
{
    if n >= 10 {
        lemma_decimal_ends(n / 10);
        assert(decimal(n).first() == decimal(n / 10).first());
    }
}

proof fn lemma_mac_text_ends(mac: Seq<u8>)
    requires
        mac.len() > 0,
    ensures
        mac_text(mac).len() > 0,
        !white_space(mac_text(mac).first()),
        !white_space(mac_text(mac).last()),
    decreases mac.len(),
{
    let last = hex_digits(mac.last() as nat, 2);
    lemma_hex_pair(mac.last());
    if mac.len() > 1 {
        lemma_mac_text_ends(mac.drop_last());
        assert(mac_text(mac).first() == mac_text(mac.drop_last()).first());
        assert(mac_text(mac).last() == last.last());
    }
}

proof fn lemma_hex_pair(b: u8)
    ensures
        hex_digits(b as nat, 2).len() == 2,
        !white_space(hex_digits(b as nat, 2).first()),
        !white_space(hex_digits(b as nat, 2).last()),
{
    let n = b as nat;
    assert(hex_digits(n / 16 / 16, 0) =~= Seq::empty());
    assert(hex_digits(n / 16, 1) =~= seq![digit_char(n / 16)]);
    assert(hex_digits(n, 2) =~= seq![digit_char(n / 16), digit_char(n % 16)]);
}

/// The search takes the one interface besides the loopback, reads the file `ifindex` of that
/// interface for its index and the file `address` for its hardware address, and finds the
/// interface with exactly those.
pub proof fn law_discovery_finds_the_interface(
    names: Seq<Seq<char>>,
    name: Seq<char>,
    index: u32,
    mac: Seq<u8>,
)
    requires
        others(names) == seq![name],
        mac.len() == 6,
    ensures
        ({
            let listed = names.map_values(|n: Seq<char>| Ok::<Seq<char>, Seq<char>>(n));
            let d0 = DiscoveryView::List;
            let d1 = discovery_next(d0, NetEventView::Names(listed));
            let d2 = discovery_next(d1, NetEventView::Text(decimal(index as nat) + seq!['\n']));
            let d3 = discovery_next(d2, NetEventView::Text(mac_text(mac) + seq!['\n']));
            &&& discovery_action(d0) == NetActionView::ListInterfaces
            &&& discovery_action(d1) matches NetActionView::ReadText(path) && path
                == "/sys/class/net/"@ + name + "/ifindex"@
            &&& discovery_action(d2) matches NetActionView::ReadText(path) && path
                == "/sys/class/net/"@ + name + "/address"@
            &&& d3 == DiscoveryView::Found(IfaceView { name, index, mac })
        }),
{
    let none = Seq::<char>::empty();
    let end = seq!['\n'];
    law_picks_the_only_interface(names, name);
    law_index_reads_back(none, index, end);
    assert(none + decimal(index as nat) + end =~= decimal(index as nat) + end);
    law_mac_reads_back(mac);
    lemma_mac_text_ends(mac);
    law_trim_takes_the_blanks(none, mac_text(mac), end);
    assert(none + mac_text(mac) + end =~= mac_text(mac) + end);
}

/// A search fails as soon as a step of it fails, and the message ends with what was reported.
pub proof fn law_discovery_stops_at_a_failure(d: DiscoveryView, e: Seq<char>)
    requires
        d is List || d is ReadIndex || d is ReadMac,
    ensures
        discovery_next(d, NetEventView::Failed(e)) matches DiscoveryView::Failed(text)
            && e.is_suffix_of(text),
{
    let text = discovery_next(d, NetEventView::Failed(e))->Failed_0;
    assert(text.subrange(text.len() - e.len(), text.len() as int) =~= e);
}

/// An entry that could not be read fails the search unless it failed before, and so does a second
/// interface besides the loopback.
pub proof fn law_unreadable_entries_count(
    entries: Seq<Result<Seq<char>, Seq<char>>>,
    entry: Result<Seq<char>, Seq<char>>,
)
    ensures
        name_outcome(Seq::empty()) is Err,
        picked(entries) is Err ==> name_outcome(entries.push(entry)) == name_outcome(entries),
        entry is Err ==> name_outcome(entries.push(entry)) is Err,
        entry == Ok::<Seq<char>, Seq<char>>("lo"@) ==> name_outcome(entries.push(entry))
            == name_outcome(entries),
        entry is Ok && entry->Ok_0 != "lo"@ && name_outcome(entries) is Ok ==> name_outcome(
            entries.push(entry),
        ) is Err,
{
    assert(entries.push(entry).drop_last() =~= entries);
    assert(picked(Seq::<Result<Seq<char>, Seq<char>>>::empty()) == Ok::<
        Option<Seq<char>>,
        Seq<char>,
    >(None));
}

} // verus!
