//! Sessions with a phone: which route to take, how a session is opened, and when
//! the pairing is renewed.
use crate::device::{ConnectionMode, DeviceTransport};
use crate::failure::Failure;
use crate::pairing::PairRecord;
use crate::text::{lower_text, lowered, same_text};
use crate::usbmux::{canonical, check_reply, dict, out_of_range, same_device, string, UsbDevice};
use crate::value::{
    a_dictionary_holds_its_items, bool_in, dict_of, item_pairs, lookup, number_in, stored,
    stored_is_found, text_in, Dict, Plist, Tree,
};
use vstd::prelude::*;

verus! {

/// The service that streams the phone's log.
pub const LOG_SERVICE: &'static str = "com.apple.syslog_relay";

/// The pause before a pairing request is repeated.
pub const TRUST_PAUSE_MS: u64 = 500;

/// How long the user may take to trust this computer.
pub const TRUST_LIMIT_SECS: u64 = 60;

/// Whether the user has stopped the work.
pub fn cancelled(stop: bool) -> (go_on: Result<(), Failure>)
    ensures
        match go_on {
            Ok(()) => !stop,
            Err(failure) => stop && failure.says("Scan cancelled"@),
        },
{
    if stop {
        Err(Failure::said("Scan cancelled"))
    } else {
        Ok(())
    }
}

/// The transport that a mode takes where these are available: the cable where it is
/// allowed, and otherwise the network where that is allowed.
pub open spec fn route(mode: ConnectionMode, available: Seq<DeviceTransport>) -> Option<
    DeviceTransport,
> {
    if mode.allows(DeviceTransport::Usb) && available.contains(DeviceTransport::Usb) {
        Some(DeviceTransport::Usb)
    } else if mode.allows(DeviceTransport::Wifi) && available.contains(DeviceTransport::Wifi) {
        Some(DeviceTransport::Wifi)
    } else {
        None
    }
}

fn offers(available: &[DeviceTransport], wanted: DeviceTransport) -> (found: bool)
    ensures
        found == available@.contains(wanted),
{
    let mut i: usize = 0;
    while i < available.len()
        invariant
            i <= available@.len(),
            forall|k: int| 0 <= k < i ==> available@[k] != wanted,
        decreases available@.len() - i,
    {
        if available[i] == wanted {
            assert(available@[i as int] == wanted);
            return true;
        }
        i = i + 1;
    }
    false
}

/// The transport that a mode takes.
pub fn preferred_route(mode: ConnectionMode, available: &[DeviceTransport]) -> (taken: Result<
    DeviceTransport,
    Failure,
>)
    ensures
        match route(mode, available@) {
            Some(transport) => taken matches Ok(taken) && taken == transport,
            None => taken matches Err(failure) && failure.says(
                "No device available for "@ + mode.name() + ". Refresh the device list."@,
            ),
        },
{
    if mode != ConnectionMode::Wifi && offers(available, DeviceTransport::Usb) {
        return Ok(DeviceTransport::Usb);
    }
    if mode != ConnectionMode::Usb && offers(available, DeviceTransport::Wifi) {
        return Ok(DeviceTransport::Wifi);
    }
    Err(
        Failure::Said(
            "No device available for ".to_owned().concat(mode.label()).concat(
                ". Refresh the device list.",
            ),
        ),
    )
}

/// A mode never takes a transport that it does not allow or that is not there, and
/// finds one whenever there is one that it allows. A mode that allows both prefers
/// the cable.
pub proof fn routes_keep_to_the_mode(mode: ConnectionMode, available: Seq<DeviceTransport>)
    ensures
        route(mode, available) matches Some(t) ==> mode.allows(t) && available.contains(t),
        forall|t: DeviceTransport| #[trigger]
            mode.allows(t) && available.contains(t) ==> route(mode, available) is Some,
        mode == ConnectionMode::Auto && available.contains(DeviceTransport::Usb) ==> route(
            mode,
            available,
        ) == Some(DeviceTransport::Usb),
{
    assert forall|t: DeviceTransport| #[trigger] mode.allows(t) && available.contains(t) implies route(
        mode,
        available,
    ) is Some by {
        match t {
            DeviceTransport::Usb => {},
            DeviceTransport::Wifi => {},
        }
    }
}

/// A device and a transport that reaches it.
pub struct DeviceEntry {
    pub udid: String,
    pub transport: DeviceTransport,
}

/// The transports of the entries for a device; without one, of all entries.
pub open spec fn transports(entries: Seq<DeviceEntry>, udid: Option<Seq<char>>) -> Seq<DeviceTransport>
    decreases entries.len(),
{
    if entries.len() == 0 {
        Seq::empty()
    } else {
        let before = transports(entries.drop_last(), udid);
        let entry = entries.last();
        let chosen = match udid {
            Some(udid) => canonical(udid) is Some && canonical(udid) == canonical(entry.udid@),
            None => true,
        };
        if chosen {
            before.push(entry.transport)
        } else {
            before
        }
    }
}

/// All entries are of one device, and there is one.
pub open spec fn one_device(entries: Seq<DeviceEntry>) -> bool {
    entries.len() > 0 && forall|i: int|
        0 <= i < entries.len() ==> lowered((#[trigger] entries[i]).udid@) == lowered(entries[0].udid@)
}

fn is_one_device(entries: &[DeviceEntry]) -> (one: bool)
    ensures
        one == one_device(entries@),
{
    if entries.len() == 0 {
        return false;
    }
    let first: String = lower_text(entries[0].udid.as_str());
    let mut i: usize = 1;
    while i < entries.len()
        invariant
            1 <= i <= entries@.len(),
            first@ == lowered(entries@[0].udid@),
            forall|k: int|
                0 <= k < i ==> lowered((#[trigger] entries@[k]).udid@) == lowered(entries@[0].udid@),
        decreases entries@.len() - i,
    {
        if !same_text(lower_text(entries[i].udid.as_str()).as_str(), first.as_str()) {
            assert(lowered(entries@[i as int].udid@) != lowered(entries@[0].udid@));
            return false;
        }
        i = i + 1;
    }
    true
}

/// The text of an optional identifier.
pub open spec fn wanted_text(udid: Option<&str>) -> Option<Seq<char>> {
    match udid {
        Some(udid) => Some(udid@),
        None => None,
    }
}

/// The route of a session, and whether the network is available too.
pub struct Route {
    pub transport: DeviceTransport,
    pub wifi_available: bool,
}

/// What to do after a session by cable could not be opened.
pub enum Fallback {
    /// Log the line and try the network.
    Wifi(String),
    /// Give up.
    Stop(Failure),
}

/// A session with a phone.
pub enum DeviceSession {
    /// By cable, with a pairing of this program.
    Usb(UsbSession),
    /// Through Apple's library.
    Native { udid: String, transport: DeviceTransport },
}

impl DeviceSession {
    /// The route that a new session takes. Nothing is done once the user has stopped
    /// the work.
    pub fn open(
        entries: &[DeviceEntry],
        udid: Option<&str>,
        mode: ConnectionMode,
        stop: bool,
    ) -> (taken: Result<Route, Failure>)
        ensures
            if stop {
                taken matches Err(failure) && failure.says("Scan cancelled"@)
            } else if udid is None && !one_device(entries@) {
                taken matches Err(failure) && failure.says(
                    "Select one iPhone before opening a device session"@,
                )
            } else {
                let available = transports(entries@, wanted_text(udid));
                match route(mode, available) {
                    Some(transport) => taken matches Ok(taken) && taken.transport == transport
                        && taken.wifi_available == available.contains(DeviceTransport::Wifi),
                    None => taken matches Err(failure) && failure.says(
                        "No device available for "@ + mode.name() + ". Refresh the device list."@,
                    ),
                }
            },
    {
        match cancelled(stop) {
            Ok(()) => {},
            Err(failure) => return Err(failure),
        }
        if udid.is_none() && !is_one_device(entries) {
            return Err(Failure::said("Select one iPhone before opening a device session"));
        }
        let mut available: Vec<DeviceTransport> = Vec::new();
        let mut i: usize = 0;
        assert(entries@.take(0) =~= Seq::<DeviceEntry>::empty());
        while i < entries.len()
            invariant
                i <= entries@.len(),
                available@ == transports(entries@.take(i as int), wanted_text(udid)),
            decreases entries@.len() - i,
        {
            assert(entries@.take(i + 1).drop_last() =~= entries@.take(i as int));
            assert(entries@.take(i + 1).last() == entries@[i as int]);
            let chosen: bool = match udid {
                Some(udid) => same_device(udid, entries[i].udid.as_str()),
                None => true,
            };
            if chosen {
                available.push(entries[i].transport);
            }
            i = i + 1;
        }
        assert(entries@.take(i as int) =~= entries@);
        match preferred_route(mode, available.as_slice()) {
            Ok(transport) => Ok(
                Route {
                    transport,
                    wifi_available: offers(available.as_slice(), DeviceTransport::Wifi),
                },
            ),
            Err(failure) => Err(failure),
        }
    }

    /// What to do after the session by cable could not be opened: only the mode that
    /// allows both falls back, and only while the work goes on.
    pub fn fall_back(failure: Failure, mode: ConnectionMode, wifi_available: bool, stop: bool) -> (next:
        Fallback)
        ensures
            if mode == ConnectionMode::Auto && wifi_available && !stop {
                next matches Fallback::Wifi(line) && exists|words: Seq<char>| #[trigger]
                    failure.tells(words) && line@ == "USB session failed: "@ + words
                        + "; trying the available WiFi connection."@
            } else {
                next == Fallback::Stop(failure)
            },
    {
        if mode == ConnectionMode::Auto && wifi_available && !stop {
            let words: String = failure.message();
            assert(failure.tells(words@));
            Fallback::Wifi(
                "USB session failed: ".to_owned().concat(words.as_str()).concat(
                    "; trying the available WiFi connection.",
                ),
            )
        } else {
            Fallback::Stop(failure)
        }
    }

    /// The device.
    pub fn udid(&self) -> (udid: &String)
        ensures
            udid@ == match self {
                DeviceSession::Usb(session) => session.device.udid@,
                DeviceSession::Native { udid, transport } => udid@,
            },
    {
        match self {
            DeviceSession::Usb(session) => session.udid(),
            DeviceSession::Native { udid, transport } => udid,
        }
    }

    /// The transport.
    pub fn transport(&self) -> (transport: DeviceTransport)
        ensures
            transport == match self {
                DeviceSession::Usb(_) => DeviceTransport::Usb,
                DeviceSession::Native { udid, transport } => *transport,
            },
    {
        match self {
            DeviceSession::Usb(_) => DeviceTransport::Usb,
            DeviceSession::Native { udid, transport } => *transport,
        }
    }
}

/// The phone does not know the identity under which this computer came.
pub open spec fn is_identity_error(error: Option<Seq<char>>) -> bool {
    match error {
        Some(error) => error == "InvalidHostID"@ || error == "MissingPairRecord"@ || error
            == "InvalidPairRecord"@,
        None => false,
    }
}

/// Whether a reply asks for a new pairing.
pub fn needs_new_pairing(reply: &Dict) -> (needed: bool)
    ensures
        needed == is_identity_error(text_in(lookup(reply.pairs(), "Error"@))),
{
    match reply.text("Error") {
        Some(error) => same_text(error.as_str(), "InvalidHostID") || same_text(
            error.as_str(),
            "MissingPairRecord",
        ) || same_text(error.as_str(), "InvalidPairRecord"),
        None => false,
    }
}

/// The request that starts a session.
pub open spec fn session_request(host: Seq<char>, buid: Seq<char>) -> Tree {
    dict_of(
        seq![
            ("Request"@, Tree::Text("StartSession"@)),
            ("Label"@, Tree::Text("AirCard"@)),
            ("HostID"@, Tree::Text(host)),
            ("SystemBUID"@, Tree::Text(buid)),
        ],
    )
}

/// The request that starts a session under the identity of a record.
pub fn start_session(record: &PairRecord) -> (request: Result<Plist, Failure>)
    ensures
        is_session_request(record.0.pairs(), request),
{
    let host: &String = match record.text("HostID") {
        Ok(host) => host,
        Err(failure) => return Err(failure),
    };
    let buid: &String = match record.text("SystemBUID") {
        Ok(buid) => buid,
        Err(failure) => return Err(failure),
    };
    let fields: Vec<(&str, Plist)> = vec![
        ("Request", string("StartSession")),
        ("Label", string("AirCard")),
        ("HostID", string(host.as_str())),
        ("SystemBUID", string(buid.as_str())),
    ];
    assert(item_pairs(fields@) =~= seq![
        ("Request"@, Tree::Text("StartSession"@)),
        ("Label"@, Tree::Text("AirCard"@)),
        ("HostID"@, Tree::Text(host@)),
        ("SystemBUID"@, Tree::Text(buid@)),
    ]);
    Ok(dict(fields))
}

/// What making the request for a session under a record comes to.
pub open spec fn is_session_request(
    record: Seq<(Seq<char>, Tree)>,
    request: Result<Plist, Failure>,
) -> bool {
    match (text_in(lookup(record, "HostID"@)), text_in(lookup(record, "SystemBUID"@))) {
        (None, _) => request matches Err(failure) && failure.says("Pair record missing "@ + "HostID"@),
        (_, None) => request matches Err(failure) && failure.says(
            "Pair record missing "@ + "SystemBUID"@,
        ),
        (Some(host), Some(buid)) => request matches Ok(request) && request.tree() == session_request(
            host,
            buid,
        ),
    }
}

/// The request that asks the phone to trust this computer.
pub open spec fn pair_tree(shown: Tree) -> Tree {
    dict_of(
        seq![
            ("Request"@, Tree::Text("Pair"@)),
            ("Label"@, Tree::Text("AirCard"@)),
            ("ProtocolVersion"@, Tree::Text("2"@)),
            ("PairingOptions"@, dict_of(seq![("ExtendedPairingErrors"@, Tree::Bool(true))])),
            ("PairRecord"@, shown),
        ],
    )
}

/// The request that asks the phone to trust this computer.
pub fn pair_request(shown: Plist) -> (request: Plist)
    ensures
        request.tree() == pair_tree(shown.tree()),
{
    let options: Vec<(&str, Plist)> = vec![("ExtendedPairingErrors", Plist::Bool(true))];
    assert(item_pairs(options@) =~= seq![("ExtendedPairingErrors"@, Tree::Bool(true))]);
    let fields: Vec<(&str, Plist)> = vec![
        ("Request", string("Pair")),
        ("Label", string("AirCard")),
        ("ProtocolVersion", string("2")),
        ("PairingOptions", dict(options)),
        ("PairRecord", shown),
    ];
    assert(item_pairs(fields@) =~= seq![
        ("Request"@, Tree::Text("Pair"@)),
        ("Label"@, Tree::Text("AirCard"@)),
        ("ProtocolVersion"@, Tree::Text("2"@)),
        ("PairingOptions"@, dict_of(seq![("ExtendedPairingErrors"@, Tree::Bool(true))])),
        ("PairRecord"@, shown.tree()),
    ]);
    dict(fields)
}

/// What the phone says to a pairing request.
pub enum PairReply {
    /// It trusts this computer.
    Trusted,
    /// The user has not decided yet.
    Pending,
    /// It does not trust this computer.
    Refused(Failure),
}

/// The reply means this.
pub open spec fn is_pair_reply(error: Option<Seq<char>>, meaning: PairReply) -> bool {
    match error {
        None => meaning is Trusted,
        Some(error) => if error == "PairingDialogResponsePending"@ {
            meaning is Pending
        } else {
            meaning matches PairReply::Refused(failure) && failure.says(
                if error == "UserDeniedPairing"@ {
                    "Trust was declined on iPhone. Unlock it and approve Trust before scanning"@
                } else if error == "PasswordProtected"@ {
                    "iPhone is locked. Unlock with the passcode before scanning"@
                } else {
                    "App pairing failed: "@ + error
                },
            )
        },
    }
}

/// What a reply to a pairing request means.
pub fn pair_reply(reply: &Dict) -> (meaning: PairReply)
    ensures
        is_pair_reply(text_in(lookup(reply.pairs(), "Error"@)), meaning),
{
    match reply.text("Error") {
        None => PairReply::Trusted,
        Some(error) => {
            if same_text(error.as_str(), "PairingDialogResponsePending") {
                PairReply::Pending
            } else if same_text(error.as_str(), "UserDeniedPairing") {
                PairReply::Refused(
                    Failure::said(
                        "Trust was declined on iPhone. Unlock it and approve Trust before scanning",
                    ),
                )
            } else if same_text(error.as_str(), "PasswordProtected") {
                PairReply::Refused(
                    Failure::said("iPhone is locked. Unlock with the passcode before scanning"),
                )
            } else {
                PairReply::Refused(
                    Failure::Said("App pairing failed: ".to_owned().concat(error.as_str())),
                )
            }
        },
    }
}

/// The record after the phone has trusted this computer: with the escrow bag that
/// the phone may hand out.
pub open spec fn trusted_record(record: Seq<(Seq<char>, Tree)>, reply: Seq<(Seq<char>, Tree)>) -> Seq<
    (Seq<char>, Tree),
> {
    match lookup(reply, "EscrowBag"@) {
        Some(bag) => stored(record, "EscrowBag"@, bag),
        None => record,
    }
}

/// The record after the phone has trusted this computer.
pub fn trusted(record: PairRecord, reply: &Dict) -> (kept: PairRecord)
    ensures
        kept.0.pairs() == trusted_record(record.0.pairs(), reply.pairs()),
{
    let PairRecord(mut fields) = record;
    if let Some(bag) = reply.get("EscrowBag") {
        fields.insert("EscrowBag".to_owned(), bag.clone());
    }
    PairRecord(fields)
}

/// A session by cable.
pub struct UsbSession {
    /// The device.
    pub device: UsbDevice,
    /// The pairing under which the session was opened.
    pub record: PairRecord,
}

impl UsbSession {
    /// The device's identifier.
    pub fn udid(&self) -> (udid: &String)
        ensures
            udid@ == self.device.udid@,
    {
        &self.device.udid
    }

    /// The request that starts a service.
    pub fn start_service_request(&self, name: &str) -> (request: Plist)
        ensures
            request.tree() == dict_of(
                seq![
                    ("Request"@, Tree::Text("StartService"@)),
                    ("Label"@, Tree::Text("AirCard"@)),
                    ("Service"@, Tree::Text(name@)),
                ],
            ),
    {
        let fields: Vec<(&str, Plist)> = vec![
            ("Request", string("StartService")),
            ("Label", string("AirCard")),
            ("Service", string(name)),
        ];
        assert(item_pairs(fields@) =~= seq![
            ("Request"@, Tree::Text("StartService"@)),
            ("Label"@, Tree::Text("AirCard"@)),
            ("Service"@, Tree::Text(name@)),
        ]);
        dict(fields)
    }

    /// The port of the service and whether it speaks TLS, out of the reply to that
    /// request.
    pub fn start_service(&self, reply: &Dict, name: &str) -> (service: Result<(u16, bool), Failure>)
        ensures
            match (
                text_in(lookup(reply.pairs(), "Error"@)),
                number_in(lookup(reply.pairs(), "Port"@)),
            ) {
                (Some(error), _) => service matches Err(failure) && failure.says(
                    "Start "@ + name@ + ": "@ + error,
                ),
                (None, None) => service matches Err(failure) && failure.says(
                    "Service returned no port"@,
                ),
                (None, Some(port)) => if port > u16::MAX {
                    service matches Err(failure) && failure.says(out_of_range())
                } else {
                    service matches Ok(service) && service.0 == port && service.1 == (bool_in(
                        lookup(reply.pairs(), "EnableServiceSSL"@),
                    ) == Some(true))
                },
            },
    {
        match check_reply(reply, "Start ".to_owned().concat(name).as_str()) {
            Ok(()) => {},
            Err(failure) => return Err(failure),
        }
        let port: u64 = match reply.number("Port") {
            Some(port) => port,
            None => return Err(Failure::said("Service returned no port")),
        };
        if port > u16::MAX as u64 {
            return Err(Failure::said("out of range integral type conversion attempted"));
        }
        let tls: bool = match reply.boolean("EnableServiceSSL") {
            Some(tls) => tls,
            None => false,
        };
        Ok((port as u16, tls))
    }
}

/// The cable is taken where the mode allows it and it is there; the network is taken
/// where the mode allows it, it is there, and the cable is not taken; otherwise there
/// is no route.
pub proof fn the_cable_comes_first(
    mode: ConnectionMode,
    available: &[DeviceTransport],
    taken: Result<DeviceTransport, Failure>,
)
    requires
        call_ensures(preferred_route, (mode, available), taken),
    ensures
        ({
            let usb = mode != ConnectionMode::Wifi && available@.contains(DeviceTransport::Usb);
            let wifi = mode != ConnectionMode::Usb && available@.contains(DeviceTransport::Wifi);
            &&& taken is Ok <==> usb || wifi
            &&& taken matches Ok(taken) ==> taken == (if usb {
                DeviceTransport::Usb
            } else {
                DeviceTransport::Wifi
            })
        }),
{
}

/// The transports of a device are those of its entries, in order; where no device is
/// named, those of all entries.
pub proof fn transports_are_of_the_device(entries: Seq<DeviceEntry>, udid: Option<Seq<char>>)
    ensures
        transports(entries, udid) == entries.filter(
            |e: DeviceEntry|
                udid is None || (canonical(udid.unwrap()) is Some && canonical(e.udid@) == canonical(
                    udid.unwrap(),
                )),
        ).map_values(|e: DeviceEntry| e.transport),
    decreases entries.len(),
{
    reveal(Seq::filter);
    let is_of = |e: DeviceEntry|
        udid is None || (canonical(udid.unwrap()) is Some && canonical(e.udid@) == canonical(
            udid.unwrap(),
        ));
    let by = |e: DeviceEntry| e.transport;
    if entries.len() == 0 {
        assert(entries.filter(is_of).map_values(by) =~= Seq::<DeviceTransport>::empty());
    } else {
        let shorter = entries.drop_last();
        transports_are_of_the_device(shorter, udid);
        if is_of(entries.last()) {
            assert(entries.filter(is_of) == shorter.filter(is_of).push(entries.last()));
            assert(entries.filter(is_of).map_values(by) =~= shorter.filter(is_of).map_values(by).push(
                entries.last().transport,
            ));
        } else {
            assert(entries.filter(is_of) == shorter.filter(is_of));
        }
    }
}

proof fn transports_have_entries(
    entries: Seq<DeviceEntry>,
    udid: Option<Seq<char>>,
    t: DeviceTransport,
)
    ensures
        transports(entries, udid).contains(t) <==> exists|i: int|
            0 <= i < entries.len() && (#[trigger] entries[i]).transport == t && (udid is None || (
            canonical(udid.unwrap()) is Some && canonical(entries[i].udid@) == canonical(
                udid.unwrap(),
            ))),
    decreases entries.len(),
{
    if entries.len() > 0 {
        let shorter = entries.drop_last();
        let before = transports(shorter, udid);
        let all = transports(entries, udid);
        transports_have_entries(shorter, udid, t);
        if all.contains(t) {
            let k = choose|k: int| 0 <= k < all.len() && all[k] == t;
            if k < before.len() {
                assert(before[k] == t);
                let i = choose|i: int|
                    0 <= i < shorter.len() && (#[trigger] shorter[i]).transport == t && (udid is None
                        || (canonical(udid.unwrap()) is Some && canonical(shorter[i].udid@)
                        == canonical(udid.unwrap())));
                assert(entries[i] == shorter[i]);
            } else {
                assert(entries[entries.len() - 1] == entries.last());
            }
        }
        if exists|i: int|
            0 <= i < entries.len() && (#[trigger] entries[i]).transport == t && (udid is None || (
            canonical(udid.unwrap()) is Some && canonical(entries[i].udid@) == canonical(
                udid.unwrap(),
            ))) {
            let i = choose|i: int|
                0 <= i < entries.len() && (#[trigger] entries[i]).transport == t && (udid is None || (
                canonical(udid.unwrap()) is Some && canonical(entries[i].udid@) == canonical(
                    udid.unwrap(),
                )));
            if i < shorter.len() {
                assert(shorter[i] == entries[i]);
                let k = choose|k: int| 0 <= k < before.len() && before[k] == t;
                assert(all[k] == t);
            } else {
                assert(all[before.len() as int] == t);
            }
        }
    }
}

/// The entry is of the device that was asked for, and reaches it by the transport.
pub open spec fn reaches(entry: DeviceEntry, udid: Option<&str>, t: DeviceTransport) -> bool {
    entry.transport == t && (udid matches Some(udid) ==> canonical(udid@) is Some && canonical(
        entry.udid@,
    ) == canonical(udid@))
}

/// A session is opened only by a transport that the mode allows and by which the
/// device itself is in reach, and always where there is one, unless the work was
/// stopped or no single device is meant. That the network is available is said exactly
/// where the device is in reach over it.
pub proof fn sessions_reach_the_device(
    entries: &[DeviceEntry],
    udid: Option<&str>,
    mode: ConnectionMode,
    stop: bool,
    taken: Result<Route, Failure>,
)
    requires
        call_ensures(DeviceSession::open, (entries, udid, mode, stop), taken),
    ensures
        stop ==> taken is Err,
        udid is None && !one_device(entries@) ==> taken is Err,
        taken matches Ok(taken) ==> exists|i: int|
            0 <= i < entries@.len() && reaches(#[trigger] entries@[i], udid, taken.transport),
        taken matches Ok(taken) ==> (mode == ConnectionMode::Usb ==> taken.transport
            == DeviceTransport::Usb) && (mode == ConnectionMode::Wifi ==> taken.transport
            == DeviceTransport::Wifi),
        taken matches Ok(taken) ==> (taken.wifi_available <==> exists|i: int|
            0 <= i < entries@.len() && reaches(#[trigger] entries@[i], udid, DeviceTransport::Wifi)),
        !stop && (udid is Some || one_device(entries@)) && mode != ConnectionMode::Wifi && (exists|
            i: int,
        |
            0 <= i < entries@.len() && reaches(#[trigger] entries@[i], udid, DeviceTransport::Usb))
            ==> (taken matches Ok(taken) && taken.transport == DeviceTransport::Usb),
        !stop && (udid is Some || one_device(entries@)) && mode == ConnectionMode::Wifi && (exists|
            i: int,
        |
            0 <= i < entries@.len() && reaches(#[trigger] entries@[i], udid, DeviceTransport::Wifi))
            ==> (taken matches Ok(taken) && taken.transport == DeviceTransport::Wifi),
{
    let wanted = wanted_text(udid);
    transports_have_entries(entries@, wanted, DeviceTransport::Usb);
    transports_have_entries(entries@, wanted, DeviceTransport::Wifi);
    assert forall|i: int, t: DeviceTransport| 0 <= i < entries@.len() implies #[trigger] reaches(
        entries@[i],
        udid,
        t,
    ) == (entries@[i].transport == t && (wanted is None || (canonical(wanted.unwrap()) is Some
        && canonical(entries@[i].udid@) == canonical(wanted.unwrap())))) by {}
    let available = transports(entries@, wanted);
    if available.contains(DeviceTransport::Usb) {
        let i = choose|i: int|
            0 <= i < entries@.len() && (#[trigger] entries@[i]).transport == DeviceTransport::Usb && (
            wanted is None || (canonical(wanted.unwrap()) is Some && canonical(entries@[i].udid@)
                == canonical(wanted.unwrap())));
        assert(reaches(entries@[i], udid, DeviceTransport::Usb));
    }
    if available.contains(DeviceTransport::Wifi) {
        let i = choose|i: int|
            0 <= i < entries@.len() && (#[trigger] entries@[i]).transport == DeviceTransport::Wifi
                && (wanted is None || (canonical(wanted.unwrap()) is Some && canonical(
                entries@[i].udid@,
            ) == canonical(wanted.unwrap())));
        assert(reaches(entries@[i], udid, DeviceTransport::Wifi));
    }
    if exists|i: int|
        0 <= i < entries@.len() && reaches(#[trigger] entries@[i], udid, DeviceTransport::Usb) {
        let i = choose|i: int|
            0 <= i < entries@.len() && reaches(#[trigger] entries@[i], udid, DeviceTransport::Usb);
        assert(entries@[i].transport == DeviceTransport::Usb);
    }
    if exists|i: int|
        0 <= i < entries@.len() && reaches(#[trigger] entries@[i], udid, DeviceTransport::Wifi) {
        let i = choose|i: int|
            0 <= i < entries@.len() && reaches(#[trigger] entries@[i], udid, DeviceTransport::Wifi);
        assert(entries@[i].transport == DeviceTransport::Wifi);
    }
}

/// A failed session by cable is tried over the network exactly where the mode leaves
/// the choice, the network is available and the work goes on; otherwise the failure
/// stands.
pub proof fn only_a_free_choice_falls_back(
    failure: Failure,
    mode: ConnectionMode,
    wifi_available: bool,
    stop: bool,
    next: Fallback,
)
    requires
        call_ensures(DeviceSession::fall_back, (failure, mode, wifi_available, stop), next),
    ensures
        next is Wifi <==> mode == ConnectionMode::Auto && wifi_available && !stop,
        next matches Fallback::Stop(given) ==> given == failure,
{
}

/// Exactly three errors ask for a new pairing.
pub proof fn only_identity_errors_renew(reply: Dict, needed: bool)
    requires
        call_ensures(needs_new_pairing, (&reply,), needed),
    ensures
        needed <==> (lookup(reply.pairs(), "Error"@) matches Some(Tree::Text(error)) && (error
            == "InvalidHostID"@ || error == "MissingPairRecord"@ || error == "InvalidPairRecord"@)),
{
}

/// A session is asked for under the identity that the record holds, and cannot be
/// asked for without it.
pub proof fn sessions_use_the_identity_of_the_record(
    record: PairRecord,
    request: Result<Plist, Failure>,
)
    requires
        call_ensures(start_session, (&record,), request),
    ensures
        request is Ok <==> (lookup(record.0.pairs(), "HostID"@) matches Some(Tree::Text(_))) && (
        lookup(record.0.pairs(), "SystemBUID"@) matches Some(Tree::Text(_))),
        request matches Ok(request) ==> (request.tree() matches Tree::Dict(pairs) && lookup(
            pairs,
            "Request"@,
        ) == Some(Tree::Text("StartSession"@)) && lookup(pairs, "HostID"@) == lookup(
            record.0.pairs(),
            "HostID"@,
        ) && lookup(pairs, "SystemBUID"@) == lookup(record.0.pairs(), "SystemBUID"@)),
{
    if let (Some(host), Some(buid)) = (
        text_in(lookup(record.0.pairs(), "HostID"@)),
        text_in(lookup(record.0.pairs(), "SystemBUID"@)),
    ) {
        let items = seq![
            ("Request"@, Tree::Text("StartSession"@)),
            ("Label"@, Tree::Text("AirCard"@)),
            ("HostID"@, Tree::Text(host)),
            ("SystemBUID"@, Tree::Text(buid)),
        ];
        reveal_strlit("Request");
        reveal_strlit("Label");
        reveal_strlit("HostID");
        reveal_strlit("SystemBUID");
        assert("Request"@.len() == 7 && "Label"@.len() == 5 && "HostID"@.len() == 6
            && "SystemBUID"@.len() == 10);
        assert(items[0].0 == "Request"@ && items[2].0 == "HostID"@ && items[3].0 == "SystemBUID"@);
        a_dictionary_holds_its_items(items, "Request"@);
        a_dictionary_holds_its_items(items, "HostID"@);
        a_dictionary_holds_its_items(items, "SystemBUID"@);
    }
}

/// A pairing request shows the phone the public part of the record, and asks for
/// detailed errors.
pub proof fn pairing_shows_the_record(shown: Plist, request: Plist)
    requires
        call_ensures(pair_request, (shown,), request),
    ensures
        request.tree() matches Tree::Dict(pairs) && lookup(pairs, "Request"@) == Some(
            Tree::Text("Pair"@),
        ) && lookup(pairs, "PairRecord"@) == Some(shown.tree()) && lookup(pairs, "ProtocolVersion"@)
            == Some(Tree::Text("2"@)) && (lookup(pairs, "PairingOptions"@) matches Some(
            Tree::Dict(options),
        ) && lookup(options, "ExtendedPairingErrors"@) == Some(Tree::Bool(true))),
{
    let options = seq![("ExtendedPairingErrors"@, Tree::Bool(true))];
    let items = seq![
        ("Request"@, Tree::Text("Pair"@)),
        ("Label"@, Tree::Text("AirCard"@)),
        ("ProtocolVersion"@, Tree::Text("2"@)),
        ("PairingOptions"@, dict_of(options)),
        ("PairRecord"@, shown.tree()),
    ];
    reveal_strlit("Request");
    reveal_strlit("Label");
    reveal_strlit("ProtocolVersion");
    reveal_strlit("PairingOptions");
    reveal_strlit("PairRecord");
    assert("Request"@.len() == 7 && "Label"@.len() == 5 && "ProtocolVersion"@.len() == 15
        && "PairingOptions"@.len() == 14 && "PairRecord"@.len() == 10);
    assert(items[0].0 == "Request"@ && items[2].0 == "ProtocolVersion"@ && items[3].0
        == "PairingOptions"@ && items[4].0 == "PairRecord"@);
    a_dictionary_holds_its_items(items, "Request"@);
    a_dictionary_holds_its_items(items, "ProtocolVersion"@);
    a_dictionary_holds_its_items(items, "PairingOptions"@);
    a_dictionary_holds_its_items(items, "PairRecord"@);
    assert(options[0].0 == "ExtendedPairingErrors"@);
    a_dictionary_holds_its_items(options, "ExtendedPairingErrors"@);
}

/// The phone trusts this computer exactly where it names no error, and has not decided
/// exactly where it says that its question is open; every other error is a refusal.
pub proof fn trust_is_the_absence_of_an_error(reply: Dict, meaning: PairReply)
    requires
        call_ensures(pair_reply, (&reply,), meaning),
    ensures
        meaning is Trusted <==> !(lookup(reply.pairs(), "Error"@) matches Some(Tree::Text(_))),
        meaning is Pending <==> lookup(reply.pairs(), "Error"@) == Some(
            Tree::Text("PairingDialogResponsePending"@),
        ),
{
}

/// A trusted record takes over the escrow bag of the reply, where there is one, and
/// keeps everything else that it held.
pub proof fn a_trusted_record_gains_the_bag(
    record: PairRecord,
    reply: Dict,
    kept: PairRecord,
    key: Seq<char>,
)
    requires
        call_ensures(trusted, (record, &reply), kept),
    ensures
        lookup(reply.pairs(), "EscrowBag"@) is Some ==> lookup(kept.0.pairs(), "EscrowBag"@)
            == lookup(reply.pairs(), "EscrowBag"@),
        lookup(reply.pairs(), "EscrowBag"@) is None ==> kept.0.pairs() == record.0.pairs(),
        key != "EscrowBag"@ ==> lookup(kept.0.pairs(), key) == lookup(record.0.pairs(), key),
{
    if let Some(bag) = lookup(reply.pairs(), "EscrowBag"@) {
        stored_is_found(record.0.pairs(), "EscrowBag"@, bag, key);
    }
}

/// A service is started at the port that the phone names, where that is a port and
/// there is no error; the channel is secured exactly where the phone asks for it.
pub proof fn a_service_is_at_the_named_port(
    session: UsbSession,
    reply: Dict,
    name: &str,
    service: Result<(u16, bool), Failure>,
)
    requires
        call_ensures(UsbSession::start_service, (&session, &reply, name), service),
    ensures
        service is Ok <==> !(lookup(reply.pairs(), "Error"@) matches Some(Tree::Text(_))) && (lookup(
            reply.pairs(),
            "Port"@,
        ) matches Some(Tree::Integer(port)) && port <= 65535),
        service matches Ok(service) ==> lookup(reply.pairs(), "Port"@) == Some(
            Tree::Integer(service.0 as u64),
        ) && (service.1 <==> lookup(reply.pairs(), "EnableServiceSSL"@) == Some(Tree::Bool(true))),
{
}

/// A service is asked for by its name.
pub proof fn services_are_asked_for_by_name(session: UsbSession, name: &str, request: Plist)
    requires
        call_ensures(UsbSession::start_service_request, (&session, name), request),
    ensures
        request.tree() matches Tree::Dict(pairs) && lookup(pairs, "Request"@) == Some(
            Tree::Text("StartService"@),
        ) && lookup(pairs, "Service"@) == Some(Tree::Text(name@)) && lookup(pairs, "Label"@) == Some(
            Tree::Text("AirCard"@),
        ),
{
    let items = seq![
        ("Request"@, Tree::Text("StartService"@)),
        ("Label"@, Tree::Text("AirCard"@)),
        ("Service"@, Tree::Text(name@)),
    ];
    reveal_strlit("Request");
    reveal_strlit("Label");
    reveal_strlit("Service");
    assert("Request"@[0] != "Service"@[0]);
    assert("Label"@.len() == 5 && "Request"@.len() == 7 && "Service"@.len() == 7);
    assert(items[0].0 == "Request"@ && items[1].0 == "Label"@ && items[2].0 == "Service"@);
    a_dictionary_holds_its_items(items, "Request"@);
    a_dictionary_holds_its_items(items, "Label"@);
    a_dictionary_holds_its_items(items, "Service"@);
}

/// Nothing goes on once the user has stopped the work.
pub proof fn stopping_is_heeded(stop: bool, go_on: Result<(), Failure>)
    requires
        call_ensures(cancelled, (stop,), go_on),
    ensures
        go_on is Err <==> stop,
{
}

/// The entries are of one device exactly where there is one and no two of them differ
/// in more than the case of their identifiers.
pub proof fn one_device_has_one_identifier(entries: Seq<DeviceEntry>)
    ensures
        one_device(entries) <==> entries.len() > 0 && forall|i: int, j: int|
            0 <= i < entries.len() && 0 <= j < entries.len() ==> lowered(
                (#[trigger] entries[i]).udid@,
            ) == lowered((#[trigger] entries[j]).udid@),
{
    if entries.len() > 0 && forall|i: int, j: int|
        0 <= i < entries.len() && 0 <= j < entries.len() ==> lowered((#[trigger] entries[i]).udid@)
            == lowered((#[trigger] entries[j]).udid@) {
        assert forall|i: int| 0 <= i < entries.len() implies lowered((#[trigger] entries[i]).udid@)
            == lowered(entries[0].udid@) by {}
    }
}

} // verus!
