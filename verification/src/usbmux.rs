//! The USB multiplexer and the iPhone's control service: requests, frames and
//! replies. Pair-record requests are deliberately not used: some Apple services
//! support `ListDevices` and `Connect` but reject `ReadPairRecord` and
//! `SavePairRecord`.
use crate::failure::Failure;
use crate::text::{
    all_hex, case_is_forgotten, decimal, decimal_text, is_all_hex, is_hex_digit, lower, lower_text,
    lowered, only_the_character_is_dropped, part_of, same_text, text_without, upper, upper_text,
    uppered, without,
};
use crate::value::{
    array_in, collected, collected_lookup, dict_from, dict_in, dict_of, is_open, item_pairs,
    last_under, lookup, no_list, no_xml, number_in, parse, plist_parsed, plist_xml, stored,
    stored_is_found, stored_is_open, text_in, to_xml, trees, Dict, Plist, Tree,
};
use crate::wire::{
    be, be_len, be_round_trip, be_value, capacities, copy_range, le, le_len, le_round_trip,
    le_value, push_be, push_bytes, push_le, read_be, read_le,
};
use vstd::prelude::*;

verus! {

broadcast use {le_len, be_len};

/// The longest frame that is accepted.
pub const MAX_FRAME: usize = 16_777_216;

/// The seconds after which reading and writing give up.
pub const IO_TIMEOUT_SECS: u64 = 5;

/// The port of the control service.
pub const LOCKDOWN_PORT: u16 = 62078;

/// What a failed conversion to a narrower integer says.
pub open spec fn out_of_range() -> Seq<char> {
    "out of range integral type conversion attempted"@
}

/// What a stream that ends too early says.
pub open spec fn cut_short() -> Seq<char> {
    "failed to fill whole buffer"@
}

/// A dictionary of the given entries.
pub fn dict(items: Vec<(&str, Plist)>) -> (value: Plist)
    ensures
        value.tree() == dict_of(item_pairs(items@)),
        value is Dict,
{
    Plist::Dict(dict_from(items))
}

/// A string value.
pub fn string(s: &str) -> (value: Plist)
    ensures
        value.tree() == Tree::Text(s@),
{
    Plist::Text(s.to_owned())
}

/// The canonical form of a device identifier: without dashes it has 24 or 40
/// hexadecimal digits; the short form is upper case with a dash after eight
/// digits, the long form is lower case.
pub open spec fn canonical(s: Seq<char>) -> Option<Seq<char>> {
    let compact = without(s, '-');
    if !all_hex(compact) {
        None
    } else if compact.len() == 24 {
        Some(uppered(compact.take(8).push('-') + compact.skip(8)))
    } else if compact.len() == 40 {
        Some(lowered(compact))
    } else {
        None
    }
}

/// The canonical form of a device identifier.
pub fn canonical_udid(s: &str) -> (udid: Result<String, Failure>)
    ensures
        match udid {
            Ok(udid) => canonical(s@) == Some(udid@),
            Err(failure) => canonical(s@) is None && failure.says(
                "Invalid device identifier format"@,
            ),
        },
{
    let compact: String = text_without(s, '-');
    let count: usize = compact.as_str().unicode_len();
    if !((count == 24 || count == 40) && is_all_hex(compact.as_str())) {
        return Err(Failure::said("Invalid device identifier format"));
    }
    if count == 24 {
        let mut long: String = part_of(compact.as_str(), 0, 8);
        long.push('-');
        let long: String = long.concat(part_of(compact.as_str(), 8, 24).as_str());
        assert(long@ =~= compact@.take(8).push('-') + compact@.skip(8));
        Ok(upper_text(long.as_str()))
    } else {
        Ok(lower_text(compact.as_str()))
    }
}

/// Whether two identifiers name one device. Malformed ones name none.
pub fn same_device(a: &str, b: &str) -> (same: bool)
    ensures
        same == (canonical(a@) is Some && canonical(a@) == canonical(b@)),
{
    match (canonical_udid(a), canonical_udid(b)) {
        (Ok(a), Ok(b)) => same_text(a.as_str(), b.as_str()),
        _ => false,
    }
}

/// The canonical form of a canonical identifier is itself.
pub proof fn canonical_is_stable(s: Seq<char>)
    requires
        canonical(s) is Some,
    ensures
        canonical(canonical(s).unwrap()) == canonical(s),
{
    let compact = without(s, '-');
    no_dash(s);
    if compact.len() == 24 {
        let shown = uppered(compact.take(8).push('-') + compact.skip(8));
        let first = uppered(compact.take(8));
        let second = uppered(compact.skip(8));
        assert(shown =~= first.push('-') + second);
        without_split(first.push('-'), second);
        assert(first.push('-').drop_last() =~= first);
        without_nothing(first);
        without_nothing(second);
        let again = without(shown, '-');
        assert(again =~= uppered(compact));
        assert(uppered(again.take(8).push('-') + again.skip(8)) =~= shown);
    } else {
        let shown = lowered(compact);
        without_nothing(shown);
        assert(lowered(shown) =~= shown);
    }
}

proof fn no_dash(s: Seq<char>)
    ensures
        forall|i: int| 0 <= i < without(s, '-').len() ==> #[trigger] without(s, '-')[i] != '-',
    decreases s.len(),
{
    if s.len() > 0 {
        let before = without(s.drop_last(), '-');
        no_dash(s.drop_last());
        assert forall|i: int| 0 <= i < without(s, '-').len() implies #[trigger] without(s, '-')[i]
            != '-' by {
            if i < before.len() {
                assert(without(s, '-')[i] == before[i]);
            }
        }
    }
}

proof fn without_nothing(s: Seq<char>)
    requires
        forall|i: int| 0 <= i < s.len() ==> s[i] != '-',
    ensures
        without(s, '-') == s,
    decreases s.len(),
{
    if s.len() > 0 {
        without_nothing(s.drop_last());
        assert(s.drop_last().push(s.last()) =~= s);
    }
}

proof fn without_split(a: Seq<char>, b: Seq<char>)
    ensures
        without(a + b, '-') == without(a, '-') + without(b, '-'),
    decreases b.len(),
{
    if b.len() == 0 {
        assert(a + b =~= a);
        assert(without(a, '-') + without(b, '-') =~= without(a, '-'));
    } else {
        without_split(a, b.drop_last());
        assert((a + b).drop_last() =~= a + b.drop_last());
        assert(without(a + b, '-') =~= without(a, '-') + without(b, '-'));
    }
}

/// A device behind the multiplexer.
#[derive(Debug)]
pub struct UsbDevice {
    /// Its number at the multiplexer.
    pub id: u32,
    /// Its identifier in canonical form.
    pub udid: String,
}

impl View for UsbDevice {
    type V = (u32, Seq<char>);

    open spec fn view(&self) -> (u32, Seq<char>) {
        (self.id, self.udid@)
    }
}

impl Clone for UsbDevice {
    fn clone(&self) -> (copy: UsbDevice)
        ensures
            copy@ == self@,
    {
        UsbDevice { id: self.id, udid: self.udid.clone() }
    }
}

/// What one entry of a device list contributes.
pub ghost enum Listed {
    /// It is no USB device.
    Skipped,
    /// A device.
    Device(u32, Seq<char>),
    /// It is malformed.
    Malformed(Seq<char>),
}

/// What one entry of a device list contributes.
pub open spec fn listed(item: Tree) -> Listed {
    let properties = match dict_in(Some(item)) {
        Some(entry) => dict_in(lookup(entry, "Properties"@)),
        None => None,
    };
    match properties {
        None => Listed::Skipped,
        Some(p) => if text_in(lookup(p, "ConnectionType"@)) != Some("USB"@) {
            Listed::Skipped
        } else {
            match (number_in(lookup(p, "DeviceID"@)), text_in(lookup(p, "SerialNumber"@))) {
                (None, _) => Listed::Malformed("Missing USB device ID"@),
                (_, None) => Listed::Malformed("Missing device identifier"@),
                (Some(id), Some(serial)) => if id > u32::MAX {
                    Listed::Malformed(out_of_range())
                } else {
                    match canonical(serial) {
                        Some(udid) => Listed::Device(id as u32, udid),
                        None => Listed::Malformed("Invalid device identifier format"@),
                    }
                },
            }
        },
    }
}

/// The devices that the entries list, or the complaint about the first malformed
/// one.
pub open spec fn all_listed(items: Seq<Tree>) -> Result<Seq<(u32, Seq<char>)>, Seq<char>>
    decreases items.len(),
{
    if items.len() == 0 {
        Ok(Seq::empty())
    } else {
        match all_listed(items.drop_last()) {
            Err(complaint) => Err(complaint),
            Ok(devices) => match listed(items.last()) {
                Listed::Skipped => Ok(devices),
                Listed::Device(id, udid) => Ok(devices.push((id, udid))),
                Listed::Malformed(complaint) => Err(complaint),
            },
        }
    }
}

proof fn complaint_stays(items: Seq<Tree>, n: int)
    requires
        0 <= n <= items.len(),
        all_listed(items.take(n)) is Err,
    ensures
        all_listed(items) == all_listed(items.take(n)),
    decreases items.len(),
{
    if n == items.len() {
        assert(items.take(n) =~= items);
    } else {
        assert(items.drop_last().take(n) =~= items.take(n));
        complaint_stays(items.drop_last(), n);
    }
}

/// The views of a run of devices.
pub open spec fn device_views(devices: Seq<UsbDevice>) -> Seq<(u32, Seq<char>)> {
    Seq::new(devices.len(), |i: int| devices[i]@)
}

/// Reads one entry of a device list.
fn read_entry(item: &Plist) -> (entry: Result<Option<UsbDevice>, Failure>)
    ensures
        match listed(item.tree()) {
            Listed::Skipped => entry matches Ok(None),
            Listed::Device(id, udid) => entry matches Ok(Some(device)) && device@ == (id, udid),
            Listed::Malformed(complaint) => entry matches Err(failure) && failure.says(complaint),
        },
{
    let p: &Dict = match item.as_dictionary() {
        Some(d) => match d.dictionary("Properties") {
            Some(p) => p,
            None => return Ok(None),
        },
        None => return Ok(None),
    };
    match p.text("ConnectionType") {
        Some(kind) => if !same_text(kind.as_str(), "USB") {
            return Ok(None);
        },
        None => return Ok(None),
    }
    let id: u64 = match p.number("DeviceID") {
        Some(id) => id,
        None => return Err(Failure::said("Missing USB device ID")),
    };
    let serial: &String = match p.text("SerialNumber") {
        Some(serial) => serial,
        None => return Err(Failure::said("Missing device identifier")),
    };
    if id > u32::MAX as u64 {
        return Err(Failure::said("out of range integral type conversion attempted"));
    }
    match canonical_udid(serial.as_str()) {
        Ok(udid) => Ok(Some(UsbDevice { id: id as u32, udid })),
        Err(failure) => Err(failure),
    }
}

/// The first device with the given identifier.
pub open spec fn find_device(devices: Seq<(u32, Seq<char>)>, udid: Seq<char>) -> Option<
    (u32, Seq<char>),
>
    decreases devices.len(),
{
    if devices.len() == 0 {
        None
    } else if canonical(udid) is Some && canonical(devices[0].1) == canonical(udid) {
        Some(devices[0])
    } else {
        find_device(devices.drop_first(), udid)
    }
}

/// The port number with its two bytes swapped, as the multiplexer wants it.
pub open spec fn network_port(port: u16) -> u64 {
    (port % 256 * 256 + port / 256) as u64
}

/// The multiplexer and where it listens.
#[derive(Debug)]
pub struct UsbMux {
    /// Address and port.
    pub address: String,
}

impl Default for UsbMux {
    fn default() -> (mux: UsbMux)
        ensures
            mux.address@ == "127.0.0.1:27015"@,
    {
        UsbMux { address: "127.0.0.1:27015".to_owned() }
    }
}

impl UsbMux {
    /// The multiplexer at another address.
    pub fn at(address: String) -> (mux: UsbMux)
        ensures
            mux.address == address,
    {
        UsbMux { address }
    }

    /// The request for the device list.
    pub fn devices_request(&self) -> (request: Plist)
        ensures
            request.tree() == dict_of(seq![("MessageType"@, Tree::Text("ListDevices"@))]),
            request is Dict,
    {
        let fields: Vec<(&str, Plist)> = vec![("MessageType", string("ListDevices"))];
        assert(item_pairs(fields@) =~= seq![("MessageType"@, Tree::Text("ListDevices"@))]);
        dict(fields)
    }

    /// The devices that the reply to that request lists.
    pub fn devices(&self, reply: &Dict) -> (devices: Result<Vec<UsbDevice>, Failure>)
        ensures
            match array_in(lookup(reply.pairs(), "DeviceList"@)) {
                None => devices matches Err(failure) && failure.says(
                    "Apple USB service returned no device list"@,
                ),
                Some(items) => match all_listed(items) {
                    Ok(views) => devices matches Ok(found) && device_views(found@) == views,
                    Err(complaint) => devices matches Err(failure) && failure.says(complaint),
                },
            },
    {
        let list: &Vec<Plist> = match reply.array("DeviceList") {
            Some(list) => list,
            None => return Err(Failure::said("Apple USB service returned no device list")),
        };
        let ghost items = trees(list@);
        let mut found: Vec<UsbDevice> = Vec::new();
        let mut i: usize = 0;
        assert(items.take(0) =~= Seq::<Tree>::empty());
        assert(device_views(found@) =~= Seq::<(u32, Seq<char>)>::empty());
        while i < list.len()
            invariant
                items == trees(list@),
                array_in(lookup(reply.pairs(), "DeviceList"@)) == Some(items),
                i <= list@.len(),
                all_listed(items.take(i as int)) == Ok::<_, Seq<char>>(device_views(found@)),
            decreases list@.len() - i,
        {
            let ghost before = device_views(found@);
            assert(items.take(i + 1).drop_last() =~= items.take(i as int));
            assert(items.take(i + 1).last() == list@[i as int].tree());
            match read_entry(&list[i]) {
                Ok(Some(device)) => {
                    found.push(device);
                    assert(device_views(found@) =~= before.push(device@));
                },
                Ok(None) => {},
                Err(failure) => {
                    proof {
                        complaint_stays(items, i + 1);
                    }
                    return Err(failure);
                },
            }
            i = i + 1;
        }
        assert(items.take(i as int) =~= items);
        Ok(found)
    }

    /// The device to use: the one that was asked for, or the only one.
    pub fn select(&self, devices: Vec<UsbDevice>, udid: Option<&str>) -> (device: Result<
        UsbDevice,
        Failure,
    >)
        ensures
            match udid {
                Some(udid) => match find_device(device_views(devices@), udid@) {
                    Some(view) => device matches Ok(device) && device@ == view,
                    None => device matches Err(failure) && failure.says(
                        "Selected iPhone is no longer connected by USB. Reconnect and click Refresh"@,
                    ),
                },
                None => if devices@.len() == 1 {
                    device matches Ok(device) && device@ == devices@[0]@
                } else {
                    device matches Err(failure) && failure.says(
                        "Connect exactly one iPhone by USB, or select a device first"@,
                    )
                },
            },
    {
        let ghost views = device_views(devices@);
        match udid {
            Some(wanted) => {
                let mut i: usize = 0;
                assert(views.skip(0) =~= views);
                while i < devices.len()
                    invariant
                        views == device_views(devices@),
                        udid == Some(wanted),
                        i <= devices@.len(),
                        find_device(views, wanted@) == find_device(views.skip(i as int), wanted@),
                    decreases devices@.len() - i,
                {
                    if same_device(devices[i].udid.as_str(), wanted) {
                        return Ok(devices[i].clone());
                    }
                    assert(views.skip(i as int).drop_first() =~= views.skip(i + 1));
                    i = i + 1;
                }
                Err(
                    Failure::said(
                        "Selected iPhone is no longer connected by USB. Reconnect and click Refresh",
                    ),
                )
            },
            None => if devices.len() == 1 {
                Ok(devices[0].clone())
            } else {
                Err(Failure::said("Connect exactly one iPhone by USB, or select a device first"))
            },
        }
    }

    /// The request that opens a channel to a port of the device.
    pub fn connect_request(&self, device: &UsbDevice, port: u16) -> (request: Plist)
        ensures
            request.tree() == dict_of(
                seq![
                    ("MessageType"@, Tree::Text("Connect"@)),
                    ("DeviceID"@, Tree::Integer(device.id as u64)),
                    ("PortNumber"@, Tree::Integer(network_port(port))),
                ],
            ),
            request is Dict,
    {
        let swapped: u64 = (port % 256) as u64 * 256 + (port / 256) as u64;
        assert(swapped == network_port(port));
        let fields: Vec<(&str, Plist)> = vec![
            ("MessageType", string("Connect")),
            ("DeviceID", Plist::Integer(device.id as u64)),
            ("PortNumber", Plist::Integer(swapped)),
        ];
        assert(item_pairs(fields@) =~= seq![
            ("MessageType"@, Tree::Text("Connect"@)),
            ("DeviceID"@, Tree::Integer(device.id as u64)),
            ("PortNumber"@, Tree::Integer(network_port(port))),
        ]);
        dict(fields)
    }

    /// Whether the reply to that request opened the channel.
    pub fn connect(&self, reply: &Dict, port: u16) -> (opened: Result<(), Failure>)
        ensures
            match number_in(lookup(reply.pairs(), "Number"@)) {
                None => opened matches Err(failure) && failure.says(
                    "USB Connect reply has no status"@,
                ),
                Some(status) => if status == 0 {
                    opened is Ok
                } else {
                    opened matches Err(failure) && failure.says(
                        "Apple USB Connect failed (status "@ + decimal(status as nat) + ", port "@
                            + decimal(port as nat) + "). The device may have disconnected"@,
                    )
                },
            },
    {
        match reply.number("Number") {
            None => Err(Failure::said("USB Connect reply has no status")),
            Some(status) => if status == 0 {
                Ok(())
            } else {
                let said: String = "Apple USB Connect failed (status ".to_owned().concat(
                    decimal_text(status).as_str(),
                ).concat(", port ").concat(decimal_text(port as u64).as_str()).concat(
                    "). The device may have disconnected",
                );
                Err(Failure::Said(said))
            },
        }
    }
}

/// A request as the multiplexer gets it, with the names of this program.
pub open spec fn introduced(request: Seq<(Seq<char>, Tree)>) -> Seq<(Seq<char>, Tree)> {
    stored(
        stored(
            stored(request, "ClientVersionString"@, Tree::Text("AirCard"@)),
            "ProgName"@,
            Tree::Text("AirCard"@),
        ),
        "kLibUSBMuxVersion"@,
        Tree::Integer(3),
    )
}

/// The frame of the multiplexer: length, version 1, type 8, tag 1, payload.
pub open spec fn mux_frame(payload: Seq<u8>) -> Seq<u8> {
    le(payload.len() + 16, 4) + le(1, 4) + le(8, 4) + le(1, 4) + payload
}

/// The packet that sends a request to the multiplexer.
pub fn mux_request(request: Plist) -> (packet: Result<Vec<u8>, Failure>)
    ensures
        match dict_in(Some(request.tree())) {
            None => packet matches Err(failure) && failure.says("Request must be a dictionary"@),
            Some(pairs) => match plist_xml(Tree::Dict(introduced(pairs))) {
                None => packet matches Err(failure) && no_xml(
                    failure,
                    Tree::Dict(introduced(pairs)),
                ),
                Some(xml) => if xml.len() + 16 > u32::MAX {
                    packet matches Err(failure) && failure.says(out_of_range())
                } else {
                    packet matches Ok(packet) && packet@ == mux_frame(xml) && (is_open(
                        Tree::Dict(introduced(pairs)),
                    ) ==> plist_parsed(xml) == Some(Tree::Dict(introduced(pairs))))
                },
            },
        },
{
    let mut d: Dict = match request.into_dictionary() {
        Some(d) => d,
        None => return Err(Failure::said("Request must be a dictionary")),
    };
    d.insert("ClientVersionString".to_owned(), string("AirCard"));
    d.insert("ProgName".to_owned(), string("AirCard"));
    d.insert("kLibUSBMuxVersion".to_owned(), Plist::Integer(3));
    let payload: Vec<u8> = match to_xml(&Plist::Dict(d)) {
        Ok(payload) => payload,
        Err(failure) => return Err(failure),
    };
    if payload.len() as u64 > u32::MAX as u64 - 16 {
        return Err(Failure::said("out of range integral type conversion attempted"));
    }
    let mut packet: Vec<u8> = Vec::new();
    push_le(&mut packet, payload.len() as u64 + 16, 4);
    push_le(&mut packet, 1, 4);
    push_le(&mut packet, 8, 4);
    push_le(&mut packet, 1, 4);
    push_bytes(&mut packet, payload.as_slice());
    assert(packet@ =~= mux_frame(payload@));
    Ok(packet)
}

/// What the header of a multiplexer reply announces: the length of its payload,
/// or a complaint.
pub open spec fn mux_header(header: Seq<u8>) -> Result<nat, Seq<char>> {
    let length = le_value(header.subrange(0, 4));
    if !(16 <= length <= MAX_FRAME) {
        Err("Invalid USB reply size"@)
    } else if !(le_value(header.subrange(4, 8)) == 1 && le_value(header.subrange(8, 12)) == 8
        && le_value(header.subrange(12, 16)) == 1) {
        Err("Unexpected USB reply version/type/tag"@)
    } else {
        Ok((length - 16) as nat)
    }
}

/// The length of the payload that a reply header announces.
pub fn mux_reply_length(header: &[u8]) -> (length: Result<usize, Failure>)
    requires
        header@.len() == 16,
    ensures
        match mux_header(header@) {
            Ok(n) => length matches Ok(length) && length == n,
            Err(complaint) => length matches Err(failure) && failure.says(complaint),
        },
{
    let length: u64 = read_le(header, 0, 4);
    if length < 16 || length > MAX_FRAME as u64 {
        return Err(Failure::said("Invalid USB reply size"));
    }
    if read_le(header, 4, 4) != 1 || read_le(header, 8, 4) != 8 || read_le(header, 12, 4) != 1 {
        return Err(Failure::said("Unexpected USB reply version/type/tag"));
    }
    Ok((length - 16) as usize)
}

/// The dictionary that a payload holds; `complaint` is said where it holds
/// something else.
fn dictionary_in(payload: &[u8], complaint: &str) -> (reply: Result<Dict, Failure>)
    ensures
        match plist_parsed(payload@) {
            None => reply matches Err(failure) && no_list(failure, payload@),
            Some(tree) => match dict_in(Some(tree)) {
                Some(pairs) => reply matches Ok(reply) && reply.pairs() == pairs,
                None => reply matches Err(failure) && failure.says(complaint@),
            },
        },
{
    match parse(payload) {
        Err(failure) => Err(failure),
        Ok(value) => match value.into_dictionary() {
            Some(d) => Ok(d),
            None => Err(Failure::said(complaint)),
        },
    }
}

/// The dictionary in the payload of a multiplexer reply.
pub fn mux_reply(payload: &[u8]) -> (reply: Result<Dict, Failure>)
    ensures
        match plist_parsed(payload@) {
            None => reply matches Err(failure) && no_list(failure, payload@),
            Some(tree) => match dict_in(Some(tree)) {
                Some(pairs) => reply matches Ok(reply) && reply.pairs() == pairs,
                None => reply matches Err(failure) && failure.says(
                    "USB reply is not a dictionary"@,
                ),
            },
        },
{
    dictionary_in(payload, "USB reply is not a dictionary")
}

/// The packet that sends a request to the control service.
pub fn lockdown_request(request: &Plist) -> (packet: Result<Vec<u8>, Failure>)
    ensures
        match plist_xml(request.tree()) {
            None => packet matches Err(failure) && no_xml(failure, request.tree()),
            Some(xml) => if xml.len() > MAX_FRAME {
                packet matches Err(failure) && failure.says("Lockdown request too large"@)
            } else {
                packet matches Ok(packet) && packet@ == be(xml.len(), 4) + xml && (is_open(
                    request.tree(),
                ) ==> plist_parsed(xml) == Some(request.tree()))
            },
        },
{
    let body: Vec<u8> = match to_xml(request) {
        Ok(body) => body,
        Err(failure) => return Err(failure),
    };
    if body.len() > MAX_FRAME {
        return Err(Failure::said("Lockdown request too large"));
    }
    let mut packet: Vec<u8> = Vec::new();
    push_be(&mut packet, body.len() as u64, 4);
    push_bytes(&mut packet, body.as_slice());
    assert(packet@ =~= be(body@.len(), 4) + body@);
    Ok(packet)
}

/// The length of the body that a reply header of the control service announces.
/// A length that no reply can have is refused before anything is read.
pub fn lockdown_reply_length(header: &[u8]) -> (length: Result<usize, Failure>)
    requires
        header@.len() == 4,
    ensures
        match length {
            Ok(length) => 0 < length <= MAX_FRAME && length == be_value(header@),
            Err(failure) => !(0 < be_value(header@) <= MAX_FRAME) && failure.says(
                "Invalid iPhone reply size "@ + decimal(be_value(header@)),
            ),
        },
{
    assert(header@.subrange(0, 4) =~= header@);
    let n: u64 = read_be(header, 0, 4);
    if n == 0 || n > MAX_FRAME as u64 {
        return Err(
            Failure::Said(
                "Invalid iPhone reply size ".to_owned().concat(decimal_text(n).as_str()),
            ),
        );
    }
    Ok(n as usize)
}

/// The dictionary in the body of a reply of the control service.
pub fn lockdown_reply(body: &[u8]) -> (reply: Result<Dict, Failure>)
    ensures
        match plist_parsed(body@) {
            None => reply matches Err(failure) && no_list(failure, body@),
            Some(tree) => match dict_in(Some(tree)) {
                Some(pairs) => reply matches Ok(reply) && reply.pairs() == pairs,
                None => reply matches Err(failure) && failure.says(
                    "iPhone reply is not a dictionary"@,
                ),
            },
        },
{
    dictionary_in(body, "iPhone reply is not a dictionary")
}

/// The dictionary that a whole reply of the control service holds.
pub fn lockdown_received(input: &[u8]) -> (reply: Result<Dict, Failure>)
    ensures
        ({
            let n = be_value(input@.take(4));
            if input@.len() < 4 {
                reply matches Err(failure) && failure.says_under(
                    "Reading iPhone reply header"@,
                    cut_short(),
                )
            } else if !(0 < n <= MAX_FRAME) {
                reply matches Err(failure) && failure.says(
                    "Invalid iPhone reply size "@ + decimal(n),
                )
            } else if input@.len() < 4 + n {
                reply matches Err(failure) && failure.says_under(
                    "Reading iPhone reply body"@,
                    cut_short(),
                )
            } else {
                match plist_parsed(input@.subrange(4, 4 + n as int)) {
                    None => reply matches Err(failure) && no_list(
                        failure,
                        input@.subrange(4, 4 + n as int),
                    ),
                    Some(tree) => match dict_in(Some(tree)) {
                        Some(pairs) => reply matches Ok(reply) && reply.pairs() == pairs,
                        None => reply matches Err(failure) && failure.says(
                            "iPhone reply is not a dictionary"@,
                        ),
                    },
                }
            }
        }),
{
    if input.len() < 4 {
        return Err(
            Failure::said("failed to fill whole buffer").context("Reading iPhone reply header"),
        );
    }
    let header: Vec<u8> = copy_range(input, 0, 4);
    assert(header@ =~= input@.take(4));
    let n: usize = match lockdown_reply_length(header.as_slice()) {
        Ok(n) => n,
        Err(failure) => return Err(failure),
    };
    if input.len() - 4 < n {
        return Err(
            Failure::said("failed to fill whole buffer").context("Reading iPhone reply body"),
        );
    }
    let body: Vec<u8> = copy_range(input, 4, 4 + n);
    lockdown_reply(body.as_slice())
}

/// The dictionary that a whole reply of the multiplexer holds.
pub fn mux_received(input: &[u8]) -> (reply: Result<Dict, Failure>)
    ensures
        if input@.len() < 16 {
            reply matches Err(failure) && failure.says_under(
                "Reading USB reply header"@,
                cut_short(),
            )
        } else {
            match mux_header(input@.take(16)) {
                Err(complaint) => reply matches Err(failure) && failure.says(complaint),
                Ok(n) => if input@.len() < 16 + n {
                    reply matches Err(failure) && failure.says(cut_short())
                } else {
                    match plist_parsed(input@.subrange(16, 16 + n as int)) {
                        None => reply matches Err(failure) && no_list(
                            failure,
                            input@.subrange(16, 16 + n as int),
                        ),
                        Some(tree) => match dict_in(Some(tree)) {
                            Some(pairs) => reply matches Ok(reply) && reply.pairs() == pairs,
                            None => reply matches Err(failure) && failure.says(
                                "USB reply is not a dictionary"@,
                            ),
                        },
                    }
                },
            }
        },
{
    if input.len() < 16 {
        return Err(
            Failure::said("failed to fill whole buffer").context("Reading USB reply header"),
        );
    }
    let header: Vec<u8> = copy_range(input, 0, 16);
    assert(header@ =~= input@.take(16));
    let n: usize = match mux_reply_length(header.as_slice()) {
        Ok(n) => n,
        Err(failure) => return Err(failure),
    };
    if input.len() - 16 < n {
        return Err(Failure::said("failed to fill whole buffer"));
    }
    let payload: Vec<u8> = copy_range(input, 16, 16 + n);
    mux_reply(payload.as_slice())
}

/// What a peer sees of a framed payload: the header announces its length.
pub proof fn mux_frame_announces(payload: Seq<u8>)
    requires
        payload.len() + 16 <= MAX_FRAME,
    ensures
        mux_header(mux_frame(payload).take(16)) == Ok::<nat, Seq<char>>(payload.len()),
        mux_frame(payload).skip(16) == payload,
{
    let packet = mux_frame(payload);
    let header = packet.take(16);
    capacities();
    le_round_trip(payload.len() + 16, 4);
    le_round_trip(1, 4);
    le_round_trip(8, 4);
    assert(header.subrange(0, 4) =~= le(payload.len() + 16, 4));
    assert(header.subrange(4, 8) =~= le(1, 4));
    assert(header.subrange(8, 12) =~= le(8, 4));
    assert(header.subrange(12, 16) =~= le(1, 4));
    assert(packet.skip(16) =~= payload);
}

/// A request to the multiplexer arrives as it was sent: behind the header stands a
/// list of its entries, with those that introduce this program.
pub proof fn a_sent_request_arrives(
    request: Plist,
    packet: Result<Vec<u8>, Failure>,
    pairs: Seq<(Seq<char>, Tree)>,
    key: Seq<char>,
)
    requires
        dict_in(Some(request.tree())) == Some(pairs),
        is_open(request.tree()),
        call_ensures(mux_request, (request,), packet),
        packet is Ok,
    ensures
        plist_parsed(packet->Ok_0@.skip(16)) == Some(Tree::Dict(introduced(pairs))),
        key != "ClientVersionString"@ && key != "ProgName"@ && key != "kLibUSBMuxVersion"@ ==> lookup(
            introduced(pairs),
            key,
        ) == lookup(pairs, key),
{
    let first = stored(pairs, "ClientVersionString"@, Tree::Text("AirCard"@));
    let second = stored(first, "ProgName"@, Tree::Text("AirCard"@));
    stored_is_open(pairs, "ClientVersionString"@, Tree::Text("AirCard"@));
    stored_is_open(first, "ProgName"@, Tree::Text("AirCard"@));
    stored_is_open(second, "kLibUSBMuxVersion"@, Tree::Integer(3));
    stored_is_found(pairs, "ClientVersionString"@, Tree::Text("AirCard"@), key);
    stored_is_found(first, "ProgName"@, Tree::Text("AirCard"@), key);
    stored_is_found(second, "kLibUSBMuxVersion"@, Tree::Integer(3), key);
    let xml = plist_xml(Tree::Dict(introduced(pairs))).unwrap();
    assert(mux_frame(xml).skip(16) =~= xml);
}

/// The multiplexer is asked for a port in network order: so the number stands in what
/// is sent.
pub proof fn the_port_arrives_in_network_order(
    mux: UsbMux,
    device: UsbDevice,
    port: u16,
    request: Plist,
    packet: Result<Vec<u8>, Failure>,
)
    requires
        call_ensures(UsbMux::connect_request, (&mux, &device, port), request),
        call_ensures(mux_request, (request,), packet),
        packet is Ok,
    ensures
        plist_parsed(packet->Ok_0@.skip(16)) matches Some(sent) && dict_in(Some(sent)) matches Some(
            pairs,
        ) && number_in(lookup(pairs, "PortNumber"@)) == Some(network_port(port)),
{
    let items = seq![
        ("MessageType"@, Tree::Text("Connect"@)),
        ("DeviceID"@, Tree::Integer(device.id as u64)),
        ("PortNumber"@, Tree::Integer(network_port(port))),
    ];
    reveal_strlit("PortNumber");
    reveal_strlit("ClientVersionString");
    reveal_strlit("ProgName");
    reveal_strlit("kLibUSBMuxVersion");
    items_are_open(items);
    collected_lookup(items, "PortNumber"@);
    assert(last_under(items, "PortNumber"@) == Some(Tree::Integer(network_port(port))));
    let key = "PortNumber"@;
    assert(key.len() == 10 && "ClientVersionString"@.len() == 19 && "ProgName"@.len() == 8
        && "kLibUSBMuxVersion"@.len() == 17);
    assert(request.tree() == Tree::Dict(collected(items)));
    a_sent_request_arrives(request, packet, collected(items), key);
    assert(lookup(introduced(collected(items)), key) == Some(Tree::Integer(network_port(port))));
}

/// A dictionary of opened values is opened throughout.
proof fn items_are_open(items: Seq<(Seq<char>, Tree)>)
    requires
        forall|i: int| 0 <= i < items.len() ==> is_open((#[trigger] items[i]).1),
    ensures
        is_open(dict_of(items)),
    decreases items.len(),
{
    if items.len() > 0 {
        items_are_open(items.drop_last());
        stored_is_open(collected(items.drop_last()), items.last().0, items.last().1);
    }
}

/// What the phone sees of a framed request to the control service: the header announces
/// the length of the body, and the body follows.
pub proof fn lockdown_frame_announces(body: Seq<u8>)
    requires
        0 < body.len() <= MAX_FRAME,
    ensures
        be_value((be(body.len(), 4) + body).take(4)) == body.len(),
        (be(body.len(), 4) + body).skip(4) == body,
{
    let packet = be(body.len(), 4) + body;
    capacities();
    be_round_trip(body.len(), 4);
    assert(packet.take(4) =~= be(body.len(), 4));
    assert(packet.skip(4) =~= body);
}

/// Whether a reply reports no error for the step.
pub fn check_reply(reply: &Dict, step: &str) -> (checked: Result<(), Failure>)
    ensures
        match text_in(lookup(reply.pairs(), "Error"@)) {
            None => checked is Ok,
            Some(error) => checked matches Err(failure) && failure.says(step@ + ": "@ + error),
        },
{
    match reply.text("Error") {
        None => Ok(()),
        Some(error) => Err(
            Failure::Said(step.to_owned().concat(": ").concat(error.as_str())),
        ),
    }
}

/// The request for a value of the device.
pub fn get_value_request(key: &str) -> (request: Plist)
    ensures
        request.tree() == dict_of(
            seq![
                ("Request"@, Tree::Text("GetValue"@)),
                ("Label"@, Tree::Text("AirCard"@)),
                ("Key"@, Tree::Text(key@)),
            ],
        ),
{
    let fields: Vec<(&str, Plist)> = vec![
        ("Request", string("GetValue")),
        ("Label", string("AirCard")),
        ("Key", string(key)),
    ];
    assert(item_pairs(fields@) =~= seq![
        ("Request"@, Tree::Text("GetValue"@)),
        ("Label"@, Tree::Text("AirCard"@)),
        ("Key"@, Tree::Text(key@)),
    ]);
    dict(fields)
}

/// The value of the device that the reply to that request holds.
pub fn get_value(reply: &Dict, key: &str) -> (value: Result<Plist, Failure>)
    ensures
        match text_in(lookup(reply.pairs(), "Error"@)) {
            Some(error) => value matches Err(failure) && failure.says(
                "Read device information: "@ + error,
            ),
            None => match lookup(reply.pairs(), "Value"@) {
                Some(tree) => value matches Ok(value) && value.tree() == tree,
                None => value matches Err(failure) && failure.says(
                    "Device did not supply "@ + key@,
                ),
            },
        },
{
    match check_reply(reply, "Read device information") {
        Ok(()) => {},
        Err(failure) => {
            proof {
                reveal_strlit("Read device information");
                reveal_strlit(": ");
                reveal_strlit("Read device information: ");
                assert("Read device information"@ + ": "@ =~= "Read device information: "@);
            }
            return Err(failure);
        },
    }
    match reply.get("Value") {
        Some(value) => Ok(value.clone()),
        None => Err(Failure::Said("Device did not supply ".to_owned().concat(key))),
    }
}

/// An identifier without its dashes.
pub open spec fn undashed(s: Seq<char>) -> Seq<char> {
    s.filter(|c: char| c != '-')
}

/// Two identifiers name one device exactly where they have the same 24 or 40
/// hexadecimal digits, wherever the dashes stand and whatever the case of the
/// digits.
pub proof fn dashes_and_case_do_not_matter(a: &str, b: &str, same: bool)
    requires
        call_ensures(same_device, (a, b), same),
    ensures
        same <==> (undashed(a@).len() == 24 || undashed(a@).len() == 40) && all_hex(undashed(a@))
            && lowered(undashed(a@)) == lowered(undashed(b@)),
{
    only_the_character_is_dropped(a@, '-');
    only_the_character_is_dropped(b@, '-');
    let x = undashed(a@);
    let y = undashed(b@);
    assert(x == without(a@, '-'));
    assert(y == without(b@, '-'));
    case_is_forgotten(x);
    case_is_forgotten(y);
    if lowered(x) == lowered(y) {
        assert(x.len() == lowered(x).len());
        assert(uppered(x) == uppered(y));
        assert forall|i: int| 0 <= i < x.len() implies is_hex_digit(#[trigger] x[i]) == is_hex_digit(
            y[i],
        ) by {
            assert(lowered(x)[i] == lowered(y)[i]);
        }
        if all_hex(x) {
            assert forall|i: int| 0 <= i < y.len() implies is_hex_digit(#[trigger] y[i]) by {
                assert(is_hex_digit(x[i]));
            }
        }
        if x.len() == 24 {
            assert(upper('-') == '-');
            assert(uppered(x.take(8).push('-') + x.skip(8)) =~= uppered(x).take(8).push('-')
                + uppered(x).skip(8));
            assert(uppered(y.take(8).push('-') + y.skip(8)) =~= uppered(y).take(8).push('-')
                + uppered(y).skip(8));
        }
    }
    if same {
        if x.len() == 24 {
            let u = uppered(x.take(8).push('-') + x.skip(8));
            let v = canonical(b@).unwrap();
            assert(u.len() == 25);
            assert(y.len() == 24);
            assert(v == uppered(y.take(8).push('-') + y.skip(8)));
            assert forall|i: int| 0 <= i < 24 implies upper(#[trigger] x[i]) == upper(y[i]) by {
                if i < 8 {
                    assert(u[i] == upper(x[i]));
                    assert(v[i] == upper(y[i]));
                } else {
                    assert(u[i + 1] == upper(x[i]));
                    assert(v[i + 1] == upper(y[i]));
                }
            }
            assert(uppered(x) =~= uppered(y));
        }
    }
}

/// The canonical form keeps the digits of an identifier. The short one is 24 digits
/// in capitals with one dash after the eighth, the long one 40 digits in small
/// letters.
pub proof fn canonical_form_keeps_the_digits(s: &str, udid: Result<String, Failure>)
    requires
        call_ensures(canonical_udid, (s,), udid),
    ensures
        udid is Ok <==> all_hex(undashed(s@)) && (undashed(s@).len() == 24 || undashed(s@).len()
            == 40),
        udid matches Ok(udid) ==> ({
            let digits = undashed(s@);
            &&& digits.len() == 24 ==> udid@.len() == 25 && udid@[8] == '-' && forall|i: int|
                0 <= i < 24 ==> udid@[if i < 8 {
                    i
                } else {
                    i + 1
                }] == upper(#[trigger] digits[i])
            &&& digits.len() == 40 ==> udid@.len() == 40 && forall|i: int|
                0 <= i < 40 ==> udid@[i] == lower(#[trigger] digits[i])
        }),
{
    only_the_character_is_dropped(s@, '-');
    assert(upper('-') == '-');
}

/// Where a device was asked for, the one that is selected is of the list, and its
/// identifier names the device that was asked for; none before it does. Nothing is
/// selected exactly where no device of the list is the one that was asked for.
pub proof fn the_asked_device_is_selected(
    mux: UsbMux,
    devices: Vec<UsbDevice>,
    udid: &str,
    device: Result<UsbDevice, Failure>,
)
    requires
        call_ensures(UsbMux::select, (&mux, devices, Some(udid)), device),
    ensures
        device matches Ok(device) ==> canonical(device.udid@) is Some && canonical(device.udid@)
            == canonical(udid@) && exists|k: int|
            0 <= k < devices@.len() && device@ == (#[trigger] devices@[k])@ && forall|j: int|
                0 <= j < k ==> canonical((#[trigger] devices@[j]).udid@) != canonical(udid@),
        device is Ok <==> canonical(udid@) is Some && exists|k: int|
            0 <= k < devices@.len() && canonical((#[trigger] devices@[k]).udid@) == canonical(udid@),
{
    let views = device_views(devices@);
    first_match_is_found(views, udid@);
    if let Some(found) = find_device(views, udid@) {
        let k = choose|k: int|
            0 <= k < views.len() && #[trigger] views[k] == found && forall|j: int|
                0 <= j < k ==> canonical((#[trigger] views[j]).1) != canonical(udid@);
        assert(devices@[k]@ == found);
        assert forall|j: int| 0 <= j < k implies canonical((#[trigger] devices@[j]).udid@)
            != canonical(udid@) by {
            assert(views[j].1 == devices@[j].udid@);
        }
    }
    if exists|k: int|
        0 <= k < devices@.len() && canonical((#[trigger] devices@[k]).udid@) == canonical(udid@) {
        let k = choose|k: int|
            0 <= k < devices@.len() && canonical((#[trigger] devices@[k]).udid@) == canonical(udid@);
        assert(views[k].1 == devices@[k].udid@);
    }
}

proof fn first_match_is_found(devices: Seq<(u32, Seq<char>)>, udid: Seq<char>)
    ensures
        find_device(devices, udid) matches Some(found) ==> canonical(udid) is Some && canonical(
            found.1,
        ) == canonical(udid) && exists|k: int|
            0 <= k < devices.len() && #[trigger] devices[k] == found && forall|j: int|
                0 <= j < k ==> canonical((#[trigger] devices[j]).1) != canonical(udid),
        find_device(devices, udid) is None && canonical(udid) is Some ==> forall|k: int|
            0 <= k < devices.len() ==> canonical((#[trigger] devices[k]).1) != canonical(udid),
    decreases devices.len(),
{
    if devices.len() > 0 {
        if canonical(udid) is Some && canonical(devices[0].1) == canonical(udid) {
            assert(devices[0] == find_device(devices, udid).unwrap());
        } else {
            let rest = devices.drop_first();
            first_match_is_found(rest, udid);
            if let Some(found) = find_device(devices, udid) {
                let k = choose|k: int|
                    0 <= k < rest.len() && #[trigger] rest[k] == found && forall|j: int|
                        0 <= j < k ==> canonical((#[trigger] rest[j]).1) != canonical(udid);
                assert(devices[k + 1] == found);
                assert forall|j: int| 0 <= j < k + 1 implies canonical((#[trigger] devices[j]).1)
                    != canonical(udid) by {
                    if j > 0 {
                        assert(devices[j] == rest[j - 1]);
                    }
                }
            } else if canonical(udid) is Some {
                assert forall|k: int| 0 <= k < devices.len() implies canonical(
                    (#[trigger] devices[k]).1,
                ) != canonical(udid) by {
                    if k > 0 {
                        assert(devices[k] == rest[k - 1]);
                    }
                }
            }
        }
    }
}

/// Where no device was asked for, the only device is selected, and none where there
/// are several or none.
pub proof fn the_only_device_is_selected(
    mux: UsbMux,
    devices: Vec<UsbDevice>,
    device: Result<UsbDevice, Failure>,
)
    requires
        call_ensures(UsbMux::select, (&mux, devices, None::<&str>), device),
    ensures
        device is Ok <==> devices@.len() == 1,
        device matches Ok(device) ==> device@ == devices@[0]@,
{
}

/// The entry of a device list is about a device on USB.
pub open spec fn is_on_usb(item: Tree) -> bool {
    &&& item matches Tree::Dict(entry)
    &&& lookup(entry, "Properties"@) matches Some(Tree::Dict(p))
    &&& lookup(p, "ConnectionType"@) == Some(Tree::Text("USB"@))
}

/// The properties that such an entry holds.
pub open spec fn properties_of(item: Tree) -> Seq<(Seq<char>, Tree)> {
    lookup(item->Dict_0, "Properties"@).unwrap()->Dict_0
}

/// The entry gives a number that fits and an identifier in proper form.
pub open spec fn is_complete(item: Tree) -> bool {
    &&& lookup(properties_of(item), "DeviceID"@) matches Some(Tree::Integer(id))
    &&& id <= 0xFFFF_FFFF
    &&& lookup(properties_of(item), "SerialNumber"@) matches Some(Tree::Text(serial))
    &&& canonical(serial) is Some
}

/// The devices of a list are its entries on USB, all of them and no others, in
/// order, each with its number and the canonical form of its serial number. The
/// list is refused exactly where one of those entries is not complete.
pub proof fn usb_entries_are_listed(
    mux: UsbMux,
    reply: Dict,
    items: Seq<Tree>,
    devices: Result<Vec<UsbDevice>, Failure>,
)
    requires
        call_ensures(UsbMux::devices, (&mux, &reply), devices),
        lookup(reply.pairs(), "DeviceList"@) == Some(Tree::Array(items)),
    ensures
        devices is Ok <==> forall|i: int|
            0 <= i < items.len() && is_on_usb(#[trigger] items[i]) ==> is_complete(items[i]),
        devices matches Ok(devices) ==> device_views(devices@) == items.filter(
            |item: Tree| is_on_usb(item),
        ).map_values(
            |item: Tree|
                (
                    lookup(properties_of(item), "DeviceID"@).unwrap()->Integer_0 as u32,
                    canonical(lookup(properties_of(item), "SerialNumber"@).unwrap()->Text_0).unwrap(),
                ),
        ),
{
    entries_on_usb(items);
}

proof fn entries_on_usb(items: Seq<Tree>)
    ensures
        all_listed(items) is Ok <==> forall|i: int|
            0 <= i < items.len() && is_on_usb(#[trigger] items[i]) ==> is_complete(items[i]),
        all_listed(items) matches Ok(devices) ==> devices == items.filter(
            |item: Tree| is_on_usb(item),
        ).map_values(
            |item: Tree|
                (
                    lookup(properties_of(item), "DeviceID"@).unwrap()->Integer_0 as u32,
                    canonical(lookup(properties_of(item), "SerialNumber"@).unwrap()->Text_0).unwrap(),
                ),
        ),
    decreases items.len(),
{
    reveal(Seq::filter);
    let on_usb = |item: Tree| is_on_usb(item);
    let device = |item: Tree|
        (
            lookup(properties_of(item), "DeviceID"@).unwrap()->Integer_0 as u32,
            canonical(lookup(properties_of(item), "SerialNumber"@).unwrap()->Text_0).unwrap(),
        );
    if items.len() == 0 {
        assert(items.filter(on_usb).map_values(device) =~= Seq::<(u32, Seq<char>)>::empty());
    } else {
        let shorter = items.drop_last();
        let last = items[items.len() - 1];
        entries_on_usb(shorter);
        assert(listed(last) is Skipped <==> !is_on_usb(last));
        assert(listed(last) is Malformed <==> is_on_usb(last) && !is_complete(last));
        if forall|i: int|
            0 <= i < items.len() && is_on_usb(#[trigger] items[i]) ==> is_complete(items[i]) {
            assert forall|i: int|
                0 <= i < shorter.len() && is_on_usb(#[trigger] shorter[i]) implies is_complete(
                shorter[i],
            ) by {
                assert(is_on_usb(items[i]));
            }
        }
        if let Ok(devices) = all_listed(items) {
            assert forall|i: int|
                0 <= i < items.len() && is_on_usb(#[trigger] items[i]) implies is_complete(
                items[i],
            ) by {
                if i < shorter.len() {
                    assert(is_on_usb(shorter[i]));
                }
            }
            if is_on_usb(last) {
                assert(items.filter(on_usb) == shorter.filter(on_usb).push(last));
                assert(items.filter(on_usb).map_values(device) =~= shorter.filter(
                    on_usb,
                ).map_values(device).push(device(last)));
            } else {
                assert(items.filter(on_usb) == shorter.filter(on_usb));
            }
        }
    }
}

/// What is sent to the multiplexer is one frame: its length, version 1, a property
/// list, tag 1, and behind these sixteen bytes the request, which says three times
/// which program asks.
pub proof fn a_request_is_one_frame(
    request: Plist,
    pairs: Seq<(Seq<char>, Tree)>,
    packet: Result<Vec<u8>, Failure>,
)
    requires
        request.tree() == Tree::Dict(pairs),
        is_open(request.tree()),
        call_ensures(mux_request, (request,), packet),
        packet is Ok,
    ensures
        packet->Ok_0@.len() >= 16,
        le_value(packet->Ok_0@.subrange(0, 4)) == packet->Ok_0@.len(),
        le_value(packet->Ok_0@.subrange(4, 8)) == 1,
        le_value(packet->Ok_0@.subrange(8, 12)) == 8,
        le_value(packet->Ok_0@.subrange(12, 16)) == 1,
        plist_parsed(packet->Ok_0@.skip(16)) matches Some(Tree::Dict(sent)) && lookup(
            sent,
            "ClientVersionString"@,
        ) == Some(Tree::Text("AirCard"@)) && lookup(sent, "ProgName"@) == Some(
            Tree::Text("AirCard"@),
        ) && lookup(sent, "kLibUSBMuxVersion"@) == Some(Tree::Integer(3)),
{
    let frame = packet->Ok_0@;
    a_sent_request_arrives(request, packet, pairs, "ProgName"@);
    capacities();
    if let Some(xml) = plist_xml(Tree::Dict(introduced(pairs))) {
        assert(frame == mux_frame(xml));
        assert(frame.skip(16) =~= xml);
        le_round_trip(xml.len() + 16, 4);
        le_round_trip(1, 4);
        le_round_trip(8, 4);
        assert(frame.subrange(0, 4) =~= le(xml.len() + 16, 4));
        assert(frame.subrange(4, 8) =~= le(1, 4));
        assert(frame.subrange(8, 12) =~= le(8, 4));
        assert(frame.subrange(12, 16) =~= le(1, 4));
    }
    let first = stored(pairs, "ClientVersionString"@, Tree::Text("AirCard"@));
    let second = stored(first, "ProgName"@, Tree::Text("AirCard"@));
    reveal_strlit("ClientVersionString");
    reveal_strlit("ProgName");
    reveal_strlit("kLibUSBMuxVersion");
    assert("ClientVersionString"@.len() == 19 && "ProgName"@.len() == 8 && "kLibUSBMuxVersion"@.len()
        == 17);
    stored_is_found(
        pairs,
        "ClientVersionString"@,
        Tree::Text("AirCard"@),
        "ClientVersionString"@,
    );
    stored_is_found(first, "ProgName"@, Tree::Text("AirCard"@), "ClientVersionString"@);
    stored_is_found(second, "kLibUSBMuxVersion"@, Tree::Integer(3), "ClientVersionString"@);
    stored_is_found(second, "kLibUSBMuxVersion"@, Tree::Integer(3), "ProgName"@);
}

/// Where a reply's frame holds a dictionary, that dictionary is received, and
/// nothing else: a frame of another version, kind or tag is refused.
pub proof fn a_framed_reply_is_received(
    payload: Seq<u8>,
    pairs: Seq<(Seq<char>, Tree)>,
    version: nat,
    kind: nat,
    tag: nat,
    input: &[u8],
    reply: Result<Dict, Failure>,
)
    requires
        payload.len() + 16 <= 16_777_216,
        plist_parsed(payload) == Some(Tree::Dict(pairs)),
        version < 0x1_0000_0000,
        kind < 0x1_0000_0000,
        tag < 0x1_0000_0000,
        input@ == le(payload.len() + 16, 4) + le(version, 4) + le(kind, 4) + le(tag, 4) + payload,
        call_ensures(mux_received, (input,), reply),
    ensures
        reply is Ok <==> version == 1 && kind == 8 && tag == 1,
        reply matches Ok(reply) ==> reply.pairs() == pairs,
{
    let header = input@.take(16);
    capacities();
    le_round_trip(payload.len() + 16, 4);
    le_round_trip(version, 4);
    le_round_trip(kind, 4);
    le_round_trip(tag, 4);
    assert(header.subrange(0, 4) =~= le(payload.len() + 16, 4));
    assert(header.subrange(4, 8) =~= le(version, 4));
    assert(header.subrange(8, 12) =~= le(kind, 4));
    assert(header.subrange(12, 16) =~= le(tag, 4));
    assert(input@.subrange(16, 16 + payload.len() as int) =~= payload);
}

/// What was sent to the control service is received as it was sent.
pub proof fn a_lockdown_request_arrives(
    request: Plist,
    pairs: Seq<(Seq<char>, Tree)>,
    packet: Vec<u8>,
    input: &[u8],
    reply: Result<Dict, Failure>,
)
    requires
        request.tree() == Tree::Dict(pairs),
        is_open(request.tree()),
        call_ensures(lockdown_request, (&request,), Ok(packet)),
        packet@.len() > 4,
        input@ == packet@,
        call_ensures(lockdown_received, (input,), reply),
    ensures
        reply matches Ok(reply) && reply.pairs() == pairs,
{
    if let Some(xml) = plist_xml(request.tree()) {
        lockdown_frame_announces(xml);
        assert(input@.subrange(4, 4 + xml.len() as int) =~= xml);
    }
}

/// The port number is swapped into network order: its high byte comes first.
pub proof fn ports_are_in_network_order(port: u16)
    ensures
        le(network_port(port) as nat, 2) == be(port as nat, 2),
{
    reveal_with_fuel(le, 3);
    let swapped = network_port(port) as nat;
    assert(le(swapped, 2) =~= be(port as nat, 2));
}

/// The channel is open exactly where the multiplexer answers with status 0; a reply
/// without a number opens none.
pub proof fn only_status_zero_opens(mux: UsbMux, reply: Dict, port: u16, opened: Result<(), Failure>)
    requires
        call_ensures(UsbMux::connect, (&mux, &reply, port), opened),
    ensures
        opened is Ok <==> lookup(reply.pairs(), "Number"@) == Some(Tree::Integer(0)),
{
}

/// A reply without an error text passes, and one with an error text does not. Of the
/// reply to a request for a value, the value is taken, unless there is an error.
pub proof fn errors_are_heeded(
    reply: Dict,
    step: &str,
    key: &str,
    checked: Result<(), Failure>,
    value: Result<Plist, Failure>,
)
    requires
        call_ensures(check_reply, (&reply, step), checked),
        call_ensures(get_value, (&reply, key), value),
    ensures
        checked is Ok <==> !(lookup(reply.pairs(), "Error"@) matches Some(Tree::Text(_))),
        value is Ok <==> checked is Ok && lookup(reply.pairs(), "Value"@) is Some,
        value matches Ok(value) ==> lookup(reply.pairs(), "Value"@) == Some(value.tree()),
{
}

} // verus!
