use aircard::afc::{answer, parse_info, path_arg, split_fields, AfcClient, Request};
use aircard::failure::Failure;
use aircard::service_protocol::{body_length, receive_plist, send_plist};
use aircard::usbmux::{
    canonical_udid, check_reply, dict, get_value, get_value_request, lockdown_received,
    lockdown_reply_length, lockdown_request, mux_received, mux_reply_length, mux_request,
    same_device, string, UsbDevice, UsbMux,
};
use aircard::dates::{all_dates_read, lies_in_calendar};
use aircard::value::{debug_text, dict_from, parse, to_binary, to_xml, Dict, Plist};

fn file_request(op: u64, args: &[u8], payload: &[u8], expected: u64) -> Request {
    Request { op, args: args.to_vec(), payload: payload.to_vec(), expected }
}

fn peer(length: u64, status: u64) -> (Vec<u8>, Vec<u8>) {
    let mut d = b"CFA6LPAA".to_vec();
    for n in [length, 48, 1, 1] {
        d.extend(n.to_le_bytes());
    }
    (d, status.to_le_bytes().to_vec())
}

#[test]
fn fragmented_status_and_write_header() {
    let mut client = AfcClient::new();
    let d = client.call(&file_request(16, &7u64.to_le_bytes(), b"abc", 1));
    assert_eq!(u64::from_le_bytes(d[8..16].try_into().unwrap()), 51);
    assert_eq!(u64::from_le_bytes(d[16..24].try_into().unwrap()), 48);
    assert_eq!(&d[48..], b"abc");
    let (header, status) = peer(48, 0);
    let (code, left) = client.reply_header(&header).unwrap();
    assert_eq!(left, 8);
    answer(code, status, 1).unwrap();
}

#[test]
fn oversized_and_error_status_are_rejected() {
    let mut client = AfcClient::new();
    client.call(&file_request(3, b"", b"", 2));
    let (header, _) = peer(u64::MAX, 0);
    assert!(client.reply_header(&header).is_err());
    let (header, status) = peer(48, 8);
    let (code, left) = client.reply_header(&header).unwrap();
    assert_eq!(left, 8);
    let e = answer(code, status, 2).unwrap_err();
    assert!(matches!(e, Failure::Status(8)));
}

#[test]
fn file_packets_are_numbered() {
    let mut client = AfcClient::new();
    let first = client.call(&file_request(3, b"/a\0", b"", 2));
    let second = client.call(&file_request(3, b"/a\0", b"", 2));
    assert_eq!(&first[..8], b"CFA6LPAA");
    assert_eq!(u64::from_le_bytes(first[24..32].try_into().unwrap()), 1);
    assert_eq!(u64::from_le_bytes(second[24..32].try_into().unwrap()), 2);
    assert_eq!(u64::from_le_bytes(first[32..40].try_into().unwrap()), 3);
    assert_eq!(&first[40..], b"/a\0");
    assert_eq!(client.sequence, 2);
}

#[test]
fn replies_out_of_order_are_refused() {
    let mut client = AfcClient::new();
    client.call(&file_request(3, b"/a\0", b"", 2));
    client.call(&file_request(3, b"/a\0", b"", 2));
    let (header, _) = peer(48, 0);
    assert!(client.reply_header(&header).is_err());
    let mut strange = peer(48, 0).0;
    strange[0] = b'X';
    assert!(AfcClient { sequence: 1 }.reply_header(&strange).is_err());
}

#[test]
fn answers_of_another_kind_are_refused() {
    assert_eq!(answer(2, vec![1, 2], 2).unwrap(), vec![1, 2]);
    assert!(answer(14, vec![1, 2], 2).is_err());
    assert!(answer(1, vec![1, 2], 2).is_err());
}

#[test]
fn paths_end_with_a_zero_and_hold_none() {
    assert_eq!(path_arg("Books").unwrap(), b"Books\0");
    assert!(path_arg("Bo\0oks").is_err());
    assert_eq!(split_fields(b"a\0bc\0"), vec![b"a".to_vec(), b"bc".to_vec()]);
}

#[test]
fn file_information_is_read_in_pairs() {
    let info = parse_info(b"st_size\05\0st_ifmt\0S_IFREG\0").unwrap();
    assert_eq!(info.get("st_size").map(String::as_str), Some("5"));
    assert_eq!(info.get("st_ifmt").map(String::as_str), Some("S_IFREG"));
    assert!(info.get("st_nlink").is_none());
}

#[test]
fn only_a_missing_file_counts_as_absent() {
    assert!(AfcClient::try_exists(Ok(Vec::new())).unwrap());
    assert!(!AfcClient::try_exists(Err(Failure::Status(8))).unwrap());
    assert!(AfcClient::try_exists(Err(Failure::Status(10))).is_err());
    assert!(!AfcClient::is_present(Err(Failure::Status(10))));
    assert!(AfcClient::is_present(Ok(Vec::new())));
}

#[test]
fn listings_leave_out_the_dots() {
    assert_eq!(
        AfcClient::list_directory(b".\0..\0a.plist\0b\0").unwrap(),
        vec!["a.plist".to_owned(), "b".to_owned()]
    );
    assert!(AfcClient::list_directory(b"\xff\0").is_err());
}

#[test]
fn both_byte_orders_and_oversize() {
    for little in [false, true] {
        let v = Plist::Text("transport".into());
        let b = send_plist(&v, little).unwrap();
        let back = receive_plist(&b, little).unwrap();
        assert_eq!(back.as_string().map(String::as_str), Some("transport"));
        assert!(receive_plist(&[255; 4], little).is_err());
    }
}

#[test]
fn frame_lengths_follow_the_byte_order() {
    assert_eq!(body_length(&[0, 0, 1, 2], false).unwrap(), 258);
    assert_eq!(body_length(&[2, 1, 0, 0], true).unwrap(), 258);
    assert!(body_length(&[0, 0, 1, 2], true).is_err());
    assert_eq!(body_length(&[2, 0, 0, 0], false).unwrap(), 33_554_432);
    assert!(body_length(&[2, 0, 0, 1], false).is_err());
    let b = send_plist(&Plist::Bool(true), false).unwrap();
    assert_eq!(u32::from_be_bytes(b[..4].try_into().unwrap()) as usize, b.len() - 4);
}

#[test]
fn identifier_normalization() {
    assert!(same_device("00008130000404D021D8001C", "00008130-000404d021d8001c"));
    assert!(!same_device("../record", "../record"));
    assert!(canonical_udid("../record").is_err());
}

#[test]
fn identifiers_have_one_form() {
    let canonical = canonical_udid("00008130000404d021d8001c").unwrap();
    assert_eq!(canonical, "00008130-000404D021D8001C");
    assert_eq!(canonical_udid(&canonical).unwrap(), canonical);
    let old = "0123456789ABCDEF0123456789abcdef01234567";
    assert_eq!(canonical_udid(old).unwrap(), old.to_lowercase());
    assert!(canonical_udid("").is_err());
}

#[test]
fn fragmented_frames_and_network_port() {
    let xml = to_xml(&dict(vec![("Number", Plist::Integer(0))])).unwrap();
    let mut wire = Vec::new();
    for n in [(xml.len() + 16) as u32, 1, 8, 1] {
        wire.extend_from_slice(&n.to_le_bytes());
    }
    wire.extend(xml);
    mux_received(&wire).unwrap();
    let output = mux_request(dict(vec![
        ("MessageType", string("Connect")),
        ("PortNumber", Plist::Integer(u64::from(62078u16.to_be()))),
    ]))
    .unwrap();
    let sent = plist::Value::from_reader(std::io::Cursor::new(&output[16..])).unwrap();
    assert_eq!(sent.as_dictionary().unwrap()["PortNumber"].as_unsigned_integer(), Some(32498));
}

#[test]
fn connecting_asks_for_the_port_in_network_order() {
    let mux = UsbMux::default();
    let device = UsbDevice { id: 9, udid: "00008130-0000000000000001".into() };
    let request = mux.connect_request(&device, 62078);
    let d = request.as_dictionary().unwrap();
    assert_eq!(d.text("MessageType").map(String::as_str), Some("Connect"));
    assert_eq!(d.number("PortNumber"), Some(32498));
    assert_eq!(d.number("DeviceID"), Some(9));
    assert_eq!(mux.address, "127.0.0.1:27015");
}

#[test]
fn oversized_reply_rejected_before_allocation() {
    lockdown_request(&dict(vec![])).unwrap();
    let e = lockdown_received(&u32::MAX.to_be_bytes()).unwrap_err();
    assert!(e.message().contains("Invalid iPhone reply size"));
}

#[test]
fn truncated_reply_is_an_error() {
    lockdown_request(&dict(vec![])).unwrap();
    assert!(lockdown_received(&[0, 0, 0, 20, b'<']).is_err());
}

#[test]
fn request_packets_announce_their_size() {
    let packet = mux_request(dict(vec![("MessageType", string("ListDevices"))])).unwrap();
    let head: Vec<u32> =
        packet[..16].chunks(4).map(|c| u32::from_le_bytes(c.try_into().unwrap())).collect();
    assert_eq!(head, vec![packet.len() as u32, 1, 8, 1]);
    assert_eq!(mux_reply_length(&packet[..16]).unwrap(), packet.len() - 16);
    let sent = parse(&packet[16..]).unwrap();
    assert_eq!(
        sent.as_dictionary().unwrap().text("ProgName").map(String::as_str),
        Some("AirCard")
    );
    let lockdown = lockdown_request(&get_value_request("DevicePublicKey")).unwrap();
    assert_eq!(lockdown_reply_length(&lockdown[..4]).unwrap(), lockdown.len() - 4);
}

fn listing(entries: Vec<(&str, u64, &str)>) -> Dict {
    let items = entries
        .into_iter()
        .map(|(kind, id, serial)| {
            dict(vec![(
                "Properties",
                dict(vec![
                    ("ConnectionType", string(kind)),
                    ("DeviceID", Plist::Integer(id)),
                    ("SerialNumber", string(serial)),
                ]),
            )])
        })
        .collect();
    dict_from(vec![("DeviceList", Plist::Array(items))])
}

#[test]
fn only_cabled_devices_are_listed() {
    let mux = UsbMux::at("127.0.0.1:1".into());
    let devices = mux
        .devices(&listing(vec![
            ("USB", 4, "00008130000404D021D8001C"),
            ("Network", 5, "00008130000404D021D8001D"),
        ]))
        .unwrap();
    assert_eq!(devices.len(), 1);
    assert_eq!(devices[0].id, 4);
    let chosen = mux.select(devices, Some("00008130-000404d021d8001c")).unwrap();
    assert_eq!(chosen.id, 4);
}

#[test]
fn a_choice_must_be_unambiguous() {
    let mux = UsbMux::default();
    let both = listing(vec![
        ("USB", 4, "00008130000404D021D8001C"),
        ("USB", 5, "00008130000404D021D8001D"),
    ]);
    assert!(mux.select(mux.devices(&both).unwrap(), None).is_err());
    assert!(mux.select(Vec::new(), None).is_err());
    let one = listing(vec![("USB", 4, "00008130000404D021D8001C")]);
    assert_eq!(mux.select(mux.devices(&one).unwrap(), None).unwrap().id, 4);
    assert!(mux
        .select(mux.devices(&one).unwrap(), Some("00008130000404D021D8001D"))
        .is_err());
}

#[test]
fn refused_connections_say_why() {
    let mux = UsbMux::default();
    let zero = dict_from(vec![("Number", Plist::Integer(0))]);
    let three = dict_from(vec![("Number", Plist::Integer(3))]);
    assert!(mux.connect(&zero, 62078).is_ok());
    let e = mux.connect(&three, 62078).unwrap_err();
    assert!(e.message().contains("62078"), "{}", e.message());
}

#[test]
fn errors_in_replies_stop_a_step() {
    let fine = dict_from(vec![("Request", string("GetValue")), ("Value", Plist::Data(vec![1]))]);
    assert!(check_reply(&fine, "Reading").is_ok());
    assert!(get_value(&fine, "DevicePublicKey").unwrap().as_data() == Some(&vec![1]));
    let bad = dict_from(vec![("Error", string("PasswordProtected"))]);
    let e = check_reply(&bad, "Reading").unwrap_err();
    assert!(e.message().contains("PasswordProtected"));
    assert!(get_value(&bad, "DevicePublicKey").is_err());
    assert!(get_value(&Dict::new(), "DevicePublicKey").is_err());
}

#[test]
fn values_come_back_from_both_formats() {
    let mut d = Dict::new();
    d.insert("b".into(), Plist::Bool(true));
    d.insert("n".into(), Plist::Integer(7));
    d.insert("b".into(), Plist::Bool(false));
    d.remove("n");
    d.insert("list".into(), Plist::Array(vec![string("x"), Plist::Data(vec![9, 0])]));
    let value = Plist::Dict(d);
    for bytes in [to_xml(&value).unwrap(), to_binary(&value)] {
        let back = parse(&bytes).unwrap();
        let back = back.as_dictionary().unwrap();
        assert_eq!(back.len(), 2);
        assert_eq!(back.boolean("b"), Some(false));
        assert_eq!(back.number("n"), None);
        let list = back.array("list").unwrap();
        assert_eq!(list[0].as_string().map(String::as_str), Some("x"));
        assert_eq!(list[1].as_data(), Some(&vec![9, 0]));
    }
    assert!(parse(b"no list").is_err());
}

/// A list of one entry, in XML.
fn xml(entry: &str) -> Vec<u8> {
    format!("<?xml version=\"1.0\"?><plist version=\"1.0\"><dict><key>k</key>{entry}</dict></plist>")
        .into_bytes()
}

/// A binary list of one object.
fn binary(object: &[u8]) -> Vec<u8> {
    let mut list = b"bplist00".to_vec();
    list.extend_from_slice(object);
    list.push(8);
    list.extend_from_slice(&[0, 0, 0, 0, 0, 0, 1, 1]);
    list.extend_from_slice(&1u64.to_be_bytes());
    list.extend_from_slice(&0u64.to_be_bytes());
    list.extend_from_slice(&(8 + object.len() as u64).to_be_bytes());
    list
}

fn date_in(list: &[u8]) -> (bool, u64, u32) {
    parse(list).unwrap().as_dictionary().unwrap().get("k").unwrap().as_date().unwrap()
}

#[test]
fn dates_are_read_with_their_moment() {
    assert_eq!(date_in(&xml("<date>2024-05-06T07:08:09Z</date>")), (false, 1_714_979_289, 0));
    assert_eq!(date_in(&xml("<date>1969-12-31T23:59:59Z</date>")), (true, 1, 0));
    assert_eq!(date_in(&xml("<date>0000-01-01T00:00:00Z</date>")), (true, 62_167_219_200, 0));
    assert_eq!(date_in(&xml("<date>9999-12-31T23:59:59Z</date>")), (false, 253_402_300_799, 0));
    assert_eq!(date_in(&xml("<date>9999-12-30T23:59:59-01:00</date>")), (false, 253_402_217_999, 0));
    assert_eq!(date_in(&xml("<x:date >2024-05-06T07:08:09Z</x:date >")), (false, 1_714_979_289, 0));
    for (text, seconds) in [
        ("9999-12-31T03:00:00+05:00", 253_402_300_800 - 26 * 3600),
        ("9999-12-31T22:59:59-01:00", 253_402_300_799),
        ("9999-12-31 00:00:00-23:59", 253_402_300_740),
        ("2024&#45;05-06T07:08:&#x30;9Z", 1_714_979_289),
        ("2024-05<!-- a <date> note -->-06T07:08:09Z", 1_714_979_289),
        ("2024-05-06<![CDATA[9999-12-31]]>T07:08:09<?x y?>Z&unknown;", 1_714_979_289),
    ] {
        assert_eq!(date_in(&xml(&format!("<date>{text}</date>"))), (false, seconds, 0));
    }
    let late = "<date>9999-12-31T23:59:59-01:00</date>";
    let date = "<date>2024-05-06T07:08:09Z</date>";
    for around in [
        format!("<!-- {late} -->{date}"),
        format!("<![CDATA[{late}]]>{date}"),
        format!("<?x {late}?>{date}"),
        format!("<!DOCTYPE plist [<!ENTITY a \"{late}]>\"><!-- ]> {late} --><?y ]>?>]>{date}"),
    ] {
        assert_eq!(date_in(&xml(&around)), (false, 1_714_979_289, 0));
    }
    let plain = parse(format!("{{ k = \"{late}\"; }}").as_bytes()).unwrap();
    assert_eq!(plain.as_dictionary().unwrap().text("k").map(String::as_str), Some(late));
}

#[test]
fn dates_that_lead_out_of_the_calendar_are_refused() {
    for entry in [
        "<date>9999-12-31T23:59:59-01:00</date>",
        "<x:date>9999-12-31T23:59:59-01:00</x:date>",
        "<date>9999-12<!-- a note -->-31T23:59:59-01:00</date>",
        "<date>9999&#45;12-31T23:59:59-01:00</date>",
        "<date a=\"></\">9999-12-31T23:59:59-01:00</date>",
        "<date </x>9999-12-31T23:59:59-01:00</date>",
        "<a\">\":date>9999-12-31T23:59:59-01:00</a\">\":date>",
        "<date>9999-12-31T23:59:59-01:00",
        "<date>9999-12-31T23:59:59.123456789-00:01</date>",
        "<date>9999-12-31&lt;00:30:00-23:30</date>",
        "<date>&#57;99&none;9-12-31<![CDATA[x]]>T23:59:59&#x2D;01:00</date>",
        "<!-- --><true/>&#32;<date>9999-12-31T23:59:59-01:00</date>",
    ] {
        assert!(!all_dates_read(&xml(entry)));
        let e = parse(&xml(entry)).unwrap_err();
        assert_eq!(e.message(), "Property list holds a date that cannot be read");
    }
    for text in ["date: 9999-12-31T00:00:00-01:00", "a:date b", "<date>", "\"x:date\" & y"] {
        let list = to_xml(&dict(vec![("k", string(text))])).unwrap();
        assert!(all_dates_read(&list));
        let back = parse(&list).unwrap();
        assert_eq!(back.as_dictionary().unwrap().text("k").map(String::as_str), Some(text));
    }
    assert_eq!(
        date_in(&xml("<date a='x' b=\"y>\">2024-05-06T07:08:09Z</date>")),
        (false, 1_714_979_289, 0)
    );
    assert!(all_dates_read(&xml("<date>no</date>")));
    assert!(parse(&xml("<date>no</date>")).is_err());
    assert!(all_dates_read(b"bplist00<date>9999-12-31"));
}

#[test]
fn dates_outside_the_calendar_are_not_printed() {
    let mut object = vec![0x33];
    object.extend_from_slice(&(-1.0e11f64).to_be_bytes());
    let early = parse(&binary(&object)).unwrap();
    assert_eq!(debug_text(&early), None);
    let e = to_xml(&early).unwrap_err();
    assert_eq!(e.message(), "Property list holds a date that cannot be written");
    assert!(to_xml(&Plist::Array(vec![early.clone()])).is_err());
    assert!(to_xml(&dict(vec![("d", early)])).is_err());
    let plain = parse(&xml("<date>2024-05-06T07:08:09Z</date>")).unwrap();
    let written = String::from_utf8(to_xml(&plain).unwrap()).unwrap();
    assert!(written.contains("<date>2024-05-06T07:08:09Z</date>"), "{written}");
    assert!(debug_text(&plain).unwrap().contains("2024-05-06T07:08:09Z"));
    assert!(lies_in_calendar(true, 62_167_219_200, 0));
    assert!(!lies_in_calendar(true, 62_167_219_200, 1));
    assert!(lies_in_calendar(false, 253_402_300_799, 999_999_999));
    assert!(!lies_in_calendar(false, 253_402_300_800, 0));
}

#[test]
fn unopened_values_come_back_from_binary() {
    let entries = [
        "<real>1.5</real>",
        "<real>-0.0</real>",
        "<integer>-7</integer>",
        "<integer>-9223372036854775808</integer>",
        "<integer>18446744073709551615</integer>",
        "<date>2024-05-06T07:08:09Z</date>",
        "<date>2024-05-06T07:08:09.501953125Z</date>",
        "<date>1999-05-06T07:08:09.25Z</date>",
        "<date>1901-05-06T07:08:09.75Z</date>",
        "<date>9999-12-31T23:59:59.998046875Z</date>",
        "<date>0001-01-01T00:00:00Z</date>",
    ];
    for list in entries.iter().map(|e| xml(e)).chain([binary(&[0x80, 9]), binary(&[0x81, 1, 2])]) {
        let value = parse(&list).unwrap();
        let back = parse(&to_binary(&value)).unwrap();
        assert_eq!(debug_text(&back).unwrap(), debug_text(&value).unwrap());
        assert_eq!(to_binary(&back), to_binary(&value));
    }
    assert!(to_xml(&parse(&binary(&[0x80, 9])).unwrap()).is_err());
}

#[test]
fn opened_values_come_back_from_xml() {
    let text = "a\r\n\t <b> & 'c' \"d\" ]]> é \u{1F600} \u{1}";
    let value = dict(vec![
        ("text", string(text)),
        (text, string("")),
        ("data", Plist::Data((0..=255).collect())),
        ("none", Plist::Data(vec![])),
        ("list", Plist::Array(vec![Plist::Integer(u64::MAX), Plist::Bool(true), Plist::Array(vec![])])),
        ("dict", Plist::Dict(Dict::new())),
        ("date", parse(&binary(&[0x33, 0x41, 0xC5, 0, 0, 0, 0, 0, 0])).unwrap()),
    ]);
    let back = parse(&to_xml(&value).unwrap()).unwrap();
    assert_eq!(debug_text(&back), debug_text(&value));
    assert_eq!(to_binary(&back), to_binary(&value));
}

#[test]
fn requests_arrive_as_they_were_sent() {
    let mux = UsbMux::default();
    let device = UsbDevice { id: 9, udid: "00008130-0000000000000001".into() };
    let packet = mux_request(mux.connect_request(&device, 62078)).unwrap();
    let sent = parse(&packet[16..]).unwrap();
    let sent = sent.as_dictionary().unwrap();
    assert_eq!(sent.number("PortNumber"), Some(32498));
    assert_eq!(sent.number("DeviceID"), Some(9));
    assert_eq!(sent.text("ProgName").map(String::as_str), Some("AirCard"));
}
