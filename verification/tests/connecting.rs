use aircard::certificates::HostKeys;
use aircard::device::{ConnectionMode as M, DeviceTransport as T};
use aircard::failure::Failure;
use aircard::native_stream::{io_result, NativeStream, StreamFault};
use aircard::pairing::{generate_from, PairRecord};
use aircard::usb_opening::{open_with, OpenAction, OpenEvent, OpenStep, OwnIdentity};
use aircard::usbmux::{dict, string, UsbDevice};
use aircard::value::{dict_from, Dict, Plist};
use aircard::wallet_connection::{
    cancelled, needs_new_pairing, pair_reply, pair_request, preferred_route, start_session,
    trusted, DeviceEntry, DeviceSession, Fallback, PairReply, UsbSession, LOG_SERVICE,
};
use rsa::pkcs1::EncodeRsaPublicKey;
use rsa::pkcs8::EncodePrivateKey;
use rsa::RsaPrivateKey;

const UDID: &str = "00008130-0000000000000001";

/// Four primes of 1024 bits each, the largest first. Finding others takes longer than
/// a test should.
const PRIMES: [&str; 4] = [
    "E21B6AD762232D55F8D072CC8F5832B900A6327C23DA84D47811FEEE84464FC09128AE8FD127A787\
     5D6322D70BA2C02A4B603AE7B556F1FE82EE2791D0BA19318BF8B8EC98D3D871106B5CEB2D73DC5D\
     A03FFC430CF1B83FECEE6FD733161E57FEF4346C4BA17AC81F401CEE57AB9EE1BD4114A918DEC622\
     24868AAA5C73EBD3",
    "D8A6D30FD625347C28656CE07B87F922520F0B96846059C5407BF4408AF697943C46FDF6481B281F\
     D670AEB14A79BF7863A7A00D14641B3F145C6D0FFCBDCB134BF889C952D1BB35A6B84159CE54AFAC\
     0F9C369D49D2B468251CD451758FC3EF8B3087621C24353D7AA921D584582C74FEB731B10EF06DAC\
     62FEF36A13B814CF",
    "CFDB30D278CBF39509969A3EF7BB577DF9284028934A2F7956A4685EFA1419C8D75FD51B2985039E\
     47FB3B7B21C392E8DF061A87B300AD5DBF2C26FABDA294D4EE5E1390B3BCE25895EF5AE9D8991286\
     7543D3209D290ADA1D65AB7E6EF6E39A8186F2A15EFEF1ACC439DAE183077B1514E64626FEA60F9A\
     C0A2884C8A6A5A75",
    "C2D0D986757D10BD579C1CA3D4BAF2241737ADAD03FEC4EAAD0F6B901DB63810167C3578739DA69C\
     A019DAEB1781CD311289C358498EA7D90D2FCA7D0F65F7B5F060A9C79CDA762BB9983632068E1EEA\
     C3AA1EDDFB53D60825F827E01F01610F5F25CC5067834530F4735A408B196D748809C01A9AB52C8F\
     44C18CC81E402E85",
];

/// The key that two of the primes make.
fn key(p: usize, q: usize) -> RsaPrivateKey {
    let number = |digits: &str| rsa::BigUint::parse_bytes(digits.as_bytes(), 16).unwrap();
    RsaPrivateKey::from_p_q(number(PRIMES[p]), number(PRIMES[q]), rsa::BigUint::from(65537u32))
        .unwrap()
}

/// Keys of this computer.
fn own_keys() -> HostKeys {
    let der = |key: RsaPrivateKey| key.to_pkcs8_der().unwrap().as_bytes().to_vec();
    HostKeys {
        root: der(key(0, 1)),
        host: der(key(2, 3)),
        id: "6a1b0c6e-8f0a-4c8e-9d58-0a4d3c2b1f00".into(),
    }
}

#[test]
fn only_identity_errors_trigger_one_repair() {
    for e in ["InvalidHostID", "MissingPairRecord", "InvalidPairRecord"] {
        assert!(needs_new_pairing(dict(vec![("Error", string(e))]).as_dictionary().unwrap()));
    }
    for e in ["PasswordProtected", "UserDeniedPairing", "ServiceProhibited"] {
        assert!(!needs_new_pairing(dict(vec![("Error", string(e))]).as_dictionary().unwrap()));
    }
}

#[test]
fn cancel_before_open_does_not_contact_device() {
    let entries = vec![DeviceEntry { udid: UDID.into(), transport: T::Usb }];
    let result = DeviceSession::open(&entries, None, M::Usb, true);
    assert!(result.is_err());
    let step = open_with(Ok(device()), true);
    assert!(matches!(step.action, OpenAction::Stop(_)));
    assert!(step.logs.is_empty());
}

#[test]
fn explicit_modes_do_not_fall_back_and_auto_prefers_usb() {
    assert_eq!(preferred_route(M::Auto, &[T::Wifi, T::Usb]).unwrap(), T::Usb);
    assert_eq!(preferred_route(M::Auto, &[T::Wifi]).unwrap(), T::Wifi);
    assert_eq!(preferred_route(M::Wifi, &[T::Wifi, T::Usb]).unwrap(), T::Wifi);
    assert!(preferred_route(M::Usb, &[T::Wifi]).is_err());
    assert!(preferred_route(M::Wifi, &[T::Usb]).is_err());
    assert!(preferred_route(M::Auto, &[]).is_err());
}

fn device() -> UsbDevice {
    UsbDevice { id: 9, udid: UDID.into() }
}

#[test]
fn a_session_needs_one_device() {
    let two = vec![
        DeviceEntry { udid: UDID.into(), transport: T::Usb },
        DeviceEntry { udid: "00008130-0000000000000002".into(), transport: T::Usb },
    ];
    let e = DeviceSession::open(&two, None, M::Auto, false).unwrap_err_text();
    assert_eq!(e, "Select one iPhone before opening a device session");
    let route = DeviceSession::open(&two, Some("000081300000000000000002"), M::Auto, false);
    assert_eq!(route.ok().unwrap().transport, T::Usb);
    let both = vec![
        DeviceEntry { udid: UDID.to_lowercase(), transport: T::Usb },
        DeviceEntry { udid: UDID.into(), transport: T::Wifi },
    ];
    let route = DeviceSession::open(&both, None, M::Auto, false).ok().unwrap();
    assert_eq!(route.transport, T::Usb);
    assert!(route.wifi_available);
    let e = DeviceSession::open(&both, Some("other"), M::Wifi, false).unwrap_err_text();
    assert_eq!(e, "No device available for WiFi only. Refresh the device list.");
}

trait ErrText {
    fn unwrap_err_text(self) -> String;
}

impl<X> ErrText for Result<X, Failure> {
    fn unwrap_err_text(self) -> String {
        match self {
            Ok(_) => panic!("no failure"),
            Err(failure) => failure.message(),
        }
    }
}

#[test]
fn only_auto_falls_back_to_the_network() {
    let lost = || Failure::said("lost");
    match DeviceSession::fall_back(lost(), M::Auto, true, false) {
        Fallback::Wifi(line) => assert_eq!(
            line,
            "USB session failed: lost; trying the available WiFi connection."
        ),
        Fallback::Stop(_) => panic!("did not fall back"),
    }
    for (mode, wifi, stop) in [(M::Usb, true, false), (M::Auto, false, false), (M::Auto, true, true)]
    {
        assert!(matches!(
            DeviceSession::fall_back(lost(), mode, wifi, stop),
            Fallback::Stop(_)
        ));
    }
}

#[test]
fn a_stopped_user_is_heard() {
    assert!(cancelled(false).is_ok());
    assert!(cancelled(true).is_err());
}

#[test]
fn replies_to_pairing_have_their_meaning() {
    let reply = |e: &str| pair_reply(&dict_from(vec![("Error", string(e))]));
    assert!(matches!(pair_reply(&Dict::new()), PairReply::Trusted));
    assert!(matches!(reply("PairingDialogResponsePending"), PairReply::Pending));
    for (e, text) in [
        (
            "UserDeniedPairing",
            "Trust was declined on iPhone. Unlock it and approve Trust before scanning",
        ),
        ("PasswordProtected", "iPhone is locked. Unlock with the passcode before scanning"),
        ("Odd", "App pairing failed: Odd"),
    ] {
        match reply(e) {
            PairReply::Refused(failure) => assert_eq!(failure.message(), text),
            _ => panic!("not refused: {e}"),
        }
    }
}

#[test]
fn services_are_started_by_name() {
    let session = UsbSession { device: device(), record: PairRecord(Dict::new()) };
    assert_eq!(session.udid(), UDID);
    let request = session.start_service_request(LOG_SERVICE);
    let d = request.as_dictionary().unwrap();
    assert_eq!(d.text("Request").map(String::as_str), Some("StartService"));
    assert_eq!(d.text("Service").map(String::as_str), Some("com.apple.syslog_relay"));
    let reply = dict_from(vec![
        ("Port", Plist::Integer(12345)),
        ("EnableServiceSSL", Plist::Bool(true)),
    ]);
    assert_eq!(session.start_service(&reply, LOG_SERVICE).unwrap(), (12345, true));
    let reply = dict_from(vec![("Port", Plist::Integer(70000))]);
    assert!(session.start_service(&reply, LOG_SERVICE).is_err());
    assert!(session.start_service(&Dict::new(), LOG_SERVICE).is_err());
}

#[test]
fn native_streams_check_what_apple_hands_over() {
    assert!(NativeStream::open(0).is_err());
    let stream = NativeStream::open(5).unwrap();
    assert_eq!(stream.handle(), 5);
    assert!(stream.set_timeout(0).is_err());
    assert_eq!(stream.set_timeout(3).unwrap(), 3);
    assert!(matches!(io_result(4, 4, 0), Ok(4)));
    assert!(matches!(io_result(-1, 4, 10060), Err(StreamFault::Os(10060))));
    match io_result(-1, 4, 0) {
        Err(StreamFault::Other(f)) => assert_eq!(f.message(), "Apple service I/O failed"),
        _ => panic!("no fault"),
    }
    match io_result(5, 4, 0) {
        Err(StreamFault::Other(f)) => assert_eq!(f.message(), "Invalid Apple service byte count"),
        _ => panic!("no fault"),
    }
}

/// What a phone and the disk do while a session is opened.
struct World {
    public: Vec<u8>,
    stored: Option<PairRecord>,
    pending: usize,
    stale: bool,
    pairings: usize,
    connections: usize,
    logs: Vec<String>,
}

impl World {
    fn reply(&mut self, request: &Plist) -> Dict {
        let d = request.as_dictionary().unwrap();
        match d.text("Request").unwrap().as_str() {
            "GetValue" => dict_from(vec![("Value", Plist::Data(self.public.clone()))]),
            "Pair" => {
                let shown = d.dictionary("PairRecord").unwrap();
                assert!(shown.get("HostPrivateKey").is_none());
                assert!(shown.get("RootPrivateKey").is_none());
                if self.pending > 0 {
                    self.pending -= 1;
                    return dict_from(vec![("Error", string("PairingDialogResponsePending"))]);
                }
                self.pairings += 1;
                dict_from(vec![
                    ("Request", string("Pair")),
                    ("EscrowBag", Plist::Data(vec![1, 2, 3])),
                ])
            },
            "StartSession" => {
                if self.stale {
                    self.stale = false;
                    return dict_from(vec![("Error", string("InvalidHostID"))]);
                }
                dict_from(vec![
                    ("SessionID", string("mock-session")),
                    ("EnableSessionSSL", Plist::Bool(true)),
                ])
            },
            other => panic!("unexpected request: {other}"),
        }
    }

    fn run(&mut self, first: OpenStep) -> Result<UsbSession, Failure> {
        let mut step = first;
        loop {
            self.logs.extend(step.logs);
            step = match step.action {
                OpenAction::Connect(o) | OpenAction::Reconnect(o) => {
                    self.connections += 1;
                    o.next(OpenEvent::Connected(Ok(())), false, false)
                },
                OpenAction::Ask(o, request) => {
                    let reply = self.reply(&request);
                    o.next(OpenEvent::Reply(Ok(reply)), false, false)
                },
                OpenAction::Load(o) => {
                    let stored = self.stored.take();
                    o.next(OpenEvent::Loaded(Ok(stored)), false, false)
                },
                OpenAction::Identify(o) => {
                    o.next(OpenEvent::Identified(Ok(identity())), false, false)
                },
                OpenAction::Pause(o) => o.next(OpenEvent::Paused, false, false),
                OpenAction::Save(o, record) => {
                    self.stored = Some(record);
                    o.next(OpenEvent::Saved(Ok(())), false, false)
                },
                OpenAction::Secure(o, _) => o.next(OpenEvent::Secured(Ok(())), false, false),
                OpenAction::Open(session) => return Ok(session),
                OpenAction::Stop(failure) => return Err(failure),
            };
        }
    }
}

fn identity() -> OwnIdentity {
    OwnIdentity { buid: "test-buid".into(), keys: own_keys() }
}

fn world() -> World {
    let public = key(0, 2)
        .to_public_key()
        .to_pkcs1_pem(Default::default())
        .unwrap()
        .into_bytes();
    World {
        public,
        stored: None,
        pending: 2,
        stale: false,
        pairings: 0,
        connections: 0,
        logs: vec![],
    }
}

#[test]
fn a_stale_identity_is_renewed_once() {
    let mut world = world();
    let session = world.run(open_with(Ok(device()), false)).ok().unwrap();
    assert_eq!(session.udid(), UDID);
    assert_eq!(session.record.data("EscrowBag").unwrap(), &[1, 2, 3]);
    assert_eq!((world.pairings, world.connections), (1, 1));
    world.stored = Some(session.record);
    world.stale = true;
    let renewed = world.run(open_with(Ok(device()), false)).ok().unwrap();
    assert!(renewed.record.matches_device(&world.public).unwrap());
    assert_eq!((world.pairings, world.connections), (2, 3));
    assert!(world.logs.iter().any(|s| s.contains("Renewing app pairing once")));
}

#[test]
fn a_stored_pairing_is_used_again() {
    let mut world = world();
    world.stored = Some(generate_from(&world.public, "test-buid", &own_keys()).unwrap());
    world.run(open_with(Ok(device()), false)).ok().unwrap();
    assert_eq!(world.pairings, 0);
}

#[test]
fn trust_is_not_waited_for_for_ever() {
    let mut world = world();
    let mut step = open_with(Ok(device()), false);
    let failure = loop {
        step = match step.action {
            OpenAction::Connect(o) => o.next(OpenEvent::Connected(Ok(())), false, false),
            OpenAction::Ask(o, request) => {
                world.pending = 1;
                let reply = world.reply(&request);
                o.next(OpenEvent::Reply(Ok(reply)), false, true)
            },
            OpenAction::Load(o) => o.next(OpenEvent::Loaded(Ok(None)), false, false),
            OpenAction::Identify(o) => {
                o.next(OpenEvent::Identified(Ok(identity())), false, false)
            },
            OpenAction::Stop(failure) => break failure,
            _ => panic!("unexpected step"),
        };
    };
    assert!(
        failure.message().contains("Trust confirmation timed out"),
        "{}",
        failure.message()
    );
}

#[test]
fn a_session_names_this_computer() {
    let record = aircard::pairing::assemble("D", "H", "R", "K", "host", "system");
    let request = start_session(&record).unwrap();
    let d = request.as_dictionary().unwrap();
    assert_eq!(d.text("Request").map(String::as_str), Some("StartSession"));
    assert_eq!(d.text("HostID").map(String::as_str), Some("HOST"));
    assert_eq!(d.text("SystemBUID").map(String::as_str), Some("system"));
    let shown = record.public_record().unwrap();
    let request = pair_request(shown);
    assert_eq!(
        request.as_dictionary().unwrap().text("Request").map(String::as_str),
        Some("Pair")
    );
    let reply = dict_from(vec![("EscrowBag", Plist::Data(vec![4]))]);
    assert_eq!(trusted(record, &reply).data("EscrowBag").unwrap(), &[4]);
}

#[test]
fn lines_about_outside_failures_keep_their_frame() {
    let outside = || Failure::Io(std::io::Error::other("the wire")).context("Reading");
    match DeviceSession::fall_back(outside(), M::Auto, true, false) {
        Fallback::Wifi(line) => assert_eq!(
            line,
            "USB session failed: Reading: the wire; trying the available WiFi connection."
        ),
        Fallback::Stop(failure) => panic!("{}", failure.message()),
    }
}
