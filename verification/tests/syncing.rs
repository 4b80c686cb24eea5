use aircard::airtraffic::{
    check_job, run_native_worker, sync_assets_via_airtraffic, Verdict, JOB_LIMIT,
};
use aircard::device::DeviceTransport;
use aircard::failure::Failure;
use aircard::native_sync::{
    anchors, check_manifest, connecting, dataclasses, generate_uuid_v4, host_info,
    requested_assets, run, sync_types, Action, Event, HOST_INFO_MS, SILENCE_MS,
};
use aircard::usbmux::{dict, string};
use aircard::value::{to_binary, Plist};

#[test]
fn random_bytes_become_an_identifier() {
    assert_eq!(generate_uuid_v4([0; 16]), "00000000-0000-4000-8000-000000000000");
    assert_eq!(generate_uuid_v4([255; 16]), "ffffffff-ffff-4fff-bfff-ffffffffffff");
    let counted: [u8; 16] = std::array::from_fn(|i| i as u8);
    assert_eq!(generate_uuid_v4(counted), "00010203-0405-4607-8809-0a0b0c0d0e0f");
}

fn book(id: &str, download: bool) -> Plist {
    dict(vec![("AssetID", string(id)), ("IsDownload", Plist::Bool(download))])
}

fn manifest(books: Vec<Plist>) -> Plist {
    dict(vec![("Book", Plist::Array(books))])
}

#[test]
fn only_downloads_are_requested() {
    let m = manifest(vec![book("a", true), book("b", false), string("c"), book("d", true)]);
    assert_eq!(requested_assets(&m).unwrap(), vec!["a", "d"]);
    assert!(check_manifest(&m, &[("a", "x"), ("d", "y")]).is_ok());
    let e = check_manifest(&m, &[("a", "x"), ("b", "y")]).unwrap_err();
    assert_eq!(
        e.message(),
        "Asset 'b' missing from device download manifest (available: [\"a\", \"d\"])"
    );
    assert!(requested_assets(&dict(vec![])).is_err());
}

#[test]
fn a_whole_conversation_sends_every_asset() {
    let transport = DeviceTransport::Usb;
    let assets = [("a", "x"), ("b", "y"), ("c", "z")];
    let (mut talk, mut step) = run("phone", transport, true).unwrap();
    let mut sent = Vec::new();
    let mut pauses = Vec::new();
    let mut heard = vec![
        Event::Silence,
        Event::Heard("Ping".into(), None),
        Event::Heard("SyncAllowed".into(), None),
        Event::Heard("ReadyForSync".into(), None),
        Event::Heard(
            "AssetManifest".into(),
            Some(to_binary(&manifest(vec![book("a", true), book("b", true), book("c", true)]))),
        ),
    ];
    let mut logs = Vec::new();
    loop {
        logs.extend(step.log);
        pauses.push(step.pause_ms);
        let event = match step.action {
            Action::Read => heard.remove(0),
            Action::SendRequest => Event::Sent,
            Action::SendMetadata => Event::Sent,
            Action::SendAsset(i) => {
                sent.push(assets[i].0);
                Event::Sent
            },
            Action::Finish => break,
            Action::Stop(failure) => panic!("{}", failure.message()),
        };
        (talk, step) = talk.next(event, transport, &assets);
    }
    assert_eq!(sent, vec!["a", "b", "c"]);
    assert!(heard.is_empty());
    for pause in [SILENCE_MS, 400, 60, 2000] {
        assert!(pauses.contains(&pause), "{pause} in {pauses:?}");
    }
    assert_eq!(HOST_INFO_MS, 200);
    assert!(logs.contains(&"AirTraffic message: Ping".to_owned()));
}

#[test]
fn silence_ends_a_conversation() {
    for (transport, tries) in [(DeviceTransport::Usb, 15), (DeviceTransport::Wifi, 30)] {
        let (mut talk, mut step) = run("phone", transport, true).unwrap();
        let mut reads = 0;
        let failure = loop {
            match step.action {
                Action::Read => reads += 1,
                Action::Stop(failure) => break failure,
                _ => panic!("unexpected action"),
            }
            (talk, step) = talk.next(Event::Silence, transport, &[]);
        };
        assert_eq!(reads, tries);
        assert!(failure.message().starts_with("AirTraffic: SyncAllowed message not received."));
    }
}

#[test]
fn an_early_end_is_named() {
    let (talk, _) = run("phone", DeviceTransport::Usb, true).unwrap();
    let (_, step) = talk.next(Event::Heard("SyncFailed".into(), None), DeviceTransport::Usb, &[]);
    match step.action {
        Action::Stop(failure) => {
            assert_eq!(failure.message(), "AirTraffic ended before SyncAllowed: SyncFailed")
        },
        _ => panic!("went on"),
    }
    let e = run("phone", DeviceTransport::Usb, false).map(|_| ()).unwrap_err();
    assert_eq!(e.message(), "ATHostConnectionCreate failed for UDID: phone");
}

#[test]
fn the_host_introduces_itself() {
    let info = host_info("library");
    let d = info.as_dictionary().unwrap();
    for (key, text) in [
        ("Type", "iTunes"),
        ("Version", "13.7.0.161"),
        ("MacOSVersion", "Windows NT 10.0"),
        ("SyncHostName", "airlift"),
        ("LibraryID", "library"),
    ] {
        assert_eq!(d.text(key).map(String::as_str), Some(text));
    }
    assert_eq!(d.boolean("Wakeable"), Some(false));
    assert_eq!(d.array("SyncedDataclasses").unwrap().len(), 1);
    assert_eq!(dataclasses().as_array().unwrap()[0].as_string().unwrap(), "Book");
    assert_eq!(anchors().as_dictionary().unwrap().len(), 0);
    assert_eq!(sync_types().as_dictionary().unwrap().number("Book"), Some(1));
    assert!(connecting(DeviceTransport::Usb).contains("com.apple.atc"));
}

#[test]
fn a_watch_lasts_as_long_as_the_assets_need() {
    let assets = vec![("a", "b"); 100];
    let (job, watch) = sync_assets_via_airtraffic("phone", DeviceTransport::Usb, &assets, 1000);
    assert_eq!(job.udid, "phone");
    assert_eq!(job.assets.len(), 100);
    assert_eq!(watch.deadline_ms, 1000 + 200_000);
    let (_, watch) = sync_assets_via_airtraffic("phone", DeviceTransport::Usb, &assets[..2], 0);
    assert_eq!(watch.deadline_ms, 60_000);
    let (_, watch) = sync_assets_via_airtraffic("phone", DeviceTransport::Wifi, &assets[..2], 0);
    assert_eq!(watch.deadline_ms, 120_000);
    assert!(matches!(watch.poll(None, 119_999), Verdict::Wait));
    assert!(matches!(watch.poll(Some(true), 500_000), Verdict::Finished));
    match watch.poll(Some(false), 0) {
        Verdict::Stop(f) => assert_eq!(
            f.message(),
            "Apple native sync worker failed; see preceding diagnostic"
        ),
        _ => panic!("went on"),
    }
    match watch.poll(None, 120_000) {
        Verdict::Stop(f) => assert_eq!(
            f.message(),
            "Apple native sync timed out; worker stopped before restoring Books state"
        ),
        _ => panic!("went on"),
    }
}

#[test]
fn a_worker_reports_by_its_status() {
    assert_eq!(run_native_worker(&Ok(())), (None, 0));
    assert_eq!(
        run_native_worker(&Err(Failure::said("bad").context("Job"))),
        (Some("Native sync failed: Job: bad".to_owned()), 1)
    );
    assert!(check_job(&vec![b' '; JOB_LIMIT]).is_ok());
    let e = check_job(&vec![b' '; JOB_LIMIT + 1]).unwrap_err();
    assert_eq!(e.message(), "Sync job too large");
}
