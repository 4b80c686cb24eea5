use aircard::failure::Failure;
use aircard::lines::LineDecoder;
use aircard::scanner::{
    begin_scan, card_name, distinct_hashes, extract_card_hashes, extract_card_name_from_line, found_lines,
    is_valid_card_hash, is_wallet_line, load_saved_cards, normalized_hash, scan_syslog_for_cards,
    CardPatterns, SavedCard, Scan, ScanRead, ScanStart, ScanStep, DUMMY_HASHES,
};
use base64::Engine;

const A: &str = "OM6NYhwXMZrAw0sRUjR62wmF4ZQ=";
const B: &str = "d64fKk0kyHWP11IWV2GRLud4XQk=";

fn hides(line: &str) -> bool {
    CardPatterns::compile().unwrap().hides_identifier(line)
}

#[test]
fn selection_without_colon_and_specific_redaction() {
    let hash = "aB12cD34eF56gH78iJ90kL";
    assert_eq!(
        extract_card_hashes(&format!("Passbook: pass uniqueID {hash}, accountID (null)")),
        vec![hash]
    );
    assert!(hides("Passbook: pass uniqueID <private>, accountID (null)"));
    assert!(hides("PassKitCore: selected pass uniqueID: <private>"));
    assert!(!hides("passd: description=<private>"));
    assert!(!hides(&format!("passd: pass uniqueID {hash}, title=<private>")));
}

#[test]
fn opaque_paths_identifiers_and_redaction_are_independent() {
    let opaque = "aB12cD34eF56gH78iJ90kL";
    assert_eq!(
        extract_card_hashes(&format!("passd: title=<private> /Cards/{opaque}.pkpass")),
        vec![opaque]
    );
    assert_eq!(extract_card_hashes(&format!("passd: passUniqueIdentifier='{A}'")), vec![A]);
    assert_eq!(extract_card_hashes(&format!("passd: uniqueIdentifier='{B}'")), vec![B]);
    assert!(!is_valid_card_hash("9qzwRxHhdY6jmi/stAk+Sd8X08g="));
}

#[test]
fn padded_paths_and_multiple_cards() {
    assert_eq!(
        extract_card_hashes(&format!(
            "passd: /var/mobile/Library/Passes/Cards/{A}.pkpass /Cards/{B}.pkcache"
        )),
        vec![A, B]
    );
}

#[test]
fn sha256_urlsafe_with_many_separators() {
    let bytes: [u8; 32] = std::array::from_fn(|i| if i % 2 == 0 { 255 } else { (i * 7) as u8 });
    let h = base64::engine::general_purpose::URL_SAFE.encode(bytes);
    assert!(h.matches('_').count() > 1);
    assert!(is_valid_card_hash(&h));
    assert_eq!(
        extract_card_hashes(&format!("passd: /Cards/{}.pkpass", h.trim_end_matches('='))),
        vec![h.trim_end_matches('=').to_owned()]
    );
}

#[test]
fn invalid_candidate_does_not_hide_valid_one() {
    assert_eq!(
        extract_card_hashes(&format!(
            "passd: Card hash: AAAAAAAAAAAAAAAAAAAAAAAAAAA=; Card hash: '{A}'"
        )),
        vec![A]
    );
}

#[test]
fn unrelated_private_dummy_and_malformed() {
    for line in [
        format!("networkd: token {A}"),
        "passd: card hash: <private>".into(),
        format!("passd: dummy {}", DUMMY_HASHES[0]),
        "passd: PresentationBinderIndirectAccessHosting-".into(),
    ] {
        assert!(extract_card_hashes(&line).is_empty(), "{line}");
    }
    assert!(!is_valid_card_hash("AAAAAAAAAAAAAAAAAAAAAAAAAAA="));
    assert!(!is_valid_card_hash("../../etc/passwd"));
}

#[test]
fn fragmented_utf8_nul_crlf_and_oversized_lines() {
    let text = format!("passd: title='交通卡' card hash: '{A}'\r\npassd: /Cards/{B}.cache\0");
    let mut d = LineDecoder::new();
    let mut lines = vec![];
    for b in text.as_bytes().chunks(1) {
        lines.extend(d.feed(b));
    }
    assert_eq!(lines.len(), 2);
    assert_eq!(extract_card_name_from_line(&lines[0]).as_deref(), Some("交通卡"));
    assert_eq!(extract_card_hashes(&lines[1]), vec![B]);
    assert!(d.feed(&vec![b'x'; 300_000]).is_empty(), "unterminated line");
    assert!(d.pending_len() <= 256 * 1024);
    for s in d.feed(b"\npassd: ok\n") {
        assert_eq!(s, "passd: ok");
    }
}

#[test]
fn repeated_patterns_are_deduplicated() {
    assert_eq!(
        extract_card_hashes(&format!("passd: card hash: '{A}', path /Cards/{A}.pkpass")),
        vec![A]
    );
}

#[test]
fn pieces_give_the_same_lines_as_the_whole() {
    let text = "one\r\ntwo\0\nthree\n\nfour";
    let mut whole = LineDecoder::new();
    let expected = whole.feed(text.as_bytes());
    assert_eq!(expected, vec!["one", "two", "three"]);
    for size in 1..7 {
        let mut d = LineDecoder::new();
        let mut lines = vec![];
        for piece in text.as_bytes().chunks(size) {
            lines.extend(d.feed(piece));
        }
        assert_eq!(lines, expected);
        assert_eq!(d.pending_len(), 4);
    }
}

#[test]
fn broken_text_is_replaced() {
    let mut d = LineDecoder::new();
    assert_eq!(d.feed(b"a\xffb\n"), vec!["a\u{fffd}b"]);
}

#[test]
fn identifiers_have_a_normal_form() {
    assert_eq!(normalized_hash(A).as_deref(), Some(A));
    let once = normalized_hash(&A[..27]).unwrap();
    assert_eq!(normalized_hash(&once).as_deref(), Some(once.as_str()));
    for dummy in DUMMY_HASHES {
        assert_eq!(normalized_hash(dummy), None);
    }
    assert_eq!(normalized_hash(""), None);
}

#[test]
fn found_identifiers_are_listed_once() {
    let candidates = vec![Some(A.to_owned()), None, Some(B.to_owned()), Some(A.to_owned())];
    assert_eq!(distinct_hashes(&candidates), vec![A, B]);
}

#[test]
fn names_that_say_nothing_are_dropped() {
    assert_eq!(card_name(Some(" Transit ".into())).as_deref(), Some("Transit"));
    assert_eq!(card_name(Some("  ".into())), None);
    assert_eq!(card_name(None), None);
    assert!(extract_card_name_from_line("passd: title=<private>").is_none());
}

#[test]
fn wallet_lines_are_told_from_others() {
    assert!(is_wallet_line("PASSD: hello"));
    assert!(!is_wallet_line("networkd: hello"));
}

#[test]
fn stored_cards_that_name_no_card_are_dropped() {
    let stored = vec![
        SavedCard { hash: A.into(), name: "One".into() },
        SavedCard { hash: "../x".into(), name: "Two".into() },
    ];
    let cards = load_saved_cards(Some(stored));
    assert_eq!(cards.len(), 1);
    assert_eq!(cards[0].hash, A);
    assert!(load_saved_cards(None).is_empty());
}

fn go(step: ScanStep) -> (Vec<String>, Vec<String>) {
    match step {
        ScanStep::Go { found, report } => {
            (found.iter().map(|f| f.hash.clone()).collect(), report)
        },
        ScanStep::Stop(failure) => panic!("{}", failure.message()),
    }
}

#[test]
fn a_scan_reports_each_card_once() {
    let patterns = CardPatterns::compile().unwrap();
    let mut scan = Scan::new(Vec::new());
    let line = format!("passd: title='Transit' card hash: '{A}'\n");
    let read = ScanRead::Piece(line.clone().into_bytes());
    let (found, report) = go(scan_syslog_for_cards(&mut scan, &patterns, read, false));
    assert_eq!(found, vec![A]);
    assert!(report.is_empty());
    assert_eq!(scan.saved().len(), 1);
    assert_eq!(scan.saved()[0].name, "Transit");
    let read = ScanRead::Piece(line.into_bytes());
    let (found, _) = go(scan_syslog_for_cards(&mut scan, &patterns, read, false));
    assert!(found.is_empty());
    let (_, report) = go(scan_syslog_for_cards(&mut scan, &patterns, ScanRead::Nothing, true));
    assert_eq!(report[0], "Scan active: 2 log lines, 2 Wallet lines, 1 cards detected.");
    assert_eq!(scan.count(), 1);
    assert_eq!(scan.stopped(), "Scan stopped. 1 cards detected.");
}

#[test]
fn a_scan_tells_once_that_identifiers_are_hidden() {
    let patterns = CardPatterns::compile().unwrap();
    let mut scan = Scan::new(Vec::new());
    let (_, report) = go(scan_syslog_for_cards(&mut scan, &patterns, ScanRead::Nothing, true));
    assert_eq!(report.len(), 2);
    assert!(report[1].starts_with("No Wallet activity yet."));
    let read = ScanRead::Piece(b"Passbook: pass uniqueID <private>\n".to_vec());
    let (_, report) = go(scan_syslog_for_cards(&mut scan, &patterns, read, true));
    assert!(report[1].contains("hid its identifier"));
    let (_, report) = go(scan_syslog_for_cards(&mut scan, &patterns, ScanRead::Nothing, true));
    assert!(report[1].starts_with("Wallet activity received"));
}

#[test]
fn a_closed_log_stops_the_scan() {
    let patterns = CardPatterns::compile().unwrap();
    let mut scan = Scan::new(Vec::new());
    let step = scan_syslog_for_cards(&mut scan, &patterns, ScanRead::Closed, false);
    match step {
        ScanStep::Stop(failure) => assert_eq!(
            failure.message(),
            "iPhone closed the wallet log connection. Reconnect and scan again"
        ),
        ScanStep::Go { .. } => panic!("the scan went on"),
    }
    let broken = ScanRead::Failed(Failure::said("reset"));
    match scan_syslog_for_cards(&mut scan, &patterns, broken, false) {
        ScanStep::Stop(failure) => {
            assert_eq!(failure.message(), "Wallet log stream was interrupted: reset")
        },
        ScanStep::Go { .. } => panic!("the scan went on"),
    }
}

#[test]
fn a_stopped_scan_is_no_failure() {
    match begin_scan(Some(Failure::said("Cancelled")), true) {
        ScanStart::Stopped(line) => assert_eq!(line, "Scan stopped."),
        _ => panic!("not stopped"),
    }
    match begin_scan(Some(Failure::said("gone")), false) {
        ScanStart::Failed(failure) => {
            assert_eq!(failure.message(), "Wallet scan connection failed: gone")
        },
        _ => panic!("not failed"),
    }
    assert!(matches!(begin_scan(None, false), ScanStart::Go));
}

#[test]
fn a_found_card_is_described() {
    let patterns = CardPatterns::compile().unwrap();
    let mut scan = Scan::new(vec![SavedCard { hash: B.into(), name: "Old".into() }]);
    let found = scan.on_line(&patterns, &format!("passd: card hash: '{A}'"));
    assert_eq!(found.len(), 1);
    assert_eq!(found[0].hash, A);
    assert_eq!(found[0].name, "Card 2");
    assert_eq!(
        found_lines(&found[0], None),
        vec!["Wallet card detected: Card 2. Hash is ready in the card field."]
    );
    let unsaved = Failure::said("disk full");
    assert_eq!(
        found_lines(&found[0], Some(&unsaved))[0],
        "Card detected, but saving it failed: disk full"
    );
    assert_eq!(scan.saved().len(), 2);
}

#[test]
fn what_is_found_is_a_part_of_the_line() {
    let line = format!("passd: title='Transit card' card hash: '{A}' /Cards/{B}.pkpass");
    let hashes = extract_card_hashes(&line);
    assert_eq!(hashes.len(), 2);
    for (i, hash) in hashes.iter().enumerate() {
        assert!(line.contains(hash.as_str()));
        assert_eq!(normalized_hash(hash).as_ref(), Some(hash));
        assert!(!hashes[..i].contains(hash));
    }
    let name = extract_card_name_from_line(&line).unwrap();
    assert!(line.contains(&name));
    assert!(!name.contains(['\'', '"']));
    assert!(extract_card_hashes(&line.replace("passd", "netd").replace("/Cards/", "/c/").replace(".pkpass", "")).is_empty());
}
