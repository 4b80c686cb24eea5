use aircard::failure::Failure;
use aircard::wallet_backup::{
    backup_dir, backup_exists, capture_original_card, card_hash_candidates, load_original_assets,
    safe_component, stable_hash, CaptureAction, CaptureEvent, CaptureStep, CARD_ARTWORK_ASSETS,
};

const HASH: &str = "OM6NYhwXMZrAw0sRUjR62wmF4ZQ=";

#[test]
fn hashes_have_their_known_values() {
    assert_eq!(stable_hash(""), "cbf29ce484222325");
    assert_eq!(stable_hash("a"), "af63dc4c8601ec8c");
    assert_eq!(stable_hash("foobar"), "85944171f73967e8");
}

#[test]
fn names_of_directories_are_safe() {
    assert_eq!(safe_component("a/../b c"), "a_.._b_c");
    assert_eq!(safe_component(""), "unknown");
    assert_eq!(safe_component("é"), "_");
    assert_eq!(backup_dir("00-A", "a"), "00-A-af63dc4c8601ec8c");
    assert_eq!(backup_dir("..", "a"), "..-af63dc4c8601ec8c");
}

#[test]
fn one_file_makes_a_backup() {
    assert!(!backup_exists([false, false, false]));
    assert!(backup_exists([false, true, false]));
}

#[test]
fn padding_is_tried_both_ways() {
    assert_eq!(card_hash_candidates("ab="), vec!["ab=", "ab", "ab=", "ab=="]);
    assert_eq!(card_hash_candidates("ab"), vec!["ab", "ab=", "ab=="]);
    assert_eq!(card_hash_candidates("=="), vec!["==", ""]);
    assert_eq!(card_hash_candidates(""), vec![""]);
}

/// Answers a capture from a few files.
fn run(
    first: CaptureStep,
    files: &[(String, &[u8])],
) -> (Result<Option<String>, Failure>, Vec<String>, Vec<(usize, Vec<u8>)>) {
    let mut step = first;
    let mut logs = Vec::new();
    let mut saved = Vec::new();
    let mut open = String::new();
    loop {
        logs.extend(step.logs);
        step = match step.action {
            CaptureAction::Done(result) => return (result, logs, saved),
            CaptureAction::Save(job, asset, data) => {
                saved.push((asset, data));
                job.next(CaptureEvent::Saved(Ok(())))
            },
            CaptureAction::Call(job, request) => {
                let path = |args: &[u8]| String::from_utf8(args[..args.len() - 1].to_vec()).unwrap();
                let answer = match request.op {
                    10 => {
                        let path = path(&request.args);
                        match files.iter().find(|f| f.0 == path) {
                            Some((_, data)) => {
                                Ok(format!("st_size\0{}\0", data.len()).into_bytes())
                            },
                            None => Err(Failure::Status(8)),
                        }
                    },
                    13 => {
                        open = path(&request.args[8..]);
                        Ok(3u64.to_le_bytes().to_vec())
                    },
                    15 => Ok(files.iter().find(|f| f.0 == open).unwrap().1.to_vec()),
                    20 => Ok(Vec::new()),
                    op => panic!("unexpected request {op}"),
                };
                job.next(CaptureEvent::Answer(answer))
            },
        };
    }
}

#[test]
fn a_card_is_captured_once() {
    let card = format!("/var/mobile/Library/Passes/Cards/{}.pkpass", &HASH[..27]);
    let files = vec![
        (card.clone(), b"".as_slice()),
        (format!("{card}/{}", CARD_ARTWORK_ASSETS[0]), b"three".as_slice()),
        (format!("{card}/{}", CARD_ARTWORK_ASSETS[1]), b"two".as_slice()),
    ];
    let (result, logs, saved) =
        run(capture_original_card(HASH, [true, false, false]), &files);
    assert_eq!(result.unwrap().as_deref(), Some(&HASH[..27]));
    assert_eq!(saved, vec![(1, b"two".to_vec())]);
    assert_eq!(
        logs,
        vec![
            format!("Using device Wallet card hash variant {} for the card path.", &HASH[..27]),
            format!("Original backup already contains {}", CARD_ARTWORK_ASSETS[0]),
            format!("Backed up original card asset: {}", CARD_ARTWORK_ASSETS[1]),
            format!("Original card asset not present on device: {}", CARD_ARTWORK_ASSETS[2]),
        ]
    );
}

#[test]
fn a_missing_card_is_no_failure() {
    let (result, logs, _) = run(capture_original_card(HASH, [false; 3]), &[]);
    assert_eq!(result.unwrap(), None);
    assert!(logs[0].starts_with("Wallet card directory not found for hash"));
    let (result, logs, _) = run(capture_original_card(HASH, [false, true, false]), &[]);
    assert_eq!(result.unwrap().as_deref(), Some(HASH));
    assert_eq!(
        logs,
        vec!["Original backup exists, but the current Wallet card directory is not visible."]
    );
}

#[test]
fn an_empty_card_leaves_no_backup() {
    let card = format!("/var/mobile/Library/Passes/Cards/{HASH}.pkpass");
    let (result, logs, saved) =
        run(capture_original_card(HASH, [false; 3]), &[(card, b"".as_slice())]);
    assert_eq!(result.unwrap().as_deref(), Some(HASH));
    assert!(saved.is_empty());
    assert!(logs.last().unwrap().contains("no backup artwork assets are available"));
}

#[test]
fn what_was_kept_comes_back() {
    let assets =
        load_original_assets(HASH, vec![None, Some(b"two".to_vec()), Some(Vec::new())]).unwrap();
    assert_eq!(
        assets,
        vec![
            (CARD_ARTWORK_ASSETS[1].to_owned(), b"two".to_vec()),
            (CARD_ARTWORK_ASSETS[2].to_owned(), Vec::new())
        ]
    );
    let e = load_original_assets(HASH, vec![None, None, None]).unwrap_err();
    assert_eq!(
        e.message(),
        format!("Original card face backup not found for card hash {HASH}")
    );
}
