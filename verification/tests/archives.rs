use aircard::afc::{AfcClient, Progress};
use aircard::airlift::{
    archive_chunks, build_books_plist, build_streaming_zip_archive,
    build_streaming_zip_archive_multi, restore_books, save_recovery, snapshot_books, stage_request,
    stage_streaming_zip, BooksSnapshot, TRACKED_BOOKS_FILES,
};
use aircard::failure::Failure;
use aircard::usbmux::{dict, string};
use aircard::value::{parse, Plist};
use aircard::value::debug_text;
use aircard::zip::{crc32_simple, pack, StoredZipEntry};

#[test]
fn test_build_streaming_zip_archive() {
    let payload = b"test-wallet-payload-png";
    let archive = build_streaming_zip_archive(
        "/var/mobile/Library/Passes/Cards/abc.pkpass/cardBackgroundCombined@2x.png",
        payload,
    )
    .expect("build streaming zip should succeed");

    assert!(!archive.is_empty());
    assert_eq!(&archive[0..4], &[0x50, 0x4b, 0x03, 0x04]);
    let has_extra = archive.windows(2).any(|w| w == &[0x53, 0x5a]);
    assert!(has_extra, "Must contain Apple StreamingZip extra field 0x5A53");
}

#[test]
fn test_build_books_plist() {
    let idents = vec![
        "../../airlift-src-token/p0/p1/p2/link".to_string(),
        "../../airlift-src-token/payload".to_string(),
    ];
    let plist_bytes = build_books_plist(&idents).expect("build books plist should succeed");
    assert!(!plist_bytes.is_empty());

    let value = plist::Value::from_reader(std::io::Cursor::new(plist_bytes))
        .expect("should deserialize binary plist");
    let dict = value.as_dictionary().expect("root must be dictionary");
    let books = dict.get("Books").and_then(|v| v.as_array()).expect("Books must be array");
    assert_eq!(books.len(), 2);
}

#[test]
fn books_are_numbered_from_one() {
    let bytes = build_books_plist(&["a".to_string(), "b".to_string()]).unwrap();
    let value = parse(&bytes).unwrap();
    let books = value.as_dictionary().unwrap().array("Books").unwrap();
    for (i, name) in ["a", "b"].iter().enumerate() {
        let row = books[i].as_dictionary().unwrap();
        assert_eq!(row.text("Persistent ID").map(String::as_str), Some(*name));
        assert_eq!(row.text("Item ID").cloned(), Some((i + 1).to_string()));
        assert_eq!(row.text("DSID").map(String::as_str), Some("1"));
    }
}

#[test]
fn checksums_have_their_known_values() {
    assert_eq!(crc32_simple(b""), 0);
    assert_eq!(crc32_simple(b"123456789"), 0xCBF4_3926);
}

fn le32(bytes: &[u8], at: usize) -> u32 {
    u32::from_le_bytes(bytes[at..at + 4].try_into().unwrap())
}

fn le16(bytes: &[u8], at: usize) -> u16 {
    u16::from_le_bytes(bytes[at..at + 2].try_into().unwrap())
}

fn members(archive: &[u8]) -> Vec<(String, u16, Vec<u8>)> {
    let end = archive.len() - 22;
    assert_eq!(le32(archive, end), 0x0605_4b50);
    let count = le16(archive, end + 10);
    let mut at = le32(archive, end + 16) as usize;
    let mut found = Vec::new();
    for _ in 0..count {
        assert_eq!(le32(archive, at), 0x0201_4b50);
        let size = le32(archive, at + 20) as usize;
        let name_len = le16(archive, at + 28) as usize;
        let mode = (le32(archive, at + 38) >> 16) as u16;
        let offset = le32(archive, at + 42) as usize;
        let name = archive[at + 46..at + 46 + name_len].to_vec();
        assert_eq!(le32(archive, offset), 0x0403_4b50);
        let data = archive[offset + 30 + name_len + 6..][..size].to_vec();
        assert_eq!(le32(archive, offset + 14), crc32_simple(&data));
        found.push((String::from_utf8(name).unwrap(), mode, data));
        at += 46 + name_len + 6;
    }
    assert_eq!(at, end);
    found
}

#[test]
fn the_directory_lists_every_member() {
    let entries = vec![
        StoredZipEntry { name: "d/".into(), mode: 0o040755, data: vec![] },
        StoredZipEntry { name: "d/f".into(), mode: 0o100600, data: b"hello".to_vec() },
    ];
    let found = members(&pack(&entries));
    assert_eq!(
        found,
        vec![
            ("d/".to_owned(), 0o040755, vec![]),
            ("d/f".to_owned(), 0o100600, b"hello".to_vec())
        ]
    );
}

#[test]
fn an_archive_links_to_its_target() {
    let archive = build_streaming_zip_archive_multi(
        "/var//mobile",
        &[("first", b"1".as_slice()), ("second", b"22".as_slice())],
    )
    .unwrap();
    let found = members(&archive);
    let names: Vec<&str> = found.iter().map(|m| m.0.as_str()).collect();
    assert_eq!(
        names,
        vec![
            "META-INF/",
            "META-INF/com.apple.ZipMetadata.plist",
            "p0/",
            "p0/p1/",
            "p0/p1/p2/",
            "p0/p1/p2/link",
            "var/",
            "var/mobile/",
            "payload_0",
            "payload_1",
            "payload",
        ]
    );
    assert_eq!(found[5].1, 0o120777);
    assert_eq!(found[5].2, b"../../../var//mobile");
    assert_eq!(found[10].2, b"1");
    let metadata = parse(&found[1].2).unwrap();
    assert_eq!(metadata.as_dictionary().unwrap().number("Version"), Some(2));
}

#[test]
fn archives_are_sent_in_pieces() {
    let archive = vec![7; 65536 * 2 + 5];
    let parts = archive_chunks(&archive);
    assert_eq!(parts.iter().map(Vec::len).collect::<Vec<_>>(), vec![65536, 65536, 5]);
    assert_eq!(parts.concat(), archive);
    assert!(archive_chunks(&[]).is_empty());
}

#[test]
fn a_refused_archive_is_a_failure() {
    let request = stage_request("airlift-src-x");
    assert_eq!(
        request.as_dictionary().unwrap().text("MediaSubdir").map(String::as_str),
        Some("airlift-src-x")
    );
    assert!(stage_streaming_zip(&dict(vec![("Status", string("Complete"))])).is_ok());
    let e = stage_streaming_zip(&dict(vec![("Error", string("NoSpace"))])).unwrap_err();
    assert_eq!(e.message(), "StreamingZip rejected archive: String(\"NoSpace\")");
}

#[test]
fn a_recovery_file_holds_what_was_there() {
    let snapshot =
        BooksSnapshot::new().with("a".into(), Some(vec![1, 2])).with("b".into(), None);
    let value = parse(&save_recovery(&snapshot, "phone")).unwrap();
    let d = value.as_dictionary().unwrap();
    assert_eq!(d.data("a"), Some(&vec![1, 2]));
    assert_eq!(d.boolean("b"), Some(false));
    assert_eq!(d.text("DeviceUDID").map(String::as_str), Some("phone"));
}

/// A phone with a few files, which answers the requests of the file service.
struct Phone {
    files: Vec<(String, Vec<u8>)>,
    directories: Vec<String>,
    open: Option<(String, usize)>,
}

impl Phone {
    fn path(args: &[u8]) -> String {
        String::from_utf8(args[..args.len() - 1].to_vec()).unwrap()
    }

    fn answer(&mut self, request: &aircard::afc::Request) -> Result<Vec<u8>, Failure> {
        match request.op {
            10 => {
                let path = Phone::path(&request.args);
                if let Some((_, data)) = self.files.iter().find(|f| f.0 == path) {
                    return Ok(format!("st_size\0{}\0st_ifmt\0S_IFREG\0", data.len()).into_bytes());
                }
                if self.directories.contains(&path) {
                    return Ok(b"st_size\00\0st_ifmt\0S_IFDIR\0".to_vec());
                }
                Err(Failure::Status(8))
            },
            13 => {
                let path = Phone::path(&request.args[8..]);
                if request.args[0] != 1 {
                    self.files.retain(|f| f.0 != path);
                    self.files.push((path.clone(), Vec::new()));
                }
                self.open = Some((path, 0));
                Ok(7u64.to_le_bytes().to_vec())
            },
            15 => {
                let (path, at) = self.open.clone().unwrap();
                let wanted = u64::from_le_bytes(request.args[8..16].try_into().unwrap()) as usize;
                let data = &self.files.iter().find(|f| f.0 == path).unwrap().1;
                let end = (at + wanted).min(data.len());
                self.open = Some((path, end));
                Ok(data[at..end].to_vec())
            },
            16 => {
                let (path, _) = self.open.clone().unwrap();
                let file = self.files.iter_mut().find(|f| f.0 == path).unwrap();
                file.1.extend(&request.payload);
                Ok(Vec::new())
            },
            20 => {
                self.open = None;
                Ok(Vec::new())
            },
            9 => {
                self.directories.push(Phone::path(&request.args));
                Ok(Vec::new())
            },
            3 => {
                let path = Phone::path(&request.args);
                let inside = format!("{path}/");
                let mut listing = b".\0..\0".to_vec();
                for name in self.files.iter().map(|f| &f.0).chain(&self.directories) {
                    if let Some(rest) = name.strip_prefix(&inside) {
                        if !rest.contains('/') {
                            listing.extend(rest.as_bytes());
                            listing.push(0);
                        }
                    }
                }
                Ok(listing)
            },
            8 => {
                let path = Phone::path(&request.args);
                self.files.retain(|f| f.0 != path);
                self.directories.retain(|d| *d != path);
                Ok(Vec::new())
            },
            op => panic!("unexpected request {op}"),
        }
    }
}

#[test]
fn files_are_written_and_read_back() {
    let mut phone = Phone { files: vec![], directories: vec![], open: None };
    let data: Vec<u8> = (0..150_000u32).map(|i| i as u8).collect();
    let mut progress = AfcClient::write_file("Books/x", &data);
    let written = loop {
        match progress {
            Progress::Call(job, request) => progress = job.next(phone.answer(&request)),
            Progress::Done(result) => break result,
        }
    };
    written.unwrap();
    assert_eq!(phone.files[0].1, data);
    let mut progress = AfcClient::read_file("Books/x");
    let read = loop {
        match progress {
            Progress::Call(job, request) => progress = job.next(phone.answer(&request)),
            Progress::Done(result) => break result,
        }
    };
    assert_eq!(read.unwrap(), data);
    let mut progress = AfcClient::read_file("Books/y");
    let missing = loop {
        match progress {
            Progress::Call(job, request) => progress = job.next(phone.answer(&request)),
            Progress::Done(result) => break result,
        }
    };
    assert!(matches!(missing.unwrap_err(), Failure::Status(8)));
}

#[test]
fn a_snapshot_restores_what_was_there() {
    let before = (TRACKED_BOOKS_FILES[0].to_owned(), b"old".to_vec());
    let mut phone = Phone { files: vec![before.clone()], directories: vec![], open: None };
    let mut progress = snapshot_books();
    let snapshot = loop {
        match progress {
            Progress::Call(job, request) => progress = job.next(phone.answer(&request)),
            Progress::Done(result) => break result.unwrap(),
        }
    };
    assert_eq!(snapshot.files().len(), TRACKED_BOOKS_FILES.len());
    assert_eq!(snapshot.files()[0].1.as_deref(), Some(b"old".as_slice()));
    assert!(snapshot.files()[1].1.is_none());
    phone.files[0].1 = b"new".to_vec();
    phone.files.push((TRACKED_BOOKS_FILES[1].to_owned(), b"added".to_vec()));
    let mut progress = restore_books(snapshot);
    let restored = loop {
        match progress {
            Progress::Call(job, request) => progress = job.next(phone.answer(&request)),
            Progress::Done(result) => break result,
        }
    };
    restored.unwrap();
    assert_eq!(phone.files, vec![before]);
    assert_eq!(phone.directories, vec!["Books".to_owned()]);
}

#[test]
fn directories_are_made_from_the_top() {
    let mut phone = Phone { files: vec![], directories: vec!["a".into()], open: None };
    let mut progress = AfcClient::make_directory_recursive("a//b/c");
    let made = loop {
        match progress {
            Progress::Call(job, request) => progress = job.next(phone.answer(&request)),
            Progress::Done(result) => break result,
        }
    };
    made.unwrap();
    assert_eq!(phone.directories, vec!["a".to_owned(), "a/b".into(), "a/b/c".into()]);
}

#[test]
fn one_directory_is_made_where_it_is_missing() {
    let mut phone = Phone { files: vec![], directories: vec!["a".into()], open: None };
    for name in ["a", "b"] {
        let mut progress = AfcClient::make_directory(name);
        let made = loop {
            match progress {
                Progress::Call(job, request) => progress = job.next(phone.answer(&request)),
                Progress::Done(result) => break result,
            }
        };
        made.unwrap();
    }
    assert_eq!(phone.directories, vec!["a".to_owned(), "b".into()]);
    let request = AfcClient::list_directory_request("a").unwrap();
    assert_eq!((request.op, request.args.as_slice()), (3, b"a\0".as_slice()));
    assert_eq!(AfcClient::list_directory(&phone.answer(&request).unwrap()).unwrap().len(), 0);
}

#[test]
fn only_staging_directories_are_removed() {
    for path in ["Books", "airlift-src-1/x", "airlift-src-1\\x", "../airlift-src-1"] {
        match AfcClient::remove_tree(path) {
            Progress::Done(Err(failure)) => assert_eq!(
                failure.message(),
                "Cleanup must target an app staging directory"
            ),
            _ => panic!("{path}"),
        }
    }
    match AfcClient::make_directory_recursive("../x") {
        Progress::Done(Err(failure)) => {
            assert_eq!(failure.message(), "Invalid AFC directory component")
        },
        _ => panic!("went up"),
    }
}

#[test]
fn trees_are_removed_from_the_bottom() {
    let top = "airlift-src-0011";
    let mut phone = Phone {
        files: vec![(format!("{top}/d/f"), vec![1]), ("keep".into(), vec![2])],
        directories: vec![top.to_owned(), format!("{top}/d")],
        open: None,
    };
    let mut progress = AfcClient::remove_tree(top);
    let removed = loop {
        match progress {
            Progress::Call(job, request) => progress = job.next(phone.answer(&request)),
            Progress::Done(result) => break result,
        }
    };
    removed.unwrap();
    assert_eq!(phone.files, vec![("keep".to_owned(), vec![2])]);
    assert!(phone.directories.is_empty());
}

#[test]
fn a_failed_restore_names_the_file() {
    let snapshot = BooksSnapshot::new().with("x".into(), Some(vec![1]));
    let mut progress = restore_books(snapshot);
    let restored = loop {
        match progress {
            Progress::Call(job, _) => progress = job.next(Err(Failure::Status(10))),
            Progress::Done(result) => break result,
        }
    };
    let message = restored.unwrap_err().message();
    assert!(
        message.starts_with("Books restore had errors: Restore write failed for x: "),
        "{message}"
    );
}

#[test]
fn plain_values_are_shown_as_they_are() {
    assert_eq!(debug_text(&Plist::Bool(true)).as_deref(), Some("Boolean(true)"));
}

#[test]
fn a_snapshot_holds_each_file_once() {
    let snapshot = BooksSnapshot::new()
        .with("a".into(), Some(vec![1]))
        .with("b".into(), None)
        .with("a".into(), Some(vec![2]));
    assert_eq!(
        snapshot.files(),
        &vec![("a".to_owned(), Some(vec![2])), ("b".to_owned(), None)]
    );
}

#[test]
fn checksums_of_mixed_texts_mix() {
    let (a, b, c) = (b"one text".as_slice(), b"two word".as_slice(), b"\x00\xff 1234 ".as_slice());
    let mixed: Vec<u8> = (0..a.len()).map(|i| a[i] ^ b[i] ^ c[i]).collect();
    assert_eq!(crc32_simple(a) ^ crc32_simple(b) ^ crc32_simple(c), crc32_simple(&mixed));
}

#[test]
fn a_text_with_its_checksum_has_a_known_checksum() {
    for text in [b"".as_slice(), b"x", b"123456789", &[0; 40]] {
        let mut whole = text.to_vec();
        whole.extend_from_slice(&crc32_simple(text).to_le_bytes());
        assert_eq!(crc32_simple(&whole), 0x2144_DF1C);
    }
}

#[test]
fn a_refusal_with_an_unprintable_date_is_still_a_failure() {
    let mut list = b"bplist00\x33".to_vec();
    list.extend_from_slice(&(-1.0e11f64).to_be_bytes());
    list.push(8);
    list.extend_from_slice(&[0, 0, 0, 0, 0, 0, 1, 1]);
    list.extend_from_slice(&1u64.to_be_bytes());
    list.extend_from_slice(&0u64.to_be_bytes());
    list.extend_from_slice(&17u64.to_be_bytes());
    let date = parse(&list).unwrap();
    let e = stage_streaming_zip(&dict(vec![("Error", date)])).unwrap_err();
    assert_eq!(
        e.message(),
        "StreamingZip rejected archive: a value with a date that cannot be printed"
    );
}
