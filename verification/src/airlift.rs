//! The staging archive and the Books records that carry files onto the phone.
use crate::afc::{
    ask_info, file_info, has_nul, is_existence, views, AfcClient, Progress, Request, CHUNK,
};
use crate::afc_files::{
    ask_open, calls, chunks, chunks_make_the_file, contents_are_cut_every_chunk, fails_saying,
    fails_with, gives, read_goes, together, write_goes, ReadFile, WriteFile,
};
use crate::afc_trees::{
    calls_for, empty_parts_name_nothing, job_goes, make_goes, named, path_of, MakeDirectories,
    PathJob, PathStage,
};
use crate::failure::Failure;
use crate::text::{
    before_last, begins_with, decimal, decimal_text, is_digit, join_texts, joined_by, last_index,
    last_index_is_last, numbers_are_written_apart, part_of, same_text, split, split_text, texts,
};
use crate::usbmux::{dict, string};
use crate::value::{
    a_dictionary_holds_its_items, collected, collected_comes_back, comes_back, dates_print,
    debug_text, dict_in, dict_of, item_pairs, lookup, plist_binary, plist_debug, plist_parsed,
    to_binary, trees, Dict, Plist, Tree,
};
use crate::wire::{copy_bytes, copy_range};
use crate::zip::{
    archive, holds_member, members, members_can_be_read_back, pack, Member, StoredZipEntry,
};
use vstd::prelude::*;
use vstd::utf8::encode_utf8;

verus! {

/// The name of a staging directory begins with this.
pub const SOURCE_PREFIX: &'static str = "airlift-src-";

/// The name of a link begins with this.
pub const LINK_PREFIX: &'static str = "airlift-link-";

/// The name of a recovered file begins with this.
pub const RECOVERED_PREFIX: &'static str = "airlift-recovered-";

/// Mode of a directory, `rwxr-xr-x`.
pub const DIRECTORY_MODE: u16 = 0o040755;

/// Mode of a regular file, `rw-------`.
pub const FILE_MODE: u16 = 0o100600;

/// Mode of a symbolic link, `rwxrwxrwx`.
pub const LINK_MODE: u16 = 0o120777;

/// The target without one leading slash.
pub open spec fn target_tail(target: Seq<char>) -> Seq<char> {
    if target.len() > 0 && target[0] == '/' {
        target.skip(1)
    } else {
        target
    }
}

/// A directory member.
pub open spec fn directory(name: Seq<char>) -> Member {
    Member { name, mode: DIRECTORY_MODE, data: Seq::empty() }
}

/// A regular file member.
pub open spec fn file(name: Seq<char>, data: Seq<u8>) -> Member {
    Member { name, mode: FILE_MODE, data }
}

/// The metadata file of a StreamingZip archive, version 2.
pub open spec fn metadata() -> Seq<u8> {
    plist_binary(dict_of(seq![("Version"@, Tree::Integer(2))]))
}

/// The members that every archive begins with: the metadata, and a link three
/// directories down that leads out of them to the target.
pub open spec fn leading_members(tail: Seq<char>) -> Seq<Member> {
    seq![
        directory("META-INF/"@),
        file("META-INF/com.apple.ZipMetadata.plist"@, metadata()),
        directory("p0/"@),
        directory("p0/p1/"@),
        directory("p0/p1/p2/"@),
        (Member {
            name: "p0/p1/p2/link"@,
            mode: LINK_MODE,
            data: encode_utf8("../../../"@ + tail),
        }),
    ]
}

/// The path made of the non-empty parts, each followed by a slash.
pub open spec fn joined(parts: Seq<Seq<char>>) -> Seq<char>
    decreases parts.len(),
{
    if parts.len() == 0 {
        Seq::empty()
    } else if parts.last().len() == 0 {
        joined(parts.drop_last())
    } else {
        joined(parts.drop_last()) + parts.last().push('/')
    }
}

/// The directories on the way to a path: one for each non-empty part.
pub open spec fn way(parts: Seq<Seq<char>>) -> Seq<Member>
    decreases parts.len(),
{
    if parts.len() == 0 {
        Seq::empty()
    } else if parts.last().len() == 0 {
        way(parts.drop_last())
    } else {
        way(parts.drop_last()).push(directory(joined(parts)))
    }
}

/// The numbered payload members.
pub open spec fn numbered(payloads: Seq<Seq<u8>>) -> Seq<Member> {
    Seq::new(
        payloads.len(),
        |i: int| file("payload_"@ + decimal(i as nat), payloads[i]),
    )
}

/// The payload members: a single item called `payload` stands alone, otherwise
/// the items are numbered and the first stands again under `payload`.
pub open spec fn payload_members(items: Seq<(Seq<char>, Seq<u8>)>) -> Seq<Member> {
    if items.len() == 1 && items[0].0 == "payload"@ {
        seq![file("payload"@, items[0].1)]
    } else if items.len() > 0 {
        numbered(Seq::new(items.len(), |i: int| items[i].1)).push(file("payload"@, items[0].1))
    } else {
        Seq::empty()
    }
}

/// All members of the archive that stages the items for a target.
pub open spec fn staging_members(target: Seq<char>, items: Seq<(Seq<char>, Seq<u8>)>) -> Seq<
    Member,
> {
    leading_members(target_tail(target)) + way(split(target_tail(target), '/')) + payload_members(
        items,
    )
}

/// The names and contents of a run of items.
pub open spec fn item_views(items: Seq<(&str, &[u8])>) -> Seq<(Seq<char>, Seq<u8>)> {
    Seq::new(items.len(), |i: int| (items[i].0@, items[i].1@))
}

fn stored(name: &str, mode: u16, data: Vec<u8>) -> (entry: StoredZipEntry)
    ensures
        entry@ == (Member { name: name@, mode, data: data@ }),
{
    StoredZipEntry { name: name.to_owned(), mode, data }
}

fn push_member(entries: &mut Vec<StoredZipEntry>, name: &str, mode: u16, data: Vec<u8>)
    ensures
        members(final(entries)@) == members(old(entries)@).push(
            Member { name: name@, mode, data: data@ },
        ),
{
    entries.push(stored(name, mode, data));
    assert(members(entries@) =~= members(old(entries)@).push(
        Member { name: name@, mode, data: data@ },
    ));
}

fn push_directory(entries: &mut Vec<StoredZipEntry>, name: &str)
    ensures
        members(final(entries)@) == members(old(entries)@).push(directory(name@)),
{
    let empty: Vec<u8> = Vec::new();
    assert(empty@ =~= Seq::<u8>::empty());
    push_member(entries, name, DIRECTORY_MODE, empty);
}

fn push_leading(entries: &mut Vec<StoredZipEntry>, tail: &str)
    requires
        old(entries)@.len() == 0,
    ensures
        members(final(entries)@) == leading_members(tail@),
{
    let fields: Vec<(&str, Plist)> = vec![("Version", Plist::Integer(2))];
    assert(item_pairs(fields@) =~= seq![("Version"@, Tree::Integer(2))]);
    let version: Plist = dict(fields);
    push_directory(entries, "META-INF/");
    push_member(entries, "META-INF/com.apple.ZipMetadata.plist", FILE_MODE, to_binary(&version));
    push_directory(entries, "p0/");
    push_directory(entries, "p0/p1/");
    push_directory(entries, "p0/p1/p2/");
    let mut link: String = "../../../".to_owned();
    link.append(tail);
    push_member(entries, "p0/p1/p2/link", LINK_MODE, link.as_str().as_bytes_vec());
    assert(members(entries@) =~= leading_members(tail@));
}

fn push_way(entries: &mut Vec<StoredZipEntry>, tail: &str)
    ensures
        members(final(entries)@) == members(old(entries)@) + way(split(tail@, '/')),
{
    let parts: Vec<String> = split_text(tail, '/');
    let ghost all = texts(parts@);
    let mut cursor: String = String::new();
    let mut i: usize = 0;
    assert(all.take(0) =~= Seq::<Seq<char>>::empty());
    assert(members(entries@) + way(all.take(0)) =~= members(entries@));
    assert(cursor@ =~= Seq::<char>::empty());
    while i < parts.len()
        invariant
            all == texts(parts@),
            i <= parts@.len(),
            cursor@ == joined(all.take(i as int)),
            members(entries@) == members(old(entries)@) + way(all.take(i as int)),
        decreases parts@.len() - i,
    {
        let ghost before = members(entries@);
        assert(all.take(i + 1).drop_last() =~= all.take(i as int));
        assert(all.take(i + 1).last() == parts@[i as int]@);
        if !same_text(parts[i].as_str(), "") {
            proof {
                reveal_strlit("");
                if parts@[i as int]@.len() == 0 {
                    assert(parts@[i as int]@ =~= ""@);
                }
            }
            cursor.append(parts[i].as_str());
            cursor.push('/');
            assert(cursor@ =~= joined(all.take(i as int)) + parts@[i as int]@.push('/'));
            push_directory(entries, cursor.as_str());
            assert(members(entries@) =~= members(old(entries)@) + way(all.take(i + 1)));
        } else {
            proof {
                reveal_strlit("");
            }
        }
        i = i + 1;
    }
    assert(all.take(i as int) =~= all);
}

fn push_payloads(entries: &mut Vec<StoredZipEntry>, items: &[(&str, &[u8])])
    ensures
        members(final(entries)@) == members(old(entries)@) + payload_members(item_views(items@)),
{
    let ghost views = item_views(items@);
    if items.len() == 1 && same_text(items[0].0, "payload") {
        push_member(entries, "payload", FILE_MODE, copy_bytes(items[0].1));
        assert(members(entries@) =~= members(old(entries)@) + payload_members(views));
        return;
    }
    let ghost payloads = Seq::new(views.len(), |i: int| views[i].1);
    let mut i: usize = 0;
    assert(members(entries@) + numbered(payloads).take(0) =~= members(entries@));
    while i < items.len()
        invariant
            views == item_views(items@),
            payloads == Seq::new(views.len(), |i: int| views[i].1),
            i <= items@.len(),
            members(entries@) == members(old(entries)@) + numbered(payloads).take(i as int),
        decreases items@.len() - i,
    {
        let mut name: String = "payload_".to_owned();
        name.append(decimal_text(i as u64).as_str());
        push_member(entries, name.as_str(), FILE_MODE, copy_bytes(items[i].1));
        i = i + 1;
        assert(members(entries@) =~= members(old(entries)@) + numbered(payloads).take(i as int));
    }
    if items.len() > 0 {
        push_member(entries, "payload", FILE_MODE, copy_bytes(items[0].1));
    }
    assert(members(entries@) =~= members(old(entries)@) + payload_members(views));
}

/// The archive that stages one payload for a target path.
pub fn build_streaming_zip_archive(target: &str, payload: &[u8]) -> (bytes: Result<
    Vec<u8>,
    Failure,
>)
    ensures
        bytes is Ok,
        bytes->Ok_0@ == archive(staging_members(target@, seq![("payload"@, payload@)])),
{
    let items: Vec<(&str, &[u8])> = vec![("payload", payload)];
    assert(item_views(items@) =~= seq![("payload"@, payload@)]);
    build_streaming_zip_archive_multi(target, items.as_slice())
}

/// The archive that stages the items for a target path.
pub fn build_streaming_zip_archive_multi(target: &str, items: &[(&str, &[u8])]) -> (bytes: Result<
    Vec<u8>,
    Failure,
>)
    ensures
        bytes is Ok,
        bytes->Ok_0@ == archive(staging_members(target@, item_views(items@))),
{
    let count: usize = target.unicode_len();
    let tail: String = if begins_with(target, "/") {
        proof {
            reveal_strlit("/");
            assert(target@.subrange(0, 1)[0] == '/');
        }
        part_of(target, 1, count)
    } else {
        proof {
            reveal_strlit("/");
            if target@.len() > 0 && target@[0] == '/' {
                assert(target@.subrange(0, 1) =~= "/"@);
            }
        }
        target.to_owned()
    };
    assert(tail@ =~= target_tail(target@));
    let mut entries: Vec<StoredZipEntry> = Vec::new();
    push_leading(&mut entries, tail.as_str());
    push_way(&mut entries, tail.as_str());
    push_payloads(&mut entries, items);
    Ok(pack(&entries))
}

/// The record of one book: its identifier and its number, counted from one.
pub open spec fn book_row(identifier: Seq<char>, index: int) -> Tree {
    dict_of(
        seq![
            ("Persistent ID"@, Tree::Text(identifier)),
            ("Item ID"@, Tree::Text(decimal((index + 1) as nat))),
            ("DSID"@, Tree::Text("1"@)),
        ],
    )
}

/// The Books record that lists the identifiers in order.
pub open spec fn books_tree(identifiers: Seq<Seq<char>>) -> Tree {
    dict_of(
        seq![
            (
                "Books"@,
                Tree::Array(
                    Seq::new(identifiers.len(), |i: int| book_row(identifiers[i], i)),
                ),
            ),
        ],
    )
}

/// A Books record holds only opened values.
pub proof fn books_tree_open(identifiers: Seq<Seq<char>>)
    ensures
        comes_back(books_tree(identifiers)),
{
    let rows = Seq::new(identifiers.len(), |i: int| book_row(identifiers[i], i));
    assert forall|i: int| 0 <= i < rows.len() implies comes_back(#[trigger] rows[i]) by {
        collected_comes_back(
            seq![
                ("Persistent ID"@, Tree::Text(identifiers[i])),
                ("Item ID"@, Tree::Text(decimal((i + 1) as nat))),
                ("DSID"@, Tree::Text("1"@)),
            ],
        );
    }
    assert(comes_back(Tree::Array(rows)));
    collected_comes_back(seq![("Books"@, Tree::Array(rows))]);
}

/// The binary Books record that lists the identifiers in order. Reading it gives
/// the record back.
pub fn build_books_plist(identifiers: &[String]) -> (bytes: Result<Vec<u8>, Failure>)
    ensures
        bytes is Ok,
        bytes->Ok_0@ == plist_binary(books_tree(texts(identifiers@))),
        plist_parsed(bytes->Ok_0@) == Some(books_tree(texts(identifiers@))),
{
    let ghost names = texts(identifiers@);
    let mut rows: Vec<Plist> = Vec::new();
    let mut i: usize = 0;
    while i < identifiers.len()
        invariant
            names == texts(identifiers@),
            i <= identifiers@.len(),
            rows@.len() == i,
            forall|k: int| 0 <= k < i ==> (#[trigger] rows@[k]).tree() == book_row(names[k], k),
        decreases identifiers@.len() - i,
    {
        let number: String = decimal_text(i as u64 + 1);
        let fields: Vec<(&str, Plist)> = vec![
            ("Persistent ID", string(identifiers[i].as_str())),
            ("Item ID", string(number.as_str())),
            ("DSID", string("1")),
        ];
        assert(item_pairs(fields@) =~= seq![
            ("Persistent ID"@, Tree::Text(names[i as int])),
            ("Item ID"@, Tree::Text(decimal((i + 1) as nat))),
            ("DSID"@, Tree::Text("1"@)),
        ]);
        rows.push(dict(fields));
        i = i + 1;
    }
    assert(trees(rows@) =~= Seq::new(names.len(), |i: int| book_row(names[i], i)));
    let fields: Vec<(&str, Plist)> = vec![("Books", Plist::Array(rows))];
    assert(item_pairs(fields@) =~= seq![
        ("Books"@, Tree::Array(Seq::new(names.len(), |i: int| book_row(names[i], i)))),
    ]);
    let root: Plist = dict(fields);
    proof {
        books_tree_open(names);
    }
    Ok(to_binary(&root))
}

/// The files of the Books app that a write changes.
pub const TRACKED_BOOKS_FILES: [&'static str; 6] = [
    "Books/Books.plist",
    "Books/Sync/Books.plist",
    "Books/Sync/Upload.plist",
    "Books/Sync/Database/OutstandingAssets_4.sqlite",
    "Books/Sync/Database/OutstandingAssets_4.sqlite-shm",
    "Books/Sync/Database/OutstandingAssets_4.sqlite-wal",
];

/// The name of the file that a recovery record is kept in.
pub const RECOVERY_FILE: &'static str = "Books-before-write.plist";

/// What files held before a write; `None` where a file was not there. Each file is
/// held once.
pub struct BooksSnapshot {
    files: Vec<(String, Option<Vec<u8>>)>,
}

/// No file name occurs twice.
pub open spec fn names_differ(files: Seq<(String, Option<Vec<u8>>)>) -> bool {
    forall|i: int, j: int| 0 <= i < j < files.len() ==> #[trigger] files[i].0@ != #[trigger] files[j].0@
}

impl View for BooksSnapshot {
    type V = Seq<(String, Option<Vec<u8>>)>;

    closed spec fn view(&self) -> Seq<(String, Option<Vec<u8>>)> {
        self.files@
    }
}

impl BooksSnapshot {
    #[verifier::type_invariant]
    spec fn holds_each_once(self) -> bool {
        names_differ(self.files@)
    }

    /// A snapshot of no files.
    pub fn new() -> (snapshot: BooksSnapshot)
        ensures
            snapshot@.len() == 0,
    {
        BooksSnapshot { files: Vec::new() }
    }

    /// The files, each of them once.
    pub fn files(&self) -> (files: &Vec<(String, Option<Vec<u8>>)>)
        ensures
            files@ == self@,
            names_differ(files@),
    {
        proof {
            use_type_invariant(self);
        }
        &self.files
    }

    /// The snapshot with one more file, or with other contents for a file that it
    /// holds.
    pub fn with(self, path: String, data: Option<Vec<u8>>) -> (snapshot: BooksSnapshot)
        ensures
            file_views(snapshot@) == put_file(file_views(self@), path@, held(data)),
    {
        proof {
            use_type_invariant(&self);
        }
        let mut files: Vec<(String, Option<Vec<u8>>)> = self.files;
        let ghost before = files@;
        let mut at: usize = 0;
        while at < files.len()
            invariant
                files@ == before,
                before == self@,
                names_differ(before),
                at <= files@.len(),
                forall|k: int| 0 <= k < at ==> (#[trigger] files@[k]).0@ != path@,
            decreases files@.len() - at,
        {
            if same_text(files[at].0.as_str(), path.as_str()) {
                files.set(at, (path, data));
                proof {
                    let views = file_views(before);
                    assert(views[at as int].0 == path@);
                    place_is_first(views, path@, at as int);
                    assert(file_views(files@) =~= views.update(at as int, (path@, held(data))));
                    assert forall|i: int, j: int| 0 <= i < j < files@.len() implies #[trigger] files@[i].0@
                        != #[trigger] files@[j].0@ by {
                        assert(before[i].0@ != before[j].0@);
                    }
                }
                return BooksSnapshot { files };
            }
            at = at + 1;
        }
        files.push((path, data));
        proof {
            let views = file_views(before);
            assert forall|k: int| 0 <= k < views.len() implies (#[trigger] views[k]).0 != path@ by {
                assert(before[k].0@ != path@);
            }
            place_is_first(views, path@, views.len() as int);
            assert(file_views(files@) =~= views.push((path@, held(data))));
        }
        BooksSnapshot { files }
    }
}

/// The place of a file in a run of files, or their number if it is not there.
pub open spec fn place_of(files: Seq<(Seq<char>, Option<Seq<u8>>)>, path: Seq<char>) -> int
    decreases files.len(),
{
    if files.len() == 0 || files[0].0 == path {
        0
    } else {
        1 + place_of(files.drop_first(), path)
    }
}

/// The files after these contents are noted for a path: in the place of the old ones,
/// or at the end.
pub open spec fn put_file(
    files: Seq<(Seq<char>, Option<Seq<u8>>)>,
    path: Seq<char>,
    data: Option<Seq<u8>>,
) -> Seq<(Seq<char>, Option<Seq<u8>>)> {
    let at = place_of(files, path);
    if at < files.len() {
        files.update(at, (path, data))
    } else {
        files.push((path, data))
    }
}

proof fn place_is_first(files: Seq<(Seq<char>, Option<Seq<u8>>)>, path: Seq<char>, at: int)
    requires
        0 <= at <= files.len(),
        forall|k: int| 0 <= k < at ==> (#[trigger] files[k]).0 != path,
        at < files.len() ==> files[at].0 == path,
    ensures
        place_of(files, path) == at,
    decreases files.len(),
{
    if at > 0 {
        let rest = files.drop_first();
        assert forall|k: int| 0 <= k < at - 1 implies (#[trigger] rest[k]).0 != path by {
            assert(rest[k] == files[k + 1]);
        }
        assert(files[0].0 != path);
        place_is_first(rest, path, at - 1);
    }
}

/// The tracked files have six different names.
proof fn tracked_names_differ(i: int, j: int)
    requires
        0 <= i < j < TRACKED_BOOKS_FILES@.len(),
    ensures
        TRACKED_BOOKS_FILES@[i]@ != TRACKED_BOOKS_FILES@[j]@,
{
    reveal_strlit("Books/Books.plist");
    reveal_strlit("Books/Sync/Books.plist");
    reveal_strlit("Books/Sync/Upload.plist");
    reveal_strlit("Books/Sync/Database/OutstandingAssets_4.sqlite");
    reveal_strlit("Books/Sync/Database/OutstandingAssets_4.sqlite-shm");
    reveal_strlit("Books/Sync/Database/OutstandingAssets_4.sqlite-wal");
    let names = TRACKED_BOOKS_FILES@;
    assert(names[0]@.len() == 17 && names[1]@.len() == 22 && names[2]@.len() == 23 && names[3]@.len()
        == 46 && names[4]@.len() == 50 && names[5]@.len() == 50);
    assert(names[4]@[47] == 's' && names[5]@[47] == 'w');
}

/// What a file held.
pub open spec fn held(data: Option<Vec<u8>>) -> Option<Seq<u8>> {
    match data {
        Some(data) => Some(data@),
        None => None,
    }
}

/// The names and contents of a run of files.
pub open spec fn file_views(files: Seq<(String, Option<Vec<u8>>)>) -> Seq<
    (Seq<char>, Option<Seq<u8>>),
> {
    Seq::new(files.len(), |i: int| (files[i].0@, held(files[i].1)))
}

/// Where a snapshot stands with the file at work.
pub enum SnapshotStage {
    /// Whether it exists is being asked.
    Probe,
    /// It is being read.
    Read(ReadFile),
}

/// A snapshot that is being taken.
pub struct TakeSnapshot {
    /// The files that are done.
    pub done: Vec<(String, Option<Vec<u8>>)>,
    /// How far it is with the next one.
    pub stage: SnapshotStage,
}

/// The next tracked file comes up, or the snapshot is complete.
pub open spec fn snapshots(
    p: Progress<TakeSnapshot, BooksSnapshot>,
    done: Seq<(Seq<char>, Option<Seq<u8>>)>,
) -> bool {
    if done.len() >= TRACKED_BOOKS_FILES@.len() {
        p matches Progress::Done(Ok(snapshot)) && file_views(snapshot@) == done
    } else {
        let path = TRACKED_BOOKS_FILES@[done.len() as int]@;
        &&& calls_for(p, path, ask_info(path))
        &&& p matches Progress::Call(state, _) ==> state.wf() && state.stage is Probe && file_views(
            state.done@,
        ) == done
    }
}

/// What follows a step of the read of a file.
pub open spec fn snapshot_reads(
    p: Progress<TakeSnapshot, BooksSnapshot>,
    inner: Progress<ReadFile, Vec<u8>>,
    done: Seq<(Seq<char>, Option<Seq<u8>>)>,
) -> bool {
    let path = TRACKED_BOOKS_FILES@[done.len() as int]@;
    match inner {
        Progress::Call(read, request) => p matches Progress::Call(state, same) && same == request
            && state.stage == SnapshotStage::Read(read) && file_views(state.done@) == done
            && state.wf(),
        Progress::Done(Ok(data)) => snapshots(p, done.push((path, Some(data@)))),
        Progress::Done(Err(given)) => p matches Progress::Done(Err(failure)) && failure.under(
            "Failed to read Books file: "@ + path,
            given,
        ),
    }
}

/// The first step of reading a file.
pub open spec fn begins_read(inner: Progress<ReadFile, Vec<u8>>, path: Seq<char>) -> bool {
    if has_nul(path) {
        fails_saying(inner, "NUL in AFC path"@)
    } else {
        inner matches Progress::Call(state, request) && state.path@ == path && state.stage is Size
            && state.wf() && request@ == ask_info(path)
    }
}

/// What follows the answer about the existence of a tracked file.
pub open spec fn snapshot_probed(
    p: Progress<TakeSnapshot, BooksSnapshot>,
    done: Seq<(Seq<char>, Option<Seq<u8>>)>,
    reply: Result<Vec<u8>, Failure>,
) -> bool {
    let path = TRACKED_BOOKS_FILES@[done.len() as int]@;
    exists|found: Result<bool, Failure>|
        #[trigger] is_existence(reply, found) && match found {
            Err(given) => fails_with(p, given),
            Ok(false) => snapshots(p, done.push((path, None))),
            Ok(true) => exists|inner: Progress<ReadFile, Vec<u8>>| #[trigger]
                begins_read(inner, path) && snapshot_reads(p, inner, done),
        }
}

impl TakeSnapshot {
    /// The files that are done are the first of the tracked ones.
    pub open spec fn wf(self) -> bool {
        &&& self.done@.len() < TRACKED_BOOKS_FILES@.len()
        &&& forall|i: int|
            0 <= i < self.done@.len() ==> (#[trigger] self.done@[i]).0@ == TRACKED_BOOKS_FILES@[i]@
        &&& self.stage matches SnapshotStage::Read(read) ==> read.wf()
    }

    fn go_on(done: Vec<(String, Option<Vec<u8>>)>) -> (p: Progress<TakeSnapshot, BooksSnapshot>)
        requires
            done@.len() <= TRACKED_BOOKS_FILES@.len(),
            forall|i: int|
                0 <= i < done@.len() ==> (#[trigger] done@[i]).0@ == TRACKED_BOOKS_FILES@[i]@,
        ensures
            snapshots(p, file_views(done@)),
    {
        if done.len() >= TRACKED_BOOKS_FILES.len() {
            assert forall|i: int, j: int| 0 <= i < j < done@.len() implies #[trigger] done@[i].0@
                != #[trigger] done@[j].0@ by {
                tracked_names_differ(i, j);
            }
            return Progress::Done(Ok(BooksSnapshot { files: done }));
        }
        match AfcClient::try_exists_request(TRACKED_BOOKS_FILES[done.len()]) {
            Ok(request) => Progress::Call(
                TakeSnapshot { done, stage: SnapshotStage::Probe },
                request,
            ),
            Err(failure) => Progress::Done(Err(failure)),
        }
    }

    fn read_step(
        done: Vec<(String, Option<Vec<u8>>)>,
        inner: Progress<ReadFile, Vec<u8>>,
    ) -> (p: Progress<TakeSnapshot, BooksSnapshot>)
        requires
            done@.len() < TRACKED_BOOKS_FILES@.len(),
            forall|i: int|
                0 <= i < done@.len() ==> (#[trigger] done@[i]).0@ == TRACKED_BOOKS_FILES@[i]@,
            inner matches Progress::Call(read, _) ==> read.wf(),
        ensures
            snapshot_reads(p, inner, file_views(done@)),
    {
        let ghost before = file_views(done@);
        let path: &str = TRACKED_BOOKS_FILES[done.len()];
        match inner {
            Progress::Call(read, request) => Progress::Call(
                TakeSnapshot { done, stage: SnapshotStage::Read(read) },
                request,
            ),
            Progress::Done(Ok(data)) => {
                let mut done: Vec<(String, Option<Vec<u8>>)> = done;
                done.push((path.to_owned(), Some(data)));
                assert(file_views(done@) =~= before.push((path@, Some(data@))));
                TakeSnapshot::go_on(done)
            },
            Progress::Done(Err(failure)) => Progress::Done(
                Err(
                    failure.context("Failed to read Books file: ".to_owned().concat(path).as_str()),
                ),
            ),
        }
    }

    /// What follows the answer to the last call.
    pub fn next(self, reply: Result<Vec<u8>, Failure>) -> (p: Progress<TakeSnapshot, BooksSnapshot>)
        requires
            self.wf(),
        ensures
            match self.stage {
                SnapshotStage::Probe => snapshot_probed(p, file_views(self.done@), reply),
                SnapshotStage::Read(read) => exists|inner: Progress<ReadFile, Vec<u8>>| #[trigger]
                    read_goes(inner, read, reply) && snapshot_reads(
                        p,
                        inner,
                        file_views(self.done@),
                    ),
            },
    {
        let ghost before = file_views(self.done@);
        let path: &str = TRACKED_BOOKS_FILES[self.done.len()];
        match self.stage {
            SnapshotStage::Probe => {
                let found: Result<bool, Failure> = AfcClient::try_exists(reply);
                assert(is_existence(reply, found));
                match found {
                    Err(failure) => Progress::Done(Err(failure)),
                    Ok(false) => {
                        let mut done: Vec<(String, Option<Vec<u8>>)> = self.done;
                        done.push((path.to_owned(), None));
                        assert(file_views(done@) =~= before.push((path@, None)));
                        TakeSnapshot::go_on(done)
                    },
                    Ok(true) => {
                        let inner: Progress<ReadFile, Vec<u8>> = AfcClient::read_file(path);
                        assert(begins_read(inner, path@));
                        TakeSnapshot::read_step(self.done, inner)
                    },
                }
            },
            SnapshotStage::Read(read) => {
                let inner: Progress<ReadFile, Vec<u8>> = read.next(reply);
                assert(read_goes(inner, read, reply));
                TakeSnapshot::read_step(self.done, inner)
            },
        }
    }
}

/// Begins to record what the tracked files hold.
pub fn snapshot_books() -> (p: Progress<TakeSnapshot, BooksSnapshot>)
    ensures
        snapshots(p, Seq::empty()),
{
    let none: Vec<(String, Option<Vec<u8>>)> = Vec::new();
    assert(file_views(none@) =~= Seq::<(Seq<char>, Option<Seq<u8>>)>::empty());
    TakeSnapshot::go_on(none)
}

/// What a recovery record says of a file: its contents, or `false` where it was
/// not there.
pub open spec fn recovery_entry(file: (Seq<char>, Option<Seq<u8>>)) -> (Seq<char>, Tree) {
    (
        file.0,
        match file.1 {
            Some(data) => Tree::Data(data),
            None => Tree::Bool(false),
        },
    )
}

/// The entries of a recovery record.
pub open spec fn recovery_items(
    files: Seq<(Seq<char>, Option<Seq<u8>>)>,
    udid: Seq<char>,
) -> Seq<(Seq<char>, Tree)> {
    Seq::new(files.len(), |i: int| recovery_entry(files[i])).push(
        ("DeviceUDID"@, Tree::Text(udid)),
    )
}

/// The recovery record of a snapshot: a binary property list that gives back what
/// every file held, and the device.
pub fn save_recovery(snapshot: &BooksSnapshot, udid: &str) -> (bytes: Vec<u8>)
    ensures
        bytes@ == plist_binary(dict_of(recovery_items(file_views(snapshot@), udid@))),
        plist_parsed(bytes@) == Some(
            dict_of(recovery_items(file_views(snapshot@), udid@)),
        ),
{
    let ghost views = file_views(snapshot@);
    let ghost items = recovery_items(views, udid@);
    let mut values: Dict = Dict::new();
    let mut i: usize = 0;
    assert(items.take(0) =~= Seq::<(Seq<char>, Tree)>::empty());
    let files: &Vec<(String, Option<Vec<u8>>)> = snapshot.files();
    while i < files.len()
        invariant
            files@ == snapshot@,
            views == file_views(snapshot@),
            items == recovery_items(views, udid@),
            i <= files@.len(),
            values.pairs() == collected(items.take(i as int)),
        decreases files@.len() - i,
    {
        assert(items.take(i + 1).drop_last() =~= items.take(i as int));
        assert(items.take(i + 1).last() == recovery_entry(views[i as int]));
        let value: Plist = match &files[i].1 {
            Some(data) => Plist::Data(copy_bytes(data.as_slice())),
            None => Plist::Bool(false),
        };
        values.insert(files[i].0.clone(), value);
        i = i + 1;
    }
    values.insert("DeviceUDID".to_owned(), string(udid));
    proof {
        assert(items.drop_last() =~= items.take(i as int));
        assert forall|k: int| 0 <= k < items.len() implies comes_back((#[trigger] items[k]).1) by {}
        collected_comes_back(items);
    }
    to_binary(&Plist::Dict(values))
}

/// The request that opens the conduit for a staging directory.
pub fn stage_request(source_subdir: &str) -> (request: Plist)
    ensures
        request.tree() == dict_of(seq![("MediaSubdir"@, Tree::Text(source_subdir@))]),
{
    let fields: Vec<(&str, Plist)> = vec![("MediaSubdir", string(source_subdir))];
    assert(item_pairs(fields@) =~= seq![("MediaSubdir"@, Tree::Text(source_subdir@))]);
    dict(fields)
}

/// The chunks in which an archive is sent.
pub fn archive_chunks(archive: &[u8]) -> (parts: Vec<Vec<u8>>)
    ensures
        views(parts@) == chunks(archive@, 0),
        together(views(parts@)) == archive@,
{
    let mut parts: Vec<Vec<u8>> = Vec::new();
    let mut from: usize = 0;
    assert(views(parts@) + chunks(archive@, 0) =~= chunks(archive@, 0));
    while from < archive.len()
        invariant
            from <= archive@.len(),
            views(parts@) + chunks(archive@, from as int) == chunks(archive@, 0),
        decreases archive@.len() - from,
    {
        let ghost before = views(parts@);
        let end: usize = if archive.len() - from > CHUNK {
            from + CHUNK
        } else {
            archive.len()
        };
        parts.push(copy_range(archive, from, end));
        proof {
            let part = archive@.subrange(from as int, end as int);
            assert(views(parts@) =~= before.push(part));
            assert(views(parts@) + chunks(archive@, end as int) =~= before + chunks(
                archive@,
                from as int,
            ));
        }
        from = end;
    }
    proof {
        chunks_make_the_file(archive@, 0);
        assert(archive@.skip(0) =~= archive@);
        assert(views(parts@) + chunks(archive@, from as int) =~= views(parts@));
    }
    parts
}

/// Whether the conduit accepted the archive.
pub fn stage_streaming_zip(response: &Plist) -> (staged: Result<(), Failure>)
    ensures
        match dict_in(Some(response.tree())) {
            None => staged is Ok,
            Some(pairs) => match lookup(pairs, "Error"@) {
                None => staged is Ok,
                Some(error) => staged matches Err(failure) && failure.says(
                    "StreamingZip rejected archive: "@ + if dates_print(error) {
                        plist_debug(error)
                    } else {
                        "a value with a date that cannot be printed"@
                    },
                ),
            },
        },
{
    match response.as_dictionary() {
        None => Ok(()),
        Some(d) => match d.get("Error") {
            None => Ok(()),
            Some(error) => {
                let what: String = match debug_text(error) {
                    Some(text) => text,
                    None => "a value with a date that cannot be printed".to_owned(),
                };
                Err(Failure::Said("StreamingZip rejected archive: ".to_owned().concat(what.as_str())))
            },
        },
    }
}

/// Where a restore stands with the file at work.
pub enum RestoreStage {
    /// The directories around it are being made.
    Directories(MakeDirectories),
    /// It is being written.
    Write(WriteFile),
    /// Whether it exists is being asked.
    Probe,
    /// It is being removed.
    Remove(PathJob),
}

/// Files that are being brought back to a snapshot.
pub struct RestoreBooks {
    /// The snapshot.
    pub files: Vec<(String, Option<Vec<u8>>)>,
    /// The file at work.
    pub at: usize,
    /// What went wrong so far.
    pub errors: Vec<String>,
    /// How far it is with the file.
    pub stage: RestoreStage,
}

/// What is noted about a file that could not be restored.
pub open spec fn complaint(what: Seq<char>, path: Seq<char>, why: Seq<char>) -> Seq<char> {
    what + path + ": "@ + why
}

/// `text` is what a failure says first; it is free where the failure is another
/// library's.
pub open spec fn reports(failure: Failure, text: Seq<char>) -> bool {
    failure.head() matches Some(head) ==> text == head
}

/// The names of the directories around a file.
pub open spec fn around(path: Seq<char>) -> Seq<Seq<char>> {
    if last_index(path, '/') < 0 {
        Seq::empty()
    } else {
        named(split(path.take(last_index(path, '/')), '/'))
    }
}

/// A call of a restore with everything but the stage unchanged.
pub open spec fn restore_calls(
    p: Progress<RestoreBooks, ()>,
    files: Seq<(String, Option<Vec<u8>>)>,
    at: int,
    errors: Seq<Seq<char>>,
) -> bool {
    p matches Progress::Call(state, _) && state.wf() && state.files@ == files && state.at == at && texts(
        state.errors@,
    ) == errors
}

/// How a restore goes on with the file `at` and those behind it.
pub open spec fn restores(
    p: Progress<RestoreBooks, ()>,
    files: Seq<(String, Option<Vec<u8>>)>,
    at: int,
    errors: Seq<Seq<char>>,
) -> bool
    decreases files.len() - at, 1int,
{
    if at < 0 || at >= files.len() {
        if errors.len() == 0 {
            gives(p, ())
        } else {
            fails_saying(p, "Books restore had errors: "@ + joined_by(errors, "; "@))
        }
    } else {
        let path = files[at].0@;
        match files[at].1 {
            Some(data) => if around(path).len() > 0 && around(path)[0] != "."@ && around(path)[0]
                != ".."@ && !has_nul(path_of(around(path), 1)) {
                &&& restore_calls(p, files, at, errors)
                &&& calls(p, ask_info(path_of(around(path), 1)))
                &&& p matches Progress::Call(state, _)
                &&& state.stage matches RestoreStage::Directories(job)
                &&& job.wf() && texts(job.parts@) == around(path) && job.reached == 1
                    && job.job.stage == PathStage::Probe
            } else {
                restore_writes(p, files, at, errors)
            },
            None => if has_nul(path) {
                fails_saying(p, "NUL in AFC path"@)
            } else {
                &&& restore_calls(p, files, at, errors)
                &&& calls(p, ask_info(path))
                &&& p matches Progress::Call(state, _)
                &&& state.stage is Probe
            },
        }
    }
}

/// How a restore goes on once the directories around the file `at` are seen to,
/// whether they could be made or not.
pub open spec fn restore_writes(
    p: Progress<RestoreBooks, ()>,
    files: Seq<(String, Option<Vec<u8>>)>,
    at: int,
    errors: Seq<Seq<char>>,
) -> bool
    decreases files.len() - at, 0int,
{
    let path = files[at].0@;
    if at < 0 || at >= files.len() {
        true
    } else if has_nul(path) {
        restores(
            p,
            files,
            at + 1,
            errors.push(complaint("Restore write failed for "@, path, "NUL in AFC path"@)),
        )
    } else {
        &&& restore_calls(p, files, at, errors)
        &&& calls(p, ask_open(path, 3))
        &&& p matches Progress::Call(state, _)
        &&& state.stage matches RestoreStage::Write(job)
        &&& job.stage is Open && job.path@ == path && Some(job.data@) == held(files[at].1)
    }
}

/// The work on the file goes on with this call in this stage.
pub open spec fn restore_keeps(
    p: Progress<RestoreBooks, ()>,
    job: RestoreBooks,
    request: Request,
    stage: RestoreStage,
) -> bool {
    &&& restore_calls(p, job.files@, job.at as int, texts(job.errors@))
    &&& p matches Progress::Call(state, same)
    &&& same == request && state.stage == stage
}

/// What follows when the work on the file `at` is over.
pub open spec fn restored(
    p: Progress<RestoreBooks, ()>,
    job: RestoreBooks,
    result: Result<(), Failure>,
    what: Seq<char>,
) -> bool {
    match result {
        Ok(()) => restores(p, job.files@, job.at + 1, texts(job.errors@)),
        Err(failure) => exists|why: Seq<char>| #[trigger]
            reports(failure, why) && restores(
                p,
                job.files@,
                job.at + 1,
                texts(job.errors@).push(complaint(what, job.files@[job.at as int].0@, why)),
            ),
    }
}

/// How a restore goes on with a file that is there now and was not before.
pub open spec fn removes(p: Progress<RestoreBooks, ()>, job: RestoreBooks) -> bool {
    let path = job.files@[job.at as int].0@;
    let errors = texts(job.errors@);
    if has_nul(path) {
        restores(
            p,
            job.files@,
            job.at + 1,
            errors.push(complaint("Restore removal failed for "@, path, "NUL in AFC path"@)),
        )
    } else {
        &&& restore_calls(p, job.files@, job.at as int, errors)
        &&& calls(p, ask_info(path))
        &&& p matches Progress::Call(state, _)
        &&& state.stage matches RestoreStage::Remove(removing)
        &&& removing.path@ == path && removing.op == 8 && removing.stage == PathStage::Probe
    }
}

/// How a restore goes on after the answer to its last call.
pub open spec fn restore_goes(
    p: Progress<RestoreBooks, ()>,
    job: RestoreBooks,
    reply: Result<Vec<u8>, Failure>,
) -> bool {
    let errors = texts(job.errors@);
    match job.stage {
        RestoreStage::Directories(making) => exists|inner: Progress<MakeDirectories, ()>| #[trigger]
            make_goes(inner, making, reply) && match inner {
                Progress::Call(next, request) => restore_keeps(
                    p,
                    job,
                    request,
                    RestoreStage::Directories(next),
                ),
                Progress::Done(_) => restore_writes(p, job.files@, job.at as int, errors),
            },
        RestoreStage::Write(writing) => exists|inner: Progress<WriteFile, ()>| #[trigger]
            write_goes(inner, writing, reply) && match inner {
                Progress::Call(next, request) => restore_keeps(
                    p,
                    job,
                    request,
                    RestoreStage::Write(next),
                ),
                Progress::Done(result) => restored(p, job, result, "Restore write failed for "@),
            },
        RestoreStage::Probe => exists|found: Result<bool, Failure>|
            #[trigger] is_existence(reply, found) && match found {
                Err(given) => fails_with(p, given),
                Ok(false) => restores(p, job.files@, job.at + 1, errors),
                Ok(true) => removes(p, job),
            },
        RestoreStage::Remove(removing) => exists|inner: Progress<PathJob, ()>| #[trigger]
            job_goes(inner, removing, reply) && match inner {
                Progress::Call(next, request) => restore_keeps(
                    p,
                    job,
                    request,
                    RestoreStage::Remove(next),
                ),
                Progress::Done(result) => restored(p, job, result, "Restore removal failed for "@),
            },
    }
}

impl RestoreBooks {
    /// There is a file at work, each file comes up once, and the work is in order: what is written is what the
    /// snapshot holds of the file, and only what was not there is removed.
    pub open spec fn wf(self) -> bool {
        &&& self.at < self.files@.len()
        &&& names_differ(self.files@)
        &&& match self.stage {
            RestoreStage::Directories(job) => job.wf() && self.files@[self.at as int].1 is Some,
            RestoreStage::Write(job) => job.wf() && (job.stage !is Close ==> job.path@
                == self.files@[self.at as int].0@ && Some(job.data@) == held(
                self.files@[self.at as int].1,
            )),
            RestoreStage::Probe => self.files@[self.at as int].1 is None,
            RestoreStage::Remove(job) => job.op == 8 && job.path@ == self.files@[self.at as int].0@
                && self.files@[self.at as int].1 is None,
        }
    }

    fn go_on(files: Vec<(String, Option<Vec<u8>>)>, at: usize, errors: Vec<String>) -> (p: Progress<
        RestoreBooks,
        (),
    >)
        requires
            at <= files@.len(),
            names_differ(files@),
        ensures
            restores(p, files@, at as int, texts(errors@)),
        decreases files@.len() - at, 1int,
    {
        if at >= files.len() {
            if errors.len() == 0 {
                return Progress::Done(Ok(()));
            }
            let all: String = join_texts(&errors, "; ");
            return Progress::Done(
                Err(
                    Failure::Said("Books restore had errors: ".to_owned().concat(all.as_str())),
                ),
            );
        }
        match &files[at].1 {
            Some(_) => {
                match before_last(files[at].0.as_str(), '/') {
                    Some(parent) => {
                        let making = AfcClient::make_directory_recursive(parent.as_str());
                        match making {
                            Progress::Call(job, request) => Progress::Call(
                                RestoreBooks {
                                    files,
                                    at,
                                    errors,
                                    stage: RestoreStage::Directories(job),
                                },
                                request,
                            ),
                            Progress::Done(_) => RestoreBooks::write_on(files, at, errors),
                        }
                    },
                    None => RestoreBooks::write_on(files, at, errors),
                }
            },
            None => match AfcClient::try_exists_request(files[at].0.as_str()) {
                Ok(request) => Progress::Call(
                    RestoreBooks { files, at, errors, stage: RestoreStage::Probe },
                    request,
                ),
                Err(failure) => Progress::Done(Err(failure)),
            },
        }
    }

    fn write_on(
        files: Vec<(String, Option<Vec<u8>>)>,
        at: usize,
        errors: Vec<String>,
    ) -> (p: Progress<RestoreBooks, ()>)
        requires
            at < files@.len(),
            files@[at as int].1 is Some,
            names_differ(files@),
        ensures
            restore_writes(p, files@, at as int, texts(errors@)),
        decreases files@.len() - at, 0int,
    {
        let count: usize = files.len();
        assert(at < count);
        let writing: Progress<WriteFile, ()> = match &files[at].1 {
            Some(data) => AfcClient::write_file(files[at].0.as_str(), data.as_slice()),
            None => return Progress::Done(Ok(())),
        };
        match writing {
            Progress::Call(job, request) => Progress::Call(
                RestoreBooks { files, at, errors, stage: RestoreStage::Write(job) },
                request,
            ),
            Progress::Done(_) => {
                let errors: Vec<String> = noted(
                    errors,
                    "Restore write failed for ",
                    files[at].0.as_str(),
                    "NUL in AFC path",
                );
                RestoreBooks::go_on(files, at + 1, errors)
            },
        }
    }

    fn finish(self, result: Result<(), Failure>, what: &str) -> (p: Progress<RestoreBooks, ()>)
        requires
            self.at < self.files@.len(),
            names_differ(self.files@),
        ensures
            restored(p, self, result, what@),
    {
        let count: usize = self.files.len();
        assert(self.at < count);
        match result {
            Ok(()) => RestoreBooks::go_on(self.files, self.at + 1, self.errors),
            Err(failure) => {
                let why: String = failure.headline();
                assert(reports(failure, why@));
                let errors: Vec<String> = noted(
                    self.errors,
                    what,
                    self.files[self.at].0.as_str(),
                    why.as_str(),
                );
                RestoreBooks::go_on(self.files, self.at + 1, errors)
            },
        }
    }

    /// What follows the answer to the last call.
    pub fn next(self, reply: Result<Vec<u8>, Failure>) -> (p: Progress<RestoreBooks, ()>)
        requires
            self.wf(),
        ensures
            restore_goes(p, self, reply),
            p matches Progress::Call(next, _) ==> next.wf() && next.files@ == self.files@,
    {
        let p: Progress<RestoreBooks, ()> = self.step(reply);
        proof {
            a_restore_keeps_to_the_snapshot(p, self, reply);
        }
        p
    }

    fn step(self, reply: Result<Vec<u8>, Failure>) -> (p: Progress<RestoreBooks, ()>)
        requires
            self.wf(),
        ensures
            restore_goes(p, self, reply),
    {
        let RestoreBooks { files, at, errors, stage } = self;
        let count: usize = files.len();
        assert(at < count);
        match stage {
            RestoreStage::Directories(making) => {
                let inner: Progress<MakeDirectories, ()> = making.next(reply);
                assert(make_goes(inner, making, reply));
                match inner {
                    Progress::Call(next, request) => Progress::Call(
                        RestoreBooks { files, at, errors, stage: RestoreStage::Directories(next) },
                        request,
                    ),
                    Progress::Done(_) => RestoreBooks::write_on(files, at, errors),
                }
            },
            RestoreStage::Write(writing) => {
                let inner: Progress<WriteFile, ()> = writing.next(reply);
                assert(write_goes(inner, writing, reply));
                match inner {
                    Progress::Call(next, request) => Progress::Call(
                        RestoreBooks { files, at, errors, stage: RestoreStage::Write(next) },
                        request,
                    ),
                    Progress::Done(result) => RestoreBooks {
                        files,
                        at,
                        errors,
                        stage: RestoreStage::Probe,
                    }.finish(result, "Restore write failed for "),
                }
            },
            RestoreStage::Probe => {
                let found: Result<bool, Failure> = AfcClient::try_exists(reply);
                assert(is_existence(reply, found));
                match found {
                    Err(failure) => Progress::Done(Err(failure)),
                    Ok(false) => RestoreBooks::go_on(files, at + 1, errors),
                    Ok(true) => match AfcClient::remove_path(files[at].0.as_str()) {
                        Progress::Call(next, request) => Progress::Call(
                            RestoreBooks { files, at, errors, stage: RestoreStage::Remove(next) },
                            request,
                        ),
                        Progress::Done(_) => {
                            let errors: Vec<String> = noted(
                                errors,
                                "Restore removal failed for ",
                                files[at].0.as_str(),
                                "NUL in AFC path",
                            );
                            RestoreBooks::go_on(files, at + 1, errors)
                        },
                    },
                }
            },
            RestoreStage::Remove(removing) => {
                let inner: Progress<PathJob, ()> = removing.next(reply);
                assert(job_goes(inner, removing, reply));
                match inner {
                    Progress::Call(next, request) => Progress::Call(
                        RestoreBooks { files, at, errors, stage: RestoreStage::Remove(next) },
                        request,
                    ),
                    Progress::Done(result) => RestoreBooks {
                        files,
                        at,
                        errors,
                        stage: RestoreStage::Probe,
                    }.finish(result, "Restore removal failed for "),
                }
            },
        }
    }
}

proof fn restores_in_order(
    p: Progress<RestoreBooks, ()>,
    files: Seq<(String, Option<Vec<u8>>)>,
    at: int,
    errors: Seq<Seq<char>>,
)
    requires
        0 <= at <= files.len(),
        restores(p, files, at, errors),
    ensures
        p matches Progress::Call(next, _) ==> next.wf() && next.files@ == files,
    decreases files.len() - at, 1int,
{
    if at < files.len() && files[at].1 is Some {
        let names = around(files[at].0@);
        if !(names.len() > 0 && names[0] != "."@ && names[0] != ".."@ && !has_nul(
            path_of(names, 1),
        )) {
            writes_in_order(p, files, at, errors);
        }
    }
}

proof fn writes_in_order(
    p: Progress<RestoreBooks, ()>,
    files: Seq<(String, Option<Vec<u8>>)>,
    at: int,
    errors: Seq<Seq<char>>,
)
    requires
        0 <= at < files.len(),
        restore_writes(p, files, at, errors),
    ensures
        p matches Progress::Call(next, _) ==> next.wf() && next.files@ == files,
    decreases files.len() - at, 0int,
{
    let path = files[at].0@;
    if has_nul(path) {
        restores_in_order(
            p,
            files,
            at + 1,
            errors.push(complaint("Restore write failed for "@, path, "NUL in AFC path"@)),
        );
    }
}

/// A restore keeps to the snapshot: whatever the phone answers, it writes to a file only
/// what the snapshot holds of it, removes only files that were not there, and leaves the
/// snapshot as it is.
pub proof fn a_restore_keeps_to_the_snapshot(
    p: Progress<RestoreBooks, ()>,
    job: RestoreBooks,
    reply: Result<Vec<u8>, Failure>,
)
    requires
        job.wf(),
        restore_goes(p, job, reply),
    ensures
        p matches Progress::Call(next, _) ==> next.wf() && next.files@ == job.files@,
{
    let files = job.files@;
    let at = job.at as int;
    let path = files[at].0@;
    let errors = texts(job.errors@);
    match job.stage {
        RestoreStage::Directories(making) => {
            let inner = choose|inner: Progress<MakeDirectories, ()>| #[trigger]
                make_goes(inner, making, reply) && match inner {
                    Progress::Call(next, request) => restore_keeps(
                        p,
                        job,
                        request,
                        RestoreStage::Directories(next),
                    ),
                    Progress::Done(_) => restore_writes(p, files, at, errors),
                };
            if inner is Done {
                writes_in_order(p, files, at, errors);
            }
        },
        RestoreStage::Write(writing) => {
            let what = "Restore write failed for "@;
            let inner = choose|inner: Progress<WriteFile, ()>| #[trigger]
                write_goes(inner, writing, reply) && match inner {
                    Progress::Call(next, request) => restore_keeps(
                        p,
                        job,
                        request,
                        RestoreStage::Write(next),
                    ),
                    Progress::Done(result) => restored(p, job, result, what),
                };
            if let Progress::Done(result) = inner {
                restored_in_order(p, job, result, what);
            }
        },
        RestoreStage::Probe => {
            let found = choose|found: Result<bool, Failure>| #[trigger]
                is_existence(reply, found) && match found {
                    Err(given) => fails_with(p, given),
                    Ok(false) => restores(p, files, at + 1, errors),
                    Ok(true) => removes(p, job),
                };
            if found matches Ok(false) {
                restores_in_order(p, files, at + 1, errors);
            } else if found is Ok && has_nul(path) {
                restores_in_order(
                    p,
                    files,
                    at + 1,
                    errors.push(
                        complaint("Restore removal failed for "@, path, "NUL in AFC path"@),
                    ),
                );
            }
        },
        RestoreStage::Remove(removing) => {
            let what = "Restore removal failed for "@;
            let inner = choose|inner: Progress<PathJob, ()>| #[trigger]
                job_goes(inner, removing, reply) && match inner {
                    Progress::Call(next, request) => restore_keeps(
                        p,
                        job,
                        request,
                        RestoreStage::Remove(next),
                    ),
                    Progress::Done(result) => restored(p, job, result, what),
                };
            if let Progress::Done(result) = inner {
                restored_in_order(p, job, result, what);
            }
        },
    }
}

proof fn restored_in_order(
    p: Progress<RestoreBooks, ()>,
    job: RestoreBooks,
    result: Result<(), Failure>,
    what: Seq<char>,
)
    requires
        job.at < job.files@.len(),
        restored(p, job, result, what),
    ensures
        p matches Progress::Call(next, _) ==> next.wf() && next.files@ == job.files@,
{
    let errors = texts(job.errors@);
    match result {
        Ok(()) => restores_in_order(p, job.files@, job.at + 1, errors),
        Err(failure) => {
            let path = job.files@[job.at as int].0@;
            let why = choose|why: Seq<char>| #[trigger]
                reports(failure, why) && restores(
                    p,
                    job.files@,
                    job.at + 1,
                    errors.push(complaint(what, path, why)),
                );
            restores_in_order(p, job.files@, job.at + 1, errors.push(complaint(what, path, why)));
        },
    }
}

fn noted(errors: Vec<String>, what: &str, path: &str, why: &str) -> (more: Vec<String>)
    ensures
        texts(more@) == texts(errors@).push(complaint(what@, path@, why@)),
{
    let mut more: Vec<String> = errors;
    more.push(what.to_owned().concat(path).concat(": ").concat(why));
    assert(texts(more@) =~= texts(errors@).push(complaint(what@, path@, why@)));
    more
}

/// Begins to bring the files back to a snapshot. A file that cannot be restored
/// does not keep the others from being restored.
pub fn restore_books(snapshot: BooksSnapshot) -> (p: Progress<RestoreBooks, ()>)
    ensures
        restores(p, snapshot@, 0, Seq::empty()),
        p matches Progress::Call(next, _) ==> next.wf() && next.files@ == snapshot@,
{
    proof {
        use_type_invariant(&snapshot);
    }
    let none: Vec<String> = Vec::new();
    assert(texts(none@) =~= Seq::<Seq<char>>::empty());
    let p: Progress<RestoreBooks, ()> = RestoreBooks::go_on(snapshot.files, 0, none);
    proof {
        restores_in_order(p, snapshot.files@, 0, Seq::empty());
    }
    p
}

/// An item of several has a member of its own in the archive: a regular file named
/// after its number, with its own bytes. So two items with different bytes have two
/// members with different contents.
pub proof fn every_item_has_its_member(
    target: &str,
    items: &[(&str, &[u8])],
    bytes: Result<Vec<u8>, Failure>,
    i: int,
)
    requires
        call_ensures(build_streaming_zip_archive_multi, (target, items), bytes),
        0 <= i < items@.len(),
        !(items@.len() == 1 && items@[0].0@ == "payload"@),
    ensures
        bytes matches Ok(bytes) && exists|at: int| #[trigger]
            holds_member(
                bytes@,
                at,
                "payload_"@ + decimal(i as nat),
                0o100600,
                items@[i].1@,
            ),
        staging_members(target@, item_views(items@)).contains(
            Member {
                name: "payload_"@ + decimal(i as nat),
                mode: 0o100600,
                data: items@[i].1@,
            },
        ),
{
    let views = item_views(items@);
    let tail = target_tail(target@);
    let first = leading_members(tail) + way(split(tail, '/'));
    let ms = staging_members(target@, views);
    let k = first.len() + i;
    assert(ms =~= first + payload_members(views));
    assert(ms[k] == payload_members(views)[i]);
    assert(views[i].1 == items@[i].1@);
    assert(ms[k] == (Member {
        name: "payload_"@ + decimal(i as nat),
        mode: 0o100600,
        data: items@[i].1@,
    }));
    members_can_be_read_back(ms, k);
}

/// No name of a member stands for two items: a member that is named after the number
/// of an item holds the bytes of that item.
pub proof fn numbered_members_hold_their_items(
    target: Seq<char>,
    items: Seq<(Seq<char>, Seq<u8>)>,
    i: int,
    k: int,
)
    requires
        0 <= i < items.len(),
        0 <= k < staging_members(target, items).len(),
        staging_members(target, items)[k].name == "payload_"@ + decimal(i as nat),
    ensures
        staging_members(target, items)[k].mode == 0o100600,
        staging_members(target, items)[k].data == items[i].1,
{
    let tail = target_tail(target);
    let lead = leading_members(tail);
    let dirs = way(split(tail, '/'));
    let ms = staging_members(target, items);
    let name = "payload_"@ + decimal(i as nat);
    reveal_strlit("payload_");
    reveal_strlit("payload");
    reveal_strlit("META-INF/");
    reveal_strlit("META-INF/com.apple.ZipMetadata.plist");
    reveal_strlit("p0/");
    reveal_strlit("p0/p1/");
    reveal_strlit("p0/p1/p2/");
    reveal_strlit("p0/p1/p2/link");
    assert(name[1] == 'a');
    written_numbers_are_read_back_at_all(i as nat);
    assert(is_digit(name.last()));
    if k < lead.len() {
        assert(ms[k] == lead[k]);
        assert(ms[k].name[1] != 'a');
    } else if k < lead.len() + dirs.len() {
        assert(ms[k] == dirs[k - lead.len()]);
        directories_end_in_a_slash(split(tail, '/'), k - lead.len());
        assert(ms[k].name.last() == '/');
    } else {
        let p = k - lead.len() - dirs.len();
        assert(ms[k] == payload_members(items)[p]);
        assert("payload"@.len() == 7);
        assert(name.len() > 8);
        if p < items.len() && !(items.len() == 1 && items[0].0 == "payload"@) {
            assert(ms[k].name == "payload_"@ + decimal(p as nat));
            assert(decimal(p as nat) =~= (("payload_"@ + decimal(p as nat)).skip(8)));
            assert(decimal(i as nat) =~= name.skip(8));
            numbers_are_written_apart(p as nat, i as nat);
        } else {
            assert(ms[k].name == "payload"@);
        }
    }
}

proof fn written_numbers_are_read_back_at_all(n: nat)
    ensures
        decimal(n).len() >= 1,
        is_digit(decimal(n).last()),
    decreases n,
{
    if n >= 10 {
        written_numbers_are_read_back_at_all(n / 10);
    }
}

proof fn directories_end_in_a_slash(parts: Seq<Seq<char>>, k: int)
    requires
        0 <= k < way(parts).len(),
    ensures
        way(parts)[k].name.len() > 0,
        way(parts)[k].name.last() == '/',
        way(parts)[k].mode == 0o040755,
    decreases parts.len(),
{
    if parts.len() > 0 {
        let before = way(parts.drop_last());
        if k < before.len() {
            directories_end_in_a_slash(parts.drop_last(), k);
        } else {
            assert(joined(parts).last() == '/');
        }
    }
}

/// The first of the items, or the only one, also stands under the plain name
/// `payload`, as a regular file with its bytes; where there is no item, no such
/// member is there.
pub proof fn the_first_item_is_the_payload(
    target: &str,
    items: &[(&str, &[u8])],
    bytes: Result<Vec<u8>, Failure>,
)
    requires
        call_ensures(build_streaming_zip_archive_multi, (target, items), bytes),
        items@.len() > 0,
    ensures
        bytes matches Ok(bytes) && exists|at: int| #[trigger]
            holds_member(bytes@, at, "payload"@, 0o100600, items@[0].1@),
{
    let views = item_views(items@);
    let tail = target_tail(target@);
    let first = leading_members(tail) + way(split(tail, '/'));
    let ms = staging_members(target@, views);
    let k = ms.len() - 1;
    assert(ms =~= first + payload_members(views));
    assert(ms[k] == payload_members(views).last());
    assert(views[0].1 == items@[0].1@);
    members_can_be_read_back(ms, k);
}

/// A single payload stands in its archive under the plain name, as a regular file
/// with its bytes.
pub proof fn the_payload_is_in_the_archive(
    target: &str,
    payload: &[u8],
    bytes: Result<Vec<u8>, Failure>,
)
    requires
        call_ensures(build_streaming_zip_archive, (target, payload), bytes),
    ensures
        bytes matches Ok(bytes) && exists|at: int| #[trigger]
            holds_member(bytes@, at, "payload"@, 0o100600, payload@),
{
    let views = seq![("payload"@, payload@)];
    let tail = target_tail(target@);
    let first = leading_members(tail) + way(split(tail, '/'));
    let ms = staging_members(target@, views);
    let k = ms.len() - 1;
    assert(ms =~= first + payload_members(views));
    assert(ms[k] == payload_members(views)[0]);
    members_can_be_read_back(ms, k);
}

/// The archive holds a symbolic link three directories down that leads back out of
/// them and from there to the target, whether or not the target is written with a
/// leading slash, and the directories in which the link stands.
pub proof fn the_link_leads_to_the_target(
    tail: Seq<char>,
    target: &str,
    items: &[(&str, &[u8])],
    bytes: Result<Vec<u8>, Failure>,
)
    requires
        call_ensures(build_streaming_zip_archive_multi, (target, items), bytes),
        target@ == seq!['/'] + tail || (target@ == tail && !(tail.len() > 0 && tail[0] == '/')),
    ensures
        bytes matches Ok(bytes) && (exists|at: int| #[trigger]
            holds_member(
                bytes@,
                at,
                "p0/p1/p2/link"@,
                0o120777,
                encode_utf8("../../../"@ + tail),
            )) && (exists|at: int| #[trigger]
            holds_member(bytes@, at, "p0/"@, 0o040755, Seq::empty())) && (exists|at: int| #[trigger]
            holds_member(bytes@, at, "p0/p1/"@, 0o040755, Seq::empty())) && (exists|at: int|
         #[trigger]
            holds_member(bytes@, at, "p0/p1/p2/"@, 0o040755, Seq::empty())) && (exists|at: int|
         #[trigger]
            holds_member(bytes@, at, "META-INF/"@, 0o040755, Seq::empty())) && (exists|at: int|
         #[trigger]
            holds_member(
                bytes@,
                at,
                "META-INF/com.apple.ZipMetadata.plist"@,
                0o100600,
                plist_binary(Tree::Dict(seq![("Version"@, Tree::Integer(2))])),
            )),
{
    assert(target_tail(target@) =~= tail);
    let lead = leading_members(tail);
    let views = item_views(items@);
    let ms = staging_members(target@, views);
    assert(forall|k: int| 0 <= k < 6 ==> ms[k] == lead[k]);
    let version = seq![("Version"@, Tree::Integer(2))];
    assert(version.drop_last() =~= Seq::<(Seq<char>, Tree)>::empty());
    reveal_with_fuel(collected, 2);
    assert(collected(version) =~= version);
    members_can_be_read_back(ms, 0);
    members_can_be_read_back(ms, 1);
    members_can_be_read_back(ms, 2);
    members_can_be_read_back(ms, 3);
    members_can_be_read_back(ms, 4);
    members_can_be_read_back(ms, 5);
}

/// On the way to the target there is a directory for every component of its path
/// that is not empty: the first ones, each followed by a slash.
pub proof fn every_directory_on_the_way_is_there(tail: Seq<char>, k: int)
    requires
        0 <= k < split(tail, '/').filter(|p: Seq<char>| p.len() > 0).len(),
    ensures
        way(split(tail, '/')).len() == split(tail, '/').filter(|p: Seq<char>| p.len() > 0).len(),
        way(split(tail, '/'))[k] == (Member {
            name: joined_by(
                split(tail, '/').filter(|p: Seq<char>| p.len() > 0).take(k + 1),
                seq!['/'],
            ) + seq!['/'],
            mode: 0o040755,
            data: Seq::empty(),
        }),
{
    directories_are_prefixes(split(tail, '/'));
}

proof fn directories_are_prefixes(parts: Seq<Seq<char>>)
    ensures
        ({
            let some = parts.filter(|p: Seq<char>| p.len() > 0);
            &&& way(parts).len() == some.len()
            &&& joined(parts) == if some.len() == 0 {
                Seq::empty()
            } else {
                joined_by(some, seq!['/']) + seq!['/']
            }
            &&& forall|k: int|
                0 <= k < some.len() ==> #[trigger] way(parts)[k] == (Member {
                    name: joined_by(some.take(k + 1), seq!['/']) + seq!['/'],
                    mode: 0o040755,
                    data: Seq::empty(),
                })
        }),
    decreases parts.len(),
{
    reveal(Seq::filter);
    let is_some = |p: Seq<char>| p.len() > 0;
    let some = parts.filter(is_some);
    if parts.len() == 0 {
        assert(some.len() == 0);
    } else {
        let shorter = parts.drop_last();
        let before = shorter.filter(is_some);
        directories_are_prefixes(shorter);
        if parts.last().len() > 0 {
            assert(some == before.push(parts.last()));
            assert(some.drop_last() =~= before);
            assert(parts.last().push('/') =~= parts.last() + seq!['/']);
            if before.len() == 0 {
                assert(joined_by(some, seq!['/']) == parts.last());
                assert(joined(parts) =~= joined_by(some, seq!['/']) + seq!['/']);
            } else {
                assert(joined(parts) =~= joined_by(some, seq!['/']) + seq!['/']);
            }
            assert(some.take(some.len() as int) =~= some);
            assert forall|k: int| 0 <= k < some.len() implies #[trigger] way(parts)[k] == (Member {
                name: joined_by(some.take(k + 1), seq!['/']) + seq!['/'],
                mode: 0o040755,
                data: Seq::empty(),
            }) by {
                if k < before.len() {
                    assert(some.take(k + 1) =~= before.take(k + 1));
                    assert(way(parts)[k] == way(shorter)[k]);
                }
            }
        } else {
            assert(some == before);
        }
    }
}

/// A Books record gives every identifier a row, in order, with its number counted
/// from one.
pub proof fn every_book_has_its_row(
    identifiers: &[String],
    bytes: Result<Vec<u8>, Failure>,
    i: int,
)
    requires
        call_ensures(build_books_plist, (identifiers,), bytes),
        0 <= i < identifiers@.len(),
    ensures
        bytes matches Ok(bytes) && plist_parsed(bytes@) matches Some(Tree::Dict(root)) && lookup(
            root,
            "Books"@,
        ) matches Some(Tree::Array(rows)) && rows.len() == identifiers@.len() && (
        rows[i] matches Tree::Dict(row) && lookup(row, "Persistent ID"@) == Some(
            Tree::Text(identifiers@[i]@),
        ) && lookup(row, "Item ID"@) == Some(Tree::Text(decimal((i + 1) as nat))) && lookup(
            row,
            "DSID"@,
        ) == Some(Tree::Text("1"@))),
{
    let ids = texts(identifiers@);
    let rows = Seq::new(ids.len(), |k: int| book_row(ids[k], k));
    let all = seq![("Books"@, Tree::Array(rows))];
    assert(books_tree(ids) == dict_of(all));
    assert(all[0] == ("Books"@, Tree::Array(rows)));
    a_dictionary_holds_its_items(all, "Books"@);
    let items = seq![
        ("Persistent ID"@, Tree::Text(ids[i])),
        ("Item ID"@, Tree::Text(decimal((i + 1) as nat))),
        ("DSID"@, Tree::Text("1"@)),
    ];
    assert(rows[i] == dict_of(items));
    reveal_strlit("Persistent ID");
    reveal_strlit("Item ID");
    reveal_strlit("DSID");
    assert("Persistent ID"@.len() == 13 && "Item ID"@.len() == 7 && "DSID"@.len() == 4);
    assert(items[0] == ("Persistent ID"@, Tree::Text(ids[i])));
    assert(items[1] == ("Item ID"@, Tree::Text(decimal((i + 1) as nat))));
    assert(items[2] == ("DSID"@, Tree::Text("1"@)));
    a_dictionary_holds_its_items(items, "Persistent ID"@);
    a_dictionary_holds_its_items(items, "Item ID"@);
    a_dictionary_holds_its_items(items, "DSID"@);
}

/// A recovery record gives back what every file held, or that it was not there, and
/// which device it is of.
pub proof fn a_recovery_record_gives_back_the_files(
    snapshot: BooksSnapshot,
    udid: &str,
    bytes: Vec<u8>,
    i: int,
)
    requires
        call_ensures(save_recovery, (&snapshot, udid), bytes),
        names_differ(snapshot@),
        0 <= i < snapshot@.len(),
    ensures
        plist_parsed(bytes@) matches Some(Tree::Dict(record)) && lookup(record, "DeviceUDID"@) == Some(
            Tree::Text(udid@),
        ) && (snapshot@[i].0@ != "DeviceUDID"@ ==> lookup(record, snapshot@[i].0@) == Some(
            match snapshot@[i].1 {
                Some(data) => Tree::Data(data@),
                None => Tree::Bool(false),
            },
        )),
{
    let files = file_views(snapshot@);
    let items = recovery_items(files, udid@);
    let n = files.len() as int;
    let name = snapshot@[i].0@;
    assert(items[n] == ("DeviceUDID"@, Tree::Text(udid@)));
    a_dictionary_holds_its_items(items, "DeviceUDID"@);
    assert(items[i] == recovery_entry(files[i]));
    assert forall|j: int| i < j < items.len() && name != "DeviceUDID"@ implies (
    #[trigger] items[j]).0 != name by {
        if j < n {
            assert(items[j] == recovery_entry(files[j]));
            assert(snapshot@[i].0@ != snapshot@[j].0@);
        }
    }
    a_dictionary_holds_its_items(items, name);
}

/// The conduit has accepted the archive exactly where its answer names no error.
pub proof fn only_an_error_rejects_the_archive(response: Plist, staged: Result<(), Failure>)
    requires
        call_ensures(stage_streaming_zip, (&response,), staged),
    ensures
        staged is Err <==> (response.tree() matches Tree::Dict(pairs) && lookup(pairs, "Error"@)
            is Some),
{
}

/// A snapshot with one more file answers with the new contents for that file, and
/// with what it had for every other one.
pub proof fn noted_contents_are_found(
    files: Seq<(Seq<char>, Option<Seq<u8>>)>,
    path: Seq<char>,
    data: Option<Seq<u8>>,
)
    ensures
        put_file(files, path, data).contains((path, data)),
        forall|k: int|
            0 <= k < files.len() && (#[trigger] files[k]).0 != path ==> put_file(
                files,
                path,
                data,
            )[k] == files[k],
        put_file(files, path, data).len() == files.len() + if exists|k: int|
            0 <= k < files.len() && (#[trigger] files[k]).0 == path {
            0int
        } else {
            1int
        },
{
    place_holds_the_path(files, path);
    let at = place_of(files, path);
    assert(put_file(files, path, data)[at] == (path, data));
}

proof fn place_holds_the_path(files: Seq<(Seq<char>, Option<Seq<u8>>)>, path: Seq<char>)
    ensures
        0 <= place_of(files, path) <= files.len(),
        place_of(files, path) < files.len() ==> files[place_of(files, path)].0 == path,
        place_of(files, path) == files.len() ==> forall|k: int|
            0 <= k < files.len() ==> (#[trigger] files[k]).0 != path,
    decreases files.len(),
{
    if files.len() > 0 && files[0].0 != path {
        let rest = files.drop_first();
        place_holds_the_path(rest, path);
        if place_of(files, path) == files.len() {
            assert forall|k: int| 0 <= k < files.len() implies (#[trigger] files[k]).0 != path by {
                if k > 0 {
                    assert(files[k] == rest[k - 1]);
                }
            }
        }
    }
}

/// The snapshot goes on with what is done: it asks about the next tracked file, or is
/// complete with exactly what is done.
pub open spec fn goes_on_with(
    p: Progress<TakeSnapshot, BooksSnapshot>,
    done: Seq<(Seq<char>, Option<Seq<u8>>)>,
) -> bool {
    if done.len() == 6 {
        p matches Progress::Done(Ok(snapshot)) && file_views(snapshot@) == done
    } else {
        let path = TRACKED_BOOKS_FILES@[done.len() as int]@;
        has_nul(path) || (p matches Progress::Call(state, request) && request@ == ask_info(path)
            && state.stage is Probe && file_views(state.done@) == done)
    }
}

/// A snapshot notes of every tracked file in turn what the phone has: nothing where
/// the file is not there, and otherwise all that was read of it. It is complete only
/// with all six of them.
pub proof fn every_tracked_file_is_noted(
    job: TakeSnapshot,
    reply: Result<Vec<u8>, Failure>,
    p: Progress<TakeSnapshot, BooksSnapshot>,
)
    requires
        job.wf(),
        call_ensures(TakeSnapshot::next, (job, reply), p),
    ensures
        ({
            let done = file_views(job.done@);
            let path = TRACKED_BOOKS_FILES@[done.len() as int]@;
            &&& job.stage is Probe && (reply matches Err(Failure::Status(8))) ==> goes_on_with(
                p,
                done.push((path, None)),
            )
            &&& job.stage is Probe && (reply matches Ok(data) && file_info(data@) is Pairs)
                && !has_nul(path) ==> (p matches Progress::Call(next, request) && request@
                == ask_info(path) && (next.stage matches SnapshotStage::Read(read) && read.path@
                == path && read.stage is Size) && file_views(next.done@) == done)
            &&& job.stage is Probe && !(reply matches Err(Failure::Status(8))) && !(
            reply matches Ok(data) && file_info(data@) is Pairs) ==> (p matches Progress::Done(
                Err(_),
            ))
            &&& job.stage matches SnapshotStage::Read(read) ==> exists|
                inner: Progress<ReadFile, Vec<u8>>,
            | #[trigger]
                read_goes(inner, read, reply) && match inner {
                    Progress::Call(more, request) => p matches Progress::Call(next, same) && same
                        == request && next.stage == SnapshotStage::Read(more) && file_views(
                        next.done@,
                    ) == done,
                    Progress::Done(Ok(data)) => goes_on_with(p, done.push((path, Some(data@)))),
                    Progress::Done(Err(_)) => p matches Progress::Done(Err(_)),
                }
        }),
{
    assert(TRACKED_BOOKS_FILES@.len() == 6);
}

/// The restore goes on with the files from `at` on: with the first of them whose path
/// can be sent, or it is over, and then it reports an error exactly where there was
/// one.
pub open spec fn takes_up_the_next_file(
    p: Progress<RestoreBooks, ()>,
    files: Seq<(String, Option<Vec<u8>>)>,
    at: int,
    errors: nat,
) -> bool {
    match p {
        Progress::Call(next, request) => {
            let k = next.at as int;
            &&& at <= k < files.len()
            &&& next.files@ == files
            &&& forall|i: int| at <= i < k ==> has_nul((#[trigger] files[i]).0@)
            &&& next.errors@.len() == errors + (k - at)
            &&& match files[k].1 {
                Some(data) => next.stage is Directories || (next.stage matches RestoreStage::Write(
                    write,
                ) && write.stage is Open && write.path@ == files[k].0@ && write.data@ == data@
                    && request@ == ask_open(files[k].0@, 3)),
                None => next.stage is Probe && request@ == ask_info(files[k].0@),
            }
        },
        Progress::Done(Ok(())) => errors == 0 && at == files.len(),
        Progress::Done(Err(_)) => errors > 0 || exists|i: int|
            at <= i < files.len() && has_nul((#[trigger] files[i]).0@),
    }
}

proof fn next_file_is_taken_up(
    p: Progress<RestoreBooks, ()>,
    files: Seq<(String, Option<Vec<u8>>)>,
    at: int,
    errors: Seq<Seq<char>>,
)
    requires
        0 <= at <= files.len(),
        restores(p, files, at, errors),
    ensures
        takes_up_the_next_file(p, files, at, errors.len()),
    decreases files.len() - at, 1int,
{
    if at < files.len() {
        let path = files[at].0@;
        if let Some(data) = files[at].1 {
            if around(path).len() > 0 && around(path)[0] != "."@ && around(path)[0] != ".."@
                && !has_nul(path_of(around(path), 1)) {
                if let Progress::Call(state, _) = p {
                    assert(texts(state.errors@).len() == state.errors@.len());
                }
            } else {
                next_file_is_written(p, files, at, errors);
            }
        } else if has_nul(path) {
            assert(has_nul(files[at].0@));
        } else {
            if let Progress::Call(state, _) = p {
                assert(texts(state.errors@).len() == state.errors@.len());
            }
        }
    }
}

proof fn next_file_is_written(
    p: Progress<RestoreBooks, ()>,
    files: Seq<(String, Option<Vec<u8>>)>,
    at: int,
    errors: Seq<Seq<char>>,
)
    requires
        0 <= at < files.len(),
        files[at].1 is Some,
        restore_writes(p, files, at, errors),
    ensures
        takes_up_the_next_file(p, files, at, errors.len()),
    decreases files.len() - at, 0int,
{
    let path = files[at].0@;
    if has_nul(path) {
        let more = errors.push(complaint("Restore write failed for "@, path, "NUL in AFC path"@));
        next_file_is_taken_up(p, files, at + 1, more);
        assert(has_nul(files[at].0@));
    } else if let Progress::Call(state, _) = p {
        assert(texts(state.errors@).len() == state.errors@.len());
    }
}

/// A restore takes up every file of its snapshot: a file that held something is
/// written with what it held, once its directories are seen to, and a file that was
/// not there is removed where it is there now. Whether or not the work on a file
/// succeeded, the next file follows; a failure is remembered, and the restore
/// succeeds only where there was none.
pub proof fn every_file_is_restored(
    job: RestoreBooks,
    reply: Result<Vec<u8>, Failure>,
    p: Progress<RestoreBooks, ()>,
)
    requires
        job.wf(),
        call_ensures(RestoreBooks::next, (job, reply), p),
    ensures
        ({
            let files = job.files@;
            let at = job.at as int;
            let path = files[at].0@;
            let errors = job.errors@.len();
            &&& job.stage matches RestoreStage::Write(write) ==> exists|
                inner: Progress<WriteFile, ()>,
            | #[trigger]
                write_goes(inner, write, reply) && match inner {
                    Progress::Call(more, request) => p matches Progress::Call(next, same) && same
                        == request && next.stage == RestoreStage::Write(more) && next.at == job.at
                        && next.files@ == files && next.errors@.len() == errors,
                    Progress::Done(Ok(())) => takes_up_the_next_file(p, files, at + 1, errors),
                    Progress::Done(Err(_)) => takes_up_the_next_file(
                        p,
                        files,
                        at + 1,
                        errors + 1,
                    ),
                }
            &&& job.stage matches RestoreStage::Remove(removing) ==> exists|
                inner: Progress<PathJob, ()>,
            | #[trigger]
                job_goes(inner, removing, reply) && match inner {
                    Progress::Call(more, request) => p matches Progress::Call(next, same) && same
                        == request && next.stage == RestoreStage::Remove(more) && next.at == job.at
                        && next.files@ == files && next.errors@.len() == errors,
                    Progress::Done(Ok(())) => takes_up_the_next_file(p, files, at + 1, errors),
                    Progress::Done(Err(_)) => takes_up_the_next_file(
                        p,
                        files,
                        at + 1,
                        errors + 1,
                    ),
                }
            &&& job.stage matches RestoreStage::Directories(making) ==> exists|
                inner: Progress<MakeDirectories, ()>,
            | #[trigger]
                make_goes(inner, making, reply) && match inner {
                    Progress::Call(more, request) => p matches Progress::Call(next, same) && same
                        == request && next.stage == RestoreStage::Directories(more) && next.at
                        == job.at && next.files@ == files && next.errors@.len() == errors,
                    Progress::Done(_) => !has_nul(path) ==> (p matches Progress::Call(next, request)
                        && request@ == ask_open(path, 3) && next.at == job.at && (
                    next.stage matches RestoreStage::Write(write) && write.path@ == path
                        && write.stage is Open && Some(write.data@) == held(files[at].1))),
                }
            &&& job.stage is Probe && (reply matches Err(Failure::Status(8)))
                ==> takes_up_the_next_file(p, files, at + 1, errors)
            &&& job.stage is Probe && (reply matches Ok(data) && file_info(data@) is Pairs)
                && !has_nul(path) ==> (p matches Progress::Call(next, request) && request@
                == ask_info(path) && next.at == job.at && (next.stage matches RestoreStage::Remove(
                removing,
            ) && removing.path@ == path && removing.op == 8))
        }),
{
    let files = job.files@;
    let at = job.at as int;
    let errors = texts(job.errors@);
    assert(errors.len() == job.errors@.len());
    if let Progress::Call(next, _) = p {
        assert(texts(next.errors@).len() == next.errors@.len());
    }
    match job.stage {
        RestoreStage::Write(write) => {
            let inner = choose|inner: Progress<WriteFile, ()>| #[trigger]
                write_goes(inner, write, reply) && match inner {
                    Progress::Call(next, request) => restore_keeps(
                        p,
                        job,
                        request,
                        RestoreStage::Write(next),
                    ),
                    Progress::Done(result) => restored(p, job, result, "Restore write failed for "@),
                };
            assert(write_goes(inner, write, reply));
            if let Progress::Done(result) = inner {
                next_file_follows(p, job, result, "Restore write failed for "@);
            }
        },
        RestoreStage::Remove(removing) => {
            let inner = choose|inner: Progress<PathJob, ()>| #[trigger]
                job_goes(inner, removing, reply) && match inner {
                    Progress::Call(next, request) => restore_keeps(
                        p,
                        job,
                        request,
                        RestoreStage::Remove(next),
                    ),
                    Progress::Done(result) => restored(
                        p,
                        job,
                        result,
                        "Restore removal failed for "@,
                    ),
                };
            assert(job_goes(inner, removing, reply));
            if let Progress::Done(result) = inner {
                next_file_follows(p, job, result, "Restore removal failed for "@);
            }
        },
        RestoreStage::Probe => {
            let found = choose|found: Result<bool, Failure>|
                #[trigger] is_existence(reply, found) && match found {
                    Err(given) => fails_with(p, given),
                    Ok(false) => restores(p, files, at + 1, errors),
                    Ok(true) => removes(p, job),
                };
            if let Ok(false) = found {
                next_file_is_taken_up(p, files, at + 1, errors);
            }
        },
        RestoreStage::Directories(making) => {},
    }
}

proof fn next_file_follows(
    p: Progress<RestoreBooks, ()>,
    job: RestoreBooks,
    result: Result<(), Failure>,
    what: Seq<char>,
)
    requires
        job.at < job.files@.len(),
        restored(p, job, result, what),
    ensures
        takes_up_the_next_file(
            p,
            job.files@,
            job.at + 1,
            job.errors@.len() + if result is Ok {
                0nat
            } else {
                1nat
            },
        ),
{
    let errors = texts(job.errors@);
    assert(errors.len() == job.errors@.len());
    match result {
        Ok(()) => {
            next_file_is_taken_up(p, job.files@, job.at + 1, errors);
        },
        Err(failure) => {
            let why = choose|why: Seq<char>| #[trigger]
                reports(failure, why) && restores(
                    p,
                    job.files@,
                    job.at + 1,
                    errors.push(complaint(what, job.files@[job.at as int].0@, why)),
                );
            next_file_is_taken_up(
                p,
                job.files@,
                job.at + 1,
                errors.push(complaint(what, job.files@[job.at as int].0@, why)),
            );
        },
    }
}

/// A restore begins with the first file of its snapshot.
pub proof fn a_restore_begins_with_the_first_file(
    snapshot: BooksSnapshot,
    p: Progress<RestoreBooks, ()>,
)
    requires
        call_ensures(restore_books, (snapshot,), p),
    ensures
        takes_up_the_next_file(p, snapshot@, 0, 0),
{
    next_file_is_taken_up(p, snapshot@, 0, Seq::empty());
}

/// The directories around a file are the parts of its path before the last slash that
/// are not empty; a path without a slash has none.
pub proof fn directories_are_around_a_file(directory: Seq<char>, name: Seq<char>)
    requires
        !name.contains('/'),
    ensures
        around(directory + seq!['/'] + name) == split(directory, '/').filter(
            |p: Seq<char>| p.len() > 0,
        ),
        around(name).len() == 0,
{
    let path = directory + seq!['/'] + name;
    let at = directory.len() as int;
    last_index_is_last(path, '/');
    last_index_is_last(name, '/');
    assert(path[at] == '/');
    let last = last_index(path, '/');
    if last > at {
        assert(name[last - at - 1] == '/');
    }
    assert(last == at);
    assert(path.take(at) =~= directory);
    empty_parts_name_nothing(split(directory, '/'));
}

/// Six files are tracked: the two lists of books, the list of uploads, and the three
/// files of the database of outstanding assets.
pub proof fn six_files_are_tracked(i: int)
    requires
        0 <= i < TRACKED_BOOKS_FILES@.len(),
    ensures
        TRACKED_BOOKS_FILES@.len() == 6,
        TRACKED_BOOKS_FILES@[i]@ == (if i == 0 {
            "Books/Books.plist"@
        } else if i == 1 {
            "Books/Sync/Books.plist"@
        } else if i == 2 {
            "Books/Sync/Upload.plist"@
        } else if i == 3 {
            "Books/Sync/Database/OutstandingAssets_4.sqlite"@
        } else if i == 4 {
            "Books/Sync/Database/OutstandingAssets_4.sqlite-shm"@
        } else {
            "Books/Sync/Database/OutstandingAssets_4.sqlite-wal"@
        }),
{
}

/// An archive is sent in pieces of 65536 bytes, the last of which may be shorter, and
/// the conduit is opened for the staging directory.
pub proof fn an_archive_is_sent_in_pieces(
    archive: &[u8],
    parts: Vec<Vec<u8>>,
    i: int,
    source_subdir: &str,
    request: Plist,
)
    requires
        call_ensures(archive_chunks, (archive,), parts),
        0 <= i < parts@.len(),
        call_ensures(stage_request, (source_subdir,), request),
    ensures
        65536 * i < archive@.len(),
        parts@[i]@ == archive@.subrange(
            65536 * i,
            if 65536 * i + 65536 < archive@.len() {
                65536 * i + 65536
            } else {
                archive@.len() as int
            },
        ),
        together(views(parts@)) == archive@,
        request.tree() matches Tree::Dict(pairs) && lookup(pairs, "MediaSubdir"@) == Some(
            Tree::Text(source_subdir@),
        ),
{
    assert(views(parts@)[i] == parts@[i]@);
    contents_are_cut_every_chunk(archive@, 0, i);
    let items = seq![("MediaSubdir"@, Tree::Text(source_subdir@))];
    assert(items[0].0 == "MediaSubdir"@);
    a_dictionary_holds_its_items(items, "MediaSubdir"@);
}

} // verus!
