//! The conversation with Apple's AirTraffic service that moves staged files to
//! their destinations.
use crate::airtraffic::asset_texts;
use crate::device::DeviceTransport;
use crate::failure::Failure;
use crate::text::{digit, hex, hex_text, hexadecimal_of_a_byte, holds, same_text, texts};
use crate::usbmux::{dict, string};
use crate::value::{
    a_dictionary_holds_its_items, array_in, bool_in, dict_in, dict_of, item_pairs, lookup, parse,
    plist_parsed, text_in, trees, Dict, Plist, Tree,
};
use vstd::prelude::*;

verus! {

/// The pause after a read that brought nothing.
pub const SILENCE_MS: u64 = 150;

/// The pause between the host information and the request.
pub const HOST_INFO_MS: u64 = 200;

/// A random identifier: sixteen bytes with the version and variant bits of a
/// random UUID, in hexadecimal groups.
pub open spec fn uuid_text(bytes: Seq<u8>) -> Seq<char> {
    hex_run(bytes, 0, 4) + "-"@ + hex_run(bytes, 4, 6) + "-"@ + hex_run(bytes, 6, 8) + "-"@ + hex_run(
        bytes,
        8,
        10,
    ) + "-"@ + hex_run(bytes, 10, 16)
}

/// The hexadecimal digits of `bytes[from..to]`.
pub open spec fn hex_run(bytes: Seq<u8>, from: int, to: int) -> Seq<char>
    decreases to - from,
{
    if to <= from {
        Seq::empty()
    } else {
        hex_run(bytes, from, to - 1) + hex(bytes[to - 1] as nat, 2)
    }
}

/// The bytes with the version bits set to 4 and the variant bits to binary 10.
pub open spec fn marked(bytes: Seq<u8>) -> Seq<u8> {
    bytes.update(6, (bytes[6] % 16 + 64) as u8).update(8, (bytes[8] % 64 + 128) as u8)
}

fn push_hex(out: &mut String, bytes: &[u8], from: usize, to: usize)
    requires
        from <= to <= bytes@.len(),
    ensures
        final(out)@ == old(out)@ + hex_run(bytes@, from as int, to as int),
{
    let mut i: usize = from;
    assert(out@ + Seq::<char>::empty() =~= out@);
    while i < to
        invariant
            from <= i <= to <= bytes@.len(),
            out@ == old(out)@ + hex_run(bytes@, from as int, i as int),
        decreases to - i,
    {
        out.append(hex_text(bytes[i] as u64, 2).as_str());
        i = i + 1;
        assert(out@ =~= old(out)@ + hex_run(bytes@, from as int, i as int));
    }
}

/// The identifier that random bytes make.
pub fn generate_uuid_v4(random: [u8; 16]) -> (id: String)
    ensures
        id@ == uuid_text(marked(random@)),
{
    let mut bytes: [u8; 16] = random;
    bytes[6] = bytes[6] % 16 + 64;
    bytes[8] = bytes[8] % 64 + 128;
    assert(bytes@ =~= marked(random@));
    let mut id: String = String::new();
    push_hex(&mut id, bytes.as_slice(), 0, 4);
    id.append("-");
    push_hex(&mut id, bytes.as_slice(), 4, 6);
    id.append("-");
    push_hex(&mut id, bytes.as_slice(), 6, 8);
    id.append("-");
    push_hex(&mut id, bytes.as_slice(), 8, 10);
    id.append("-");
    push_hex(&mut id, bytes.as_slice(), 10, 16);
    assert(id@ =~= uuid_text(bytes@));
    id
}

/// The list that names the one kind of data that is synchronised.
pub open spec fn book_list() -> Tree {
    Tree::Array(seq![Tree::Text("Book"@)])
}

/// What the host says of itself.
pub open spec fn host_info_tree(library_id: Seq<char>) -> Tree {
    dict_of(
        seq![
            ("Type"@, Tree::Text("iTunes"@)),
            ("Version"@, Tree::Text("13.7.0.161"@)),
            ("MacOSVersion"@, Tree::Text("Windows NT 10.0"@)),
            ("SyncHostName"@, Tree::Text("airlift"@)),
            ("LibraryID"@, Tree::Text(library_id)),
            ("SyncedDataclasses"@, book_list()),
            ("SyncedAssetTypes"@, book_list()),
            ("Wakeable"@, Tree::Bool(false)),
        ],
    )
}

/// The kinds of data to synchronise.
pub fn dataclasses() -> (list: Plist)
    ensures
        list.tree() == book_list(),
{
    let items: Vec<Plist> = vec![string("Book")];
    assert(trees(items@) =~= seq![Tree::Text("Book"@)]);
    Plist::Array(items)
}

/// No anchors from an earlier synchronisation.
pub fn anchors() -> (empty: Plist)
    ensures
        empty.tree() == Tree::Dict(Seq::empty()),
{
    let empty: Dict = Dict::new();
    Plist::Dict(empty)
}

/// What the host says of itself.
pub fn host_info(library_id: &str) -> (info: Plist)
    ensures
        info.tree() == host_info_tree(library_id@),
{
    let fields: Vec<(&str, Plist)> = vec![
        ("Type", string("iTunes")),
        ("Version", string("13.7.0.161")),
        ("MacOSVersion", string("Windows NT 10.0")),
        ("SyncHostName", string("airlift")),
        ("LibraryID", string(library_id)),
        ("SyncedDataclasses", dataclasses()),
        ("SyncedAssetTypes", dataclasses()),
        ("Wakeable", Plist::Bool(false)),
    ];
    assert(item_pairs(fields@) =~= seq![
        ("Type"@, Tree::Text("iTunes"@)),
        ("Version"@, Tree::Text("13.7.0.161"@)),
        ("MacOSVersion"@, Tree::Text("Windows NT 10.0"@)),
        ("SyncHostName"@, Tree::Text("airlift"@)),
        ("LibraryID"@, Tree::Text(library_id@)),
        ("SyncedDataclasses"@, book_list()),
        ("SyncedAssetTypes"@, book_list()),
        ("Wakeable"@, Tree::Bool(false)),
    ]);
    dict(fields)
}

/// How many lists of each kind the metadata held.
pub fn sync_types() -> (types: Plist)
    ensures
        types.tree() == dict_of(seq![("Book"@, Tree::Integer(1))]),
{
    let fields: Vec<(&str, Plist)> = vec![("Book", Plist::Integer(1))];
    assert(item_pairs(fields@) =~= seq![("Book"@, Tree::Integer(1))]);
    dict(fields)
}

/// The identifier of a manifest entry that is to be downloaded.
pub open spec fn download(entry: Tree) -> Option<Seq<char>> {
    match dict_in(Some(entry)) {
        Some(pairs) => if bool_in(lookup(pairs, "IsDownload"@)) == Some(true) {
            text_in(lookup(pairs, "AssetID"@))
        } else {
            None
        },
        None => None,
    }
}

/// The identifiers of the entries that are to be downloaded, in order.
pub open spec fn downloads(entries: Seq<Tree>) -> Seq<Seq<char>>
    decreases entries.len(),
{
    if entries.len() == 0 {
        Seq::empty()
    } else {
        match download(entries.last()) {
            Some(id) => downloads(entries.drop_last()).push(id),
            None => downloads(entries.drop_last()),
        }
    }
}

/// The entries of the book list in a manifest.
pub open spec fn book_entries(manifest: Tree) -> Option<Seq<Tree>> {
    match dict_in(Some(manifest)) {
        Some(pairs) => array_in(lookup(pairs, "Book"@)),
        None => None,
    }
}

/// Every asset is to be downloaded.
pub open spec fn all_offered(available: Seq<Seq<char>>, assets: Seq<(Seq<char>, Seq<char>)>) -> bool {
    forall|i: int| 0 <= i < assets.len() ==> available.contains((#[trigger] assets[i]).0)
}

/// How a list of strings prints for debugging.
pub uninterp spec fn debug_list(list: Seq<Seq<char>>) -> Seq<char>;

/// The `Debug` form of a list of strings: quoted and escaped strings between
/// brackets. It is a function of the strings.
#[verifier::external_body]
fn debug_strings(list: &Vec<String>) -> (text: String)
    ensures
        text@ == debug_list(texts(list@)),
{
    format!("{:?}", list)
}

/// What is said of an asset that the phone does not ask for.
pub open spec fn missing_asset(id: Seq<char>, shown_list: Seq<char>) -> Seq<char> {
    "Asset '"@ + id + "' missing from device download manifest (available: "@ + shown_list + ")"@
}

/// The identifiers that a manifest asks for. It fails where the manifest holds no
/// book list.
pub fn requested_assets(manifest: &Plist) -> (available: Result<Vec<String>, Failure>)
    ensures
        match book_entries(manifest.tree()) {
            None => available matches Err(failure) && failure.says(
                "AssetManifest does not contain Book list"@,
            ),
            Some(entries) => available matches Ok(available) && texts(available@) == downloads(entries),
        },
{
    let entries: &Vec<Plist> = match manifest.as_dictionary() {
        Some(d) => match d.array("Book") {
            Some(entries) => entries,
            None => return Err(Failure::said("AssetManifest does not contain Book list")),
        },
        None => return Err(Failure::said("AssetManifest does not contain Book list")),
    };
    let ghost all = trees(entries@);
    let mut available: Vec<String> = Vec::new();
    let mut i: usize = 0;
    assert(all.take(0) =~= Seq::<Tree>::empty());
    assert(texts(available@) =~= Seq::<Seq<char>>::empty());
    while i < entries.len()
        invariant
            all == trees(entries@),
            i <= entries@.len(),
            texts(available@) == downloads(all.take(i as int)),
        decreases entries@.len() - i,
    {
        let ghost before = texts(available@);
        assert(all.take(i + 1).drop_last() =~= all.take(i as int));
        assert(all.take(i + 1).last() == entries@[i as int].tree());
        if let Some(d) = entries[i].as_dictionary() {
            if let Some(true) = d.boolean("IsDownload") {
                if let Some(id) = d.text("AssetID") {
                    available.push(id.clone());
                    assert(texts(available@) =~= before.push(id@));
                }
            }
        }
        i = i + 1;
    }
    assert(all.take(i as int) =~= all);
    Ok(available)
}

/// Whether a manifest asks for every asset. The complaint names the first asset
/// that it does not ask for.
pub fn check_manifest(manifest: &Plist, assets: &[(&str, &str)]) -> (checked: Result<(), Failure>)
    ensures
        match book_entries(manifest.tree()) {
            None => checked matches Err(failure) && failure.says(
                "AssetManifest does not contain Book list"@,
            ),
            Some(entries) => match checked {
                Ok(()) => all_offered(downloads(entries), asset_texts(assets@)),
                Err(failure) => exists|i: int|
                    0 <= i < assets@.len() && all_offered(
                        downloads(entries),
                        asset_texts(assets@).take(i),
                    ) && !downloads(entries).contains((#[trigger] assets@[i]).0@) && failure.says(
                        missing_asset(assets@[i].0@, debug_list(downloads(entries))),
                    ),
            },
        },
{
    let available: Vec<String> = match requested_assets(manifest) {
        Ok(available) => available,
        Err(failure) => return Err(failure),
    };
    let ghost offered = texts(available@);
    let ghost wanted = asset_texts(assets@);
    let mut i: usize = 0;
    while i < assets.len()
        invariant
            wanted == asset_texts(assets@),
            offered == texts(available@),
            book_entries(manifest.tree()) matches Some(entries) && downloads(entries) == offered,
            i <= assets@.len(),
            all_offered(offered, wanted.take(i as int)),
        decreases assets@.len() - i,
    {
        if !holds(&available, assets[i].0) {
            let shown: String = debug_strings(&available);
            let said: String = "Asset '".to_owned().concat(assets[i].0).concat(
                "' missing from device download manifest (available: ",
            ).concat(shown.as_str()).concat(")");
            return Err(Failure::Said(said));
        }
        assert forall|k: int| 0 <= k < i + 1 implies offered.contains(
            (#[trigger] wanted.take(i + 1)[k]).0,
        ) by {
            if k < i {
                assert(wanted.take(i as int)[k] == wanted.take(i + 1)[k]);
            } else {
                assert(wanted.take(i + 1)[k] == wanted[k]);
            }
        }
        i = i + 1;
    }
    assert(wanted.take(i as int) =~= wanted);
    Ok(())
}

/// Where the conversation stands.
#[derive(Debug, Clone, Copy, PartialEq, Eq, Structural)]
pub enum Phase {
    /// Waiting for the phone to allow the synchronisation.
    Allowed,
    /// Sending the request.
    Request,
    /// Waiting for the phone to be ready.
    Ready,
    /// Saying that there is no metadata.
    Metadata,
    /// Waiting for the manifest.
    Manifest,
    /// Reporting an asset as delivered.
    Asset(usize),
    /// Everything is said.
    Over,
}

/// The state of the conversation: the phase, and how many reads are left in it.
#[derive(Debug, Clone, Copy, PartialEq, Eq, Structural)]
pub struct Conversation {
    pub phase: Phase,
    pub left: u32,
}

/// What has happened.
pub enum Event {
    /// A read brought nothing.
    Silence,
    /// A message with this name came. The manifest that it carries, if any, comes
    /// with it.
    Heard(String, Option<Vec<u8>>),
    /// What was to be sent has been sent.
    Sent,
}

/// What to do next.
pub enum Action {
    /// Read a message.
    Read,
    /// Send the host information and, after a pause, the request.
    SendRequest,
    /// Say that the metadata is complete.
    SendMetadata,
    /// Report the asset with this index as delivered.
    SendAsset(usize),
    /// Close the connection; the synchronisation is done.
    Finish,
    /// Close the connection and report.
    Stop(Failure),
}

/// What to do next, and how.
pub struct Step {
    /// A line for the log.
    pub log: Option<String>,
    /// A pause before the action.
    pub pause_ms: u64,
    /// The action.
    pub action: Action,
}

/// How many reads a phase lasts: twice as many over the network.
pub open spec fn patience(reads: u32, transport: DeviceTransport) -> u32 {
    if transport == DeviceTransport::Wifi {
        (reads * 2) as u32
    } else {
        reads
    }
}

/// A message that ends the conversation before the manifest.
pub open spec fn is_ending(name: Seq<char>) -> bool {
    name == "SyncFailed"@ || name == "SyncFinished"@ || name == "Error"@
}

/// The log line of a step.
pub open spec fn logs(step: Step, line: Option<Seq<char>>) -> bool {
    match line {
        Some(line) => step.log matches Some(log) && log@ == line,
        None => step.log is None,
    }
}

/// The step stops with the given message.
pub open spec fn stops(step: Step, complaint: Seq<char>) -> bool {
    step.action matches Action::Stop(failure) && failure.says(complaint)
}

/// What is said when the phase runs out of reads.
pub open spec fn given_up(phase: Phase) -> Seq<char> {
    match phase {
        Phase::Allowed =>
            "AirTraffic: SyncAllowed message not received. Ensure iPhone screen is unlocked and Books app is opened."@,
        Phase::Ready => "AirTraffic: ReadyForSync message not received from device"@,
        _ => "AirTraffic: AssetManifest was not received or failed to parse"@,
    }
}

/// The conversation goes on reading, or gives up where no read is left.
pub open spec fn reads_on(
    before: Conversation,
    after: Conversation,
    step: Step,
    line: Option<Seq<char>>,
    pause: u64,
) -> bool {
    &&& logs(step, line)
    &&& step.pause_ms == pause
    &&& if before.left <= 1 {
        after.phase == Phase::Over && after.left == 0 && stops(step, given_up(before.phase))
    } else {
        after.phase == before.phase && after.left == before.left - 1 && step.action is Read
    }
}

/// The conversation is over with a complaint.
pub open spec fn breaks_off(after: Conversation, step: Step, complaint: Seq<char>) -> bool {
    &&& step.log is None
    &&& step.pause_ms == 0
    &&& after.phase == Phase::Over && after.left == 0
    &&& stops(step, complaint)
}

/// The next asset is reported, or the conversation ends well after a last pause.
pub open spec fn delivers(
    after: Conversation,
    step: Step,
    index: int,
    count: nat,
    pause: u64,
) -> bool {
    &&& step.log is None
    &&& after.left == 0
    &&& if index < count {
        after.phase == Phase::Asset(index as usize) && step.pause_ms == pause && step.action
            == Action::SendAsset(index as usize)
    } else {
        after.phase == Phase::Over && step.pause_ms == 2000 && step.action is Finish
    }
}

/// What follows an accepted or refused manifest.
pub open spec fn judged(
    after: Conversation,
    step: Step,
    manifest: Option<Tree>,
    assets: Seq<(Seq<char>, Seq<char>)>,
) -> bool {
    match manifest {
        None => breaks_off(after, step, given_up(Phase::Manifest)),
        Some(tree) => match book_entries(tree) {
            None => breaks_off(after, step, "AssetManifest does not contain Book list"@),
            Some(entries) => if all_offered(downloads(entries), assets) {
                delivers(after, step, 0, assets.len(), 0)
            } else {
                exists|i: int|
                    0 <= i < assets.len() && all_offered(downloads(entries), assets.take(i))
                        && !downloads(entries).contains((#[trigger] assets[i]).0) && breaks_off(
                        after,
                        step,
                        missing_asset(assets[i].0, debug_list(downloads(entries))),
                    )
            },
        },
    }
}

/// The manifest that the bytes hold, if they hold one.
pub open spec fn manifest_in(bytes: Option<Seq<u8>>) -> Option<Tree> {
    match bytes {
        Some(bytes) => plist_parsed(bytes),
        None => None,
    }
}

/// The bytes that come with a message.
pub open spec fn bytes_in(bytes: Option<Vec<u8>>) -> Option<Seq<u8>> {
    match bytes {
        Some(bytes) => Some(bytes@),
        None => None,
    }
}

/// How the conversation goes on after an event.
pub open spec fn goes_on(
    before: Conversation,
    event: Event,
    transport: DeviceTransport,
    assets: Seq<(Seq<char>, Seq<char>)>,
    after: Conversation,
    step: Step,
) -> bool {
    match (before.phase, event) {
        (Phase::Allowed, Event::Silence) => reads_on(before, after, step, None, SILENCE_MS),
        (Phase::Allowed, Event::Heard(name, _)) => if name@ == "SyncAllowed"@ {
            &&& logs(step, Some("SyncAllowed received! Handshaking Books sync request..."@))
            &&& step.pause_ms == 0
            &&& after.phase == Phase::Request && after.left == 0
            &&& step.action is SendRequest
        } else if is_ending(name@) {
            breaks_off(after, step, "AirTraffic ended before SyncAllowed: "@ + name@)
        } else {
            reads_on(before, after, step, Some("AirTraffic message: "@ + name@), 0)
        },
        (Phase::Request, Event::Sent) => {
            &&& logs(step, Some("Waiting for ReadyForSync from iPhone..."@))
            &&& step.pause_ms == 0
            &&& after.phase == Phase::Ready && after.left == patience(20, transport)
            &&& step.action is Read
        },
        (Phase::Ready, Event::Silence) => reads_on(before, after, step, None, SILENCE_MS),
        (Phase::Ready, Event::Heard(name, _)) => if is_ending(name@) {
            breaks_off(
                after,
                step,
                "Apple native AirTraffic rejected the request before ReadyForSync: "@ + name@,
            )
        } else if name@ == "ReadyForSync"@ {
            &&& step.log is None
            &&& step.pause_ms == 0
            &&& after.phase == Phase::Metadata && after.left == 0
            &&& step.action is SendMetadata
        } else {
            reads_on(before, after, step, None, 0)
        },
        (Phase::Metadata, Event::Sent) => {
            &&& step.log is None
            &&& step.pause_ms == 0
            &&& after.phase == Phase::Manifest && after.left == patience(30, transport)
            &&& step.action is Read
        },
        (Phase::Manifest, Event::Silence) => reads_on(before, after, step, None, SILENCE_MS),
        (Phase::Manifest, Event::Heard(name, bytes)) => if name@ == "AssetManifest"@ {
            judged(after, step, manifest_in(bytes_in(bytes)), assets)
        } else if name@ == "SyncFailed"@ || name@ == "SyncFinished"@ {
            breaks_off(
                after,
                step,
                "AirTraffic returned unexpected terminating message: "@ + name@,
            )
        } else {
            reads_on(before, after, step, None, 0)
        },
        (Phase::Asset(index), Event::Sent) => delivers(
            after,
            step,
            index + 1,
            assets.len(),
            if index == 0 {
                400
            } else {
                60
            },
        ),
        _ => breaks_off(after, step, "Unexpected AirTraffic event"@),
    }
}

fn stop(complaint: &str) -> (reply: (Conversation, Step))
    ensures
        breaks_off(reply.0, reply.1, complaint@),
{
    (
        Conversation { phase: Phase::Over, left: 0 },
        Step { log: None, pause_ms: 0, action: Action::Stop(Failure::said(complaint)) },
    )
}

fn stop_with(failure: Failure) -> (reply: (Conversation, Step))
    ensures
        reply.0 == (Conversation { phase: Phase::Over, left: 0 }),
        reply.1 == (Step { log: None, pause_ms: 0, action: Action::Stop(failure) }),
{
    (
        Conversation { phase: Phase::Over, left: 0 },
        Step { log: None, pause_ms: 0, action: Action::Stop(failure) },
    )
}

fn deliver(index: usize, count: usize, pause: u64) -> (reply: (Conversation, Step))
    ensures
        delivers(reply.0, reply.1, index as int, count as nat, pause),
{
    if index < count {
        (
            Conversation { phase: Phase::Asset(index), left: 0 },
            Step { log: None, pause_ms: pause, action: Action::SendAsset(index) },
        )
    } else {
        (
            Conversation { phase: Phase::Over, left: 0 },
            Step { log: None, pause_ms: 2000, action: Action::Finish },
        )
    }
}

/// What follows the manifest that came with its message: the assets are reported
/// only where it asks for every one of them.
pub fn judge(manifest: Option<&Plist>, assets: &[(&str, &str)]) -> (reply: (Conversation, Step))
    ensures
        judged(
            reply.0,
            reply.1,
            match manifest {
                Some(manifest) => Some(manifest.tree()),
                None => None,
            },
            asset_texts(assets@),
        ),
{
    let manifest: &Plist = match manifest {
        Some(manifest) => manifest,
        None => return stop("AirTraffic: AssetManifest was not received or failed to parse"),
    };
    let ghost wanted = asset_texts(assets@);
    match check_manifest(manifest, assets) {
        Ok(()) => deliver(0, assets.len(), 0),
        Err(failure) => {
            let reply = stop_with(failure);
            proof {
                if let Some(entries) = book_entries(manifest.tree()) {
                    let available = downloads(entries);
                    let i = choose|i: int|
                        0 <= i < assets@.len() && all_offered(available, wanted.take(i))
                            && !available.contains((#[trigger] assets@[i]).0@) && failure.says(
                            missing_asset(assets@[i].0@, debug_list(available)),
                        );
                    assert(wanted[i].0 == assets@[i].0@);
                    assert(!all_offered(available, wanted));
                }
            }
            reply
        },
    }
}

/// The log line before the connection is made.
pub fn connecting(transport: DeviceTransport) -> (line: String)
    ensures
        line@ == "Connecting to iOS AirTraffic service (com.apple.atc) over "@ + transport.name()
            + "..."@,
{
    "Connecting to iOS AirTraffic service (com.apple.atc) over ".to_owned().concat(
        transport.label(),
    ).concat("...")
}

/// The beginning of a conversation over a connection, where there is one: a log
/// line and the first read.
pub fn run(udid: &str, transport: DeviceTransport, connected: bool) -> (begun: Result<
    (Conversation, Step),
    Failure,
>)
    ensures
        match begun {
            Ok(begun) => connected && begun.0.phase == Phase::Allowed && begun.0.left == patience(
                15,
                transport,
            ) && logs(
                begun.1,
                Some("Waiting for SyncAllowed from iPhone (keep screen unlocked)..."@),
            ) && begun.1.pause_ms == 0 && begun.1.action is Read,
            Err(failure) => !connected && failure.says(
                "ATHostConnectionCreate failed for UDID: "@ + udid@,
            ),
        },
{
    if !connected {
        return Err(
            Failure::Said("ATHostConnectionCreate failed for UDID: ".to_owned().concat(udid)),
        );
    }
    let reads: u32 = if transport == DeviceTransport::Wifi {
        30
    } else {
        15
    };
    let line: String = "Waiting for SyncAllowed from iPhone (keep screen unlocked)...".to_owned();
    Ok(
        (
            Conversation { phase: Phase::Allowed, left: reads },
            Step { log: Some(line), pause_ms: 0, action: Action::Read },
        ),
    )
}

impl Conversation {
    fn read_on(self, log: Option<String>, pause_ms: u64) -> (reply: (Conversation, Step))
        requires
            self.phase == Phase::Allowed || self.phase == Phase::Ready || self.phase
                == Phase::Manifest,
        ensures
            reads_on(
                self,
                reply.0,
                reply.1,
                match log {
                    Some(log) => Some(log@),
                    None => None,
                },
                pause_ms,
            ),
    {
        if self.left <= 1 {
            let complaint: Failure = match self.phase {
                Phase::Allowed => Failure::said(
                    "AirTraffic: SyncAllowed message not received. Ensure iPhone screen is unlocked and Books app is opened.",
                ),
                Phase::Ready => Failure::said(
                    "AirTraffic: ReadyForSync message not received from device",
                ),
                _ => Failure::said(
                    "AirTraffic: AssetManifest was not received or failed to parse",
                ),
            };
            (
                Conversation { phase: Phase::Over, left: 0 },
                Step { log, pause_ms, action: Action::Stop(complaint) },
            )
        } else {
            (
                Conversation { phase: self.phase, left: self.left - 1 },
                Step { log, pause_ms, action: Action::Read },
            )
        }
    }

    /// How the conversation goes on after an event.
    pub fn next(
        self,
        event: Event,
        transport: DeviceTransport,
        assets: &[(&str, &str)],
    ) -> (reply: (Conversation, Step))
        ensures
            goes_on(self, event, transport, asset_texts(assets@), reply.0, reply.1),
    {
        let wide: bool = transport == DeviceTransport::Wifi;
        match (self.phase, event) {
            (Phase::Allowed, Event::Silence) => self.read_on(None, SILENCE_MS),
            (Phase::Allowed, Event::Heard(name, _)) => {
                if same_text(name.as_str(), "SyncAllowed") {
                    (
                        Conversation { phase: Phase::Request, left: 0 },
                        Step {
                            log: Some(
                                "SyncAllowed received! Handshaking Books sync request...".to_owned(),
                            ),
                            pause_ms: 0,
                            action: Action::SendRequest,
                        },
                    )
                } else if ends(name.as_str()) {
                    stop(
                        "AirTraffic ended before SyncAllowed: ".to_owned().concat(
                            name.as_str(),
                        ).as_str(),
                    )
                } else {
                    self.read_on(
                        Some("AirTraffic message: ".to_owned().concat(name.as_str())),
                        0,
                    )
                }
            },
            (Phase::Request, Event::Sent) => (
                Conversation {
                    phase: Phase::Ready,
                    left: if wide {
                        40
                    } else {
                        20
                    },
                },
                Step {
                    log: Some("Waiting for ReadyForSync from iPhone...".to_owned()),
                    pause_ms: 0,
                    action: Action::Read,
                },
            ),
            (Phase::Ready, Event::Silence) => self.read_on(None, SILENCE_MS),
            (Phase::Ready, Event::Heard(name, _)) => {
                if ends(name.as_str()) {
                    stop(
                        "Apple native AirTraffic rejected the request before ReadyForSync: ".to_owned().concat(
                            name.as_str(),
                        ).as_str(),
                    )
                } else if same_text(name.as_str(), "ReadyForSync") {
                    (
                        Conversation { phase: Phase::Metadata, left: 0 },
                        Step { log: None, pause_ms: 0, action: Action::SendMetadata },
                    )
                } else {
                    self.read_on(None, 0)
                }
            },
            (Phase::Metadata, Event::Sent) => (
                Conversation {
                    phase: Phase::Manifest,
                    left: if wide {
                        60
                    } else {
                        30
                    },
                },
                Step { log: None, pause_ms: 0, action: Action::Read },
            ),
            (Phase::Manifest, Event::Silence) => self.read_on(None, SILENCE_MS),
            (Phase::Manifest, Event::Heard(name, bytes)) => {
                if same_text(name.as_str(), "AssetManifest") {
                    match bytes {
                        None => judge(None, assets),
                        Some(bytes) => match parse(bytes.as_slice()) {
                            Ok(manifest) => judge(Some(&manifest), assets),
                            Err(_) => judge(None, assets),
                        },
                    }
                } else if same_text(name.as_str(), "SyncFailed") || same_text(
                    name.as_str(),
                    "SyncFinished",
                ) {
                    stop(
                        "AirTraffic returned unexpected terminating message: ".to_owned().concat(
                            name.as_str(),
                        ).as_str(),
                    )
                } else {
                    self.read_on(None, 0)
                }
            },
            (Phase::Asset(index), Event::Sent) => if index < assets.len() {
                deliver(
                    index + 1,
                    assets.len(),
                    if index == 0 {
                        400
                    } else {
                        60
                    },
                )
            } else {
                deliver(assets.len(), assets.len(), 0)
            },
            _ => stop("Unexpected AirTraffic event"),
        }
    }
}

fn ends(name: &str) -> (ending: bool)
    ensures
        ending == is_ending(name@),
{
    same_text(name, "SyncFailed") || same_text(name, "SyncFinished") || same_text(name, "Error")
}

/// How far the conversation can still go.
pub open spec fn distance(c: Conversation, assets: nat) -> nat {
    match c.phase {
        Phase::Allowed => 200 + c.left as nat + assets,
        Phase::Request => 199 + assets,
        Phase::Ready => 100 + c.left as nat + assets,
        Phase::Metadata => 99 + assets,
        Phase::Manifest => 2 + c.left as nat + assets,
        Phase::Asset(index) => if index < assets {
            (1 + assets - index) as nat
        } else {
            1
        },
        Phase::Over => 0,
    }
}

/// Every event brings the conversation closer to its end: it never goes on for
/// ever, whatever the phone says.
pub proof fn conversation_ends(
    before: Conversation,
    event: Event,
    transport: DeviceTransport,
    assets: Seq<(Seq<char>, Seq<char>)>,
    after: Conversation,
    step: Step,
)
    requires
        goes_on(before, event, transport, assets, after, step),
        before.phase != Phase::Over,
        assets.len() <= usize::MAX,
    ensures
        distance(after, assets.len()) < distance(before, assets.len()),
        after.phase == Phase::Over <==> step.action is Finish || step.action is Stop,
{
}

/// An asset is reported first only after a manifest that asks for every asset,
/// and otherwise only after the asset before it.
pub proof fn assets_in_order(
    before: Conversation,
    event: Event,
    transport: DeviceTransport,
    assets: Seq<(Seq<char>, Seq<char>)>,
    after: Conversation,
    step: Step,
    index: usize,
)
    requires
        goes_on(before, event, transport, assets, after, step),
        step.action == Action::SendAsset(index),
        assets.len() <= usize::MAX,
    ensures
        index < assets.len(),
        after.phase == Phase::Asset(index),
        index > 0 ==> before.phase == Phase::Asset((index - 1) as usize),
        index == 0 ==> before.phase == Phase::Manifest && (event matches Event::Heard(_, bytes)
            && manifest_in(bytes_in(bytes)) matches Some(tree) && book_entries(tree) matches Some(
            entries,
        ) && all_offered(downloads(entries), assets)),
{
}

/// While reads are left, silence is waited out: the same phase goes on reading
/// after the pause, with one read less. Only the silence of the last read ends the
/// conversation.
pub proof fn silence_is_waited_out(
    before: Conversation,
    transport: DeviceTransport,
    assets: &[(&str, &str)],
    reply: (Conversation, Step),
)
    requires
        call_ensures(Conversation::next, (before, Event::Silence, transport, assets), reply),
        before.phase == Phase::Allowed || before.phase == Phase::Ready || before.phase
            == Phase::Manifest,
    ensures
        reply.1.pause_ms == 150,
        reply.1.log is None,
        before.left > 1 ==> reply.1.action is Read && reply.0.phase == before.phase && reply.0.left
            == before.left - 1,
        before.left <= 1 ==> reply.1.action is Stop && reply.0.phase == Phase::Over,
{
}

/// A message that a waiting phase has no use for costs a read and nothing else:
/// it neither ends the conversation nor moves it on, and the next read follows
/// without a pause. Before the manifest only `SyncFailed`, `SyncFinished` and
/// `Error` end it; in the wait for the manifest `Error` does not.
pub proof fn other_messages_are_passed_over(
    before: Conversation,
    name: String,
    bytes: Option<Vec<u8>>,
    transport: DeviceTransport,
    assets: &[(&str, &str)],
    reply: (Conversation, Step),
)
    requires
        call_ensures(
            Conversation::next,
            (before, Event::Heard(name, bytes), transport, assets),
            reply,
        ),
        name@ != "SyncFailed"@,
        name@ != "SyncFinished"@,
        ({
            ||| before.phase == Phase::Allowed && name@ != "SyncAllowed"@ && name@ != "Error"@
            ||| before.phase == Phase::Ready && name@ != "ReadyForSync"@ && name@ != "Error"@
            ||| before.phase == Phase::Manifest && name@ != "AssetManifest"@
        }),
    ensures
        reply.1.pause_ms == 0,
        before.left > 1 ==> reply.1.action is Read && reply.0.phase == before.phase && reply.0.left
            == before.left - 1,
        before.left <= 1 ==> reply.1.action is Stop && reply.0.phase == Phase::Over,
        before.phase == Phase::Allowed ==> (reply.1.log matches Some(line) && line@
            == "AirTraffic message: "@ + name@),
        before.phase != Phase::Allowed ==> reply.1.log is None,
{
}

/// The message that a phase waits for leads on at once, however few reads are
/// left, and a message that ends the synchronisation stops it at once, however
/// many are left.
pub proof fn awaited_messages_lead_on(
    before: Conversation,
    name: String,
    bytes: Option<Vec<u8>>,
    transport: DeviceTransport,
    assets: &[(&str, &str)],
    reply: (Conversation, Step),
)
    requires
        call_ensures(
            Conversation::next,
            (before, Event::Heard(name, bytes), transport, assets),
            reply,
        ),
    ensures
        before.phase == Phase::Allowed && name@ == "SyncAllowed"@ ==> reply.1.action is SendRequest
            && reply.0.phase == Phase::Request,
        before.phase == Phase::Ready && name@ == "ReadyForSync"@ ==> reply.1.action is SendMetadata
            && reply.0.phase == Phase::Metadata,
        (before.phase == Phase::Allowed || before.phase == Phase::Ready || before.phase
            == Phase::Manifest) && (name@ == "SyncFailed"@ || name@ == "SyncFinished"@)
            ==> reply.1.action is Stop && reply.0.phase == Phase::Over,
        (before.phase == Phase::Allowed || before.phase == Phase::Ready) && name@ == "Error"@
            ==> reply.1.action is Stop && reply.0.phase == Phase::Over,
        reply.1.action is SendRequest ==> before.phase == Phase::Allowed && name@ == "SyncAllowed"@,
        reply.1.action is SendMetadata ==> before.phase == Phase::Ready && name@ == "ReadyForSync"@,
{
    reveal_strlit("SyncAllowed");
    reveal_strlit("ReadyForSync");
    reveal_strlit("AssetManifest");
    reveal_strlit("SyncFailed");
    reveal_strlit("SyncFinished");
    reveal_strlit("Error");
    assert("ReadyForSync"@[0] != "SyncFinished"@[0]);
    assert("SyncAllowed"@.len() == 11);
    assert("SyncFailed"@.len() == 10);
    assert("SyncFinished"@.len() == 12);
    assert("AssetManifest"@.len() == 13);
    assert("Error"@.len() == 5);
}

/// What has been sent opens the next wait: twenty reads for the phone to be ready
/// and thirty for its manifest, twice as many over Wi-Fi. A conversation begins
/// with fifteen reads, or thirty, and begins wherever there is a connection.
pub proof fn waits_are_twice_as_long_over_wifi(
    udid: &str,
    before: Conversation,
    transport: DeviceTransport,
    connected: bool,
    assets: &[(&str, &str)],
    begun: Result<(Conversation, Step), Failure>,
    reply: (Conversation, Step),
)
    requires
        call_ensures(run, (udid, transport, connected), begun),
        call_ensures(Conversation::next, (before, Event::Sent, transport, assets), reply),
    ensures
        begun is Ok <==> connected,
        begun matches Ok(begun) ==> begun.0.phase == Phase::Allowed && begun.1.action is Read
            && begun.0.left == (if transport == DeviceTransport::Wifi {
            30u32
        } else {
            15u32
        }),
        before.phase == Phase::Request ==> reply.0.phase == Phase::Ready && reply.1.action is Read
            && reply.0.left == (if transport == DeviceTransport::Wifi {
            40u32
        } else {
            20u32
        }),
        before.phase == Phase::Metadata ==> reply.0.phase == Phase::Manifest
            && reply.1.action is Read && reply.0.left == (if transport == DeviceTransport::Wifi {
            60u32
        } else {
            30u32
        }),
{
}

/// After an asset comes the next one, and after the last one, and no sooner, the
/// conversation ends well. The pause after the first asset is the longer one.
pub proof fn every_asset_is_reported(
    before: Conversation,
    index: usize,
    transport: DeviceTransport,
    assets: &[(&str, &str)],
    reply: (Conversation, Step),
)
    requires
        call_ensures(Conversation::next, (before, Event::Sent, transport, assets), reply),
        before.phase == Phase::Asset(index),
        index < assets@.len(),
    ensures
        index + 1 < assets@.len() ==> reply.1.action == Action::SendAsset((index + 1) as usize)
            && reply.0.phase == Phase::Asset((index + 1) as usize) && reply.1.pause_ms == (if index
            == 0 {
            400u64
        } else {
            60u64
        }),
        index + 1 == assets@.len() ==> reply.1.action is Finish && reply.0.phase == Phase::Over
            && reply.1.pause_ms == 2000,
{
}

/// An event that cannot come in a phase stops the conversation: silence or a
/// message where something was to be sent, and a report of having sent where
/// something was to be read.
pub proof fn misplaced_events_stop(
    before: Conversation,
    event: Event,
    transport: DeviceTransport,
    assets: &[(&str, &str)],
    reply: (Conversation, Step),
)
    requires
        call_ensures(Conversation::next, (before, event, transport, assets), reply),
        ({
            ||| before.phase == Phase::Over
            ||| event is Sent && (before.phase == Phase::Allowed || before.phase == Phase::Ready
                || before.phase == Phase::Manifest)
            ||| !(event is Sent) && (before.phase == Phase::Request || before.phase
                == Phase::Metadata || before.phase is Asset)
        }),
    ensures
        reply.1.action is Stop,
        reply.0.phase == Phase::Over,
{
}

/// The entry of a manifest asks for the asset with this identifier.
pub open spec fn asks_for(entry: Tree, id: Seq<char>) -> bool {
    &&& entry matches Tree::Dict(pairs)
    &&& lookup(pairs, "IsDownload"@) == Some(Tree::Bool(true))
    &&& lookup(pairs, "AssetID"@) == Some(Tree::Text(id))
}

/// An identifier is among the requested ones exactly where an entry of the book
/// list asks for it.
proof fn downloads_are_asked_for(entries: Seq<Tree>, id: Seq<char>)
    ensures
        downloads(entries).contains(id) <==> exists|j: int|
            0 <= j < entries.len() && asks_for(#[trigger] entries[j], id),
    decreases entries.len(),
{
    if entries.len() > 0 {
        let shorter = entries.drop_last();
        let last = entries.len() - 1;
        downloads_are_asked_for(shorter, id);
        assert(asks_for(entries[last], id) <==> download(entries[last]) == Some(id));
        if downloads(entries).contains(id) {
            let k = choose|k: int| 0 <= k < downloads(entries).len() && downloads(entries)[k] == id;
            if k < downloads(shorter).len() {
                assert(downloads(shorter)[k] == id);
                let j = choose|j: int| 0 <= j < shorter.len() && asks_for(#[trigger] shorter[j], id);
                assert(asks_for(entries[j], id));
            } else {
                assert(asks_for(entries[last], id));
            }
        }
        if exists|j: int| 0 <= j < entries.len() && asks_for(#[trigger] entries[j], id) {
            let j = choose|j: int| 0 <= j < entries.len() && asks_for(#[trigger] entries[j], id);
            if j < last {
                assert(asks_for(shorter[j], id));
                let k = choose|k: int|
                    0 <= k < downloads(shorter).len() && downloads(shorter)[k] == id;
                assert(downloads(entries)[k] == id);
            } else {
                assert(downloads(entries)[downloads(shorter).len() as int] == id);
            }
        }
    }
}

/// The requested identifiers are exactly those for which an entry of the manifest's
/// book list asks.
pub proof fn requested_assets_are_asked_for(
    manifest: Plist,
    available: Result<Vec<String>, Failure>,
    pairs: Seq<(Seq<char>, Tree)>,
    entries: Seq<Tree>,
    id: Seq<char>,
)
    requires
        call_ensures(requested_assets, (&manifest,), available),
        manifest.tree() == Tree::Dict(pairs),
        lookup(pairs, "Book"@) == Some(Tree::Array(entries)),
    ensures
        available matches Ok(available) && (texts(available@).contains(id) <==> exists|j: int|
            0 <= j < entries.len() && asks_for(#[trigger] entries[j], id)),
{
    downloads_are_asked_for(entries, id);
}

/// The assets are reported after a manifest exactly where it can be read, has a
/// book list, and for every asset an entry of that list asks; where an asset is
/// not asked for, or nothing can be read, the conversation stops.
pub proof fn manifest_must_ask_for_every_asset(
    before: Conversation,
    name: String,
    bytes: Option<Vec<u8>>,
    transport: DeviceTransport,
    assets: &[(&str, &str)],
    reply: (Conversation, Step),
)
    requires
        call_ensures(
            Conversation::next,
            (before, Event::Heard(name, bytes), transport, assets),
            reply,
        ),
        before.phase == Phase::Manifest,
        name@ == "AssetManifest"@,
    ensures
        ({
            let accepted = bytes matches Some(bytes) && plist_parsed(bytes@) matches Some(
                Tree::Dict(pairs),
            ) && lookup(pairs, "Book"@) matches Some(Tree::Array(entries)) && forall|i: int|
                0 <= i < assets@.len() ==> exists|j: int|
                    0 <= j < entries.len() && asks_for(
                        #[trigger] entries[j],
                        (#[trigger] assets@[i]).0@,
                    );
            &&& accepted && assets@.len() > 0 ==> reply.1.action == Action::SendAsset(0)
                && reply.0.phase == Phase::Asset(0)
            &&& accepted && assets@.len() == 0 ==> reply.1.action is Finish && reply.0.phase
                == Phase::Over
            &&& !accepted ==> reply.1.action is Stop && reply.0.phase == Phase::Over
        }),
{
    let wanted = asset_texts(assets@);
    if let Some(tree) = manifest_in(bytes_in(bytes)) {
        if let Some(entries) = book_entries(tree) {
            assert forall|i: int| 0 <= i < assets@.len() implies (downloads(entries).contains(
                (#[trigger] assets@[i]).0@,
            ) <==> exists|j: int|
                0 <= j < entries.len() && asks_for(#[trigger] entries[j], assets@[i].0@)) by {
                downloads_are_asked_for(entries, assets@[i].0@);
            }
            assert(forall|i: int|
                0 <= i < wanted.len() ==> (#[trigger] wanted[i]).0 == assets@[i].0@);
            if all_offered(downloads(entries), wanted) {
                assert forall|i: int| 0 <= i < assets@.len() implies downloads(entries).contains(
                    (#[trigger] assets@[i]).0@,
                ) by {
                    assert(downloads(entries).contains(wanted[i].0));
                }
            } else {
                let i = choose|i: int|
                    0 <= i < wanted.len() && !downloads(entries).contains((#[trigger] wanted[i]).0);
                assert(!downloads(entries).contains(assets@[i].0@));
            }
        }
    }
}

/// A random identifier has 36 characters: the hexadecimal digits of its sixteen bytes,
/// two for each and in order, with hyphens before the fifth, seventh, ninth and
/// eleventh pair. Its version digit is 4, its variant digit is one of 8, 9, a and b,
/// and every other digit is that of the random bytes.
pub proof fn identifiers_show_their_bytes(random: [u8; 16], id: String)
    requires
        call_ensures(generate_uuid_v4, (random,), id),
    ensures
        id@.len() == 36,
        id@[8] == '-' && id@[13] == '-' && id@[18] == '-' && id@[23] == '-',
        id@[14] == '4',
        id@[19] == '8' || id@[19] == '9' || id@[19] == 'a' || id@[19] == 'b',
        forall|i: int|
            0 <= i < 16 && i != 6 && i != 8 ==> id@[digit_place(i)] == digit(
                (#[trigger] random@[i]) as nat / 16,
            ) && id@[digit_place(i) + 1] == digit(random@[i] as nat % 16),
        id@[15] == digit(random@[6] as nat % 16),
        id@[20] == digit(random@[8] as nat % 16),
{
    let b = marked(random@);
    let runs = (
        hex_run(b, 0, 4),
        hex_run(b, 4, 6),
        hex_run(b, 6, 8),
        hex_run(b, 8, 10),
        hex_run(b, 10, 16),
    );
    reveal_strlit("-");
    assert("-"@ =~= seq!['-']);
    runs_show_their_bytes(b, 0, 4);
    runs_show_their_bytes(b, 4, 6);
    runs_show_their_bytes(b, 6, 8);
    runs_show_their_bytes(b, 8, 10);
    runs_show_their_bytes(b, 10, 16);
    assert(id@.subrange(0, 8) =~= runs.0);
    assert(id@.subrange(9, 13) =~= runs.1);
    assert(id@.subrange(14, 18) =~= runs.2);
    assert(id@.subrange(19, 23) =~= runs.3);
    assert(id@.subrange(24, 36) =~= runs.4);
    assert(b[6] as nat / 16 == 4 && b[6] as nat % 16 == random@[6] as nat % 16);
    assert(8 <= b[8] as nat / 16 < 12 && b[8] as nat % 16 == random@[8] as nat % 16);
    assert forall|i: int| 0 <= i < 16 implies id@[digit_place(i)] == digit(
        (#[trigger] b[i]) as nat / 16,
    ) && id@[digit_place(i) + 1] == digit(b[i] as nat % 16) by {
        if i < 4 {
            assert(id@[2 * i] == runs.0[2 * (i - 0)]);
            assert(id@[2 * i + 1] == runs.0[2 * (i - 0) + 1]);
        } else if i < 6 {
            assert(id@[2 * i + 1] == runs.1[2 * (i - 4)]);
            assert(id@[2 * i + 2] == runs.1[2 * (i - 4) + 1]);
        } else if i < 8 {
            assert(id@[2 * i + 2] == runs.2[2 * (i - 6)]);
            assert(id@[2 * i + 3] == runs.2[2 * (i - 6) + 1]);
        } else if i < 10 {
            assert(id@[2 * i + 3] == runs.3[2 * (i - 8)]);
            assert(id@[2 * i + 4] == runs.3[2 * (i - 8) + 1]);
        } else {
            assert(id@[2 * i + 4] == runs.4[2 * (i - 10)]);
            assert(id@[2 * i + 5] == runs.4[2 * (i - 10) + 1]);
        }
    }
    assert(id@[digit_place(6)] == digit(b[6] as nat / 16));
    assert(id@[digit_place(8)] == digit(b[8] as nat / 16));
    assert forall|i: int| 0 <= i < 16 && i != 6 && i != 8 implies id@[digit_place(i)] == digit(
        (#[trigger] random@[i]) as nat / 16,
    ) && id@[digit_place(i) + 1] == digit(random@[i] as nat % 16) by {
        assert(b[i] == random@[i]);
    }
}

proof fn runs_show_their_bytes(bytes: Seq<u8>, from: int, to: int)
    requires
        from <= to,
    ensures
        hex_run(bytes, from, to).len() == 2 * (to - from),
        forall|i: int|
            from <= i < to ==> hex_run(bytes, from, to)[2 * (i - from)] == digit(
                (#[trigger] bytes[i]) as nat / 16,
            ) && hex_run(bytes, from, to)[2 * (i - from) + 1] == digit(bytes[i] as nat % 16),
    decreases to - from,
{
    if from < to {
        runs_show_their_bytes(bytes, from, to - 1);
        hexadecimal_of_a_byte(bytes[to - 1] as nat);
        let before = hex_run(bytes, from, to - 1);
        assert forall|i: int| from <= i < to implies hex_run(bytes, from, to)[2 * (i - from)]
            == digit((#[trigger] bytes[i]) as nat / 16) && hex_run(bytes, from, to)[2 * (i - from)
            + 1] == digit(bytes[i] as nat % 16) by {
            if i < to - 1 {
                assert(hex_run(bytes, from, to)[2 * (i - from)] == before[2 * (i - from)]);
                assert(hex_run(bytes, from, to)[2 * (i - from) + 1] == before[2 * (i - from) + 1]);
            }
        }
    }
}

/// Where the two digits of a byte stand in an identifier.
pub open spec fn digit_place(i: int) -> int {
    2 * i + if i < 4 {
        0int
    } else if i < 6 {
        1
    } else if i < 8 {
        2
    } else if i < 10 {
        3
    } else {
        4
    }
}

/// The host introduces itself under the given library identifier, and offers to
/// synchronise books and nothing else.
pub proof fn the_host_offers_books(library_id: &str, info: Plist, classes: Plist, types: Plist)
    requires
        call_ensures(host_info, (library_id,), info),
        call_ensures(dataclasses, (), classes),
        call_ensures(sync_types, (), types),
    ensures
        info.tree() matches Tree::Dict(pairs) && lookup(pairs, "LibraryID"@) == Some(
            Tree::Text(library_id@),
        ) && lookup(pairs, "Type"@) == Some(Tree::Text("iTunes"@)) && lookup(pairs, "Version"@)
            == Some(Tree::Text("13.7.0.161"@)) && lookup(pairs, "MacOSVersion"@) == Some(
            Tree::Text("Windows NT 10.0"@),
        ) && lookup(pairs, "SyncHostName"@) == Some(Tree::Text("airlift"@)) && lookup(
            pairs,
            "SyncedDataclasses"@,
        ) == Some(Tree::Array(seq![Tree::Text("Book"@)])) && lookup(pairs, "SyncedAssetTypes"@)
            == Some(Tree::Array(seq![Tree::Text("Book"@)])) && lookup(pairs, "Wakeable"@) == Some(
            Tree::Bool(false),
        ),
        classes.tree() == Tree::Array(seq![Tree::Text("Book"@)]),
        types.tree() matches Tree::Dict(counts) && lookup(counts, "Book"@) == Some(Tree::Integer(1)),
{
    let items = seq![
        ("Type"@, Tree::Text("iTunes"@)),
        ("Version"@, Tree::Text("13.7.0.161"@)),
        ("MacOSVersion"@, Tree::Text("Windows NT 10.0"@)),
        ("SyncHostName"@, Tree::Text("airlift"@)),
        ("LibraryID"@, Tree::Text(library_id@)),
        ("SyncedDataclasses"@, book_list()),
        ("SyncedAssetTypes"@, book_list()),
        ("Wakeable"@, Tree::Bool(false)),
    ];
    reveal_strlit("Type");
    reveal_strlit("Version");
    reveal_strlit("MacOSVersion");
    reveal_strlit("SyncHostName");
    reveal_strlit("LibraryID");
    reveal_strlit("SyncedDataclasses");
    reveal_strlit("SyncedAssetTypes");
    reveal_strlit("Wakeable");
    assert("Type"@.len() == 4 && "Version"@.len() == 7 && "MacOSVersion"@.len() == 12
        && "SyncHostName"@.len() == 12 && "LibraryID"@.len() == 9 && "SyncedDataclasses"@.len() == 17
        && "SyncedAssetTypes"@.len() == 16 && "Wakeable"@.len() == 8);
    assert("MacOSVersion"@[0] != "SyncHostName"@[0]);
    assert(items[0].0 == "Type"@ && items[1].0 == "Version"@ && items[2].0 == "MacOSVersion"@
        && items[3].0 == "SyncHostName"@ && items[4].0 == "LibraryID"@ && items[5].0
        == "SyncedDataclasses"@ && items[6].0 == "SyncedAssetTypes"@ && items[7].0 == "Wakeable"@);
    a_dictionary_holds_its_items(items, "Type"@);
    a_dictionary_holds_its_items(items, "Version"@);
    a_dictionary_holds_its_items(items, "MacOSVersion"@);
    a_dictionary_holds_its_items(items, "SyncHostName"@);
    a_dictionary_holds_its_items(items, "LibraryID"@);
    a_dictionary_holds_its_items(items, "SyncedDataclasses"@);
    a_dictionary_holds_its_items(items, "SyncedAssetTypes"@);
    a_dictionary_holds_its_items(items, "Wakeable"@);
    let counts = seq![("Book"@, Tree::Integer(1))];
    assert(counts[0].0 == "Book"@);
    a_dictionary_holds_its_items(counts, "Book"@);
}

/// A manifest passes the check exactly where it has a book list in which, for every
/// asset, an entry asks for it.
pub proof fn a_checked_manifest_asks_for_every_asset(
    manifest: Plist,
    assets: &[(&str, &str)],
    checked: Result<(), Failure>,
)
    requires
        call_ensures(check_manifest, (&manifest, assets), checked),
    ensures
        checked is Ok <==> (manifest.tree() matches Tree::Dict(pairs) && lookup(pairs, "Book"@) matches
            Some(Tree::Array(entries)) && forall|i: int|
            0 <= i < assets@.len() ==> exists|j: int|
                0 <= j < entries.len() && asks_for(#[trigger] entries[j], (#[trigger] assets@[i]).0@)),
{
    let wanted = asset_texts(assets@);
    if let Some(entries) = book_entries(manifest.tree()) {
        assert forall|i: int| 0 <= i < assets@.len() implies (downloads(entries).contains(
            (#[trigger] assets@[i]).0@,
        ) <==> exists|j: int|
            0 <= j < entries.len() && asks_for(#[trigger] entries[j], assets@[i].0@)) by {
            downloads_are_asked_for(entries, assets@[i].0@);
        }
        if checked is Ok {
            assert forall|i: int| 0 <= i < assets@.len() implies downloads(entries).contains(
                (#[trigger] assets@[i]).0@,
            ) by {
                assert(wanted[i].0 == assets@[i].0@);
            }
        }
    }
}

/// A conversation that stops says why: which message did not come in its time, which
/// message ended it and when, or that an event was out of place.
pub proof fn a_stop_says_why(
    before: Conversation,
    event: Event,
    transport: DeviceTransport,
    assets: &[(&str, &str)],
    reply: (Conversation, Step),
)
    requires
        call_ensures(Conversation::next, (before, event, transport, assets), reply),
    ensures
        before.left <= 1 && event is Silence ==> match before.phase {
            Phase::Allowed => stops(
                reply.1,
                "AirTraffic: SyncAllowed message not received. Ensure iPhone screen is unlocked and Books app is opened."@,
            ),
            Phase::Ready => stops(
                reply.1,
                "AirTraffic: ReadyForSync message not received from device"@,
            ),
            Phase::Manifest => stops(
                reply.1,
                "AirTraffic: AssetManifest was not received or failed to parse"@,
            ),
            _ => stops(reply.1, "Unexpected AirTraffic event"@),
        },
        event matches Event::Heard(name, _) ==> (name@ == "SyncFailed"@ ==> match before.phase {
            Phase::Allowed => stops(
                reply.1,
                "AirTraffic ended before SyncAllowed: "@ + "SyncFailed"@,
            ),
            Phase::Ready => stops(
                reply.1,
                "Apple native AirTraffic rejected the request before ReadyForSync: "@
                    + "SyncFailed"@,
            ),
            Phase::Manifest => stops(
                reply.1,
                "AirTraffic returned unexpected terminating message: "@ + "SyncFailed"@,
            ),
            _ => stops(reply.1, "Unexpected AirTraffic event"@),
        }),
{
    reveal_strlit("SyncAllowed");
    reveal_strlit("AssetManifest");
    reveal_strlit("SyncFailed");
    assert("SyncAllowed"@.len() == 11);
    assert("SyncFailed"@.len() == 10);
    assert("AssetManifest"@.len() == 13);
}

} // verus!
