//! Backups of the original artwork of Wallet cards.
use crate::afc::{ask_info, file_info, has_nul, is_existence, AfcClient, Progress, Request};
use crate::afc_files::{read_goes, ReadFile};
use crate::airlift::begins_read;
use crate::failure::Failure;
use crate::text::{digit, hex, hex_text, same_text, strip_end, stripped_end, texts};
use vstd::prelude::*;
use vstd::utf8::encode_utf8;

verus! {

/// The artwork files of a card.
pub const CARD_ARTWORK_ASSETS: [&'static str; 3] = [
    "cardBackgroundCombined@3x.png",
    "cardBackgroundCombined@2x.png",
    "cardBackgroundCombined.pdf",
];

/// A character that can stand in a file name.
pub open spec fn is_safe_char(c: char) -> bool {
    'A' <= c <= 'Z' || 'a' <= c <= 'z' || '0' <= c <= '9' || c == '-' || c == '_' || c == '.'
}

/// The text as a file name: other characters become underscores.
pub open spec fn safe(value: Seq<char>) -> Seq<char> {
    if value.len() == 0 {
        "unknown"@
    } else {
        Seq::new(
            value.len(),
            |i: int| if is_safe_char(value[i]) {
                value[i]
            } else {
                '_'
            },
        )
    }
}

/// The text as a file name.
pub fn safe_component(value: &str) -> (component: String)
    ensures
        component@ == safe(value@),
{
    let mut component: String = String::new();
    let ghost mapped = Seq::new(
        value@.len(),
        |i: int| if is_safe_char(value@[i]) {
            value@[i]
        } else {
            '_'
        },
    );
    for c in it: value.chars()
        invariant
            it.seq() == value@,
            mapped == Seq::new(
                value@.len(),
                |i: int| if is_safe_char(value@[i]) {
                    value@[i]
                } else {
                    '_'
                },
            ),
            component@ == mapped.take(it.index() as int),
    {
        if ('A' <= c && c <= 'Z') || ('a' <= c && c <= 'z') || ('0' <= c && c <= '9') || c == '-' || c == '_'
            || c == '.' {
            component.push(c);
        } else {
            component.push('_');
        }
        assert(component@ =~= mapped.take(it.index() + 1));
    }
    assert(component@ =~= mapped);
    if component.as_str().unicode_len() == 0 {
        return "unknown".to_owned();
    }
    component
}

/// One step of the FNV-1a hash.
pub open spec fn fnv_step(hash: u64, byte: u8) -> u64 {
    (((hash ^ (byte as u64)) as nat * 0x100000001b3) % 0x1_0000_0000_0000_0000) as u64
}

/// The 64-bit FNV-1a hash of a run of bytes.
pub open spec fn fnv(bytes: Seq<u8>) -> u64
    decreases bytes.len(),
{
    if bytes.len() == 0 {
        0xcbf29ce484222325
    } else {
        fnv_step(fnv(bytes.drop_last()), bytes.last())
    }
}

/// The hash of a text as sixteen hexadecimal digits.
pub fn stable_hash(value: &str) -> (digits: String)
    ensures
        digits@ == hex(fnv(encode_utf8(value@)) as nat, 16),
{
    let bytes: &[u8] = value.as_bytes();
    let mut hash: u64 = 0xcbf29ce484222325;
    let mut i: usize = 0;
    assert(bytes@.take(0) =~= Seq::<u8>::empty());
    while i < bytes.len()
        invariant
            i <= bytes@.len(),
            hash == fnv(bytes@.take(i as int)),
        decreases bytes@.len() - i,
    {
        assert(bytes@.take(i + 1).drop_last() =~= bytes@.take(i as int));
        hash = (hash ^ (bytes[i] as u64)).wrapping_mul(0x100000001b3);
        i = i + 1;
    }
    assert(bytes@.take(i as int) =~= bytes@);
    hex_text(hash, 16)
}

/// The name of the directory that holds the backup of a card.
pub open spec fn backup_name(udid: Seq<char>, card_hash: Seq<char>) -> Seq<char> {
    safe(udid) + "-"@ + hex(fnv(encode_utf8(card_hash)) as nat, 16)
}

proof fn hex_is_safe(n: nat, width: nat)
    ensures
        hex(n, width).len() == width,
        forall|i: int| 0 <= i < width ==> is_safe_char(#[trigger] hex(n, width)[i]),
    decreases width,
{
    if width > 0 {
        let shorter = hex(n / 16, (width - 1) as nat);
        hex_is_safe(n / 16, (width - 1) as nat);
        assert(is_safe_char(digit(n % 16)));
        assert forall|i: int| 0 <= i < width implies is_safe_char(#[trigger] hex(n, width)[i]) by {
            if i < width - 1 {
                assert(hex(n, width)[i] == shorter[i]);
            }
        }
    }
}

/// A backup stays in its place: whatever the device and the card are called, the name of
/// its directory holds only letters, digits, hyphens, underscores and dots, and is none
/// of the names that lead elsewhere.
pub proof fn backups_stay_in_place(udid: Seq<char>, card_hash: Seq<char>)
    ensures
        forall|i: int|
            0 <= i < backup_name(udid, card_hash).len() ==> is_safe_char(
                #[trigger] backup_name(udid, card_hash)[i],
            ),
        backup_name(udid, card_hash) != ""@,
        backup_name(udid, card_hash) != "."@,
        backup_name(udid, card_hash) != ".."@,
{
    reveal_strlit("unknown");
    reveal_strlit("-");
    reveal_strlit("");
    reveal_strlit(".");
    reveal_strlit("..");
    let number = fnv(encode_utf8(card_hash)) as nat;
    let name = backup_name(udid, card_hash);
    hex_is_safe(number, 16);
    assert("-"@.len() == 1);
    assert("-"@[0] == '-');
    assert(""@.len() == 0);
    assert("."@.len() == 1);
    assert(".."@.len() == 2);
    assert forall|i: int| 0 <= i < name.len() implies is_safe_char(#[trigger] name[i]) by {
        let count = safe(udid).len() as int;
        if i < count {
            assert(name[i] == safe(udid)[i]);
        } else if i == count {
            assert(name[i] == "-"@[0]);
        } else {
            assert(name[i] == hex(number, 16)[i - count - 1]);
        }
    }
}

/// The name of the directory that holds the backup of a card.
pub fn backup_dir(udid: &str, card_hash: &str) -> (name: String)
    ensures
        name@ == backup_name(udid@, card_hash@),
{
    safe_component(udid).concat("-").concat(stable_hash(card_hash).as_str())
}

/// Whether there is a backup, given which of the artwork files are there.
pub fn backup_exists(present: [bool; 3]) -> (exists_any: bool)
    ensures
        exists_any == (present@[0] || present@[1] || present@[2]),
{
    present[0] || present[1] || present[2]
}

/// The list without repetitions that stand side by side.
pub open spec fn deduplicated(list: Seq<Seq<char>>) -> Seq<Seq<char>>
    decreases list.len(),
{
    if list.len() <= 1 {
        list
    } else {
        let before = deduplicated(list.drop_last());
        if list.last() == list[list.len() - 2] {
            before
        } else {
            before.push(list.last())
        }
    }
}

/// The forms under which the phone may know a card: as given, without padding,
/// and with one or two padding characters.
pub open spec fn forms(card_hash: Seq<char>) -> Seq<Seq<char>> {
    let plain = stripped_end(card_hash, seq!['=']);
    if plain.len() == 0 {
        seq![card_hash, plain]
    } else {
        seq![card_hash, plain, plain + "="@, plain + "=="@]
    }
}

/// The forms under which the phone may know a card.
pub fn card_hash_candidates(card_hash: &str) -> (candidates: Vec<String>)
    ensures
        texts(candidates@) == deduplicated(forms(card_hash@)),
{
    let padding: Vec<char> = vec!['='];
    assert(padding@ =~= seq!['=']);
    let plain: String = strip_end(card_hash, padding.as_slice());
    let mut all: Vec<String> = Vec::new();
    all.push(card_hash.to_owned());
    all.push(plain.clone());
    if plain.as_str().unicode_len() > 0 {
        all.push(plain.clone().concat("="));
        all.push(plain.concat("=="));
    }
    let ghost list = texts(all@);
    assert(list =~= forms(card_hash@));
    let mut candidates: Vec<String> = Vec::new();
    candidates.push(all[0].clone());
    let mut i: usize = 1;
    assert(texts(candidates@) =~= list.take(1));
    while i < all.len()
        invariant
            list == texts(all@),
            1 <= i <= all@.len(),
            texts(candidates@) == deduplicated(list.take(i as int)),
        decreases all@.len() - i,
    {
        let ghost before = texts(candidates@);
        assert(list.take(i + 1).drop_last() =~= list.take(i as int));
        assert(list.take(i + 1).last() == all@[i as int]@);
        assert(list.take(i + 1)[i - 1] == all@[i - 1]@);
        if !same_text(all[i].as_str(), all[i - 1].as_str()) {
            candidates.push(all[i].clone());
            assert(texts(candidates@) =~= before.push(all@[i as int]@));
        }
        i = i + 1;
    }
    assert(list.take(i as int) =~= list);
    candidates
}

/// The directory of a card on the phone.
pub open spec fn pass_dir(card_hash: Seq<char>) -> Seq<char> {
    "/var/mobile/Library/Passes/Cards/"@ + card_hash + ".pkpass"@
}

fn pass_path(card_hash: &str) -> (path: String)
    ensures
        path@ == pass_dir(card_hash@),
{
    "/var/mobile/Library/Passes/Cards/".to_owned().concat(card_hash).concat(".pkpass")
}

/// Where a backup stands.
pub enum CaptureStage {
    /// Whether the phone knows the card under this form is being asked.
    Find { candidates: Vec<String>, next: usize },
    /// Whether an artwork file is on the phone is being asked.
    Probe,
    /// It is being read.
    Read(ReadFile),
    /// It is being stored.
    Save,
}

/// A backup of a card that is being made.
pub struct Capture {
    /// The card as it was given.
    pub card_hash: String,
    /// Which artwork files are stored already.
    pub present: [bool; 3],
    /// The form under which the phone knows the card, once it is found.
    pub resolved: String,
    /// The artwork file at work.
    pub asset: usize,
    /// How many artwork files are stored.
    pub available: usize,
    /// How far it is.
    pub stage: CaptureStage,
}

/// What a backup does next.
pub enum CaptureAction {
    /// Make a call of the file service.
    Call(Capture, Request),
    /// Store the contents of the artwork file with this index.
    Save(Capture, usize, Vec<u8>),
    /// The backup is over; this is the form under which the phone knows the card.
    Done(Result<Option<String>, Failure>),
}

/// What a backup does next, and what it logs before.
pub struct CaptureStep {
    pub logs: Vec<String>,
    pub action: CaptureAction,
}

/// What has happened.
pub enum CaptureEvent {
    /// The answer to a call.
    Answer(Result<Vec<u8>, Failure>),
    /// Whether the contents could be stored.
    Saved(Result<(), Failure>),
}

/// The step fails with the given failure, and logs nothing.
pub open spec fn capture_fails(step: CaptureStep, given: Failure) -> bool {
    step.logs@.len() == 0 && (step.action matches CaptureAction::Done(Err(failure)) && failure == given)
}

/// The path of an artwork file on the phone.
pub open spec fn asset_path(resolved: Seq<char>, asset: int) -> Seq<char> {
    pass_dir(resolved) + "/"@ + CARD_ARTWORK_ASSETS@[asset]@
}

/// The job with everything but its place in the artwork files and its stage.
pub open spec fn same_job(a: Capture, card_hash: Seq<char>, present: [bool; 3], resolved: Seq<char>) -> bool {
    a.card_hash@ == card_hash && a.present == present && a.resolved@ == resolved
}

/// How a backup goes on with the artwork file `asset` and those behind it.
pub open spec fn captures(
    step: CaptureStep,
    card_hash: Seq<char>,
    present: [bool; 3],
    resolved: Seq<char>,
    asset: int,
    available: int,
    logs: Seq<Seq<char>>,
) -> bool
    decreases CARD_ARTWORK_ASSETS@.len() - asset,
{
    if asset < 0 || asset >= CARD_ARTWORK_ASSETS@.len() {
        &&& texts(step.logs@) == if available == 0 {
            logs.push(
                "Original Wallet card directory exists, but no backup artwork assets are available; continuing without a restore backup."@,
            )
        } else {
            logs
        }
        &&& step.action matches CaptureAction::Done(Ok(Some(found)))
        &&& found@ == resolved
    } else if present@[asset] {
        captures(
            step,
            card_hash,
            present,
            resolved,
            asset + 1,
            available + 1,
            logs.push("Original backup already contains "@ + CARD_ARTWORK_ASSETS@[asset]@),
        )
    } else if has_nul(asset_path(resolved, asset)) {
        captures(
            step,
            card_hash,
            present,
            resolved,
            asset + 1,
            available,
            logs.push("Original card asset not present on device: "@ + CARD_ARTWORK_ASSETS@[asset]@),
        )
    } else {
        &&& texts(step.logs@) == logs
        &&& step.action matches CaptureAction::Call(job, request)
        &&& request@ == ask_info(asset_path(resolved, asset))
        &&& job.wf() && same_job(job, card_hash, present, resolved)
        &&& job.asset == asset && job.available == available && job.stage is Probe
    }
}

/// How a backup goes on looking for the card, from the form `next` on.
pub open spec fn searches(
    step: CaptureStep,
    card_hash: Seq<char>,
    present: [bool; 3],
    candidates: Seq<Seq<char>>,
    next: int,
) -> bool {
    if next >= candidates.len() {
        if present@[0] || present@[1] || present@[2] {
            &&& texts(step.logs@) == seq![
                "Original backup exists, but the current Wallet card directory is not visible."@,
            ]
            &&& step.action matches CaptureAction::Done(Ok(Some(found)))
            &&& found@ == card_hash
        } else {
            &&& texts(step.logs@) == seq![
                "Wallet card directory not found for hash "@ + card_hash
                    + " (also tried padded/unpadded variants); continuing without an original backup."@,
            ]
            &&& step.action matches CaptureAction::Done(Ok(None))
        }
    } else if has_nul(pass_dir(candidates[next])) {
        step.logs@.len() == 0 && (step.action matches CaptureAction::Done(Err(failure))
            && failure.says("NUL in AFC path"@))
    } else {
        &&& step.logs@.len() == 0
        &&& step.action matches CaptureAction::Call(job, request)
        &&& request@ == ask_info(pass_dir(candidates[next]))
        &&& job.wf() && job.card_hash@ == card_hash && job.present == present
        &&& job.stage matches CaptureStage::Find { candidates: listed, next: n }
        &&& texts(listed@) == candidates && n == next
    }
}

/// What follows the answer about one form of the card.
pub open spec fn search_answered(
    step: CaptureStep,
    card_hash: Seq<char>,
    present: [bool; 3],
    candidates: Seq<Seq<char>>,
    next: int,
    reply: Result<Vec<u8>, Failure>,
) -> bool {
    exists|found: Result<bool, Failure>|
        #[trigger] is_existence(reply, found) && match found {
            Err(given) => capture_fails(step, given),
            Ok(false) => searches(step, card_hash, present, candidates, next + 1),
            Ok(true) => captures(
                step,
                card_hash,
                present,
                candidates[next],
                0,
                0,
                variant_lines(candidates[next], card_hash),
            ),
        }
}

/// What is logged about the form of the identifier under which a card was found.
pub open spec fn variant_lines(form: Seq<char>, card_hash: Seq<char>) -> Seq<Seq<char>> {
    if form == card_hash {
        Seq::empty()
    } else {
        seq!["Using device Wallet card hash variant "@ + form + " for the card path."@]
    }
}

/// What follows a step of the read of an artwork file.
pub open spec fn capture_reads(
    step: CaptureStep,
    job: Capture,
    inner: Progress<ReadFile, Vec<u8>>,
) -> bool {
    let name = CARD_ARTWORK_ASSETS@[job.asset as int]@;
    &&& step.logs@.len() == 0
    &&& match inner {
        Progress::Call(read, request) => step.action matches CaptureAction::Call(next, same)
            && same == request && next.stage == CaptureStage::Read(read) && next.wf() && same_job(
            next,
            job.card_hash@,
            job.present,
            job.resolved@,
        ) && next.asset == job.asset && next.available == job.available,
        Progress::Done(Ok(data)) => step.action matches CaptureAction::Save(next, index, contents)
            && index == job.asset && contents == data && next.stage is Save && next.wf() && same_job(
            next,
            job.card_hash@,
            job.present,
            job.resolved@,
        ) && next.asset == job.asset && next.available == job.available,
        Progress::Done(Err(given)) => step.action matches CaptureAction::Done(Err(failure))
            && failure.under("Failed to read original card asset "@ + name, given),
    }
}

/// How a backup goes on after an event.
pub open spec fn capture_goes(step: CaptureStep, job: Capture, event: CaptureEvent) -> bool {
    let name = CARD_ARTWORK_ASSETS@[job.asset as int]@;
    let path = asset_path(job.resolved@, job.asset as int);
    match (job.stage, event) {
        (CaptureStage::Find { candidates, next }, CaptureEvent::Answer(reply)) => search_answered(
            step,
            job.card_hash@,
            job.present,
            texts(candidates@),
            next as int,
            reply,
        ),
        (CaptureStage::Probe, CaptureEvent::Answer(reply)) => if reply matches Ok(data) && file_info(
            data@,
        ) is Pairs {
            exists|inner: Progress<ReadFile, Vec<u8>>| #[trigger]
                begins_read(inner, path) && capture_reads(step, job, inner)
        } else {
            captures(
                step,
                job.card_hash@,
                job.present,
                job.resolved@,
                job.asset + 1,
                job.available as int,
                seq!["Original card asset not present on device: "@ + name],
            )
        },
        (CaptureStage::Read(read), CaptureEvent::Answer(reply)) => exists|
            inner: Progress<ReadFile, Vec<u8>>,
        | #[trigger] read_goes(inner, read, reply) && capture_reads(step, job, inner),
        (CaptureStage::Save, CaptureEvent::Saved(Ok(()))) => captures(
            step,
            job.card_hash@,
            job.present,
            job.resolved@,
            job.asset + 1,
            job.available + 1,
            seq!["Backed up original card asset: "@ + name],
        ),
        (CaptureStage::Save, CaptureEvent::Saved(Err(given))) => step.logs@.len() == 0 && (
        step.action matches CaptureAction::Done(Err(failure)) && failure.under(
            "Failed to save original card asset "@ + name,
            given,
        )),
        _ => step.logs@.len() == 0 && (step.action matches CaptureAction::Done(Err(failure))
            && failure.says("Unexpected backup event"@)),
    }
}

fn quiet(action: CaptureAction) -> (step: CaptureStep)
    ensures
        step.logs@.len() == 0,
        step.action == action,
{
    CaptureStep { logs: Vec::new(), action }
}

impl Capture {
    /// The artwork file at work is one of the three that is not stored yet, and its work
    /// is in order.
    pub open spec fn wf(self) -> bool {
        &&& self.asset < CARD_ARTWORK_ASSETS@.len()
        &&& self.available <= self.asset
        &&& match self.stage {
            CaptureStage::Find { candidates, next } => next < candidates@.len(),
            CaptureStage::Read(read) => read.wf() && !self.present@[self.asset as int],
            _ => !self.present@[self.asset as int],
        }
    }

    fn capture_on(self, asset: usize, available: usize, logs: Vec<String>) -> (step: CaptureStep)
        requires
            available <= asset <= CARD_ARTWORK_ASSETS@.len(),
        ensures
            captures(
                step,
                self.card_hash@,
                self.present,
                self.resolved@,
                asset as int,
                available as int,
                texts(logs@),
            ),
        decreases CARD_ARTWORK_ASSETS@.len() - asset,
    {
        let ghost before = texts(logs@);
        let mut logs: Vec<String> = logs;
        if asset >= CARD_ARTWORK_ASSETS.len() {
            if available == 0 {
                let line: String =
                    "Original Wallet card directory exists, but no backup artwork assets are available; continuing without a restore backup.".to_owned();
                logs.push(line);
                assert(texts(logs@) =~= before.push(line@));
            }
            return CaptureStep { logs, action: CaptureAction::Done(Ok(Some(self.resolved))) };
        }
        let name: &str = CARD_ARTWORK_ASSETS[asset];
        if self.present[asset] {
            let line: String = "Original backup already contains ".to_owned().concat(name);
            logs.push(line);
            assert(texts(logs@) =~= before.push(line@));
            return self.capture_on(asset + 1, available + 1, logs);
        }
        let path: String = pass_path(self.resolved.as_str()).concat("/").concat(name);
        match AfcClient::try_exists_request(path.as_str()) {
            Ok(request) => {
                let job = Capture {
                    card_hash: self.card_hash,
                    present: self.present,
                    resolved: self.resolved,
                    asset,
                    available,
                    stage: CaptureStage::Probe,
                };
                CaptureStep { logs, action: CaptureAction::Call(job, request) }
            },
            Err(_) => {
                let line: String = "Original card asset not present on device: ".to_owned().concat(
                    name,
                );
                logs.push(line);
                assert(texts(logs@) =~= before.push(line@));
                self.capture_on(asset + 1, available, logs)
            },
        }
    }

    fn search_on(
        card_hash: String,
        present: [bool; 3],
        candidates: Vec<String>,
        next: usize,
    ) -> (step: CaptureStep)
        requires
            next <= candidates@.len(),
        ensures
            searches(step, card_hash@, present, texts(candidates@), next as int),
    {
        if next >= candidates.len() {
            let mut logs: Vec<String> = Vec::new();
            if backup_exists(present) {
                logs.push(
                    "Original backup exists, but the current Wallet card directory is not visible.".to_owned(),
                );
                assert(texts(logs@) =~= seq![
                    "Original backup exists, but the current Wallet card directory is not visible."@,
                ]);
                return CaptureStep { logs, action: CaptureAction::Done(Ok(Some(card_hash))) };
            }
            let line: String = "Wallet card directory not found for hash ".to_owned().concat(
                card_hash.as_str(),
            ).concat(
                " (also tried padded/unpadded variants); continuing without an original backup.",
            );
            logs.push(line);
            assert(texts(logs@) =~= seq![line@]);
            return CaptureStep { logs, action: CaptureAction::Done(Ok(None)) };
        }
        let path: String = pass_path(candidates[next].as_str());
        match AfcClient::try_exists_request(path.as_str()) {
            Ok(request) => quiet(
                CaptureAction::Call(
                    Capture {
                        card_hash,
                        present,
                        resolved: String::new(),
                        asset: 0,
                        available: 0,
                        stage: CaptureStage::Find { candidates, next },
                    },
                    request,
                ),
            ),
            Err(failure) => quiet(CaptureAction::Done(Err(failure))),
        }
    }

    fn read_step(self, inner: Progress<ReadFile, Vec<u8>>) -> (step: CaptureStep)
        requires
            self.wf(),
            self.stage !is Find,
            inner matches Progress::Call(read, _) ==> read.wf(),
        ensures
            capture_reads(step, self, inner),
    {
        let Capture { card_hash, present, resolved, asset, available, stage } = self;
        match inner {
            Progress::Call(read, request) => quiet(
                CaptureAction::Call(
                    Capture {
                        card_hash,
                        present,
                        resolved,
                        asset,
                        available,
                        stage: CaptureStage::Read(read),
                    },
                    request,
                ),
            ),
            Progress::Done(Ok(data)) => quiet(
                CaptureAction::Save(
                    Capture {
                        card_hash,
                        present,
                        resolved,
                        asset,
                        available,
                        stage: CaptureStage::Save,
                    },
                    asset,
                    data,
                ),
            ),
            Progress::Done(Err(failure)) => quiet(
                CaptureAction::Done(
                    Err(
                        failure.context(
                            "Failed to read original card asset ".to_owned().concat(
                                CARD_ARTWORK_ASSETS[asset],
                            ).as_str(),
                        ),
                    ),
                ),
            ),
        }
    }

    fn with_line(self, what: &str, available: usize) -> (step: CaptureStep)
        requires
            self.wf(),
            available <= self.asset + 1,
        ensures
            captures(
                step,
                self.card_hash@,
                self.present,
                self.resolved@,
                self.asset + 1,
                available as int,
                seq![what@ + CARD_ARTWORK_ASSETS@[self.asset as int]@],
            ),
    {
        let mut logs: Vec<String> = Vec::new();
        logs.push(what.to_owned().concat(CARD_ARTWORK_ASSETS[self.asset]));
        assert(texts(logs@) =~= seq![what@ + CARD_ARTWORK_ASSETS@[self.asset as int]@]);
        let next: usize = self.asset + 1;
        self.capture_on(next, available, logs)
    }

    fn search_step(
        self,
        candidates: Vec<String>,
        next: usize,
        reply: Result<Vec<u8>, Failure>,
    ) -> (step: CaptureStep)
        requires
            next < candidates@.len(),
        ensures
            search_answered(
                step,
                self.card_hash@,
                self.present,
                texts(candidates@),
                next as int,
                reply,
            ),
    {
        let total: usize = candidates.len();
        assert(next < total);
        let found: Result<bool, Failure> = AfcClient::try_exists(reply);
        assert(is_existence(reply, found));
        match found {
            Err(failure) => quiet(CaptureAction::Done(Err(failure))),
            Ok(false) => Capture::search_on(self.card_hash, self.present, candidates, next + 1),
            Ok(true) => {
                let form: String = candidates[next].clone();
                assert(texts(candidates@)[next as int] == form@);
                let mut logs: Vec<String> = Vec::new();
                if !same_text(form.as_str(), self.card_hash.as_str()) {
                    let line: String = "Using device Wallet card hash variant ".to_owned().concat(
                        form.as_str(),
                    ).concat(" for the card path.");
                    logs.push(line);
                    assert(texts(logs@) =~= seq![line@]);
                } else {
                    assert(texts(logs@) =~= Seq::<Seq<char>>::empty());
                }
                Capture {
                    card_hash: self.card_hash,
                    present: self.present,
                    resolved: form,
                    asset: 0,
                    available: 0,
                    stage: CaptureStage::Probe,
                }.capture_on(0, 0, logs)
            },
        }
    }

    /// What follows an event.
    pub fn next(self, event: CaptureEvent) -> (step: CaptureStep)
        requires
            self.wf(),
        ensures
            capture_goes(step, self, event),
            step.action matches CaptureAction::Call(next, _) ==> next.wf(),
            step.action matches CaptureAction::Save(next, _, _) ==> next.wf(),
    {
        let step: CaptureStep = self.step(event);
        proof {
            what_is_kept_stays(step, self, event);
        }
        step
    }

    fn step(self, event: CaptureEvent) -> (step: CaptureStep)
        requires
            self.wf(),
        ensures
            capture_goes(step, self, event),
    {
        let ghost whole = self;
        let Capture { card_hash, present, resolved, asset, available, stage } = self;
        match (stage, event) {
            (CaptureStage::Find { candidates, next }, CaptureEvent::Answer(reply)) => {
                Capture {
                    card_hash,
                    present,
                    resolved,
                    asset,
                    available,
                    stage: CaptureStage::Probe,
                }.search_step(candidates, next, reply)
            },
            (CaptureStage::Probe, CaptureEvent::Answer(reply)) => {
                let job = Capture {
                    card_hash,
                    present,
                    resolved,
                    asset,
                    available,
                    stage: CaptureStage::Probe,
                };
                if AfcClient::is_present(reply) {
                    let path: String = pass_path(job.resolved.as_str()).concat("/").concat(
                        CARD_ARTWORK_ASSETS[asset],
                    );
                    let inner: Progress<ReadFile, Vec<u8>> = AfcClient::read_file(path.as_str());
                    assert(path@ == asset_path(whole.resolved@, whole.asset as int));
                    assert(begins_read(inner, path@));
                    let step = job.read_step(inner);
                    assert(capture_reads(step, whole, inner));
                    step
                } else {
                    job.with_line("Original card asset not present on device: ", available)
                }
            },
            (CaptureStage::Read(read), CaptureEvent::Answer(reply)) => {
                let inner: Progress<ReadFile, Vec<u8>> = read.next(reply);
                assert(read_goes(inner, read, reply));
                let step = Capture {
                    card_hash,
                    present,
                    resolved,
                    asset,
                    available,
                    stage: CaptureStage::Probe,
                }.read_step(inner);
                assert(capture_reads(step, whole, inner));
                step
            },
            (CaptureStage::Save, CaptureEvent::Saved(Ok(()))) => Capture {
                card_hash,
                present,
                resolved,
                asset,
                available,
                stage: CaptureStage::Save,
            }.with_line("Backed up original card asset: ", available + 1),
            (CaptureStage::Save, CaptureEvent::Saved(Err(failure))) => quiet(
                CaptureAction::Done(
                    Err(
                        failure.context(
                            "Failed to save original card asset ".to_owned().concat(
                                CARD_ARTWORK_ASSETS[asset],
                            ).as_str(),
                        ),
                    ),
                ),
            ),
            _ => quiet(CaptureAction::Done(Err(Failure::said("Unexpected backup event")))),
        }
    }
}

proof fn captures_in_order(
    step: CaptureStep,
    card_hash: Seq<char>,
    present: [bool; 3],
    resolved: Seq<char>,
    asset: int,
    available: int,
    logs: Seq<Seq<char>>,
)
    requires
        captures(step, card_hash, present, resolved, asset, available, logs),
    ensures
        step.action !is Save,
        step.action matches CaptureAction::Call(next, _) ==> next.wf() && next.present == present,
    decreases CARD_ARTWORK_ASSETS@.len() - asset,
{
    if 0 <= asset < CARD_ARTWORK_ASSETS@.len() {
        let name = CARD_ARTWORK_ASSETS@[asset]@;
        if present@[asset] {
            captures_in_order(
                step,
                card_hash,
                present,
                resolved,
                asset + 1,
                available + 1,
                logs.push("Original backup already contains "@ + name),
            );
        } else if has_nul(asset_path(resolved, asset)) {
            captures_in_order(
                step,
                card_hash,
                present,
                resolved,
                asset + 1,
                available,
                logs.push("Original card asset not present on device: "@ + name),
            );
        }
    }
}

/// The original artwork is kept: whatever the phone and the disk do, a backup stores
/// only files that were not stored before it began.
pub proof fn what_is_kept_stays(step: CaptureStep, job: Capture, event: CaptureEvent)
    requires
        job.wf(),
        capture_goes(step, job, event),
    ensures
        match step.action {
            CaptureAction::Save(next, index, _) => index < CARD_ARTWORK_ASSETS@.len()
                && !job.present@[index as int] && next.wf() && next.present == job.present,
            CaptureAction::Call(next, _) => next.wf() && next.present == job.present,
            CaptureAction::Done(_) => true,
        },
{
    let after = job.asset + 1;
    let name = CARD_ARTWORK_ASSETS@[job.asset as int]@;
    match (job.stage, event) {
        (CaptureStage::Find { candidates, next }, CaptureEvent::Answer(reply)) => {
            let found = choose|found: Result<bool, Failure>|
                #[trigger] is_existence(reply, found) && match found {
                    Err(given) => capture_fails(step, given),
                    Ok(false) => searches(
                        step,
                        job.card_hash@,
                        job.present,
                        texts(candidates@),
                        next + 1,
                    ),
                    Ok(true) => captures(
                        step,
                        job.card_hash@,
                        job.present,
                        texts(candidates@)[next as int],
                        0,
                        0,
                        variant_lines(texts(candidates@)[next as int], job.card_hash@),
                    ),
                };
            if found matches Ok(true) {
                captures_in_order(
                    step,
                    job.card_hash@,
                    job.present,
                    texts(candidates@)[next as int],
                    0,
                    0,
                    variant_lines(texts(candidates@)[next as int], job.card_hash@),
                );
            }
        },
        (CaptureStage::Probe, CaptureEvent::Answer(reply)) => {
            if !(reply matches Ok(data) && file_info(data@) is Pairs) {
                captures_in_order(
                    step,
                    job.card_hash@,
                    job.present,
                    job.resolved@,
                    after,
                    job.available as int,
                    seq!["Original card asset not present on device: "@ + name],
                );
            }
        },
        (CaptureStage::Save, CaptureEvent::Saved(Ok(()))) => {
            captures_in_order(
                step,
                job.card_hash@,
                job.present,
                job.resolved@,
                after,
                job.available + 1,
                seq!["Backed up original card asset: "@ + name],
            );
        },
        _ => {},
    }
}

/// Begins to back up the artwork of a card, given which files are stored already.
pub fn capture_original_card(card_hash: &str, present: [bool; 3]) -> (step: CaptureStep)
    ensures
        searches(step, card_hash@, present, deduplicated(forms(card_hash@)), 0),
        step.action matches CaptureAction::Call(next, _) ==> next.wf(),
        step.action !is Save,
{
    let candidates: Vec<String> = card_hash_candidates(card_hash);
    Capture::search_on(card_hash.to_owned(), present, candidates, 0)
}

/// The stored artwork files: names and contents of those that are there.
pub open spec fn stored_assets(contents: Seq<Option<Vec<u8>>>) -> Seq<(Seq<char>, Seq<u8>)>
    decreases contents.len(),
{
    if contents.len() == 0 {
        Seq::empty()
    } else {
        let before = stored_assets(contents.drop_last());
        match contents.last() {
            Some(data) => before.push((CARD_ARTWORK_ASSETS@[contents.len() - 1]@, data@)),
            None => before,
        }
    }
}

/// The names and contents of a run of assets.
pub open spec fn asset_views(assets: Seq<(String, Vec<u8>)>) -> Seq<(Seq<char>, Seq<u8>)> {
    Seq::new(assets.len(), |i: int| (assets[i].0@, assets[i].1@))
}

/// The stored artwork of a card, given what each of its files holds. It fails
/// where none is there.
pub fn load_original_assets(card_hash: &str, contents: Vec<Option<Vec<u8>>>) -> (assets: Result<
    Vec<(String, Vec<u8>)>,
    Failure,
>)
    requires
        contents@.len() == CARD_ARTWORK_ASSETS@.len(),
    ensures
        match assets {
            Ok(assets) => asset_views(assets@) == stored_assets(contents@) && assets@.len() > 0,
            Err(failure) => stored_assets(contents@).len() == 0 && failure.says(
                "Original card face backup not found for card hash "@ + card_hash@,
            ),
        },
{
    let mut assets: Vec<(String, Vec<u8>)> = Vec::new();
    let mut i: usize = 0;
    assert(contents@.take(0) =~= Seq::<Option<Vec<u8>>>::empty());
    assert(asset_views(assets@) =~= Seq::<(Seq<char>, Seq<u8>)>::empty());
    while i < contents.len()
        invariant
            contents@.len() == CARD_ARTWORK_ASSETS@.len(),
            i <= contents@.len(),
            asset_views(assets@) == stored_assets(contents@.take(i as int)),
        decreases contents@.len() - i,
    {
        let ghost before = asset_views(assets@);
        assert(contents@.take(i + 1).drop_last() =~= contents@.take(i as int));
        assert(contents@.take(i + 1).last() == contents@[i as int]);
        if let Some(data) = &contents[i] {
            assets.push(
                (CARD_ARTWORK_ASSETS[i].to_owned(), crate::wire::copy_bytes(data.as_slice())),
            );
            assert(asset_views(assets@) =~= before.push(
                (CARD_ARTWORK_ASSETS@[i as int]@, data@),
            ));
        }
        i = i + 1;
    }
    assert(contents@.take(i as int) =~= contents@);
    if assets.len() == 0 {
        return Err(
            Failure::Said(
                "Original card face backup not found for card hash ".to_owned().concat(card_hash),
            ),
        );
    }
    Ok(assets)
}

/// Every stored artwork file is loaded under its own name and with its own
/// contents, and nothing else is: the loaded files are those that are there, in
/// the order of the list of artwork files. It fails only where none is there.
pub proof fn every_stored_asset_is_loaded(
    card_hash: &str,
    contents: Vec<Option<Vec<u8>>>,
    assets: Result<Vec<(String, Vec<u8>)>, Failure>,
)
    requires
        contents@.len() == 3,
        call_ensures(load_original_assets, (card_hash, contents), assets),
    ensures
        assets is Ok <==> contents@[0] is Some || contents@[1] is Some || contents@[2] is Some,
        assets matches Ok(assets) ==> forall|i: int|
            0 <= i < 3 ==> (#[trigger] contents@[i] matches Some(data) ==> asset_views(
                assets@,
            ).contains((CARD_ARTWORK_ASSETS@[i]@, data@))),
        assets matches Ok(assets) ==> asset_views(assets@) == seq![0int, 1, 2].filter(
            |i: int| contents@[i] is Some,
        ).map_values(|i: int| (CARD_ARTWORK_ASSETS@[i]@, contents@[i].unwrap()@)),
{
    reveal(Seq::filter);
    reveal_with_fuel(stored_assets, 4);
    let all = contents@;
    let there = |i: int| contents@[i] is Some;
    let view = |i: int| (CARD_ARTWORK_ASSETS@[i]@, contents@[i].unwrap()@);
    let three = seq![0int, 1, 2];
    let two = three.drop_last();
    let one = two.drop_last();
    let none = one.drop_last();
    assert(all.drop_last().last() == all[1]);
    assert(all.drop_last().drop_last().last() == all[0]);
    assert(all.drop_last().drop_last().drop_last().len() == 0);
    let after_one = one.filter(there);
    let after_two = two.filter(there);
    let after_three = three.filter(there);
    assert(none.filter(there) =~= Seq::<int>::empty());
    assert(after_one == if all[0] is Some {
        none.filter(there).push(0)
    } else {
        none.filter(there)
    });
    assert(after_two == if all[1] is Some {
        after_one.push(1)
    } else {
        after_one
    });
    assert(after_three == if all[2] is Some {
        after_two.push(2)
    } else {
        after_two
    });
    let loaded = stored_assets(all);
    assert(loaded =~= after_three.map_values(view));
    assert forall|i: int| 0 <= i < 3 implies (#[trigger] all[i] matches Some(data)
        ==> loaded.contains((CARD_ARTWORK_ASSETS@[i]@, data@))) by {
        if all[i] is Some {
            let at = if i == 0 {
                0
            } else if i == 1 {
                after_one.len() as int
            } else {
                after_two.len() as int
            };
            assert(after_three[at] == i);
            assert(loaded[at] == (CARD_ARTWORK_ASSETS@[i]@, all[i].unwrap()@));
        }
    }
}

/// The phone is asked for a card under the form that was given first, and then
/// under the bare form and the forms with one and with two padding characters. A
/// form is left out only where it is the one that was given.
pub proof fn every_form_of_a_card_is_tried(
    plain: Seq<char>,
    padding: Seq<char>,
    card_hash: &str,
    candidates: Vec<String>,
)
    requires
        plain.len() > 0,
        plain.last() != '=',
        forall|i: int| 0 <= i < padding.len() ==> #[trigger] padding[i] == '=',
        card_hash@ == plain + padding,
        call_ensures(card_hash_candidates, (card_hash,), candidates),
    ensures
        padding.len() == 0 ==> texts(candidates@) == seq![plain, plain.push('='), plain.push(
            '=',
        ).push('=')],
        padding.len() > 0 ==> texts(candidates@) == seq![
            card_hash@,
            plain,
            plain.push('='),
            plain.push('=').push('='),
        ],
{
    reveal_strlit("=");
    reveal_strlit("==");
    let card = card_hash@;
    padding_is_stripped(plain, padding);
    assert(plain + "="@ =~= plain.push('='));
    assert(plain + "=="@ =~= plain.push('=').push('='));
    let list = forms(card);
    assert(list =~= seq![card, plain, plain.push('='), plain.push('=').push('=')]);
    let three = list.drop_last();
    let two = three.drop_last();
    let one = two.drop_last();
    assert(one =~= seq![card]);
    assert(deduplicated(one) == one);
    assert(plain.push('=').len() == plain.len() + 1);
    assert(two.last() == plain && two[0] == card);
    if padding.len() == 0 {
        assert(card =~= plain);
        assert(deduplicated(two) =~= seq![plain]);
        assert(deduplicated(three) =~= seq![plain, plain.push('=')]);
        assert(deduplicated(list) =~= seq![plain, plain.push('='), plain.push('=').push('=')]);
    } else {
        assert(card.len() > plain.len());
        assert(deduplicated(two) =~= seq![card, plain]);
        assert(deduplicated(three) =~= seq![card, plain, plain.push('=')]);
        assert(deduplicated(list) =~= list);
    }
}

proof fn padding_is_stripped(plain: Seq<char>, padding: Seq<char>)
    requires
        plain.len() > 0,
        plain.last() != '=',
        forall|i: int| 0 <= i < padding.len() ==> #[trigger] padding[i] == '=',
    ensures
        stripped_end(plain + padding, seq!['=']) == plain,
    decreases padding.len(),
{
    assert(seq!['='][0] == '=');
    if padding.len() == 0 {
        assert(plain + padding =~= plain);
    } else {
        assert((plain + padding).last() == padding[padding.len() - 1]);
        assert(seq!['='].contains('='));
        assert((plain + padding).drop_last() =~= plain + padding.drop_last());
        padding_is_stripped(plain, padding.drop_last());
    }
}

/// A file name keeps the letters, digits, hyphens, underscores and dots of the text
/// where they stand, and has an underscore for every other character.
pub proof fn safe_characters_are_kept(value: &str, component: String)
    requires
        call_ensures(safe_component, (value,), component),
    ensures
        value@.len() == 0 ==> component@ == "unknown"@,
        value@.len() > 0 ==> component@.len() == value@.len() && forall|i: int|
            0 <= i < value@.len() ==> #[trigger] component@[i] == (
            if "ABCDEFGHIJKLMNOPQRSTUVWXYZabcdefghijklmnopqrstuvwxyz0123456789-_."@.contains(
                value@[i],
            ) {
                value@[i]
            } else {
                '_'
            }),
{
    if value@.len() > 0 {
        assert forall|i: int| 0 <= i < value@.len() implies #[trigger] component@[i] == (
        if "ABCDEFGHIJKLMNOPQRSTUVWXYZabcdefghijklmnopqrstuvwxyz0123456789-_."@.contains(value@[i]) {
            value@[i]
        } else {
            '_'
        }) by {
            safe_alphabet(value@[i]);
        }
    }
}

proof fn safe_alphabet(c: char)
    ensures
        "ABCDEFGHIJKLMNOPQRSTUVWXYZabcdefghijklmnopqrstuvwxyz0123456789-_."@.contains(c)
            <==> is_safe_char(c),
{
    reveal_strlit("ABCDEFGHIJKLMNOPQRSTUVWXYZabcdefghijklmnopqrstuvwxyz0123456789-_.");
    let all = "ABCDEFGHIJKLMNOPQRSTUVWXYZabcdefghijklmnopqrstuvwxyz0123456789-_."@;
    if 'A' <= c <= 'Z' {
        assert(all[c as int - 'A' as int] == c);
    } else if 'a' <= c <= 'z' {
        assert(all[26 + c as int - 'a' as int] == c);
    } else if '0' <= c <= '9' {
        assert(all[52 + c as int - '0' as int] == c);
    } else if c == '-' {
        assert(all[62] == c);
    } else if c == '_' {
        assert(all[63] == c);
    } else if c == '.' {
        assert(all[64] == c);
    } else if all.contains(c) {
        let k = choose|k: int| 0 <= k < all.len() && all[k] == c;
        assert(false);
    }
}

/// One byte more never makes two different hashes equal, and two different bytes
/// never make the same hash.
proof fn hash_steps_are_reversible(a: u64, b: u64, x: u8, y: u8)
    requires
        fnv_step(a, x) == fnv_step(b, y),
    ensures
        a ^ (x as u64) == b ^ (y as u64),
{
    let p = (a ^ (x as u64)) as int;
    let q = (b ^ (y as u64)) as int;
    let m: int = 0x1_0000_0000_0000_0000;
    let u = (p * 0x100000001b3) / m;
    let v = (q * 0x100000001b3) / m;
    assert(p * 0x100000001b3 == u * m + (p * 0x100000001b3) % m);
    assert(q * 0x100000001b3 == v * m + (q * 0x100000001b3) % m);
    let t = (u - v) * 0xce965057aff6957b - (p - q) * 887285111055;
    assert((p - q) * 0x100000001b3 == (u - v) * 0x1_0000_0000_0000_0000);
    assert(p - q == t * 0x1_0000_0000_0000_0000);
    assert(t == 0);
}

/// The hash depends on every byte: two texts that differ in a single byte have
/// different hashes.
pub proof fn every_byte_counts(first: Seq<u8>, x: u8, y: u8, rest: Seq<u8>)
    requires
        x != y,
    ensures
        fnv(first.push(x) + rest) != fnv(first.push(y) + rest),
    decreases rest.len(),
{
    let a = first.push(x) + rest;
    let b = first.push(y) + rest;
    if rest.len() == 0 {
        assert(a =~= first.push(x));
        assert(b =~= first.push(y));
        assert(a.drop_last() =~= first);
        assert(b.drop_last() =~= first);
        let h = fnv(first);
        if fnv(a) == fnv(b) {
            hash_steps_are_reversible(h, h, x, y);
            assert(x == y) by (bit_vector)
                requires
                    h ^ (x as u64) == h ^ (y as u64),
            ;
        }
    } else {
        let shorter = rest.drop_last();
        every_byte_counts(first, x, y, shorter);
        assert(a.drop_last() =~= first.push(x) + shorter);
        assert(b.drop_last() =~= first.push(y) + shorter);
        let h = fnv(a.drop_last());
        let k = fnv(b.drop_last());
        let last = rest.last();
        if fnv(a) == fnv(b) {
            hash_steps_are_reversible(h, k, last, last);
            assert(h == k) by (bit_vector)
                requires
                    h ^ (last as u64) == k ^ (last as u64),
            ;
        }
    }
}

/// The artwork file cannot be asked for, because its path cannot be sent.
pub open spec fn cannot_be_asked(resolved: Seq<char>, asset: int) -> bool {
    has_nul(
        "/var/mobile/Library/Passes/Cards/"@ + resolved + ".pkpass"@ + "/"@
            + CARD_ARTWORK_ASSETS@[asset]@,
    )
}

/// The step goes on with the artwork files from `asset` on: it asks for the first
/// of them that is not stored, under the path of the card, or ends well where all
/// of them are stored.
pub open spec fn takes_the_next_asset(
    step: CaptureStep,
    present: [bool; 3],
    resolved: Seq<char>,
    asset: int,
) -> bool {
    match step.action {
        CaptureAction::Call(job, request) => {
            let k = job.asset as int;
            &&& asset <= k < 3
            &&& !present@[k]
            &&& forall|i: int|
                asset <= i < k ==> #[trigger] present@[i] || cannot_be_asked(resolved, i)
            &&& job.stage is Probe
            &&& job.present == present
            &&& job.resolved@ == resolved
            &&& request@ == ask_info(
                "/var/mobile/Library/Passes/Cards/"@ + resolved + ".pkpass"@ + "/"@
                    + CARD_ARTWORK_ASSETS@[k]@,
            )
        },
        CaptureAction::Done(Ok(Some(found))) => found@ == resolved && forall|i: int|
            asset <= i < 3 ==> #[trigger] present@[i] || cannot_be_asked(resolved, i),
        _ => false,
    }
}

proof fn next_asset_is_taken(
    step: CaptureStep,
    card_hash: Seq<char>,
    present: [bool; 3],
    resolved: Seq<char>,
    asset: int,
    available: int,
    logs: Seq<Seq<char>>,
)
    requires
        0 <= asset,
        captures(step, card_hash, present, resolved, asset, available, logs),
    ensures
        takes_the_next_asset(step, present, resolved, asset),
    decreases 3 - asset,
{
    if asset < 3 {
        if present@[asset] {
            next_asset_is_taken(
                step,
                card_hash,
                present,
                resolved,
                asset + 1,
                available + 1,
                logs.push("Original backup already contains "@ + CARD_ARTWORK_ASSETS@[asset]@),
            );
        } else if has_nul(asset_path(resolved, asset)) {
            next_asset_is_taken(
                step,
                card_hash,
                present,
                resolved,
                asset + 1,
                available,
                logs.push(
                    "Original card asset not present on device: "@ + CARD_ARTWORK_ASSETS@[asset]@,
                ),
            );
        }
    }
}

/// No artwork file is passed over. After one that the phone does not have, and after
/// one that was stored, comes the next one that is not stored; the backup ends well
/// only once none is left. One that the phone has is read, and what was read is
/// stored under its index, as it is.
pub proof fn no_artwork_is_passed_over(job: Capture, event: CaptureEvent, step: CaptureStep)
    requires
        job.wf(),
        call_ensures(Capture::next, (job, event), step),
    ensures
        job.stage is Save && (event matches CaptureEvent::Saved(Ok(()))) ==> takes_the_next_asset(
            step,
            job.present,
            job.resolved@,
            job.asset + 1,
        ),
        job.stage is Probe && (event matches CaptureEvent::Answer(Err(_))) ==> takes_the_next_asset(
            step,
            job.present,
            job.resolved@,
            job.asset + 1,
        ),
        job.stage is Probe && (event matches CaptureEvent::Answer(Ok(data)) && file_info(data@)
            is Pairs) ==> match step.action {
            CaptureAction::Call(next, _) => next.stage is Read && next.asset == job.asset,
            CaptureAction::Save(_, _, _) => false,
            CaptureAction::Done(result) => result is Err,
        },
        job.stage matches CaptureStage::Read(read) ==> (event matches CaptureEvent::Answer(reply)
            ==> exists|inner: Progress<ReadFile, Vec<u8>>| #[trigger]
            read_goes(inner, read, reply) && match inner {
                Progress::Call(more, request) => step.action matches CaptureAction::Call(next, same)
                    && same == request && next.stage == CaptureStage::Read(more) && next.asset
                    == job.asset,
                Progress::Done(Ok(data)) => step.action matches CaptureAction::Save(
                    next,
                    index,
                    contents,
                ) && index == job.asset && contents@ == data@ && next.asset == job.asset,
                Progress::Done(Err(_)) => step.action matches CaptureAction::Done(Err(_)),
            }),
        job.stage is Save && (event matches CaptureEvent::Saved(Err(_))) ==> (
        step.action matches CaptureAction::Done(Err(_))),
        step.action matches CaptureAction::Save(_, _, _) ==> job.stage is Read || job.stage is Probe,
{
    let name = CARD_ARTWORK_ASSETS@[job.asset as int]@;
    match (job.stage, event) {
        (CaptureStage::Save, CaptureEvent::Saved(Ok(()))) => {
            next_asset_is_taken(
                step,
                job.card_hash@,
                job.present,
                job.resolved@,
                job.asset + 1,
                job.available + 1,
                seq!["Backed up original card asset: "@ + name],
            );
        },
        (CaptureStage::Probe, CaptureEvent::Answer(reply)) => {
            if !(reply matches Ok(data) && file_info(data@) is Pairs) {
                next_asset_is_taken(
                    step,
                    job.card_hash@,
                    job.present,
                    job.resolved@,
                    job.asset + 1,
                    job.available as int,
                    seq!["Original card asset not present on device: "@ + name],
                );
            }
        },
        (CaptureStage::Find { candidates, next }, CaptureEvent::Answer(reply)) => {
            let all = texts(candidates@);
            let found = choose|found: Result<bool, Failure>|
                #[trigger] is_existence(reply, found) && match found {
                    Err(given) => capture_fails(step, given),
                    Ok(false) => searches(step, job.card_hash@, job.present, all, next + 1),
                    Ok(true) => captures(
                        step,
                        job.card_hash@,
                        job.present,
                        all[next as int],
                        0,
                        0,
                        variant_lines(all[next as int], job.card_hash@),
                    ),
                };
            if let Ok(true) = found {
                next_asset_is_taken(
                    step,
                    job.card_hash@,
                    job.present,
                    all[next as int],
                    0,
                    0,
                    variant_lines(all[next as int], job.card_hash@),
                );
            }
        },
        _ => {},
    }
}

/// The search for a card tries its forms one after the other, until the phone has
/// one: then the artwork is taken from there, from the first file on. A form that the
/// phone does not have leads to the next one; only after the last one is the card
/// given up, and then what is stored of it still counts.
pub proof fn every_form_is_asked_for(
    job: Capture,
    candidates: Vec<String>,
    next: usize,
    reply: Result<Vec<u8>, Failure>,
    step: CaptureStep,
)
    requires
        job.wf(),
        job.stage == (CaptureStage::Find { candidates, next }),
        call_ensures(Capture::next, (job, CaptureEvent::Answer(reply)), step),
    ensures
        reply matches Ok(data) && file_info(data@) is Pairs ==> takes_the_next_asset(
            step,
            job.present,
            candidates@[next as int]@,
            0,
        ),
        (reply matches Err(Failure::Status(8))) && next + 1 < candidates@.len() ==> ({
            let path = "/var/mobile/Library/Passes/Cards/"@ + candidates@[next + 1]@ + ".pkpass"@;
            if has_nul(path) {
                step.action matches CaptureAction::Done(Err(_))
            } else {
                step.action matches CaptureAction::Call(more, request) && request@ == ask_info(path)
                    && (more.stage matches CaptureStage::Find { candidates: same, next: at }
                    && texts(same@) == texts(candidates@) && at == next + 1)
            }
        }),
        (reply matches Err(Failure::Status(8))) && next + 1 == candidates@.len() ==> (
        step.action matches CaptureAction::Done(Ok(found)) && match found {
            Some(found) => found@ == job.card_hash@ && (job.present@[0] || job.present@[1]
                || job.present@[2]),
            None => !job.present@[0] && !job.present@[1] && !job.present@[2],
        }),
        (reply matches Err(failure) && !(failure matches Failure::Status(8))) ==> (
        step.action matches CaptureAction::Done(Err(_))),
{
    let all = texts(candidates@);
    let found = choose|found: Result<bool, Failure>|
        #[trigger] is_existence(reply, found) && match found {
            Err(given) => capture_fails(step, given),
            Ok(false) => searches(step, job.card_hash@, job.present, all, next + 1),
            Ok(true) => captures(
                step,
                job.card_hash@,
                job.present,
                all[next as int],
                0,
                0,
                variant_lines(all[next as int], job.card_hash@),
            ),
        };
    if let Ok(true) = found {
        next_asset_is_taken(
            step,
            job.card_hash@,
            job.present,
            all[next as int],
            0,
            0,
            variant_lines(all[next as int], job.card_hash@),
        );
    }
}

/// The hash of a text starts from one fixed number, and takes in each byte by an
/// exclusive or and a multiplication that keeps the low 64 bits.
pub proof fn bytes_are_taken_in_one_by_one(bytes: Seq<u8>, byte: u8)
    ensures
        fnv(Seq::empty()) == 14695981039346656037u64,
        fnv(bytes.push(byte)) as int == ((fnv(bytes) ^ (byte as u64)) as int * 1099511628211)
            % 18446744073709551616,
{
    assert(bytes.push(byte).drop_last() =~= bytes);
}

/// The backup of a card is kept in a directory that is named after the device and after
/// the hash of the card, and there is a backup exactly where one of its files is there.
pub proof fn backups_are_named_after_device_and_card(
    udid: &str,
    card_hash: &str,
    name: String,
    device: String,
    card: String,
    present: [bool; 3],
    any: bool,
)
    requires
        call_ensures(backup_dir, (udid, card_hash), name),
        call_ensures(safe_component, (udid,), device),
        call_ensures(stable_hash, (card_hash,), card),
        call_ensures(backup_exists, (present,), any),
    ensures
        name@ == device@ + "-"@ + card@,
        card@.len() == 16,
        any <==> exists|i: int| 0 <= i < 3 && #[trigger] present@[i],
{
    hex_is_safe(fnv(encode_utf8(card_hash@)) as nat, 16);
}

/// A card has three artwork files: two images and a document.
pub proof fn a_card_has_three_artwork_files(i: int)
    requires
        0 <= i < CARD_ARTWORK_ASSETS@.len(),
    ensures
        CARD_ARTWORK_ASSETS@.len() == 3,
        CARD_ARTWORK_ASSETS@[i]@ == (if i == 0 {
            "cardBackgroundCombined@3x.png"@
        } else if i == 1 {
            "cardBackgroundCombined@2x.png"@
        } else {
            "cardBackgroundCombined.pdf"@
        }),
{
}

} // verus!
