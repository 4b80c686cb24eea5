//! How a session by cable is opened, one step at a time.
use crate::failure::Failure;
use crate::certificates::{is_full_key, HostKeys};
use crate::pairing::{
    generate_from, has_public_fields, is_made, is_match, is_random_uuid, misses_field, public_items,
    PairRecord,
};
use crate::text::{lowered, texts};
use crate::usbmux::{check_reply, get_value, get_value_request, UsbDevice};
use crate::value::{
    a_dictionary_holds_its_items, bool_in, collected, data_in, dict_of, lookup, text_in, Dict,
    Plist, Tree,
};
use crate::wallet_connection::{
    is_identity_error, is_pair_reply, is_session_request, needs_new_pairing, pair_reply,
    pair_request, pair_tree, start_session, trusted, trusted_record, PairReply, UsbSession,
};
use vstd::prelude::*;

verus! {

/// Where the opening stands.
pub enum OpenStage {
    /// The channel to the control service is being opened.
    Connect,
    /// The device's key is being asked for.
    Key,
    /// The stored pairing is being loaded.
    Load { public: Vec<u8> },
    /// The identifier of this computer is being looked up for a new pairing.
    Identify { public: Vec<u8> },
    /// The phone is being asked to trust this computer.
    Pair { record: PairRecord, request: Plist, waiting: bool },
    /// The user is being given time to decide.
    Wait { record: PairRecord, request: Plist },
    /// The new pairing is being stored.
    Save { record: PairRecord },
    /// The session is being started.
    Start { record: PairRecord },
    /// The channel is being opened anew, because the phone does not know the
    /// identity of this computer.
    Reconnect,
    /// The device's key is being asked for again.
    KeyAgain,
    /// The channel is being secured.
    Secure { record: PairRecord },
}

/// A session that is being opened.
pub struct Opening {
    /// The device.
    pub device: UsbDevice,
    /// The pairing was renewed because the phone did not know this computer.
    pub renewed: bool,
    /// How far it is.
    pub stage: OpenStage,
}

/// What to do next.
pub enum OpenAction {
    /// Open a channel to the control service.
    Connect(Opening),
    /// Close the channel and open another one.
    Reconnect(Opening),
    /// Send a request to the control service.
    Ask(Opening, Plist),
    /// Load the stored pairing of the device.
    Load(Opening),
    /// Look up the identifier of this computer, and make new keys.
    Identify(Opening),
    /// Pause, and come back.
    Pause(Opening),
    /// Store the pairing of the device; these are its contents.
    Save(Opening, PairRecord),
    /// Secure the channel with the pairing.
    Secure(Opening, PairRecord),
    /// The session is open.
    Open(UsbSession),
    /// Give up.
    Stop(Failure),
}

/// What to log, and what to do next.
pub struct OpenStep {
    pub logs: Vec<String>,
    pub action: OpenAction,
}

/// Who this computer is in a new pairing.
pub struct OwnIdentity {
    /// The identifier that it keeps.
    pub buid: String,
    /// The keys and the identifier for this pairing.
    pub keys: HostKeys,
}

/// Who this computer is in a new pairing, given the identifier that it keeps: the keys
/// are new, and left to chance but for their sizes.
pub fn own_identity(buid: Result<String, Failure>) -> (identity: Result<OwnIdentity, Failure>)
    ensures
        match buid {
            Err(given) => identity matches Err(failure) && failure == given,
            Ok(buid) => match identity {
                Ok(own) => own.buid@ == buid@ && is_full_key(own.keys@.root) && is_full_key(
                    own.keys@.host,
                ) && is_random_uuid(own.keys@.id) && lowered(own.keys@.id) == own.keys@.id,
                Err(failure) => failure matches Failure::Under(context, inner) && context@
                    == "Generate app pairing certificates"@ && (*inner is Rsa || *inner is Pkcs8),
            },
        },
{
    let buid: String = match buid {
        Ok(buid) => buid,
        Err(failure) => return Err(failure),
    };
    match HostKeys::fresh() {
        Ok(keys) => Ok(OwnIdentity { buid, keys }),
        Err(failure) => Err(failure.context("Generate app pairing certificates")),
    }
}

/// What has happened.
pub enum OpenEvent {
    /// The channel is open, or is not.
    Connected(Result<(), Failure>),
    /// The reply to a request.
    Reply(Result<Dict, Failure>),
    /// The stored pairing, if there is one.
    Loaded(Result<Option<PairRecord>, Failure>),
    /// The identifier of this computer and its new keys.
    Identified(Result<OwnIdentity, Failure>),
    /// The pause is over.
    Paused,
    /// The pairing is stored, or is not.
    Saved(Result<(), Failure>),
    /// The channel is secure, or is not.
    Secured(Result<(), Failure>),
}

/// The state at a place, with everything else as before.
pub open spec fn at_stage(next: Opening, device: (u32, Seq<char>), renewed: bool) -> bool {
    next.device@ == device && next.renewed == renewed
}

/// The step stops with the message and logs nothing.
pub open spec fn stops_saying(step: OpenStep, text: Seq<char>) -> bool {
    step.logs@.len() == 0 && (step.action matches OpenAction::Stop(failure) && failure.says(text))
}

/// The step stops with the failure and logs nothing.
pub open spec fn stops_with(step: OpenStep, given: Failure) -> bool {
    step.logs@.len() == 0 && (step.action matches OpenAction::Stop(failure) && failure == given)
}

/// The step stops with the failure under the context and logs nothing.
pub open spec fn stops_under(step: OpenStep, context: Seq<char>, given: Failure) -> bool {
    step.logs@.len() == 0 && (step.action matches OpenAction::Stop(failure) && failure.under(
        context,
        given,
    ))
}

/// The request for the device's key.
pub open spec fn key_tree() -> Tree {
    dict_of(
        seq![
            ("Request"@, Tree::Text("GetValue"@)),
            ("Label"@, Tree::Text("AirCard"@)),
            ("Key"@, Tree::Text("DevicePublicKey"@)),
        ],
    )
}

/// The device's key is asked for.
pub open spec fn asks_key(step: OpenStep, device: (u32, Seq<char>), renewed: bool, again: bool) -> bool {
    &&& step.logs@.len() == 0
    &&& step.action matches OpenAction::Ask(next, request)
    &&& at_stage(next, device, renewed)
    &&& request.tree() == key_tree()
    &&& if again {
        next.stage is KeyAgain
    } else {
        next.stage is Key
    }
}

/// The session is started under a record, with these lines logged.
pub open spec fn starts(
    step: OpenStep,
    device: (u32, Seq<char>),
    renewed: bool,
    record: Seq<(Seq<char>, Tree)>,
    logs: Seq<Seq<char>>,
) -> bool {
    exists|made: Result<Plist, Failure>|
        #[trigger] is_session_request(record, made) && texts(step.logs@) == logs && match made {
            Err(given) => step.action matches OpenAction::Stop(failure) && failure == given,
            Ok(tree) => {
                &&& step.action matches OpenAction::Ask(next, request)
                &&& request == tree && at_stage(next, device, renewed)
                &&& next.stage matches OpenStage::Start { record: kept }
                &&& kept.0.pairs() == record
            },
        }
}

/// A new pairing begins, with these lines logged before its own.
pub open spec fn pairs_anew(
    step: OpenStep,
    device: (u32, Seq<char>),
    renewed: bool,
    public: Seq<u8>,
    logs: Seq<Seq<char>>,
) -> bool {
    &&& texts(step.logs@) == logs.push(
        "Preparing app pairing. Keep iPhone unlocked; tap Trust if it asks."@,
    )
    &&& step.action matches OpenAction::Identify(next)
    &&& at_stage(next, device, renewed)
    &&& next.stage matches OpenStage::Identify { public: kept }
    &&& kept@ == public
}

/// The key in the reply to the request for it.
pub open spec fn key_in_reply(reply: Seq<(Seq<char>, Tree)>) -> Option<Seq<u8>> {
    data_in(lookup(reply, "Value"@))
}

/// What is wrong with the reply to the request for the key.
pub open spec fn key_complaint(reply: Seq<(Seq<char>, Tree)>, not_data: Seq<char>) -> Option<Seq<char>> {
    match text_in(lookup(reply, "Error"@)) {
        Some(error) => Some("Read device information: "@ + error),
        None => match lookup(reply, "Value"@) {
            None => Some("Device did not supply "@ + "DevicePublicKey"@),
            Some(tree) => if data_in(Some(tree)) is None {
                Some(not_data)
            } else {
                None
            },
        },
    }
}

/// What the stored pairing comes to: one that matches the device is used, any other
/// is replaced, and a line says why.
pub open spec fn judges_stored(
    step: OpenStep,
    device: (u32, Seq<char>),
    renewed: bool,
    public: Seq<u8>,
    loaded: Result<Option<PairRecord>, Failure>,
    stop: bool,
) -> bool {
    match loaded {
        Ok(Some(record)) => exists|matched: Result<bool, Failure>|
            #[trigger] is_match(record.0.pairs(), public, matched) && if matched == Ok::<bool, Failure>(
                true,
            ) {
                if stop {
                    stops_saying(step, "Scan cancelled"@)
                } else {
                    starts(step, device, renewed, record.0.pairs(), Seq::empty())
                }
            } else {
                anew(
                    step,
                    device,
                    renewed,
                    public,
                    seq![
                        "App pairing certificate needs renewal (older format or different device); creating a new app pairing."@,
                    ],
                    stop,
                )
            },
        Ok(None) => anew(step, device, renewed, public, Seq::empty(), stop),
        Err(failure) => exists|line: Seq<char>| #[trigger]
            explains(failure, line) && anew(step, device, renewed, public, seq![line], stop),
    }
}

/// The line about a stored pairing that cannot be used, with what the failure tells.
pub open spec fn explains(failure: Failure, line: Seq<char>) -> bool {
    exists|words: Seq<char>| #[trigger]
        failure.tells(words) && line == "Cannot use the saved app pairing: "@ + words
            + ". Creating a new app pairing."@
}

/// A new pairing begins, unless the user has stopped the work.
pub open spec fn anew(
    step: OpenStep,
    device: (u32, Seq<char>),
    renewed: bool,
    public: Seq<u8>,
    logs: Seq<Seq<char>>,
    stop: bool,
) -> bool {
    if stop {
        texts(step.logs@) == logs && (step.action matches OpenAction::Stop(failure) && failure.says(
            "Scan cancelled"@,
        ))
    } else {
        pairs_anew(step, device, renewed, public, logs)
    }
}

/// A pairing request is sent.
pub open spec fn asks_to_pair(
    step: OpenStep,
    device: (u32, Seq<char>),
    renewed: bool,
    record: Seq<(Seq<char>, Tree)>,
    request: Tree,
    waiting: bool,
) -> bool {
    &&& step.logs@.len() == 0
    &&& step.action matches OpenAction::Ask(next, sent)
    &&& sent.tree() == request
    &&& at_stage(next, device, renewed)
    &&& next.stage matches OpenStage::Pair { record: kept, request: same, waiting: w }
    &&& kept.0.pairs() == record && same.tree() == request && w == waiting
}

/// What a new record for the device comes to.
pub open spec fn judges_new(
    step: OpenStep,
    device: (u32, Seq<char>),
    renewed: bool,
    made: Result<PairRecord, Failure>,
    stop: bool,
) -> bool {
    match made {
        Err(given) => stops_under(step, "Generate app pairing certificates"@, given),
        Ok(record) => if stop {
            stops_saying(step, "Scan cancelled"@)
        } else if has_public_fields(record.0.pairs()) {
            asks_to_pair(
                step,
                device,
                renewed,
                record.0.pairs(),
                pair_tree(Tree::Dict(collected(public_items(record.0.pairs(), 5)))),
                false,
            )
        } else {
            &&& step.logs@.len() == 0
            &&& step.action matches OpenAction::Stop(failure)
            &&& misses_field(record.0.pairs(), failure)
        },
    }
}

/// What the phone's answer to a pairing request comes to.
pub open spec fn judges_trust(
    step: OpenStep,
    device: (u32, Seq<char>),
    renewed: bool,
    record: Seq<(Seq<char>, Tree)>,
    request: Tree,
    waiting: bool,
    reply: Seq<(Seq<char>, Tree)>,
    stop: bool,
    late: bool,
) -> bool {
    exists|meaning: PairReply|
        #[trigger] is_pair_reply(text_in(lookup(reply, "Error"@)), meaning) && match meaning {
            PairReply::Trusted => {
                &&& step.logs@.len() == 0
                &&& step.action matches OpenAction::Save(next, kept)
                &&& kept.0.pairs() == trusted_record(record, reply)
                &&& at_stage(next, device, renewed)
                &&& next.stage matches OpenStage::Save { record: held }
                &&& held.0.pairs() == trusted_record(record, reply)
            },
            PairReply::Refused(given) => stops_with(step, given),
            PairReply::Pending => {
                &&& texts(step.logs@) == if waiting {
                    Seq::empty()
                } else {
                    seq![
                        "Waiting for Trust confirmation on the unlocked iPhone (up to 60 seconds)..."@,
                    ]
                }
                &&& if late {
                    step.action matches OpenAction::Stop(failure) && failure.says(
                        "Trust confirmation timed out. Unlock iPhone, tap Trust, then scan again"@,
                    )
                } else if stop {
                    step.action matches OpenAction::Stop(failure) && failure.says("Scan cancelled"@)
                } else {
                    &&& step.action matches OpenAction::Pause(next)
                    &&& at_stage(next, device, renewed)
                    &&& next.stage matches OpenStage::Wait { record: held, request: same }
                    &&& held.0.pairs() == record && same.tree() == request
                }
            },
        }
}

/// The line about a phone that does not know this computer.
pub open spec fn renewal_line() -> Seq<char> {
    "iPhone rejected the saved app identity. Renewing app pairing once..."@
}

/// What the phone's answer to the start of a session comes to.
pub open spec fn judges_session(
    step: OpenStep,
    device: (u32, Seq<char>),
    renewed: bool,
    record: Seq<(Seq<char>, Tree)>,
    reply: Seq<(Seq<char>, Tree)>,
    stop: bool,
) -> bool {
    let error = text_in(lookup(reply, "Error"@));
    if is_identity_error(error) && !renewed {
        &&& texts(step.logs@) == seq![renewal_line()]
        &&& step.action matches OpenAction::Reconnect(next)
        &&& at_stage(next, device, true)
        &&& next.stage is Reconnect
    } else {
        match error {
            Some(error) => stops_saying(step, "Start paired device session: "@ + error),
            None => if text_in(lookup(reply, "SessionID"@)) is None {
                stops_saying(step, "iPhone returned no session ID"@)
            } else if stop {
                stops_saying(step, "Scan cancelled"@)
            } else if bool_in(lookup(reply, "EnableSessionSSL"@)) == Some(true) {
                &&& texts(step.logs@) == seq!["Starting lockdown TLS 1.2 handshake (Windows)..."@]
                &&& step.action matches OpenAction::Secure(next, shown)
                &&& shown.0.pairs() == record
                &&& at_stage(next, device, renewed)
                &&& next.stage matches OpenStage::Secure { record: held }
                &&& held.0.pairs() == record
            } else {
                opens(step, device, record)
            },
        }
    }
}

/// The session is open.
pub open spec fn opens(step: OpenStep, device: (u32, Seq<char>), record: Seq<(Seq<char>, Tree)>) -> bool {
    &&& texts(step.logs@) == seq!["Device session authenticated."@]
    &&& step.action matches OpenAction::Open(session)
    &&& session.device@ == device && session.record.0.pairs() == record
}

/// What the reply to the request for the key comes to.
pub open spec fn judges_key(
    step: OpenStep,
    job: Opening,
    reply: Seq<(Seq<char>, Tree)>,
    again: bool,
) -> bool {
    match key_complaint(
        reply,
        if again {
            "Missing device public key"@
        } else {
            "DevicePublicKey is not data"@
        },
    ) {
        Some(complaint) => stops_saying(step, complaint),
        None => if again {
            pairs_anew(step, job.device@, job.renewed, key_in_reply(reply).unwrap(), Seq::empty())
        } else {
            &&& step.logs@.len() == 0
            &&& step.action matches OpenAction::Load(next)
            &&& at_stage(next, job.device@, job.renewed)
            &&& next.stage matches OpenStage::Load { public }
            &&& Some(public@) == key_in_reply(reply)
        },
    }
}

/// How an opening goes on after an event.
pub open spec fn opening_goes(
    step: OpenStep,
    job: Opening,
    event: OpenEvent,
    stop: bool,
    late: bool,
) -> bool {
    match (job.stage, event) {
        (OpenStage::Connect, OpenEvent::Connected(Err(given))) => stops_under(
            step,
            "Connect to iPhone lockdown service"@,
            given,
        ),
        (OpenStage::Connect, OpenEvent::Connected(Ok(()))) => asks_key(
            step,
            job.device@,
            job.renewed,
            false,
        ),
        (OpenStage::Key, OpenEvent::Reply(Err(given))) => stops_with(step, given),
        (OpenStage::Key, OpenEvent::Reply(Ok(reply))) => judges_key(step, job, reply.pairs(), false),
        (OpenStage::Load { public }, OpenEvent::Loaded(loaded)) => judges_stored(
            step,
            job.device@,
            job.renewed,
            public@,
            loaded,
            stop,
        ),
        (OpenStage::Identify { public }, OpenEvent::Identified(Err(given))) => stops_with(step, given),
        (OpenStage::Identify { public }, OpenEvent::Identified(Ok(identity))) => exists|
            made: Result<PairRecord, Failure>,
        | #[trigger] is_made(public@, identity.buid@, identity.keys@, made) && judges_new(
            step,
            job.device@,
            job.renewed,
            made,
            stop,
        ),
        (OpenStage::Pair { record, request, waiting }, OpenEvent::Reply(Err(given))) => stops_under(
            step,
            "Send app pairing request"@,
            given,
        ),
        (OpenStage::Pair { record, request, waiting }, OpenEvent::Reply(Ok(reply))) => judges_trust(
            step,
            job.device@,
            job.renewed,
            record.0.pairs(),
            request.tree(),
            waiting,
            reply.pairs(),
            stop,
            late,
        ),
        (OpenStage::Wait { record, request }, OpenEvent::Paused) => if stop {
            stops_saying(step, "Scan cancelled"@)
        } else {
            asks_to_pair(
                step,
                job.device@,
                job.renewed,
                record.0.pairs(),
                request.tree(),
                true,
            )
        },
        (OpenStage::Save { record }, OpenEvent::Saved(Err(given))) => stops_under(
            step,
            "Save encrypted app pairing record"@,
            given,
        ),
        (OpenStage::Save { record }, OpenEvent::Saved(Ok(()))) => starts(
            step,
            job.device@,
            job.renewed,
            record.0.pairs(),
            seq!["App pairing saved securely for this Windows account."@],
        ),
        (OpenStage::Start { record }, OpenEvent::Reply(Err(given))) => stops_with(step, given),
        (OpenStage::Start { record }, OpenEvent::Reply(Ok(reply))) => judges_session(
            step,
            job.device@,
            job.renewed,
            record.0.pairs(),
            reply.pairs(),
            stop,
        ),
        (OpenStage::Reconnect, OpenEvent::Connected(Err(given))) => stops_with(step, given),
        (OpenStage::Reconnect, OpenEvent::Connected(Ok(()))) => asks_key(
            step,
            job.device@,
            job.renewed,
            true,
        ),
        (OpenStage::KeyAgain, OpenEvent::Reply(Err(given))) => stops_with(step, given),
        (OpenStage::KeyAgain, OpenEvent::Reply(Ok(reply))) => judges_key(
            step,
            job,
            reply.pairs(),
            true,
        ),
        (OpenStage::Secure { record }, OpenEvent::Secured(Err(given))) => stops_with(step, given),
        (OpenStage::Secure { record }, OpenEvent::Secured(Ok(()))) => opens(
            step,
            job.device@,
            record.0.pairs(),
        ),
        _ => stops_saying(step, "Unexpected session event"@),
    }
}

fn quiet(action: OpenAction) -> (step: OpenStep)
    ensures
        step.logs@.len() == 0,
        step.action == action,
        texts(step.logs@) == Seq::<Seq<char>>::empty(),
{
    let logs: Vec<String> = Vec::new();
    assert(texts(logs@) =~= Seq::<Seq<char>>::empty());
    OpenStep { logs, action }
}

fn stop_saying(text: &str) -> (step: OpenStep)
    ensures
        stops_saying(step, text@),
{
    quiet(OpenAction::Stop(Failure::said(text)))
}

fn with_line(line: &str, action: OpenAction) -> (step: OpenStep)
    ensures
        texts(step.logs@) == seq![line@],
        step.action == action,
{
    let mut logs: Vec<String> = Vec::new();
    logs.push(line.to_owned());
    assert(texts(logs@) =~= seq![line@]);
    OpenStep { logs, action }
}

fn ask_key(device: UsbDevice, renewed: bool, again: bool) -> (step: OpenStep)
    ensures
        asks_key(step, device@, renewed, again),
{
    let request: Plist = get_value_request("DevicePublicKey");
    let stage: OpenStage = if again {
        OpenStage::KeyAgain
    } else {
        OpenStage::Key
    };
    quiet(OpenAction::Ask(Opening { device, renewed, stage }, request))
}

fn start(device: UsbDevice, renewed: bool, record: PairRecord, logs: Vec<String>) -> (step: OpenStep)
    ensures
        starts(step, device@, renewed, record.0.pairs(), texts(logs@)),
{
    let made: Result<Plist, Failure> = start_session(&record);
    assert(is_session_request(record.0.pairs(), made));
    match made {
        Ok(request) => OpenStep {
            logs,
            action: OpenAction::Ask(
                Opening { device, renewed, stage: OpenStage::Start { record } },
                request,
            ),
        },
        Err(failure) => OpenStep { logs, action: OpenAction::Stop(failure) },
    }
}

fn pair_anew(device: UsbDevice, renewed: bool, public: Vec<u8>, logs: Vec<String>) -> (step: OpenStep)
    ensures
        pairs_anew(step, device@, renewed, public@, texts(logs@)),
{
    let ghost before = texts(logs@);
    let mut logs: Vec<String> = logs;
    let line: String = "Preparing app pairing. Keep iPhone unlocked; tap Trust if it asks.".to_owned();
    logs.push(line);
    assert(texts(logs@) =~= before.push(line@));
    OpenStep {
        logs,
        action: OpenAction::Identify(
            Opening { device, renewed, stage: OpenStage::Identify { public } },
        ),
    }
}

fn pair_unless(
    device: UsbDevice,
    renewed: bool,
    public: Vec<u8>,
    logs: Vec<String>,
    stop: bool,
) -> (step: OpenStep)
    ensures
        anew(step, device@, renewed, public@, texts(logs@), stop),
{
    if stop {
        OpenStep { logs, action: OpenAction::Stop(Failure::said("Scan cancelled")) }
    } else {
        pair_anew(device, renewed, public, logs)
    }
}

fn judge_stored(
    device: UsbDevice,
    renewed: bool,
    public: Vec<u8>,
    loaded: Result<Option<PairRecord>, Failure>,
    stop: bool,
) -> (step: OpenStep)
    ensures
        judges_stored(step, device@, renewed, public@, loaded, stop),
{
    let mut logs: Vec<String> = Vec::new();
    assert(texts(logs@) =~= Seq::<Seq<char>>::empty());
    match loaded {
        Ok(Some(record)) => {
            let matched: Result<bool, Failure> = record.matches_device(public.as_slice());
            assert(is_match(record.0.pairs(), public@, matched));
            if let Ok(true) = matched {
                if stop {
                    return stop_saying("Scan cancelled");
                }
                return start(device, renewed, record, logs);
            }
            let line: String =
                "App pairing certificate needs renewal (older format or different device); creating a new app pairing.".to_owned();
            logs.push(line);
            assert(texts(logs@) =~= seq![line@]);
            pair_unless(device, renewed, public, logs, stop)
        },
        Ok(None) => pair_unless(device, renewed, public, logs, stop),
        Err(failure) => {
            let words: String = failure.message();
            assert(failure.tells(words@));
            let line: String = "Cannot use the saved app pairing: ".to_owned().concat(
                words.as_str(),
            ).concat(". Creating a new app pairing.");
            assert(explains(failure, line@));
            logs.push(line);
            assert(texts(logs@) =~= seq![line@]);
            pair_unless(device, renewed, public, logs, stop)
        },
    }
}

fn judge_new(device: UsbDevice, renewed: bool, made: Result<PairRecord, Failure>, stop: bool) -> (step:
    OpenStep)
    ensures
        judges_new(step, device@, renewed, made, stop),
{
    match made {
        Err(failure) => quiet(
            OpenAction::Stop(failure.context("Generate app pairing certificates")),
        ),
        Ok(record) => {
            if stop {
                return stop_saying("Scan cancelled");
            }
            match record.public_record() {
                Ok(shown) => {
                    let request: Plist = pair_request(shown);
                    let sent: Plist = request.clone();
                    quiet(
                        OpenAction::Ask(
                            Opening {
                                device,
                                renewed,
                                stage: OpenStage::Pair { record, request, waiting: false },
                            },
                            sent,
                        ),
                    )
                },
                Err(failure) => quiet(OpenAction::Stop(failure)),
            }
        },
    }
}

fn judge_trust(
    device: UsbDevice,
    renewed: bool,
    record: PairRecord,
    request: Plist,
    waiting: bool,
    reply: Dict,
    stop: bool,
    late: bool,
) -> (step: OpenStep)
    ensures
        judges_trust(
            step,
            device@,
            renewed,
            record.0.pairs(),
            request.tree(),
            waiting,
            reply.pairs(),
            stop,
            late,
        ),
{
    let meaning: PairReply = pair_reply(&reply);
    assert(is_pair_reply(text_in(lookup(reply.pairs(), "Error"@)), meaning));
    match meaning {
        PairReply::Trusted => {
            let held: PairRecord = trusted(record, &reply);
            let kept: PairRecord = PairRecord(held.0.clone());
            quiet(
                OpenAction::Save(
                    Opening { device, renewed, stage: OpenStage::Save { record: held } },
                    kept,
                ),
            )
        },
        PairReply::Refused(failure) => quiet(OpenAction::Stop(failure)),
        PairReply::Pending => {
            let action: OpenAction = if late {
                OpenAction::Stop(
                    Failure::said(
                        "Trust confirmation timed out. Unlock iPhone, tap Trust, then scan again",
                    ),
                )
            } else if stop {
                OpenAction::Stop(Failure::said("Scan cancelled"))
            } else {
                OpenAction::Pause(
                    Opening { device, renewed, stage: OpenStage::Wait { record, request } },
                )
            };
            if waiting {
                quiet(action)
            } else {
                with_line(
                    "Waiting for Trust confirmation on the unlocked iPhone (up to 60 seconds)...",
                    action,
                )
            }
        },
    }
}

fn judge_session(device: UsbDevice, renewed: bool, record: PairRecord, reply: Dict, stop: bool) -> (step:
    OpenStep)
    ensures
        judges_session(step, device@, renewed, record.0.pairs(), reply.pairs(), stop),
{
    if needs_new_pairing(&reply) && !renewed {
        return with_line(
            "iPhone rejected the saved app identity. Renewing app pairing once...",
            OpenAction::Reconnect(
                Opening { device, renewed: true, stage: OpenStage::Reconnect },
            ),
        );
    }
    match check_reply(&reply, "Start paired device session") {
        Ok(()) => {},
        Err(failure) => {
            proof {
                reveal_strlit("Start paired device session");
                reveal_strlit(": ");
                reveal_strlit("Start paired device session: ");
                assert("Start paired device session"@ + ": "@ =~= "Start paired device session: "@);
            }
            return quiet(OpenAction::Stop(failure));
        },
    }
    if reply.text("SessionID").is_none() {
        return stop_saying("iPhone returned no session ID");
    }
    if stop {
        return stop_saying("Scan cancelled");
    }
    if let Some(true) = reply.boolean("EnableSessionSSL") {
        let shown: PairRecord = PairRecord(record.0.clone());
        return with_line(
            "Starting lockdown TLS 1.2 handshake (Windows)...",
            OpenAction::Secure(
                Opening { device, renewed, stage: OpenStage::Secure { record } },
                shown,
            ),
        );
    }
    with_line("Device session authenticated.", OpenAction::Open(UsbSession { device, record }))
}

fn judge_key(job: Opening, reply: Dict, again: bool) -> (step: OpenStep)
    ensures
        judges_key(step, job, reply.pairs(), again),
{
    let value: Plist = match get_value(&reply, "DevicePublicKey") {
        Ok(value) => value,
        Err(failure) => return quiet(OpenAction::Stop(failure)),
    };
    let public: Vec<u8> = match value.as_data() {
        Some(bytes) => crate::wire::copy_bytes(bytes.as_slice()),
        None => return stop_saying(
            if again {
                "Missing device public key"
            } else {
                "DevicePublicKey is not data"
            },
        ),
    };
    if again {
        let none: Vec<String> = Vec::new();
        assert(texts(none@) =~= Seq::<Seq<char>>::empty());
        pair_anew(job.device, job.renewed, public, none)
    } else {
        quiet(
            OpenAction::Load(
                Opening {
                    device: job.device,
                    renewed: job.renewed,
                    stage: OpenStage::Load { public },
                },
            ),
        )
    }
}

/// The opening of a session with the device that was selected.
pub fn open_with(selected: Result<UsbDevice, Failure>, stop: bool) -> (step: OpenStep)
    ensures
        if stop {
            stops_saying(step, "Scan cancelled"@)
        } else {
            match selected {
                Err(given) => stops_with(step, given),
                Ok(device) => texts(step.logs@) == seq![
                    "USB device selected. Opening paired device connection..."@,
                ] && (step.action matches OpenAction::Connect(next) && at_stage(next, device@, false)
                    && next.stage is Connect),
            }
        },
{
    if stop {
        return stop_saying("Scan cancelled");
    }
    match selected {
        Err(failure) => quiet(OpenAction::Stop(failure)),
        Ok(device) => with_line(
            "USB device selected. Opening paired device connection...",
            OpenAction::Connect(Opening { device, renewed: false, stage: OpenStage::Connect }),
        ),
    }
}

impl Opening {
    /// How the opening goes on after an event, given whether the user has stopped the
    /// work and whether the time for a decision is over.
    pub fn next(self, event: OpenEvent, stop: bool, late: bool) -> (step: OpenStep)
        ensures
            opening_goes(step, self, event, stop, late),
    {
        let Opening { device, renewed, stage } = self;
        match (stage, event) {
            (OpenStage::Connect, OpenEvent::Connected(Err(failure))) => quiet(
                OpenAction::Stop(failure.context("Connect to iPhone lockdown service")),
            ),
            (OpenStage::Connect, OpenEvent::Connected(Ok(()))) => ask_key(device, renewed, false),
            (OpenStage::Key, OpenEvent::Reply(Err(failure))) => quiet(OpenAction::Stop(failure)),
            (OpenStage::Key, OpenEvent::Reply(Ok(reply))) => judge_key(
                Opening { device, renewed, stage: OpenStage::Key },
                reply,
                false,
            ),
            (OpenStage::Load { public }, OpenEvent::Loaded(loaded)) => judge_stored(
                device,
                renewed,
                public,
                loaded,
                stop,
            ),
            (OpenStage::Identify { public }, OpenEvent::Identified(Err(failure))) => quiet(
                OpenAction::Stop(failure),
            ),
            (OpenStage::Identify { public }, OpenEvent::Identified(Ok(identity))) => {
                let made: Result<PairRecord, Failure> = generate_from(
                    public.as_slice(),
                    identity.buid.as_str(),
                    &identity.keys,
                );
                assert(is_made(public@, identity.buid@, identity.keys@, made));
                judge_new(device, renewed, made, stop)
            },
            (OpenStage::Pair { record, request, waiting }, OpenEvent::Reply(Err(failure))) => quiet(
                OpenAction::Stop(failure.context("Send app pairing request")),
            ),
            (OpenStage::Pair { record, request, waiting }, OpenEvent::Reply(Ok(reply))) => judge_trust(
                device,
                renewed,
                record,
                request,
                waiting,
                reply,
                stop,
                late,
            ),
            (OpenStage::Wait { record, request }, OpenEvent::Paused) => {
                if stop {
                    stop_saying("Scan cancelled")
                } else {
                    let sent: Plist = request.clone();
                    quiet(
                        OpenAction::Ask(
                            Opening {
                                device,
                                renewed,
                                stage: OpenStage::Pair { record, request, waiting: true },
                            },
                            sent,
                        ),
                    )
                }
            },
            (OpenStage::Save { record }, OpenEvent::Saved(Err(failure))) => quiet(
                OpenAction::Stop(failure.context("Save encrypted app pairing record")),
            ),
            (OpenStage::Save { record }, OpenEvent::Saved(Ok(()))) => {
                let mut logs: Vec<String> = Vec::new();
                logs.push("App pairing saved securely for this Windows account.".to_owned());
                assert(texts(logs@) =~= seq![
                    "App pairing saved securely for this Windows account."@,
                ]);
                start(device, renewed, record, logs)
            },
            (OpenStage::Start { record }, OpenEvent::Reply(Err(failure))) => quiet(
                OpenAction::Stop(failure),
            ),
            (OpenStage::Start { record }, OpenEvent::Reply(Ok(reply))) => judge_session(
                device,
                renewed,
                record,
                reply,
                stop,
            ),
            (OpenStage::Reconnect, OpenEvent::Connected(Err(failure))) => quiet(
                OpenAction::Stop(failure),
            ),
            (OpenStage::Reconnect, OpenEvent::Connected(Ok(()))) => ask_key(device, renewed, true),
            (OpenStage::KeyAgain, OpenEvent::Reply(Err(failure))) => quiet(
                OpenAction::Stop(failure),
            ),
            (OpenStage::KeyAgain, OpenEvent::Reply(Ok(reply))) => judge_key(
                Opening { device, renewed, stage: OpenStage::KeyAgain },
                reply,
                true,
            ),
            (OpenStage::Secure { record }, OpenEvent::Secured(Err(failure))) => quiet(
                OpenAction::Stop(failure),
            ),
            (OpenStage::Secure { record }, OpenEvent::Secured(Ok(()))) => with_line(
                "Device session authenticated.",
                OpenAction::Open(UsbSession { device, record }),
            ),
            _ => stop_saying("Unexpected session event"),
        }
    }
}

/// The state that a step goes on from, if it goes on.
pub open spec fn next_of(step: OpenStep) -> Option<Opening> {
    match step.action {
        OpenAction::Connect(next) => Some(next),
        OpenAction::Reconnect(next) => Some(next),
        OpenAction::Ask(next, _) => Some(next),
        OpenAction::Load(next) => Some(next),
        OpenAction::Identify(next) => Some(next),
        OpenAction::Pause(next) => Some(next),
        OpenAction::Save(next, _) => Some(next),
        OpenAction::Secure(next, _) => Some(next),
        OpenAction::Open(_) => None,
        OpenAction::Stop(_) => None,
    }
}

/// The pairing is renewed at most once: a renewal is remembered from then on, and
/// begins only where there was none.
pub proof fn renewal_happens_once(
    step: OpenStep,
    job: Opening,
    event: OpenEvent,
    stop: bool,
    late: bool,
)
    requires
        opening_goes(step, job, event, stop, late),
    ensures
        job.renewed ==> !(step.action is Reconnect),
        job.renewed ==> (next_of(step) matches Some(next) ==> next.renewed),
        step.action is Reconnect ==> (next_of(step) matches Some(next) && next.renewed),
{
}

/// A session opens only in answer to a start that the phone accepted, or once the
/// channel was secured.
pub proof fn sessions_are_accepted(
    step: OpenStep,
    job: Opening,
    event: OpenEvent,
    stop: bool,
    late: bool,
)
    requires
        opening_goes(step, job, event, stop, late),
        step.action is Open,
    ensures
        (job.stage is Secure && (event matches OpenEvent::Secured(secured) && secured is Ok)) || (job.stage is Start && (
        event matches OpenEvent::Reply(Ok(reply)) && text_in(lookup(reply.pairs(), "Error"@)) is None
            && text_in(lookup(reply.pairs(), "SessionID"@)) is Some && bool_in(
            lookup(reply.pairs(), "EnableSessionSSL"@),
        ) != Some(true))),
{
}

/// The device of an opening never changes: every step goes on with it, and the session
/// that opens is with it.
pub proof fn the_device_stays_the_same(
    job: Opening,
    event: OpenEvent,
    stop: bool,
    late: bool,
    step: OpenStep,
)
    requires
        call_ensures(Opening::next, (job, event, stop, late), step),
    ensures
        next_of(step) matches Some(next) ==> next.device@ == job.device@,
        step.action matches OpenAction::Open(session) ==> session.device@ == job.device@,
        step.action !is Connect,
{
}

/// An opening begins with the device that was selected, and not at all where none was
/// or the work was stopped.
pub proof fn an_opening_begins_with_the_selected_device(
    selected: Result<UsbDevice, Failure>,
    stop: bool,
    step: OpenStep,
)
    requires
        call_ensures(open_with, (selected, stop), step),
    ensures
        step.action is Connect <==> !stop && selected is Ok,
        step.action is Connect || step.action is Stop,
        step.action matches OpenAction::Connect(next) ==> next.device@ == selected->Ok_0@
            && !next.renewed && next.stage is Connect,
{
}

/// Once the channel is open, the device's key is asked for; the key that the device
/// supplies is the one that goes on. What is no key ends the opening.
pub proof fn the_key_of_the_device_is_used(
    job: Opening,
    event: OpenEvent,
    stop: bool,
    late: bool,
    step: OpenStep,
)
    requires
        call_ensures(Opening::next, (job, event, stop, late), step),
    ensures
        job.stage is Connect && (event matches OpenEvent::Connected(Ok(()))) ==> (
        step.action matches OpenAction::Ask(next, request) && next.stage is Key && request.tree()
            == key_tree()),
        job.stage is Reconnect && (event matches OpenEvent::Connected(Ok(()))) ==> (
        step.action matches OpenAction::Ask(next, request) && next.stage is KeyAgain
            && request.tree() == key_tree()),
        (job.stage is Connect || job.stage is Reconnect) && (event matches OpenEvent::Connected(
            Err(_),
        )) ==> step.action is Stop,
        job.stage is Key ==> (event matches OpenEvent::Reply(Ok(reply)) ==> ({
            let clear = !(lookup(reply.pairs(), "Error"@) matches Some(Tree::Text(_)));
            match lookup(reply.pairs(), "Value"@) {
                Some(Tree::Data(key)) => if clear {
                    step.action matches OpenAction::Load(next) && (next.stage matches OpenStage::Load {
                        public,
                    } && public@ == key)
                } else {
                    step.action is Stop
                },
                _ => step.action is Stop,
            }
        })),
        job.stage is KeyAgain ==> (event matches OpenEvent::Reply(Ok(reply)) ==> ({
            let clear = !(lookup(reply.pairs(), "Error"@) matches Some(Tree::Text(_)));
            match lookup(reply.pairs(), "Value"@) {
                Some(Tree::Data(key)) => if clear {
                    step.action matches OpenAction::Identify(next) && (
                    next.stage matches OpenStage::Identify { public } && public@ == key)
                } else {
                    step.action is Stop
                },
                _ => step.action is Stop,
            }
        })),
{
}

/// The request for the device's key asks for it by name.
pub proof fn the_key_is_asked_for_by_name()
    ensures
        key_tree() matches Tree::Dict(pairs) && lookup(pairs, "Request"@) == Some(
            Tree::Text("GetValue"@),
        ) && lookup(pairs, "Key"@) == Some(Tree::Text("DevicePublicKey"@)),
{
    let items = seq![
        ("Request"@, Tree::Text("GetValue"@)),
        ("Label"@, Tree::Text("AirCard"@)),
        ("Key"@, Tree::Text("DevicePublicKey"@)),
    ];
    reveal_strlit("Request");
    reveal_strlit("Label");
    reveal_strlit("Key");
    assert("Request"@.len() == 7 && "Label"@.len() == 5 && "Key"@.len() == 3);
    assert(items[0].0 == "Request"@ && items[2].0 == "Key"@);
    a_dictionary_holds_its_items(items, "Request"@);
    a_dictionary_holds_its_items(items, "Key"@);
}

/// A stored pairing is used only as it was stored, and only where it matches the
/// device. A pairing that is missing or cannot be read is replaced by a new one for
/// the key of the device; a stopped opening does neither.
pub proof fn a_stored_pairing_is_used_or_replaced(
    job: Opening,
    public: Vec<u8>,
    loaded: Result<Option<PairRecord>, Failure>,
    stop: bool,
    late: bool,
    step: OpenStep,
)
    requires
        job.stage == (OpenStage::Load { public }),
        call_ensures(Opening::next, (job, OpenEvent::Loaded(loaded), stop, late), step),
    ensures
        stop ==> step.action is Stop,
        !stop && !(loaded matches Ok(Some(_))) ==> step.action is Identify,
        step.action matches OpenAction::Identify(next) ==> (next.stage matches OpenStage::Identify {
            public: same,
        } && same@ == public@),
        step.action matches OpenAction::Ask(next, _) ==> (loaded matches Ok(Some(record)) && is_match(
            record.0.pairs(),
            public@,
            Ok(true),
        ) && (next.stage matches OpenStage::Start { record: kept } && kept.0.pairs()
            == record.0.pairs())),
        step.action is Identify || step.action is Ask || step.action is Stop,
        step.action is Identify && (loaded matches Ok(Some(_))) ==> (loaded matches Ok(Some(record))
            && exists|matched: Result<bool, Failure>| #[trigger]
            is_match(record.0.pairs(), public@, matched) && matched != Ok::<bool, Failure>(true)),
{
    if let Ok(Some(record)) = loaded {
        let matched = choose|matched: Result<bool, Failure>|
            #[trigger] is_match(record.0.pairs(), public@, matched) && if matched == Ok::<
                bool,
                Failure,
            >(true) {
                if stop {
                    stops_saying(step, "Scan cancelled"@)
                } else {
                    starts(step, job.device@, job.renewed, record.0.pairs(), Seq::empty())
                }
            } else {
                anew(
                    step,
                    job.device@,
                    job.renewed,
                    public@,
                    seq![
                        "App pairing certificate needs renewal (older format or different device); creating a new app pairing."@,
                    ],
                    stop,
                )
            };
        assert(is_match(record.0.pairs(), public@, matched));
    }
}

/// A pairing is stored once the phone trusts it, with the escrow bag that the phone
/// hands out, and the session then starts under exactly that pairing. While the user
/// has not decided, the same request is repeated after a pause, until the time is over;
/// a refusal ends the opening.
pub proof fn trust_is_waited_for_and_stored(
    job: Opening,
    record: PairRecord,
    request: Plist,
    waiting: bool,
    reply: Dict,
    stop: bool,
    late: bool,
    step: OpenStep,
)
    requires
        job.stage == (OpenStage::Pair { record, request, waiting }),
        call_ensures(Opening::next, (job, OpenEvent::Reply(Ok(reply)), stop, late), step),
    ensures
        ({
            let error = lookup(reply.pairs(), "Error"@);
            let pending = error == Some(Tree::Text("PairingDialogResponsePending"@));
            let refused = !pending && (error matches Some(Tree::Text(_)));
            &&& step.action is Save <==> !(error matches Some(Tree::Text(_)))
            &&& step.action matches OpenAction::Save(next, kept) ==> kept.0.pairs()
                == trusted_record(record.0.pairs(), reply.pairs()) && (
            next.stage matches OpenStage::Save { record: held } && held.0.pairs() == kept.0.pairs())
            &&& step.action is Pause <==> pending && !late && !stop
            &&& step.action matches OpenAction::Pause(next) ==> (next.stage matches OpenStage::Wait {
                record: held,
                request: same,
            } && held.0.pairs() == record.0.pairs() && same.tree() == request.tree())
            &&& refused ==> step.action is Stop
            &&& pending && (late || stop) ==> step.action is Stop
            &&& step.logs@.len() == (if pending && !waiting {
                1int
            } else {
                0
            })
        }),
{
    let meaning = choose|meaning: PairReply|
        #[trigger] is_pair_reply(text_in(lookup(reply.pairs(), "Error"@)), meaning) && match meaning {
            PairReply::Trusted => {
                &&& step.logs@.len() == 0
                &&& step.action matches OpenAction::Save(next, kept)
                &&& kept.0.pairs() == trusted_record(record.0.pairs(), reply.pairs())
                &&& at_stage(next, job.device@, job.renewed)
                &&& next.stage matches OpenStage::Save { record: held }
                &&& held.0.pairs() == trusted_record(record.0.pairs(), reply.pairs())
            },
            PairReply::Refused(given) => stops_with(step, given),
            PairReply::Pending => {
                &&& texts(step.logs@) == if waiting {
                    Seq::empty()
                } else {
                    seq![
                        "Waiting for Trust confirmation on the unlocked iPhone (up to 60 seconds)..."@,
                    ]
                }
                &&& if late {
                    step.action matches OpenAction::Stop(failure) && failure.says(
                        "Trust confirmation timed out. Unlock iPhone, tap Trust, then scan again"@,
                    )
                } else if stop {
                    step.action matches OpenAction::Stop(failure) && failure.says("Scan cancelled"@)
                } else {
                    &&& step.action matches OpenAction::Pause(next)
                    &&& at_stage(next, job.device@, job.renewed)
                    &&& next.stage matches OpenStage::Wait { record: held, request: same }
                    &&& held.0.pairs() == record.0.pairs() && same.tree() == request.tree()
                }
            },
        };
    assert(texts(step.logs@).len() == step.logs@.len());
}

/// After the pause the same request is sent again, and after the storing the session is
/// started under what was stored, unless either failed or the work was stopped.
pub proof fn waiting_and_storing_lead_on(
    job: Opening,
    event: OpenEvent,
    stop: bool,
    late: bool,
    step: OpenStep,
)
    requires
        call_ensures(Opening::next, (job, event, stop, late), step),
    ensures
        job.stage matches OpenStage::Wait { record, request } ==> (event is Paused ==> if stop {
            step.action is Stop
        } else {
            step.action matches OpenAction::Ask(next, sent) && sent.tree() == request.tree() && (
            next.stage matches OpenStage::Pair { record: kept, request: same, waiting }
                && kept.0.pairs() == record.0.pairs() && same.tree() == request.tree() && waiting)
        }),
        job.stage matches OpenStage::Save { record } ==> (event matches OpenEvent::Saved(Ok(()))
            ==> match step.action {
            OpenAction::Ask(next, request) => (next.stage matches OpenStage::Start { record: kept }
                && kept.0.pairs() == record.0.pairs()) && is_session_request(
                record.0.pairs(),
                Ok(request),
            ),
            OpenAction::Stop(_) => !(lookup(record.0.pairs(), "HostID"@) matches Some(Tree::Text(_)))
                || !(lookup(record.0.pairs(), "SystemBUID"@) matches Some(Tree::Text(_))),
            _ => false,
        }),
        job.stage is Save && (event matches OpenEvent::Saved(Err(_))) ==> step.action is Stop,
{
}

/// The phone's answer to the start of a session decides: an unknown identity renews the
/// pairing once, any other error ends the opening, and an accepted start opens the
/// session under the pairing that was used, secured first exactly where the phone asks
/// for it.
pub proof fn an_accepted_start_opens_the_session(
    job: Opening,
    record: PairRecord,
    reply: Dict,
    stop: bool,
    late: bool,
    step: OpenStep,
)
    requires
        job.stage == (OpenStage::Start { record }),
        call_ensures(Opening::next, (job, OpenEvent::Reply(Ok(reply)), stop, late), step),
    ensures
        ({
            let error = lookup(reply.pairs(), "Error"@);
            let unknown = error == Some(Tree::Text("InvalidHostID"@)) || error == Some(
                Tree::Text("MissingPairRecord"@),
            ) || error == Some(Tree::Text("InvalidPairRecord"@));
            let accepted = !(error matches Some(Tree::Text(_))) && (lookup(
                reply.pairs(),
                "SessionID"@,
            ) matches Some(Tree::Text(_)));
            let secured = lookup(reply.pairs(), "EnableSessionSSL"@) == Some(Tree::Bool(true));
            &&& step.action is Reconnect <==> unknown && !job.renewed
            &&& step.action is Secure <==> accepted && !stop && secured
            &&& step.action is Open <==> accepted && !stop && !secured
            &&& step.action matches OpenAction::Open(session) ==> session.record.0.pairs()
                == record.0.pairs()
            &&& step.action matches OpenAction::Secure(next, shown) ==> shown.0.pairs()
                == record.0.pairs() && (next.stage matches OpenStage::Secure { record: held }
                && held.0.pairs() == record.0.pairs())
            &&& !(unknown && !job.renewed) && !(accepted && !stop) ==> step.action is Stop
        }),
{
}

/// A secured channel opens the session under the pairing with which it was secured; a
/// channel that could not be secured opens none.
pub proof fn a_secured_channel_opens_the_session(
    job: Opening,
    record: PairRecord,
    secured: Result<(), Failure>,
    stop: bool,
    late: bool,
    step: OpenStep,
)
    requires
        job.stage == (OpenStage::Secure { record }),
        call_ensures(Opening::next, (job, OpenEvent::Secured(secured), stop, late), step),
    ensures
        secured is Ok ==> (step.action matches OpenAction::Open(session) && session.record.0.pairs()
            == record.0.pairs()),
        secured is Err ==> step.action is Stop,
{
}

/// A new pairing is made of the key of the device and the identity of this computer,
/// and the phone is shown only its public part. A failure to make it, or a stop, ends
/// the opening.
pub proof fn a_new_pairing_is_shown(
    job: Opening,
    public: Vec<u8>,
    identity: OwnIdentity,
    stop: bool,
    late: bool,
    step: OpenStep,
)
    requires
        job.stage == (OpenStage::Identify { public }),
        call_ensures(Opening::next, (job, OpenEvent::Identified(Ok(identity)), stop, late), step),
    ensures
        stop ==> step.action is Stop,
        step.action is Ask || step.action is Stop,
        step.action matches OpenAction::Ask(next, request) ==> exists|made: PairRecord| #[trigger]
            is_made(public@, identity.buid@, identity.keys@, Ok(made)) && (
            next.stage matches OpenStage::Pair { record, request: same, waiting } && record.0.pairs()
                == made.0.pairs() && same.tree() == request.tree() && !waiting) && request.tree()
                == pair_tree(Tree::Dict(collected(public_items(made.0.pairs(), 5)))),
{
    let made = choose|made: Result<PairRecord, Failure>|
        #[trigger] is_made(public@, identity.buid@, identity.keys@, made) && judges_new(
            step,
            job.device@,
            job.renewed,
            made,
            stop,
        );
    if let Ok(record) = made {
        assert(is_made(public@, identity.buid@, identity.keys@, Ok(record)));
    }
}

} // verus!
