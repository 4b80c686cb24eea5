//! Directories of the file service: making them, and clearing staging trees.
use crate::afc::{
    ask, ask_info, children, fields, file_info, has_nul, info_value, is_existence, parse_info,
    path_arg, path_bytes, simple_request, AfcClient, Ask, FileInfo, Info, Progress, DEPTH_LIMIT,
};
use crate::afc_files::{calls, fails_saying, fails_with, gives};
use crate::airlift::SOURCE_PREFIX;
use crate::failure::Failure;
use crate::text::{
    begins_with, contains_text, joined_by, occurs, occurs_at, same_text, split, split_text, texts,
};
use vstd::prelude::*;
use vstd::utf8::encode_utf8;

verus! {

/// Where an operation on one path stands.
#[derive(Debug, Clone, Copy, PartialEq, Eq, Structural)]
pub enum PathStage {
    /// Whether the path exists is being asked.
    Probe,
    /// It is being made or removed.
    Act,
}

/// A path that is being made or removed.
pub struct PathJob {
    /// The path.
    pub path: String,
    /// The operation: 9 makes a directory, 8 removes a path.
    pub op: u64,
    /// How far it has come.
    pub stage: PathStage,
}

/// The path is made where it is not there, and removed where it is.
pub open spec fn acts(op: u64, there: bool) -> bool {
    if op == 9 {
        !there
    } else {
        there
    }
}

/// The call is made, or the path is refused because of a zero byte in it.
pub open spec fn calls_for<S, T>(p: Progress<S, T>, path: Seq<char>, call: Ask) -> bool {
    if has_nul(path) {
        fails_saying(p, "NUL in AFC path"@)
    } else {
        calls(p, call)
    }
}

/// What follows the answer about the existence of the path of a job.
pub open spec fn probed(
    p: Progress<PathJob, ()>,
    job: PathJob,
    reply: Result<Vec<u8>, Failure>,
) -> bool {
    exists|found: Result<bool, Failure>|
        #[trigger] is_existence(reply, found) && match found {
            Err(given) => fails_with(p, given),
            Ok(there) => if acts(job.op, there) {
                &&& calls_for(p, job.path@, ask(job.op, path_bytes(job.path@), 1))
                &&& p matches Progress::Call(state, _) ==> state.path == job.path && state.op
                    == job.op && state.stage == PathStage::Act
            } else {
                gives(p, ())
            },
        }
}

/// How a job goes on after the answer to its last call.
pub open spec fn job_goes(
    p: Progress<PathJob, ()>,
    job: PathJob,
    reply: Result<Vec<u8>, Failure>,
) -> bool {
    match job.stage {
        PathStage::Probe => probed(p, job, reply),
        PathStage::Act => match reply {
            Err(given) => fails_with(p, given),
            Ok(_) => gives(p, ()),
        },
    }
}

impl PathJob {
    fn begin(path: &str, op: u64) -> (p: Progress<PathJob, ()>)
        ensures
            calls_for(p, path@, ask_info(path@)),
            p matches Progress::Call(state, _) ==> state.path@ == path@ && state.op == op
                && state.stage == PathStage::Probe,
    {
        match AfcClient::try_exists_request(path) {
            Ok(request) => Progress::Call(
                PathJob { path: path.to_owned(), op, stage: PathStage::Probe },
                request,
            ),
            Err(failure) => Progress::Done(Err(failure)),
        }
    }

    /// What follows the answer to the last call.
    pub fn next(self, reply: Result<Vec<u8>, Failure>) -> (p: Progress<PathJob, ()>)
        ensures
            job_goes(p, self, reply),
    {
        match self.stage {
            PathStage::Probe => {
                let found: Result<bool, Failure> = AfcClient::try_exists(reply);
                assert(is_existence(reply, found));
                match found {
                    Err(failure) => Progress::Done(Err(failure)),
                    Ok(there) => if (self.op == 9) != there {
                        match path_arg(self.path.as_str()) {
                            Ok(arg) => {
                                let request = simple_request(self.op, arg, 1);
                                Progress::Call(
                                    PathJob {
                                        path: self.path,
                                        op: self.op,
                                        stage: PathStage::Act,
                                    },
                                    request,
                                )
                            },
                            Err(failure) => Progress::Done(Err(failure)),
                        }
                    } else {
                        Progress::Done(Ok(()))
                    },
                }
            },
            PathStage::Act => match reply {
                Err(failure) => Progress::Done(Err(failure)),
                Ok(_) => Progress::Done(Ok(())),
            },
        }
    }
}

/// The parts that are not empty.
pub open spec fn named(parts: Seq<Seq<char>>) -> Seq<Seq<char>>
    decreases parts.len(),
{
    if parts.len() == 0 {
        Seq::empty()
    } else if parts.last().len() == 0 {
        named(parts.drop_last())
    } else {
        named(parts.drop_last()).push(parts.last())
    }
}

/// The path made of the first `n` parts.
pub open spec fn path_of(parts: Seq<Seq<char>>, n: int) -> Seq<char>
    decreases n,
{
    if n <= 0 {
        Seq::empty()
    } else if n == 1 {
        parts[0]
    } else {
        path_of(parts, n - 1).push('/') + parts[n - 1]
    }
}

/// Directories that are being made one inside the other.
pub struct MakeDirectories {
    /// The names on the way.
    pub parts: Vec<String>,
    /// How many of them are made or being made.
    pub reached: usize,
    /// The directory that is being made.
    pub job: PathJob,
}

/// The directory behind the first `n` parts comes next, or everything is made.
pub open spec fn makes(p: Progress<MakeDirectories, ()>, parts: Seq<Seq<char>>, n: int) -> bool {
    if n >= parts.len() {
        gives(p, ())
    } else if parts[n] == "."@ || parts[n] == ".."@ {
        fails_saying(p, "Invalid AFC directory component"@)
    } else {
        &&& calls_for(p, path_of(parts, n + 1), ask_info(path_of(parts, n + 1)))
        &&& p matches Progress::Call(state, _) ==> state.wf() && texts(state.parts@) == parts
            && state.reached == n + 1 && state.job.stage == PathStage::Probe
    }
}

fn named_parts(path: &str) -> (parts: Vec<String>)
    ensures
        texts(parts@) == named(split(path@, '/')),
{
    let all: Vec<String> = split_text(path, '/');
    let ghost pieces = texts(all@);
    let mut parts: Vec<String> = Vec::new();
    let mut i: usize = 0;
    assert(pieces.take(0) =~= Seq::<Seq<char>>::empty());
    assert(texts(parts@) =~= Seq::<Seq<char>>::empty());
    while i < all.len()
        invariant
            pieces == texts(all@),
            i <= all@.len(),
            texts(parts@) == named(pieces.take(i as int)),
        decreases all@.len() - i,
    {
        let ghost before = texts(parts@);
        assert(pieces.take(i + 1).drop_last() =~= pieces.take(i as int));
        assert(pieces.take(i + 1).last() == all@[i as int]@);
        proof {
            reveal_strlit("");
            if all@[i as int]@.len() == 0 {
                assert(all@[i as int]@ =~= ""@);
            }
        }
        if !same_text(all[i].as_str(), "") {
            parts.push(all[i].clone());
            assert(texts(parts@) =~= before.push(all@[i as int]@));
        }
        i = i + 1;
    }
    assert(pieces.take(i as int) =~= pieces);
    parts
}

/// How the making of directories goes on after the answer to its last call.
pub open spec fn make_goes(
    p: Progress<MakeDirectories, ()>,
    job: MakeDirectories,
    reply: Result<Vec<u8>, Failure>,
) -> bool {
    exists|inner: Progress<PathJob, ()>|
        #[trigger] job_goes(inner, job.job, reply) && match inner {
            Progress::Call(next, request) => p matches Progress::Call(state, same) && state.wf()
                && state.parts == job.parts && state.reached == job.reached && state.job
                == next && same == request,
            Progress::Done(Err(given)) => fails_with(p, given),
            Progress::Done(Ok(())) => makes(
                p,
                texts(job.parts@),
                job.reached as int,
            ),
        }
}

impl MakeDirectories {
    /// The directory that is being made is the one behind the names reached.
    pub open spec fn wf(self) -> bool {
        &&& 1 <= self.reached <= self.parts@.len()
        &&& self.job.path@ == path_of(texts(self.parts@), self.reached as int)
        &&& self.job.op == 9
    }

    fn make_on(parts: Vec<String>, n: usize, so_far: String) -> (p: Progress<MakeDirectories, ()>)
        requires
            n <= parts@.len(),
            so_far@ == path_of(texts(parts@), n as int),
        ensures
            makes(p, texts(parts@), n as int),
    {
        let ghost all = texts(parts@);
        if n == parts.len() {
            return Progress::Done(Ok(()));
        }
        assert(all[n as int] == parts@[n as int]@);
        if same_text(parts[n].as_str(), ".") || same_text(parts[n].as_str(), "..") {
            return Progress::Done(Err(Failure::said("Invalid AFC directory component")));
        }
        let mut current: String = so_far;
        if n > 0 {
            current.push('/');
        }
        current.append(parts[n].as_str());
        assert(current@ =~= path_of(all, n + 1));
        match PathJob::begin(current.as_str(), 9) {
            Progress::Call(job, request) => Progress::Call(
                MakeDirectories { parts, reached: n + 1, job },
                request,
            ),
            Progress::Done(result) => Progress::Done(result),
        }
    }

    /// What follows the answer to the last call: the same directory, the next one
    /// inside it, or the end.
    pub fn next(self, reply: Result<Vec<u8>, Failure>) -> (p: Progress<MakeDirectories, ()>)
        requires
            self.wf(),
        ensures
            make_goes(p, self, reply),
    {
        let ghost job = self.job;
        let so_far: String = self.job.path.clone();
        let inner: Progress<PathJob, ()> = self.job.next(reply);
        assert(job_goes(inner, job, reply));
        match inner {
            Progress::Call(job, request) => Progress::Call(
                MakeDirectories { parts: self.parts, reached: self.reached, job },
                request,
            ),
            Progress::Done(Err(failure)) => Progress::Done(Err(failure)),
            Progress::Done(Ok(())) => MakeDirectories::make_on(self.parts, self.reached, so_far),
        }
    }
}

impl AfcClient {
    /// Begins to make a directory, unless it is there.
    pub fn make_directory(path: &str) -> (p: Progress<PathJob, ()>)
        ensures
            calls_for(p, path@, ask_info(path@)),
            p matches Progress::Call(state, _) ==> state.path@ == path@ && state.op == 9
                && state.stage == PathStage::Probe,
    {
        PathJob::begin(path, 9)
    }

    /// Begins to remove a path, if it is there.
    pub fn remove_path(path: &str) -> (p: Progress<PathJob, ()>)
        ensures
            calls_for(p, path@, ask_info(path@)),
            p matches Progress::Call(state, _) ==> state.path@ == path@ && state.op == 8
                && state.stage == PathStage::Probe,
    {
        PathJob::begin(path, 8)
    }

    /// Begins to make the directories on a path, the outermost first.
    pub fn make_directory_recursive(path: &str) -> (p: Progress<MakeDirectories, ()>)
        ensures
            makes(p, named(split(path@, '/')), 0),
    {
        let parts: Vec<String> = named_parts(path);
        let none: String = String::new();
        assert(none@ =~= Seq::<char>::empty());
        MakeDirectories::make_on(parts, 0, none)
    }

    /// Begins to clear a staging directory with everything in it. Any other path
    /// is refused.
    pub fn remove_tree(path: &str) -> (p: Progress<RemoveTree, ()>)
        ensures
            if !is_staging(path@) {
                fails_saying(p, "Cleanup must target an app staging directory"@)
            } else {
                &&& calls_for(p, path@, ask_info(path@))
                &&& p matches Progress::Call(state, _) ==> state.wf() && state.stage
                    == TreeStage::Probe && frame_views(state.frames@) == seq![fresh(path@)]
            },
    {
        if !begins_with(path, SOURCE_PREFIX) || contains_text(path, "/") || contains_text(path, "\\") {
            return Progress::Done(
                Err(Failure::said("Cleanup must target an app staging directory")),
            );
        }
        match AfcClient::try_exists_request(path) {
            Ok(request) => {
                let nobody: Vec<String> = Vec::new();
                assert(texts(nobody@) =~= Seq::<Seq<char>>::empty());
                let frames: Vec<Frame> = vec![
                    Frame { path: path.to_owned(), names: nobody, next: 0 },
                ];
                assert(frame_views(frames@) =~= seq![fresh(path@)]);
                Progress::Call(RemoveTree { frames, stage: TreeStage::Probe }, request)
            },
            Err(failure) => Progress::Done(Err(failure)),
        }
    }
}

/// A name in the staging area: one component that begins with its prefix.
pub open spec fn is_staging(path: Seq<char>) -> bool {
    SOURCE_PREFIX@.is_prefix_of(path) && !occurs("/"@, path) && !occurs("\\"@, path)
}

/// A directory that is being cleared, or a path that is about to be removed.
pub struct Frame {
    /// The path.
    pub path: String,
    /// The names in it.
    pub names: Vec<String>,
    /// How many of them were taken up.
    pub next: usize,
}

/// What a frame holds.
pub ghost struct FrameView {
    pub path: Seq<char>,
    pub names: Seq<Seq<char>>,
    pub next: int,
}

impl View for Frame {
    type V = FrameView;

    open spec fn view(&self) -> FrameView {
        FrameView { path: self.path@, names: texts(self.names@), next: self.next as int }
    }
}

/// A frame of which nothing is known yet.
pub open spec fn fresh(path: Seq<char>) -> FrameView {
    FrameView { path, names: Seq::empty(), next: 0 }
}

/// What a run of frames holds.
pub open spec fn frame_views(frames: Seq<Frame>) -> Seq<FrameView> {
    Seq::new(frames.len(), |i: int| frames[i]@)
}

/// Where a cleanup stands with the innermost path.
#[derive(Debug, Clone, Copy, PartialEq, Eq, Structural)]
pub enum TreeStage {
    /// Whether it exists is being asked.
    Probe,
    /// What it is is being asked.
    Look,
    /// Its contents are being listed.
    List,
    /// Whether it still exists is being asked.
    Check,
    /// It is being removed.
    Remove,
}

/// A staging directory that is being cleared: the way from it to the innermost
/// path at work.
pub struct RemoveTree {
    pub frames: Vec<Frame>,
    pub stage: TreeStage,
}

/// The path of a name in a directory.
pub open spec fn inside(path: Seq<char>, name: Seq<char>) -> Seq<char> {
    path + "/"@ + name
}

/// A name that leads out of its directory.
pub open spec fn is_foreign(name: Seq<char>) -> bool {
    occurs("/"@, name) || occurs("\\"@, name)
}

/// Every frame is a name in the directory of the frame before it; the first is a
/// staging directory; there are not too many.
pub open spec fn is_way(frames: Seq<FrameView>) -> bool {
    &&& 1 <= frames.len() <= DEPTH_LIMIT + 1
    &&& is_staging(frames[0].path)
    &&& forall|i: int| 0 <= i < frames.len() ==> 0 <= (#[trigger] frames[i]).next <= frames[i].names.len()
    &&& forall|i: int| 0 < i < frames.len() ==> #[trigger] is_linked(frames, i)
}

/// Frame `i` is the last name that was taken up in the directory before it.
pub open spec fn is_linked(frames: Seq<FrameView>, i: int) -> bool {
    let before = frames[i - 1];
    &&& before.next >= 1
    &&& frames[i].path == inside(before.path, before.names[before.next - 1])
    &&& !is_foreign(before.names[before.next - 1])
}

proof fn way_left(frames: Seq<FrameView>)
    requires
        is_way(frames),
        frames.len() > 1,
    ensures
        is_way(frames.drop_last()),
{
    let now = frames.drop_last();
    assert forall|i: int| 0 <= i < now.len() implies 0 <= (#[trigger] now[i]).next
        <= now[i].names.len() by {
        assert(frames[i] == now[i]);
    }
    assert forall|i: int| 0 < i < now.len() implies #[trigger] is_linked(now, i) by {
        assert(is_linked(frames, i));
    }
}

proof fn way_listed(frames: Seq<FrameView>, names: Seq<Seq<char>>)
    requires
        is_way(frames),
    ensures
        is_way(
            frames.update(
                frames.len() - 1,
                FrameView { path: frames.last().path, names, next: 0 },
            ),
        ),
{
    let now = frames.update(
        frames.len() - 1,
        FrameView { path: frames.last().path, names, next: 0 },
    );
    assert forall|i: int| 0 <= i < now.len() implies 0 <= (#[trigger] now[i]).next
        <= now[i].names.len() by {
        if i < frames.len() - 1 {
            assert(frames[i] == now[i]);
        }
    }
    assert forall|i: int| 0 < i < now.len() implies #[trigger] is_linked(now, i) by {
        assert(is_linked(frames, i));
    }
}

proof fn way_entered(frames: Seq<FrameView>)
    requires
        is_way(frames),
        frames.len() <= DEPTH_LIMIT,
        frames.last().next < frames.last().names.len(),
        !is_foreign(frames.last().names[frames.last().next]),
    ensures
        is_way(
            frames.update(
                frames.len() - 1,
                FrameView { next: frames.last().next + 1, ..frames.last() },
            ).push(fresh(inside(frames.last().path, frames.last().names[frames.last().next]))),
        ),
{
    let top = frames.last();
    let path = inside(top.path, top.names[top.next]);
    let last = frames.len() - 1;
    assert(0 <= frames[last].next);
    let now = frames.update(last, FrameView { next: top.next + 1, ..top }).push(fresh(path));
    assert forall|i: int| 0 <= i < now.len() implies 0 <= (#[trigger] now[i]).next
        <= now[i].names.len() by {
        if i < last {
            assert(frames[i] == now[i]);
        }
    }
    assert forall|i: int| 0 < i < now.len() implies #[trigger] is_linked(now, i) by {
        if i <= last {
            assert(is_linked(frames, i));
        }
    }
}

/// How a cleanup goes on when nothing is pending for the innermost path: with its
/// next name, with its own removal, or with the directory around it.
pub open spec fn clears(p: Progress<RemoveTree, ()>, frames: Seq<FrameView>) -> bool {
    if frames.len() == 0 {
        gives(p, ())
    } else {
        let top = frames.last();
        if top.next < top.names.len() {
            let name = top.names[top.next];
            let path = inside(top.path, name);
            if is_foreign(name) {
                fails_saying(p, "Invalid AFC child name"@)
            } else if frames.len() > DEPTH_LIMIT {
                fails_saying(p, "AFC cleanup nesting limit"@)
            } else {
                &&& calls_for(p, path, ask_info(path))
                &&& p matches Progress::Call(state, _) ==> state.wf() && state.stage
                    == TreeStage::Probe && frame_views(state.frames@) == frames.update(
                    frames.len() - 1,
                    FrameView { next: top.next + 1, ..top },
                ).push(fresh(path))
            }
        } else {
            &&& calls_for(p, top.path, ask_info(top.path))
            &&& p matches Progress::Call(state, _) ==> state.wf() && state.stage
                == TreeStage::Check && frame_views(state.frames@) == frames
        }
    }
}

/// The call for the innermost path; only the stage changes.
pub open spec fn stays(
    p: Progress<RemoveTree, ()>,
    frames: Seq<FrameView>,
    call: Ask,
    stage: TreeStage,
) -> bool {
    &&& calls_for(p, frames.last().path, call)
    &&& p matches Progress::Call(state, _) ==> state.wf() && state.stage == stage && frame_views(
        state.frames@,
    ) == frames
}

/// What follows the answer about what the innermost path is.
pub open spec fn looked(
    p: Progress<RemoveTree, ()>,
    frames: Seq<FrameView>,
    reply: Result<Vec<u8>, Failure>,
) -> bool {
    match reply {
        Err(given) => fails_with(p, given),
        Ok(data) => match file_info(data@) {
            FileInfo::Odd => fails_saying(p, "Malformed AFC file information"@),
            FileInfo::NotText => p matches Progress::Done(Err(failure)) && failure is Utf8,
            FileInfo::Pairs(pairs) => if info_value(pairs, "st_ifmt"@) == Some("S_IFDIR"@) {
                stays(
                    p,
                    frames,
                    ask(3, path_bytes(frames.last().path), 2),
                    TreeStage::List,
                )
            } else {
                clears(p, frames)
            },
        },
    }
}

/// What follows the list of the innermost directory.
pub open spec fn listed(
    p: Progress<RemoveTree, ()>,
    frames: Seq<FrameView>,
    reply: Result<Vec<u8>, Failure>,
) -> bool {
    match reply {
        Err(given) => fails_with(p, given),
        Ok(data) => match children(fields(data@)) {
            None => p matches Progress::Done(Err(failure)) && failure is Utf8,
            Some(names) => clears(
                p,
                frames.update(
                    frames.len() - 1,
                    FrameView { path: frames.last().path, names, next: 0 },
                ),
            ),
        },
    }
}

/// What follows the answer about the existence of the innermost path.
pub open spec fn found_out(
    p: Progress<RemoveTree, ()>,
    frames: Seq<FrameView>,
    reply: Result<Vec<u8>, Failure>,
    call: Ask,
    stage: TreeStage,
) -> bool {
    exists|found: Result<bool, Failure>|
        #[trigger] is_existence(reply, found) && match found {
            Err(given) => fails_with(p, given),
            Ok(true) => stays(p, frames, call, stage),
            Ok(false) => clears(p, frames.drop_last()),
        }
}

impl RemoveTree {
    /// The frames lead from a staging directory inwards.
    pub open spec fn wf(self) -> bool {
        is_way(frame_views(self.frames@))
    }

    fn clear_on(frames: Vec<Frame>) -> (p: Progress<RemoveTree, ()>)
        requires
            frames@.len() > 0 ==> is_way(frame_views(frames@)),
        ensures
            clears(p, frame_views(frames@)),
    {
        let ghost all = frame_views(frames@);
        if frames.len() == 0 {
            return Progress::Done(Ok(()));
        }
        let last: usize = frames.len() - 1;
        assert(all[last as int] == frames@[last as int]@);
        if frames[last].next < frames[last].names.len() {
            let mut frames: Vec<Frame> = frames;
            let mut top: Frame = match frames.pop() {
                Some(top) => top,
                None => return Progress::Done(Ok(())),
            };
            let ghost before = top@;
            let name: String = top.names[top.next].clone();
            assert(name@ == before.names[before.next]);
            if contains_text(name.as_str(), "/") || contains_text(name.as_str(), "\\") {
                return Progress::Done(Err(Failure::said("Invalid AFC child name")));
            }
            if last >= DEPTH_LIMIT {
                return Progress::Done(Err(Failure::said("AFC cleanup nesting limit")));
            }
            let path: String = top.path.clone().concat("/").concat(name.as_str());
            match AfcClient::try_exists_request(path.as_str()) {
                Ok(request) => {
                    top.next = top.next + 1;
                    frames.push(top);
                    let nobody: Vec<String> = Vec::new();
                    assert(texts(nobody@) =~= Seq::<Seq<char>>::empty());
                    frames.push(Frame { path, names: nobody, next: 0 });
                    proof {
                        way_entered(all);
                        assert(frame_views(frames@) =~= all.update(
                            last as int,
                            FrameView { next: before.next + 1, ..before },
                        ).push(fresh(path@)));
                    }
                    Progress::Call(RemoveTree { frames, stage: TreeStage::Probe }, request)
                },
                Err(failure) => Progress::Done(Err(failure)),
            }
        } else {
            match AfcClient::try_exists_request(frames[last].path.as_str()) {
                Ok(request) => Progress::Call(
                    RemoveTree { frames, stage: TreeStage::Check },
                    request,
                ),
                Err(failure) => Progress::Done(Err(failure)),
            }
        }
    }

    fn leave(self) -> (p: Progress<RemoveTree, ()>)
        requires
            self.wf(),
        ensures
            clears(p, frame_views(self.frames@).drop_last()),
    {
        let ghost all = frame_views(self.frames@);
        let mut frames: Vec<Frame> = self.frames;
        let _top = frames.pop();
        proof {
            assert(frame_views(frames@) =~= all.drop_last());
            if all.len() > 1 {
                way_left(all);
            }
        }
        RemoveTree::clear_on(frames)
    }

    fn ask_about_top(self, op: u64, expected: u64, stage: TreeStage) -> (p: Progress<RemoveTree, ()>)
        requires
            self.wf(),
        ensures
            stays(
                p,
                frame_views(self.frames@),
                ask(op, path_bytes(frame_views(self.frames@).last().path), expected),
                stage,
            ),
    {
        let last: usize = self.frames.len() - 1;
        assert(frame_views(self.frames@).last() == self.frames@[last as int]@);
        match path_arg(self.frames[last].path.as_str()) {
            Ok(arg) => {
                let request = simple_request(op, arg, expected);
                Progress::Call(RemoveTree { frames: self.frames, stage }, request)
            },
            Err(failure) => Progress::Done(Err(failure)),
        }
    }

    fn look(self, reply: Result<Vec<u8>, Failure>) -> (p: Progress<RemoveTree, ()>)
        requires
            self.wf(),
        ensures
            looked(p, frame_views(self.frames@), reply),
    {
        let data: Vec<u8> = match reply {
            Ok(data) => data,
            Err(failure) => return Progress::Done(Err(failure)),
        };
        let info: Info = match parse_info(data.as_slice()) {
            Ok(info) => info,
            Err(failure) => return Progress::Done(Err(failure)),
        };
        match info.get("st_ifmt") {
            Some(kind) => if same_text(kind.as_str(), "S_IFDIR") {
                self.ask_about_top(3, 2, TreeStage::List)
            } else {
                RemoveTree::clear_on(self.frames)
            },
            None => RemoveTree::clear_on(self.frames),
        }
    }

    fn list(self, reply: Result<Vec<u8>, Failure>) -> (p: Progress<RemoveTree, ()>)
        requires
            self.wf(),
        ensures
            listed(p, frame_views(self.frames@), reply),
    {
        let ghost all = frame_views(self.frames@);
        let data: Vec<u8> = match reply {
            Ok(data) => data,
            Err(failure) => return Progress::Done(Err(failure)),
        };
        let names: Vec<String> = match AfcClient::list_directory(data.as_slice()) {
            Ok(names) => names,
            Err(failure) => return Progress::Done(Err(failure)),
        };
        let mut frames: Vec<Frame> = self.frames;
        match frames.pop() {
            Some(top) => {
                assert(all.last() == top@);
                frames.push(Frame { path: top.path, names, next: 0 });
            },
            None => {},
        }
        proof {
            way_listed(all, texts(names@));
            assert(frame_views(frames@) =~= all.update(
                all.len() - 1,
                FrameView { path: all.last().path, names: texts(names@), next: 0 },
            ));
        }
        RemoveTree::clear_on(frames)
    }

    /// What follows the answer to the last call.
    pub fn next(self, reply: Result<Vec<u8>, Failure>) -> (p: Progress<RemoveTree, ()>)
        requires
            self.wf(),
        ensures
            ({
                let frames = frame_views(self.frames@);
                let path = frames.last().path;
                match self.stage {
                    TreeStage::Probe => found_out(p, frames, reply, ask_info(path), TreeStage::Look),
                    TreeStage::Look => looked(p, frames, reply),
                    TreeStage::List => listed(p, frames, reply),
                    TreeStage::Check => found_out(
                        p,
                        frames,
                        reply,
                        ask(8, path_bytes(path), 1),
                        TreeStage::Remove,
                    ),
                    TreeStage::Remove => match reply {
                        Err(given) => fails_with(p, given),
                        Ok(_) => clears(p, frames.drop_last()),
                    },
                }
            }),
    {
        match self.stage {
            TreeStage::Probe => {
                let found: Result<bool, Failure> = AfcClient::try_exists(reply);
                assert(is_existence(reply, found));
                match found {
                    Err(failure) => Progress::Done(Err(failure)),
                    Ok(true) => self.ask_about_top(10, 2, TreeStage::Look),
                    Ok(false) => self.leave(),
                }
            },
            TreeStage::Look => self.look(reply),
            TreeStage::List => self.list(reply),
            TreeStage::Check => {
                let found: Result<bool, Failure> = AfcClient::try_exists(reply);
                assert(is_existence(reply, found));
                match found {
                    Err(failure) => Progress::Done(Err(failure)),
                    Ok(true) => self.ask_about_top(8, 1, TreeStage::Remove),
                    Ok(false) => self.leave(),
                }
            },
            TreeStage::Remove => match reply {
                Err(failure) => Progress::Done(Err(failure)),
                Ok(_) => self.leave(),
            },
        }
    }
}

/// The path is the directory or lies in it.
pub open spec fn lies_in(root: Seq<char>, path: Seq<char>) -> bool {
    path == root || (root + "/"@).is_prefix_of(path)
}

/// A cleanup never leaves its staging directory: the path at work is the staging
/// directory itself or lies in it, and so does every path on the way.
pub proof fn cleanup_stays_inside(frames: Seq<FrameView>, i: int)
    requires
        is_way(frames),
        0 <= i < frames.len(),
    ensures
        is_staging(frames[0].path),
        lies_in(frames[0].path, frames[i].path),
    decreases i,
{
    if i > 0 {
        let root = frames[0].path;
        let before = frames[i - 1].path;
        let name = frames[i - 1].names[frames[i - 1].next - 1];
        cleanup_stays_inside(frames, i - 1);
        assert(is_linked(frames, i));
        let start = root + "/"@;
        if before == root {
            assert(start =~= frames[i].path.take(start.len() as int));
        } else {
            assert(start =~= before.take(start.len() as int));
            assert(start =~= frames[i].path.take(start.len() as int));
        }
    }
}

/// A directory is made exactly where the phone says that it is not there, and a path
/// is removed exactly where the phone says that it is; otherwise there is nothing to
/// do. What is made or removed is the path itself.
pub proof fn only_what_is_needed_is_done(
    job: PathJob,
    reply: Result<Vec<u8>, Failure>,
    p: Progress<PathJob, ()>,
)
    requires
        call_ensures(PathJob::next, (job, reply), p),
        job.op == 9 || job.op == 8,
        !has_nul(job.path@),
    ensures
        ({
            let absent = reply matches Err(Failure::Status(8));
            let there = reply matches Ok(data) && file_info(data@) is Pairs;
            let acting = p matches Progress::Call(next, request) && request.op == job.op
                && request.args@ == encode_utf8(job.path@).push(0) && request.payload@.len() == 0
                && request.expected == 1 && next.stage == PathStage::Act && next.path@ == job.path@
                && next.op == job.op;
            let done = p matches Progress::Done(Ok(()));
            &&& job.stage == PathStage::Probe && absent ==> if job.op == 9 {
                acting
            } else {
                done
            }
            &&& job.stage == PathStage::Probe && there ==> if job.op == 9 {
                done
            } else {
                acting
            }
            &&& job.stage == PathStage::Probe && !absent && !there ==> (p matches Progress::Done(
                Err(_),
            ))
            &&& job.stage == PathStage::Act && reply is Ok ==> done
            &&& job.stage == PathStage::Act && reply is Err ==> (p matches Progress::Done(Err(_)))
        }),
{
    if let Progress::Call(next, request) = p {
        assert(request@.args == request.args@ && request@.payload == request.payload@);
    }
}

/// The names on a path are its parts that are not empty, in order.
pub proof fn empty_parts_name_nothing(parts: Seq<Seq<char>>)
    ensures
        named(parts) == parts.filter(|p: Seq<char>| p.len() > 0),
    decreases parts.len(),
{
    reveal(Seq::filter);
    if parts.len() > 0 {
        empty_parts_name_nothing(parts.drop_last());
    }
}

/// The path behind some parts is those parts with a slash between them.
pub proof fn paths_are_joined_by_slashes(parts: Seq<Seq<char>>, n: int)
    requires
        0 <= n <= parts.len(),
    ensures
        path_of(parts, n) == joined_by(parts.take(n), seq!['/']),
    decreases n,
{
    if n == 1 {
        assert(parts.take(1)[0] == parts[0]);
    } else if n > 1 {
        paths_are_joined_by_slashes(parts, n - 1);
        assert(parts.take(n).drop_last() =~= parts.take(n - 1));
        assert(path_of(parts, n) =~= joined_by(parts.take(n), seq!['/']));
    }
}

/// The directories on a path are made from the outermost on, each once the one around
/// it is there, and the work is done only once the last one is there. A name that
/// leads nowhere is refused.
pub proof fn every_directory_is_made_in_turn(
    job: MakeDirectories,
    reply: Result<Vec<u8>, Failure>,
    p: Progress<MakeDirectories, ()>,
)
    requires
        job.wf(),
        call_ensures(MakeDirectories::next, (job, reply), p),
    ensures
        ({
            let parts = texts(job.parts@);
            let n = job.reached as int;
            let at_hand = joined_by(parts.take(n), seq!['/']);
            let there = (job.job.stage == PathStage::Probe && (reply matches Ok(data) && file_info(
                data@,
            ) is Pairs)) || (job.job.stage == PathStage::Act && reply is Ok);
            let path = joined_by(parts.take(n + 1), seq!['/']);
            &&& there && n == parts.len() ==> (p matches Progress::Done(Ok(())))
            &&& there && n < parts.len() && (parts[n] == "."@ || parts[n] == ".."@) ==> (
            p matches Progress::Done(Err(_)))
            &&& there && n < parts.len() && parts[n] != "."@ && parts[n] != ".."@ && !has_nul(path)
                ==> (p matches Progress::Call(next, request) && request@ == ask_info(path)
                && next.reached == n + 1 && texts(next.parts@) == parts && next.job.stage
                == PathStage::Probe)
            &&& job.job.stage == PathStage::Probe && (reply matches Err(Failure::Status(8)))
                && !has_nul(at_hand) ==> (p matches Progress::Call(next, request) && request.op == 9
                && request.args@ == encode_utf8(at_hand).push(0) && next.reached == n
                && next.job.stage == PathStage::Act && next.parts == job.parts)
            &&& (p matches Progress::Done(Ok(()))) ==> there && n == parts.len()
        }),
{
    let parts = texts(job.parts@);
    let n = job.reached as int;
    paths_are_joined_by_slashes(parts, n);
    if n < parts.len() {
        paths_are_joined_by_slashes(parts, n + 1);
    }
    if let Progress::Call(next, request) = p {
        assert(request@.args == request.args@);
    }
    let inner = choose|inner: Progress<PathJob, ()>|
        #[trigger] job_goes(inner, job.job, reply) && match inner {
            Progress::Call(next, request) => p matches Progress::Call(state, same) && state.wf()
                && state.parts == job.parts && state.reached == job.reached && state.job == next
                && same == request,
            Progress::Done(Err(given)) => fails_with(p, given),
            Progress::Done(Ok(())) => makes(p, texts(job.parts@), job.reached as int),
        };
    if let Progress::Call(next, request) = inner {
        assert(request@.args == request.args@);
    }
}

/// Only the name of a staging directory begins a cleanup: one that begins with
/// `airlift-src-` and holds no slash of either kind.
pub proof fn only_staging_directories_are_cleared(path: &str, p: Progress<RemoveTree, ()>)
    requires
        call_ensures(AfcClient::remove_tree, (path,), p),
    ensures
        p is Call ==> "airlift-src-"@.is_prefix_of(path@) && !path@.contains('/') && !path@.contains(
            '\\',
        ),
        "airlift-src-"@.is_prefix_of(path@) && !path@.contains('/') && !path@.contains('\\')
            && !has_nul(path@) ==> (p matches Progress::Call(state, request) && request@ == ask_info(
            path@,
        ) && state.frames@.len() == 1 && state.frames@[0].path@ == path@),
{
    reveal_strlit("/");
    reveal_strlit("\\");
    assert("/"@ =~= seq!['/']);
    assert("\\"@ =~= seq!['\\']);
    one_character(path@, "/"@, '/');
    one_character(path@, "\\"@, '\\');
    if let Progress::Call(state, request) = p {
        assert(frame_views(state.frames@)[0] == fresh(path@));
        assert(state.frames@[0]@ == fresh(path@));
    }
}

proof fn one_character(s: Seq<char>, text: Seq<char>, c: char)
    requires
        text == seq![c],
    ensures
        occurs(text, s) <==> s.contains(c),
{
    if occurs(text, s) {
        let at = choose|at: int| occurs_at(text, s, at);
        assert(s.subrange(at, at + 1)[0] == c);
        assert(s[at] == c);
    }
    if s.contains(c) {
        let at = choose|at: int| 0 <= at < s.len() && s[at] == c;
        assert(s.subrange(at, at + 1) =~= text);
        assert(occurs_at(text, s, at));
    }
}

/// A cleanup goes from the inside out: a directory is listed, every name in it is taken
/// up in turn, and only then is the directory itself removed. It is done only once the
/// staging directory is gone.
pub proof fn cleanup_is_from_the_inside_out(
    job: RemoveTree,
    reply: Result<Vec<u8>, Failure>,
    p: Progress<RemoveTree, ()>,
)
    requires
        job.wf(),
        call_ensures(RemoveTree::next, (job, reply), p),
    ensures
        ({
            let frames = frame_views(job.frames@);
            let top = frames.last();
            let gone = (job.stage == TreeStage::Remove && reply is Ok) || ((job.stage
                == TreeStage::Probe || job.stage == TreeStage::Check) && (reply matches Err(
                Failure::Status(8),
            )));
            &&& (p matches Progress::Done(Ok(()))) ==> gone && frames.len() == 1
            &&& gone && frames.len() == 1 ==> (p matches Progress::Done(Ok(())))
            &&& p matches Progress::Call(next, request) ==> (next.stage == TreeStage::Check ==> ({
                let now = frame_views(next.frames@).last();
                now.next >= now.names.len() && request@ == ask_info(now.path)
            }))
            &&& p matches Progress::Call(next, request) ==> (next.stage == TreeStage::Remove ==> ({
                &&& job.stage == TreeStage::Check
                &&& reply is Ok
                &&& frame_views(next.frames@) == frames
                &&& request.op == 8
                &&& request.args@ == encode_utf8(top.path).push(0)
            }))
            &&& p matches Progress::Call(next, request) ==> (next.stage == TreeStage::Probe ==> ({
                let now = frame_views(next.frames@);
                let around = now[now.len() - 2];
                &&& now.len() >= 2
                &&& around.next >= 1
                &&& now.last().path == around.path + seq!['/'] + around.names[around.next - 1]
                &&& request@ == ask_info(now.last().path)
            }))
            &&& p matches Progress::Call(next, request) ==> (next.stage == TreeStage::List ==> ({
                &&& job.stage == TreeStage::Look
                &&& request.op == 3
                &&& request.args@ == encode_utf8(top.path).push(0)
            }))
        }),
{
    reveal_strlit("/");
    let frames = frame_views(job.frames@);
    let top = frames.last();
    assert("/"@ =~= seq!['/']);
    if let Progress::Call(next, request) = p {
        assert(request@.args == request.args@);
    }
    assert(frames.drop_last().len() == frames.len() - 1);
}

/// Of a directory that was listed, the first name is taken up, as it is, and nothing
/// is removed before; after a path is gone, the next name in the directory around it
/// is taken up, or the directory itself comes up.
pub proof fn names_are_taken_up_in_turn(
    job: RemoveTree,
    reply: Result<Vec<u8>, Failure>,
    p: Progress<RemoveTree, ()>,
)
    requires
        job.wf(),
        call_ensures(RemoveTree::next, (job, reply), p),
    ensures
        ({
            let frames = frame_views(job.frames@);
            let top = frames.last();
            &&& job.stage == TreeStage::List && (reply matches Ok(data) && children(fields(data@))
                matches Some(names) && names.len() > 0 && frames.len() <= 32 && !is_foreign(names[0])
                && !has_nul(inside(top.path, names[0]))) ==> (p matches Progress::Call(next, _)
                && next.stage == TreeStage::Probe && frame_views(next.frames@).last() == fresh(
                inside(top.path, children(fields(reply->Ok_0@)).unwrap()[0]),
            ) && frame_views(next.frames@).len() == frames.len() + 1)
            &&& job.stage == TreeStage::List && (reply matches Ok(data) && children(fields(data@))
                matches Some(names) && names.len() == 0) && !has_nul(top.path) ==> (
            p matches Progress::Call(next, _) && next.stage == TreeStage::Check && frame_views(
                next.frames@,
            ).last().path == top.path)
            &&& job.stage == TreeStage::Remove && reply is Ok && frames.len() >= 2 ==> ({
                let around = frames[frames.len() - 2];
                let name = around.names[around.next];
                if around.next < around.names.len() {
                    if is_foreign(name) {
                        p matches Progress::Done(Err(_))
                    } else {
                        !has_nul(inside(around.path, name)) ==> (p matches Progress::Call(next, _)
                            && next.stage == TreeStage::Probe && frame_views(next.frames@).last()
                            == fresh(inside(around.path, name)))
                    }
                } else {
                    !has_nul(around.path) ==> (p matches Progress::Call(next, _) && next.stage
                        == TreeStage::Check && frame_views(next.frames@).last().path == around.path)
                }
            })
            &&& job.stage == TreeStage::Look && (reply matches Ok(data) && file_info(data@) matches
                FileInfo::Pairs(pairs) && info_value(pairs, "st_ifmt"@) == Some("S_IFDIR"@))
                && !has_nul(top.path) ==> (p matches Progress::Call(next, _) && next.stage
                == TreeStage::List && frame_views(next.frames@) == frames)
            &&& job.stage == TreeStage::Look && (reply matches Ok(data) && file_info(data@) matches
                FileInfo::Pairs(pairs) && info_value(pairs, "st_ifmt"@) != Some("S_IFDIR"@))
                && top.next == top.names.len() && !has_nul(top.path) ==> (p matches Progress::Call(
                next,
                _,
            ) && next.stage == TreeStage::Check && frame_views(next.frames@) == frames)
            &&& reply is Err && !(reply matches Err(Failure::Status(8))) ==> (
            p matches Progress::Done(Err(_)))
        }),
{
    let frames = frame_views(job.frames@);
    if frames.len() >= 2 {
        assert(frames.drop_last().last() == frames[frames.len() - 2]);
    }
}

} // verus!
