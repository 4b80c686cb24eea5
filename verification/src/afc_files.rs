//! Operations of the file service that take several calls, one step at a time.
use crate::afc::{
    ask, ask_info, file_info, has_nul, info_value, parse_info, path_arg, path_bytes, simple_request,
    AfcClient, Ask, FileInfo, Info, Progress, Request, CHUNK, FILE_LIMIT,
};
use crate::failure::Failure;
use crate::text::{numeral, parse_numeral, Numeral};
use crate::wire::{
    capacities, copy_bytes, copy_range, le, le_bytes_round_trip, le_len, le_value, le_value_bound,
    push_bytes, push_le, read_le,
};
use vstd::prelude::*;
use vstd::utf8::encode_utf8;

verus! {

broadcast use le_len;

/// The operation is over with the given message.
pub open spec fn fails_saying<S, T>(p: Progress<S, T>, text: Seq<char>) -> bool {
    p matches Progress::Done(Err(failure)) && failure.says(text)
}

/// The operation is over with the given failure.
pub open spec fn fails_with<S, T>(p: Progress<S, T>, given: Failure) -> bool {
    p matches Progress::Done(Err(failure)) && failure == given
}

/// The operation is over and gives `value`.
pub open spec fn gives<S, T>(p: Progress<S, T>, value: T) -> bool {
    p matches Progress::Done(Ok(found)) && found == value
}

/// The operation makes the given call.
pub open spec fn calls<S, T>(p: Progress<S, T>, call: Ask) -> bool {
    p matches Progress::Call(_, request) && request@ == call
}

fn number_arg(n: u64) -> (arg: Vec<u8>)
    ensures
        arg@ == le(n as nat, 8),
{
    let mut arg: Vec<u8> = Vec::new();
    push_le(&mut arg, n, 8);
    assert(arg@ =~= le(n as nat, 8));
    arg
}

/// The call that opens a file; mode 1 reads it, mode 3 replaces it.
pub open spec fn ask_open(path: Seq<char>, mode: u64) -> Ask {
    ask(13, le(mode as nat, 8) + path_bytes(path), 14)
}

/// The call that closes a file.
pub open spec fn ask_close(handle: u64) -> Ask {
    ask(20, le(handle as nat, 8), 1)
}

/// The handle in the answer to an open call, or the failure.
pub open spec fn is_handle(
    reply: Result<Vec<u8>, Failure>,
    path: Seq<char>,
    handle: Result<u64, Failure>,
) -> bool {
    match reply {
        Err(given) => handle matches Err(failure) && failure.under("Open AFC file "@ + path, given),
        Ok(data) => if data@.len() == 8 {
            handle matches Ok(handle) && handle == le_value(data@)
        } else {
            handle matches Err(failure) && failure.says("Invalid AFC file handle"@)
        },
    }
}

fn open_request(path: &str, mode: u64) -> (r: Result<Request, Failure>)
    ensures
        match r {
            Ok(r) => !has_nul(path@) && r@ == ask_open(path@, mode),
            Err(failure) => has_nul(path@) && failure.says("NUL in AFC path"@),
        },
{
    match path_arg(path) {
        Ok(arg) => {
            let mut args: Vec<u8> = number_arg(mode);
            push_bytes(&mut args, arg.as_slice());
            Ok(simple_request(13, args, 14))
        },
        Err(failure) => Err(failure),
    }
}

fn open_handle(reply: Result<Vec<u8>, Failure>, path: &str) -> (handle: Result<u64, Failure>)
    ensures
        is_handle(reply, path@, handle),
{
    match reply {
        Err(failure) => Err(failure.context("Open AFC file ".to_owned().concat(path).as_str())),
        Ok(data) => if data.len() == 8 {
            assert(data@.subrange(0, 8) =~= data@);
            Ok(read_le(data.as_slice(), 0, 8))
        } else {
            Err(Failure::said("Invalid AFC file handle"))
        },
    }
}

/// Where a write stands.
pub enum WriteStage {
    /// The file is being opened.
    Open,
    /// The bytes from `sent` on are being written.
    Write { handle: u64, sent: usize },
    /// The file is being closed, after a failure or not.
    Close { failed: Option<Failure> },
}

/// A file that is being written.
pub struct WriteFile {
    /// The file.
    pub path: String,
    /// Its new contents.
    pub data: Vec<u8>,
    /// How far the write has come.
    pub stage: WriteStage,
}

/// Where the chunk that begins at `from` ends.
pub open spec fn chunk_end(from: int, total: int) -> int {
    if from + CHUNK < total {
        from + CHUNK
    } else {
        total
    }
}

/// The bytes from `from` on are written, or the file is closed where none are
/// left.
pub open spec fn writes_from(
    p: Progress<WriteFile, ()>,
    path: Seq<char>,
    data: Seq<u8>,
    handle: u64,
    from: int,
) -> bool {
    p matches Progress::Call(state, request) && state.path@ == path && state.data@ == data
        && if from < data.len() {
        &&& state.stage matches WriteStage::Write { handle: h, sent }
        &&& h == handle && sent == from
        &&& request@ == (Ask {
            op: 16,
            args: le(handle as nat, 8),
            payload: data.subrange(from, chunk_end(from, data.len() as int)),
            expected: 1,
        })
    } else {
        &&& state.stage matches WriteStage::Close { failed }
        &&& failed is None
        &&& request@ == ask_close(handle)
    }
}

/// The chunks that are written from `from` on.
pub open spec fn chunks(data: Seq<u8>, from: int) -> Seq<Seq<u8>>
    decreases data.len() - from,
{
    if from < 0 || from >= data.len() {
        Seq::empty()
    } else {
        seq![data.subrange(from, chunk_end(from, data.len() as int))] + chunks(
            data,
            chunk_end(from, data.len() as int),
        )
    }
}

/// All the bytes of a run of chunks.
pub open spec fn together(parts: Seq<Seq<u8>>) -> Seq<u8>
    decreases parts.len(),
{
    if parts.len() == 0 {
        Seq::empty()
    } else {
        parts[0] + together(parts.drop_first())
    }
}

/// The chunks that are written make up the whole contents, in order, and none is
/// empty or longer than a call may move.
pub proof fn chunks_make_the_file(data: Seq<u8>, from: int)
    requires
        0 <= from <= data.len(),
    ensures
        together(chunks(data, from)) == data.skip(from),
        forall|i: int|
            0 <= i < chunks(data, from).len() ==> 0 < (#[trigger] chunks(data, from)[i]).len() <= CHUNK,
    decreases data.len() - from,
{
    if from < data.len() {
        let next = chunk_end(from, data.len() as int);
        chunks_make_the_file(data, next);
        let rest = chunks(data, next);
        let all = chunks(data, from);
        assert(all.drop_first() =~= rest);
        assert(all[0] =~= data.subrange(from, next));
        assert(all[0] + data.skip(next) =~= data.skip(from));
        assert forall|i: int| 0 <= i < all.len() implies 0 < (#[trigger] all[i]).len() <= CHUNK by {
            if i > 0 {
                assert(all[i] == rest[i - 1]);
            }
        }
    } else {
        assert(data.skip(from) =~= Seq::<u8>::empty());
    }
}

/// How a write goes on after the answer to its last call.
pub open spec fn write_goes(
    p: Progress<WriteFile, ()>,
    job: WriteFile,
    reply: Result<Vec<u8>, Failure>,
) -> bool {
    match job.stage {
        WriteStage::Open => match reply {
            Err(given) => p matches Progress::Done(Err(failure)) && failure.under(
                "Open AFC file "@ + job.path@,
                given,
            ),
            Ok(data) => if data@.len() == 8 {
                writes_from(p, job.path@, job.data@, le_value(data@) as u64, 0)
            } else {
                fails_saying(p, "Invalid AFC file handle"@)
            },
        },
        WriteStage::Write { handle: h, sent } => match reply {
            Err(given) => p matches Progress::Call(state, request) && state.stage matches WriteStage::Close {
                failed,
            } && failed == Some(given) && request@ == ask_close(h),
            Ok(_) => writes_from(
                p,
                job.path@,
                job.data@,
                h,
                chunk_end(sent as int, job.data@.len() as int),
            ),
        },
        WriteStage::Close { failed } => match (failed, reply) {
            (Some(given), _) => fails_with(p, given),
            (None, Err(given)) => fails_with(p, given),
            (None, Ok(_)) => gives(p, ()),
        },
    }
}

impl WriteFile {
    /// The bytes that were counted as written are part of the contents.
    pub open spec fn wf(self) -> bool {
        self.stage matches WriteStage::Write { handle, sent } ==> sent < self.data@.len()
    }

    fn write_on(path: String, data: Vec<u8>, handle: u64, from: usize) -> (p: Progress<WriteFile, ()>)
        requires
            from <= data@.len(),
        ensures
            writes_from(p, path@, data@, handle, from as int),
            p->Call_0.wf(),
    {
        let args: Vec<u8> = number_arg(handle);
        if from < data.len() {
            let end: usize = if data.len() - from > CHUNK {
                from + CHUNK
            } else {
                data.len()
            };
            let payload: Vec<u8> = copy_range(data.as_slice(), from, end);
            let request = Request { op: 16, args, payload, expected: 1 };
            Progress::Call(
                WriteFile { path, data, stage: WriteStage::Write { handle, sent: from } },
                request,
            )
        } else {
            let request = simple_request(20, args, 1);
            Progress::Call(
                WriteFile { path, data, stage: WriteStage::Close { failed: None } },
                request,
            )
        }
    }

    /// What follows the answer to the last call. A failed write still closes the
    /// file, and is what is reported.
    pub fn next(self, reply: Result<Vec<u8>, Failure>) -> (p: Progress<WriteFile, ()>)
        requires
            self.wf(),
        ensures
            write_goes(p, self, reply),
            p matches Progress::Call(state, _) ==> state.wf(),
    {
        match self.stage {
            WriteStage::Open => match open_handle(reply, self.path.as_str()) {
                Ok(handle) => WriteFile::write_on(self.path, self.data, handle, 0),
                Err(failure) => Progress::Done(Err(failure)),
            },
            WriteStage::Write { handle: h, sent } => match reply {
                Err(failure) => {
                    let request = simple_request(20, number_arg(h), 1);
                    Progress::Call(
                        WriteFile {
                            path: self.path,
                            data: self.data,
                            stage: WriteStage::Close { failed: Some(failure) },
                        },
                        request,
                    )
                },
                Ok(_) => {
                    let end: usize = if self.data.len() - sent > CHUNK {
                        sent + CHUNK
                    } else {
                        self.data.len()
                    };
                    WriteFile::write_on(self.path, self.data, h, end)
                },
            },
            WriteStage::Close { failed } => match failed {
                Some(failure) => Progress::Done(Err(failure)),
                None => match reply {
                    Err(failure) => Progress::Done(Err(failure)),
                    Ok(_) => Progress::Done(Ok(())),
                },
            },
        }
    }
}

/// What a phone holds that adds every payload to the open file, once it has done what
/// the write asked last: the contents as far as they were sent.
pub open spec fn has_received(job: WriteFile, held: Seq<u8>) -> bool {
    match job.stage {
        WriteStage::Open => held.len() == 0,
        WriteStage::Write { handle, sent } => held == job.data@.take(
            chunk_end(sent as int, job.data@.len() as int),
        ),
        WriteStage::Close { failed } => failed is None ==> held == job.data@,
    }
}

/// A write brings the whole file to the phone: while the phone answers and adds every
/// payload to the file, it holds what was sent so far, and it holds all of the contents
/// when the write is done.
pub proof fn a_written_file_is_whole(
    p: Progress<WriteFile, ()>,
    job: WriteFile,
    reply: Vec<u8>,
    held: Seq<u8>,
)
    requires
        job.wf(),
        write_goes(p, job, Ok(reply)),
        has_received(job, held),
    ensures
        p matches Progress::Call(next, request) ==> has_received(next, held + request@.payload)
            && (job.stage is Open || job.stage is Write) && next.data@ == job.data@,
        p matches Progress::Done(Ok(_)) ==> held == job.data@,
{
    let total = job.data@.len() as int;
    match job.stage {
        WriteStage::Open => {
            assert(held =~= job.data@.take(0));
            assert(held + job.data@.subrange(0, chunk_end(0, total)) =~= job.data@.take(
                chunk_end(0, total),
            ));
            if total == 0 {
                assert(held + Seq::<u8>::empty() =~= job.data@);
            }
        },
        WriteStage::Write { handle, sent } => {
            let from = chunk_end(sent as int, total);
            if from < total {
                let to = chunk_end(from, total);
                assert(held + job.data@.subrange(from, to) =~= job.data@.take(to));
            } else {
                assert(held + Seq::<u8>::empty() =~= job.data@);
            }
        },
        WriteStage::Close { failed } => {},
    }
}

/// Where a read stands.
pub enum ReadStage {
    /// The size is being asked for.
    Size,
    /// The file is being opened.
    Open { size: u64 },
    /// The bytes behind `out` are being read.
    Read { size: u64, handle: u64, out: Vec<u8> },
    /// The file is being closed; this is what is reported then.
    Close { result: Result<Vec<u8>, Failure> },
}

/// A file that is being read.
pub struct ReadFile {
    /// The file.
    pub path: String,
    /// How far the read has come.
    pub stage: ReadStage,
}

/// How many bytes the next call asks for.
pub open spec fn wanted(size: int, have: int) -> int {
    if size - have < CHUNK {
        size - have
    } else {
        CHUNK as int
    }
}

/// More is read, or the file is closed where everything was read.
pub open spec fn reads_from(
    p: Progress<ReadFile, Vec<u8>>,
    path: Seq<char>,
    size: u64,
    handle: u64,
    have: Seq<u8>,
) -> bool {
    p matches Progress::Call(state, request) && state.path@ == path && if have.len() < size {
        &&& state.stage matches ReadStage::Read { size: s, handle: h, out }
        &&& s == size && h == handle && out@ == have
        &&& request@ == ask(
            15,
            le(handle as nat, 8) + le(wanted(size as int, have.len() as int) as nat, 8),
            2,
        )
    } else {
        &&& state.stage matches ReadStage::Close { result }
        &&& result matches Ok(out)
        &&& out@ == have
        &&& request@ == ask_close(handle)
    }
}

/// The file is closed because of the given message.
pub open spec fn closes_saying(
    p: Progress<ReadFile, Vec<u8>>,
    handle: u64,
    text: Seq<char>,
) -> bool {
    p matches Progress::Call(state, request) && state.stage matches ReadStage::Close { result }
        && result matches Err(failure) && failure.says(text) && request@ == ask_close(handle)
}

/// What is said of a size that is no number.
pub open spec fn bad_number(n: Numeral) -> Seq<char> {
    match n {
        Numeral::Empty => "cannot parse integer from empty string"@,
        Numeral::NotADigit => "invalid digit found in string"@,
        _ => "number too large to fit in target type"@,
    }
}

/// What follows the answer to the question for the size.
pub open spec fn sized(
    p: Progress<ReadFile, Vec<u8>>,
    path: Seq<char>,
    reply: Result<Vec<u8>, Failure>,
) -> bool {
    match reply {
        Err(given) => fails_with(p, given),
        Ok(data) => match file_info(data@) {
            FileInfo::Odd => fails_saying(p, "Malformed AFC file information"@),
            FileInfo::NotText => p matches Progress::Done(Err(failure)) && failure is Utf8,
            FileInfo::Pairs(pairs) => match info_value(pairs, "st_size"@) {
                None => fails_saying(p, "AFC size missing"@),
                Some(text) => match numeral(text) {
                    Numeral::Number(size) => if size > FILE_LIMIT {
                        fails_saying(p, "AFC file exceeds backup size limit"@)
                    } else {
                        p matches Progress::Call(state, request) && state.path@ == path
                            && state.stage == (ReadStage::Open { size }) && request@ == ask_open(
                            path,
                            1,
                        )
                    },
                    other => fails_saying(p, bad_number(other)),
                },
            },
        },
    }
}

/// How a read goes on after the answer to its last call.
pub open spec fn read_goes(
    p: Progress<ReadFile, Vec<u8>>,
    job: ReadFile,
    reply: Result<Vec<u8>, Failure>,
) -> bool {
    match job.stage {
        ReadStage::Size => sized(p, job.path@, reply),
        ReadStage::Open { size } => match reply {
            Err(given) => p matches Progress::Done(Err(failure)) && failure.under(
                "Open AFC file "@ + job.path@,
                given,
            ),
            Ok(data) => if data@.len() == 8 {
                reads_from(p, job.path@, size, le_value(data@) as u64, Seq::empty())
            } else {
                fails_saying(p, "Invalid AFC file handle"@)
            },
        },
        ReadStage::Read { size, handle, out } => match reply {
            Err(given) => p matches Progress::Call(state, request) && state.stage
                == (ReadStage::Close { result: Err(given) }) && request@ == ask_close(handle),
            Ok(data) => if data@.len() == 0 || out@.len() + data@.len() > size {
                closes_saying(p, handle, "Unexpected AFC read size"@)
            } else {
                reads_from(p, job.path@, size, handle, out@ + data@)
            },
        },
        ReadStage::Close { result } => match (result, reply) {
            (Err(given), _) => fails_with(p, given),
            (Ok(_), Err(given)) => fails_with(p, given),
            (Ok(out), Ok(_)) => gives(p, out),
        },
    }
}

impl ReadFile {
    /// The path is one that can be sent, and what was read is no longer than the
    /// file, which is no longer than the limit.
    pub open spec fn wf(self) -> bool {
        &&& !has_nul(self.path@)
        &&& match self.stage {
            ReadStage::Size => true,
            ReadStage::Open { size } => size <= FILE_LIMIT,
            ReadStage::Read { size, handle, out } => out@.len() < size <= FILE_LIMIT,
            ReadStage::Close { result } => result matches Ok(out) ==> out@.len() <= FILE_LIMIT,
        }
    }

    fn read_on(path: String, size: u64, handle: u64, out: Vec<u8>) -> (p: Progress<ReadFile, Vec<u8>>)
        requires
            out@.len() <= size <= FILE_LIMIT,
            !has_nul(path@),
        ensures
            reads_from(p, path@, size, handle, out@),
            p->Call_0.wf(),
    {
        let mut args: Vec<u8> = number_arg(handle);
        let have: u64 = out.len() as u64;
        if have < size {
            let more: u64 = if size - have < CHUNK as u64 {
                size - have
            } else {
                CHUNK as u64
            };
            push_le(&mut args, more, 8);
            let request = simple_request(15, args, 2);
            Progress::Call(
                ReadFile { path, stage: ReadStage::Read { size, handle, out } },
                request,
            )
        } else {
            let request = simple_request(20, args, 1);
            Progress::Call(
                ReadFile { path, stage: ReadStage::Close { result: Ok(out) } },
                request,
            )
        }
    }

    fn size_known(self, reply: Result<Vec<u8>, Failure>) -> (p: Progress<ReadFile, Vec<u8>>)
        requires
            self.wf(),
        ensures
            sized(p, self.path@, reply),
            p matches Progress::Call(state, _) ==> state.wf(),
    {
        let data: Vec<u8> = match reply {
            Ok(data) => data,
            Err(failure) => return Progress::Done(Err(failure)),
        };
        let info: Info = match parse_info(data.as_slice()) {
            Ok(info) => info,
            Err(failure) => return Progress::Done(Err(failure)),
        };
        let size: u64 = match info.get("st_size") {
            None => return Progress::Done(Err(Failure::said("AFC size missing"))),
            Some(text) => match parse_numeral(text.as_str()) {
                Numeral::Number(size) => size,
                Numeral::Empty => return Progress::Done(
                    Err(Failure::said("cannot parse integer from empty string")),
                ),
                Numeral::NotADigit => return Progress::Done(
                    Err(Failure::said("invalid digit found in string")),
                ),
                Numeral::TooLarge => return Progress::Done(
                    Err(Failure::said("number too large to fit in target type")),
                ),
            },
        };
        if size > FILE_LIMIT {
            return Progress::Done(Err(Failure::said("AFC file exceeds backup size limit")));
        }
        match open_request(self.path.as_str(), 1) {
            Ok(request) => Progress::Call(
                ReadFile { path: self.path, stage: ReadStage::Open { size } },
                request,
            ),
            Err(failure) => Progress::Done(Err(failure)),
        }
    }

    /// What follows the answer to the last call. A failed read still closes the
    /// file, and is what is reported.
    pub fn next(self, reply: Result<Vec<u8>, Failure>) -> (p: Progress<ReadFile, Vec<u8>>)
        requires
            self.wf(),
        ensures
            read_goes(p, self, reply),
            p matches Progress::Call(state, _) ==> state.wf(),
    {
        match self.stage {
            ReadStage::Size => self.size_known(reply),
            ReadStage::Open { size } => match open_handle(reply, self.path.as_str()) {
                Ok(handle) => {
                    let empty: Vec<u8> = Vec::new();
                    assert(empty@ =~= Seq::<u8>::empty());
                    ReadFile::read_on(self.path, size, handle, empty)
                },
                Err(failure) => Progress::Done(Err(failure)),
            },
            ReadStage::Read { size, handle, out } => match reply {
                Err(failure) => {
                    let request = simple_request(20, number_arg(handle), 1);
                    Progress::Call(
                        ReadFile {
                            path: self.path,
                            stage: ReadStage::Close { result: Err(failure) },
                        },
                        request,
                    )
                },
                Ok(data) => {
                    if data.len() == 0 || data.len() as u64 > size - out.len() as u64 {
                        let request = simple_request(20, number_arg(handle), 1);
                        return Progress::Call(
                            ReadFile {
                                path: self.path,
                                stage: ReadStage::Close {
                                    result: Err(Failure::said("Unexpected AFC read size")),
                                },
                            },
                            request,
                        );
                    }
                    let mut out: Vec<u8> = out;
                    push_bytes(&mut out, data.as_slice());
                    ReadFile::read_on(self.path, size, handle, out)
                },
            },
            ReadStage::Close { result } => match result {
                Err(failure) => Progress::Done(Err(failure)),
                Ok(out) => match reply {
                    Err(failure) => Progress::Done(Err(failure)),
                    Ok(_) => Progress::Done(Ok(out)),
                },
            },
        }
    }
}

/// What a read has is the beginning of the file that the phone serves.
pub open spec fn has_served(job: ReadFile, file: Seq<u8>) -> bool {
    match job.stage {
        ReadStage::Size => true,
        ReadStage::Open { size } => size == file.len(),
        ReadStage::Read { size, handle, out } => size == file.len() && out@ == file.take(
            out@.len() as int,
        ),
        ReadStage::Close { result } => result matches Ok(out) && out@ == file,
    }
}

/// The answer is that of a phone that serves the file: it tells its size, opens it, and
/// hands out what comes next, as much as it likes up to what was asked for.
pub open spec fn is_served(job: ReadFile, reply: Seq<u8>, file: Seq<u8>) -> bool {
    match job.stage {
        ReadStage::Size => file_info(reply) matches FileInfo::Pairs(pairs) && info_value(
            pairs,
            "st_size"@,
        ) matches Some(text) && numeral(text) matches Numeral::Number(size) && size == file.len(),
        ReadStage::Open { size } => reply.len() == 8,
        ReadStage::Read { size, handle, out } => {
            &&& 0 < reply.len() <= wanted(size as int, out@.len() as int)
            &&& reply == file.subrange(
                out@.len() as int,
                (out@.len() + reply.len()) as int,
            )
        },
        ReadStage::Close { result } => true,
    }
}

/// A read gives back what the phone serves, whatever pieces it comes in: every step of
/// it has the beginning of the file, none of them fails, and what comes out is the file.
pub proof fn a_read_gives_the_file_back(
    p: Progress<ReadFile, Vec<u8>>,
    job: ReadFile,
    reply: Vec<u8>,
    file: Seq<u8>,
)
    requires
        job.wf(),
        file.len() <= FILE_LIMIT,
        read_goes(p, job, Ok(reply)),
        has_served(job, file),
        is_served(job, reply@, file),
    ensures
        match p {
            Progress::Call(next, _) => has_served(next, file),
            Progress::Done(result) => result matches Ok(out) && out@ == file,
        },
{
    match job.stage {
        ReadStage::Open { size } => {
            assert(Seq::<u8>::empty() =~= file.take(0));
            if size == 0 {
                assert(file =~= Seq::<u8>::empty());
            }
        },
        ReadStage::Read { size, handle, out } => {
            let now = out@ + reply@;
            assert(now =~= file.take(now.len() as int));
            if now.len() == size {
                assert(now =~= file);
            }
        },
        _ => {},
    }
}

/// A read closes the file with its contents only when it has all of them.
pub proof fn a_read_is_complete(
    p: Progress<ReadFile, Vec<u8>>,
    path: Seq<char>,
    size: u64,
    handle: u64,
    have: Seq<u8>,
    out: Vec<u8>,
)
    requires
        reads_from(p, path, size, handle, have),
        have.len() <= size,
        p matches Progress::Call(state, _) && state.stage == (ReadStage::Close { result: Ok(out) }),
    ensures
        out@ == have,
        out@.len() == size,
{
}

impl AfcClient {
    /// Begins to read a file.
    pub fn read_file(path: &str) -> (p: Progress<ReadFile, Vec<u8>>)
        ensures
            if has_nul(path@) {
                fails_saying(p, "NUL in AFC path"@)
            } else {
                p matches Progress::Call(state, request) && state.path@ == path@ && state.stage is Size
                    && state.wf() && request@ == ask_info(path@)
            },
    {
        match AfcClient::try_exists_request(path) {
            Ok(request) => Progress::Call(
                ReadFile { path: path.to_owned(), stage: ReadStage::Size },
                request,
            ),
            Err(failure) => Progress::Done(Err(failure)),
        }
    }

    /// Begins to write a file.
    pub fn write_file(path: &str, data: &[u8]) -> (p: Progress<WriteFile, ()>)
        ensures
            if has_nul(path@) {
                fails_saying(p, "NUL in AFC path"@)
            } else {
                p matches Progress::Call(state, request) && state.path@ == path@ && state.data@ == data@
                    && state.stage is Open && state.wf() && request@ == ask_open(path@, 3)
            },
    {
        match open_request(path, 3) {
            Ok(request) => Progress::Call(
                WriteFile {
                    path: path.to_owned(),
                    data: copy_bytes(data),
                    stage: WriteStage::Open,
                },
                request,
            ),
            Err(failure) => Progress::Done(Err(failure)),
        }
    }
}

/// The call carries the open file and nothing else of the state.
pub open spec fn carries(request: Request, op: u64, args: Seq<u8>, payload: Seq<u8>, expected: u64) -> bool {
    request.op == op && request.args@ == args && request.payload@ == payload && request.expected
        == expected
}

/// A write opens its file for replacing, sends the contents from the beginning on,
/// up to 65536 bytes at a time, through the handle that it was given, and closes that
/// handle when all of them are sent.
pub proof fn a_write_sends_everything(
    job: WriteFile,
    reply: Vec<u8>,
    p: Progress<WriteFile, ()>,
)
    requires
        job.wf(),
        call_ensures(WriteFile::next, (job, Ok(reply)), p),
    ensures
        ({
            let n = job.data@.len() as int;
            &&& job.stage is Open && reply@.len() != 8 ==> (p matches Progress::Done(Err(_)))
            &&& job.stage is Open && reply@.len() == 8 && n > 0 ==> (p matches Progress::Call(
                next,
                request,
            ) && carries(request, 16, reply@, job.data@.take(if n < 65536 { n } else { 65536 }), 1)
                && (next.stage matches WriteStage::Write { handle, sent } && sent == 0 && handle
                == le_value(reply@)))
            &&& job.stage is Open && reply@.len() == 8 && n == 0 ==> (p matches Progress::Call(
                next,
                request,
            ) && carries(request, 20, reply@, Seq::empty(), 1) && next.stage is Close)
            &&& job.stage matches WriteStage::Write { handle, sent } ==> ({
                let from = sent + 65536;
                if from < n {
                    p matches Progress::Call(next, request) && carries(
                        request,
                        16,
                        le(handle as nat, 8),
                        job.data@.subrange(from, if n < from + 65536 { n } else { from + 65536 }),
                        1,
                    ) && next.stage == (WriteStage::Write { handle, sent: from as usize })
                } else {
                    p matches Progress::Call(next, request) && carries(
                        request,
                        20,
                        le(handle as nat, 8),
                        Seq::empty(),
                        1,
                    ) && (next.stage matches WriteStage::Close { failed } && failed is None)
                }
            })
            &&& (job.stage matches WriteStage::Close { failed } && failed is None) ==> (
            p matches Progress::Done(Ok(())))
        }),
{
    capacities();
    if let WriteStage::Open = job.stage {
        if reply@.len() == 8 {
            le_value_bound(reply@);
            le_bytes_round_trip(reply@);
            assert(le(le_value(reply@), 8) == reply@);
            if let Progress::Call(next, request) = p {
                assert(request@.args == request.args@ && request@.payload == request.payload@);
                let n = job.data@.len() as int;
                assert(job.data@.subrange(0, if n < 65536 { n } else { 65536 }) =~= job.data@.take(
                    if n < 65536 { n } else { 65536 },
                ));
            }
        }
    }
    if let Progress::Call(next, request) = p {
        assert(request@.args == request.args@ && request@.payload == request.payload@);
    }
}

/// A write that fails still closes its file, and then reports why it failed, whatever
/// the answer to the closing is. It succeeds only where the closing does.
pub proof fn a_failed_write_closes_and_reports(
    job: WriteFile,
    reply: Result<Vec<u8>, Failure>,
    p: Progress<WriteFile, ()>,
)
    requires
        job.wf(),
        call_ensures(WriteFile::next, (job, reply), p),
    ensures
        job.stage matches WriteStage::Write { handle, sent } ==> (reply matches Err(given) ==> (
        p matches Progress::Call(next, request) && carries(
            request,
            20,
            le(handle as nat, 8),
            Seq::empty(),
            1,
        ) && next.stage == (WriteStage::Close { failed: Some(given) }))),
        job.stage matches WriteStage::Close { failed: Some(given) } ==> (p matches Progress::Done(
            Err(failure),
        ) && failure == given),
        job.stage is Close && reply is Err ==> (p matches Progress::Done(Err(_))),
        job.stage is Open && reply is Err ==> (p matches Progress::Done(Err(_))),
        p matches Progress::Done(Ok(_)) ==> job.stage == (WriteStage::Close {
            failed: None::<Failure>,
        }) && reply is Ok,
{
    if let Progress::Call(next, request) = p {
        assert(request@.args == request.args@ && request@.payload == request.payload@);
    }
}

/// A read asks for the size first, refuses a file of more than 134217728 bytes, opens
/// the file for reading, and asks for what is missing, up to 65536 bytes at a time,
/// through the handle that it was given.
pub proof fn a_read_asks_for_what_is_missing(
    job: ReadFile,
    reply: Vec<u8>,
    p: Progress<ReadFile, Vec<u8>>,
)
    requires
        job.wf(),
        call_ensures(ReadFile::next, (job, Ok(reply)), p),
    ensures
        job.stage is Size ==> (p matches Progress::Call(next, request) ==> (
        next.stage matches ReadStage::Open { size } && size <= 134217728 && (file_info(reply@) matches
            FileInfo::Pairs(pairs) && info_value(pairs, "st_size"@) matches Some(text) && numeral(text)
            == Numeral::Number(size)) && carries(
            request,
            13,
            le(1, 8) + encode_utf8(job.path@).push(0),
            Seq::empty(),
            14,
        ))),
        job.stage is Size && (file_info(reply@) matches FileInfo::Pairs(pairs) && info_value(
            pairs,
            "st_size"@,
        ) matches Some(text) && numeral(text) matches Numeral::Number(size) && size <= 134217728)
            ==> p is Call,
        job.stage matches ReadStage::Open { size } ==> (if reply@.len() != 8 {
            p matches Progress::Done(Err(_))
        } else if size > 0 {
            p matches Progress::Call(next, request) && carries(
                request,
                15,
                reply@ + le(if size < 65536 { size as nat } else { 65536 }, 8),
                Seq::empty(),
                2,
            ) && (next.stage matches ReadStage::Read { size: same, handle, out } && same == size
                && handle == le_value(reply@) && out@.len() == 0)
        } else {
            p matches Progress::Call(next, request) && carries(request, 20, reply@, Seq::empty(), 1)
                && (next.stage matches ReadStage::Close { result: Ok(out) } && out@.len() == 0)
        }),
        job.stage matches ReadStage::Read { size, handle, out } ==> ({
            let have = out@ + reply@;
            if reply@.len() == 0 || have.len() > size {
                p matches Progress::Call(next, request) && carries(
                    request,
                    20,
                    le(handle as nat, 8),
                    Seq::empty(),
                    1,
                ) && (next.stage matches ReadStage::Close { result: Err(_) })
            } else if have.len() < size {
                p matches Progress::Call(next, request) && carries(
                    request,
                    15,
                    le(handle as nat, 8) + le(
                        if size - have.len() < 65536 {
                            (size - have.len()) as nat
                        } else {
                            65536
                        },
                        8,
                    ),
                    Seq::empty(),
                    2,
                ) && (next.stage matches ReadStage::Read { size: same, handle: h, out: more }
                    && same == size && h == handle && more@ == have)
            } else {
                p matches Progress::Call(next, request) && carries(
                    request,
                    20,
                    le(handle as nat, 8),
                    Seq::empty(),
                    1,
                ) && (next.stage matches ReadStage::Close { result: Ok(all) } && all@ == have)
            }
        }),
        job.stage matches ReadStage::Close { result: Ok(out) } ==> (p matches Progress::Done(
            Ok(given),
        ) && given@ == out@),
{
    capacities();
    if let Progress::Call(next, request) = p {
        assert(request@.args == request.args@ && request@.payload == request.payload@);
    }
    if let ReadStage::Open { size } = job.stage {
        if reply@.len() == 8 {
            le_value_bound(reply@);
            le_bytes_round_trip(reply@);
            assert(le(le_value(reply@), 8) == reply@);
        }
    }
}

/// A read that fails after the opening still closes its file, and then reports why it
/// failed, whatever the answer to the closing is. It succeeds only where the closing
/// does.
pub proof fn a_failed_read_closes_and_reports(
    job: ReadFile,
    reply: Result<Vec<u8>, Failure>,
    p: Progress<ReadFile, Vec<u8>>,
)
    requires
        job.wf(),
        call_ensures(ReadFile::next, (job, reply), p),
    ensures
        job.stage matches ReadStage::Read { size, handle, out } ==> (reply matches Err(given) ==> (
        p matches Progress::Call(next, request) && carries(
            request,
            20,
            le(handle as nat, 8),
            Seq::empty(),
            1,
        ) && next.stage == (ReadStage::Close { result: Err(given) }))),
        job.stage matches ReadStage::Close { result: Err(given) } ==> (p matches Progress::Done(
            Err(failure),
        ) && failure == given),
        reply is Err && job.stage !is Read ==> (p matches Progress::Done(Err(_))),
        p matches Progress::Done(Ok(out)) ==> (job.stage matches ReadStage::Close { result: Ok(all) }
            && all@ == out@) && reply is Ok,
{
    if let Progress::Call(next, request) = p {
        assert(request@.args == request.args@ && request@.payload == request.payload@);
    }
}

/// The contents are cut every 65536 bytes, from the beginning on, and the rest comes
/// last.
pub proof fn contents_are_cut_every_chunk(data: Seq<u8>, from: int, i: int)
    requires
        0 <= from <= data.len(),
        0 <= i < chunks(data, from).len(),
    ensures
        from + 65536 * i < data.len(),
        chunks(data, from)[i] == data.subrange(
            from + 65536 * i,
            if from + 65536 * i + 65536 < data.len() {
                from + 65536 * i + 65536
            } else {
                data.len() as int
            },
        ),
    decreases i,
{
    if i > 0 {
        let next = chunk_end(from, data.len() as int);
        assert(chunks(data, from)[i] == chunks(data, next)[i - 1]);
        contents_are_cut_every_chunk(data, next, i - 1);
    }
}

} // verus!
