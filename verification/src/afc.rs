//! The phone's file service: packets, replies, and the operations that are made
//! of several calls.
use crate::failure::Failure;
use crate::text::{decimal, decimal_text, decoded, same_text, texts};
use crate::wire::{
    capacities, copy_bytes, copy_range, le, le_len, le_round_trip, le_value, push_bytes, push_le,
    read_le, same_bytes,
};
use vstd::prelude::*;
use vstd::utf8::{decode_utf8, encode_utf8, valid_utf8};

verus! {

broadcast use le_len;

/// The longest packet that is accepted.
pub const LIMIT: u64 = 33_554_432;

/// The largest file that is read.
pub const FILE_LIMIT: u64 = 134_217_728;

/// The most bytes that one call moves.
pub const CHUNK: usize = 65_536;

/// The deepest directory that a cleanup enters.
pub const DEPTH_LIMIT: usize = 32;

/// What every packet begins with.
pub open spec fn magic() -> Seq<u8> {
    seq![0x43u8, 0x46, 0x41, 0x36, 0x4c, 0x50, 0x41, 0x41]
}

/// A call of the service.
pub struct Request {
    /// The operation.
    pub op: u64,
    /// Its arguments.
    pub args: Vec<u8>,
    /// Bytes to write.
    pub payload: Vec<u8>,
    /// The code of the reply that is expected.
    pub expected: u64,
}

/// What a call holds.
pub ghost struct Ask {
    pub op: u64,
    pub args: Seq<u8>,
    pub payload: Seq<u8>,
    pub expected: u64,
}

impl View for Request {
    type V = Ask;

    open spec fn view(&self) -> Ask {
        Ask { op: self.op, args: self.args@, payload: self.payload@, expected: self.expected }
    }
}

/// A call without a payload.
pub open spec fn ask(op: u64, args: Seq<u8>, expected: u64) -> Ask {
    Ask { op, args, payload: Seq::empty(), expected }
}

pub(crate) fn simple_request(op: u64, args: Vec<u8>, expected: u64) -> (r: Request)
    ensures
        r@ == ask(op, args@, expected),
{
    let payload: Vec<u8> = Vec::new();
    assert(payload@ =~= Seq::<u8>::empty());
    Request { op, args, payload, expected }
}

/// The packet of a call: magic, whole length, length without the payload,
/// sequence number, operation, arguments, payload.
pub open spec fn packet(sequence: u64, call: Ask) -> Seq<u8> {
    magic() + le(40 + call.args.len() + call.payload.len(), 8) + le(40 + call.args.len(), 8) + le(
        sequence as nat,
        8,
    ) + le(call.op as nat, 8) + call.args + call.payload
}

/// What the header of a reply announces: its code and the length of its data, or
/// a complaint.
pub open spec fn announced(header: Seq<u8>, sequence: u64) -> Result<(nat, nat), Seq<char>> {
    let n = le_value(header.subrange(8, 16));
    let head = le_value(header.subrange(16, 24));
    if header.subrange(0, 8) != magic() {
        Err("Invalid AFC magic"@)
    } else if !(40 <= n <= LIMIT && 40 <= head <= n) {
        Err("Invalid AFC frame length"@)
    } else if le_value(header.subrange(24, 32)) != sequence {
        Err("AFC sequence mismatch"@)
    } else {
        Ok((le_value(header.subrange(32, 40)), (n - 40) as nat))
    }
}

/// What a reply with the code and data amounts to. A status other than zero is a
/// failure.
pub open spec fn is_answer(
    code: u64,
    data: Seq<u8>,
    expected: u64,
    answer: Result<Vec<u8>, Failure>,
) -> bool {
    if code == 1 && data.len() != 8 {
        answer matches Err(failure) && failure.says("Invalid AFC status size"@)
    } else if code == 1 && le_value(data) != 0 {
        answer matches Err(Failure::Status(status)) && status == le_value(data)
    } else if code != expected {
        answer matches Err(failure) && failure.says(
            "Unexpected AFC response "@ + decimal(code as nat) + ", expected "@ + decimal(
                expected as nat,
            ),
        )
    } else {
        answer matches Ok(answer) && answer@ == data
    }
}

/// A connection to the file service.
pub struct AfcClient {
    /// The number of the last call.
    pub sequence: u64,
}

impl AfcClient {
    /// A connection on which nothing was sent yet.
    pub fn new() -> (client: AfcClient)
        ensures
            client.sequence == 0,
    {
        AfcClient { sequence: 0 }
    }

    /// The packet that makes a call. Each call gets the next number.
    pub fn call(&mut self, request: &Request) -> (bytes: Vec<u8>)
        requires
            old(self).sequence < u64::MAX,
            request.args@.len() + request.payload@.len() + 40 <= u64::MAX,
        ensures
            final(self).sequence == old(self).sequence + 1,
            bytes@ == packet(final(self).sequence, request@),
    {
        self.sequence = self.sequence + 1;
        let mut bytes: Vec<u8> = vec![0x43, 0x46, 0x41, 0x36, 0x4c, 0x50, 0x41, 0x41];
        assert(bytes@ =~= magic());
        let head: u64 = 40 + request.args.len() as u64;
        push_le(&mut bytes, head + request.payload.len() as u64, 8);
        push_le(&mut bytes, head, 8);
        push_le(&mut bytes, self.sequence, 8);
        push_le(&mut bytes, request.op, 8);
        push_bytes(&mut bytes, request.args.as_slice());
        push_bytes(&mut bytes, request.payload.as_slice());
        assert(bytes@ =~= packet(self.sequence, request@));
        bytes
    }

    /// The code and the length of the data that the header of the reply to the
    /// last call announces.
    pub fn reply_header(&self, header: &[u8]) -> (announcement: Result<(u64, usize), Failure>)
        requires
            header@.len() == 40,
        ensures
            match announced(header@, self.sequence) {
                Ok((code, length)) => announcement matches Ok(found) && found.0 == code && found.1
                    == length,
                Err(complaint) => announcement matches Err(failure) && failure.says(complaint),
            },
    {
        let expected: Vec<u8> = vec![0x43, 0x46, 0x41, 0x36, 0x4c, 0x50, 0x41, 0x41];
        assert(expected@ =~= magic());
        let start: Vec<u8> = copy_range(header, 0, 8);
        if !same_bytes(start.as_slice(), expected.as_slice()) {
            return Err(Failure::said("Invalid AFC magic"));
        }
        let n: u64 = read_le(header, 8, 8);
        let head: u64 = read_le(header, 16, 8);
        if !(n >= 40 && n <= LIMIT && head >= 40 && head <= n) {
            return Err(Failure::said("Invalid AFC frame length"));
        }
        if read_le(header, 24, 8) != self.sequence {
            return Err(Failure::said("AFC sequence mismatch"));
        }
        Ok((read_le(header, 32, 8), (n - 40) as usize))
    }
}

/// What a reply with the code and data amounts to.
pub fn answer(code: u64, data: Vec<u8>, expected: u64) -> (answer: Result<Vec<u8>, Failure>)
    ensures
        is_answer(code, data@, expected, answer),
{
    if code == 1 {
        if data.len() != 8 {
            return Err(Failure::said("Invalid AFC status size"));
        }
        assert(data@.subrange(0, 8) =~= data@);
        let status: u64 = read_le(data.as_slice(), 0, 8);
        if status != 0 {
            return Err(Failure::Status(status));
        }
    }
    if code != expected {
        return Err(
            Failure::Said(
                "Unexpected AFC response ".to_owned().concat(decimal_text(code).as_str()).concat(
                    ", expected ",
                ).concat(decimal_text(expected).as_str()),
            ),
        );
    }
    Ok(data)
}

/// The path has a zero byte in it.
pub open spec fn has_nul(path: Seq<char>) -> bool {
    encode_utf8(path).contains(0u8)
}

/// A path as an argument: its bytes and a zero byte.
pub open spec fn path_bytes(path: Seq<char>) -> Seq<u8> {
    encode_utf8(path).push(0)
}

/// A path as an argument.
pub fn path_arg(path: &str) -> (arg: Result<Vec<u8>, Failure>)
    ensures
        match arg {
            Ok(arg) => !has_nul(path@) && arg@ == path_bytes(path@),
            Err(failure) => has_nul(path@) && failure.says("NUL in AFC path"@),
        },
{
    let bytes: &[u8] = path.as_bytes();
    let mut i: usize = 0;
    while i < bytes.len()
        invariant
            bytes@ == encode_utf8(path@),
            i <= bytes@.len(),
            forall|k: int| 0 <= k < i ==> bytes@[k] != 0,
        decreases bytes@.len() - i,
    {
        if bytes[i] == 0 {
            assert(bytes@[i as int] == 0u8);
            return Err(Failure::said("NUL in AFC path"));
        }
        i = i + 1;
    }
    let mut arg: Vec<u8> = copy_bytes(bytes);
    arg.push(0);
    Ok(arg)
}

/// The runs of bytes between the zero bytes.
pub open spec fn zero_split(s: Seq<u8>) -> Seq<Seq<u8>>
    decreases s.len(),
{
    if s.len() == 0 {
        seq![Seq::empty()]
    } else {
        let parts = zero_split(s.drop_last());
        if s.last() == 0 {
            parts.push(Seq::empty())
        } else {
            parts.update(parts.len() - 1, parts.last().push(s.last()))
        }
    }
}

/// The parts that are not empty.
pub open spec fn filled(parts: Seq<Seq<u8>>) -> Seq<Seq<u8>>
    decreases parts.len(),
{
    if parts.len() == 0 {
        Seq::empty()
    } else if parts.last().len() == 0 {
        filled(parts.drop_last())
    } else {
        filled(parts.drop_last()).push(parts.last())
    }
}

/// The fields of a reply: what stands between the zero bytes, if anything.
pub open spec fn fields(data: Seq<u8>) -> Seq<Seq<u8>> {
    filled(zero_split(data))
}

/// The views of a run of byte vectors.
pub open spec fn views(parts: Seq<Vec<u8>>) -> Seq<Seq<u8>> {
    Seq::new(parts.len(), |i: int| parts[i]@)
}

proof fn zero_split_gives_parts(s: Seq<u8>)
    ensures
        zero_split(s).len() >= 1,
    decreases s.len(),
{
    if s.len() > 0 {
        zero_split_gives_parts(s.drop_last());
    }
}

/// A field holds no zero byte.
proof fn split_has_no_zero(s: Seq<u8>)
    ensures
        forall|i: int| 0 <= i < zero_split(s).len() ==> !(#[trigger] zero_split(s)[i]).contains(0u8),
    decreases s.len(),
{
    if s.len() > 0 {
        let parts = zero_split(s.drop_last());
        split_has_no_zero(s.drop_last());
        zero_split_gives_parts(s.drop_last());
        assert forall|i: int| 0 <= i < zero_split(s).len() implies !(#[trigger] zero_split(
            s,
        )[i]).contains(0u8) by {
            let part = zero_split(s)[i];
            if i < parts.len() {
                assert(!parts[i].contains(0u8));
                if s.last() != 0 && i == parts.len() - 1 {
                    assert forall|k: int| 0 <= k < part.len() implies part[k] != 0u8 by {
                        if k < parts[i].len() {
                            assert(parts[i][k] != 0u8);
                        }
                    }
                }
            }
        }
    }
}

/// The fields of a reply.
pub fn split_fields(data: &[u8]) -> (found: Vec<Vec<u8>>)
    ensures
        views(found@) == fields(data@),
{
    let mut found: Vec<Vec<u8>> = Vec::new();
    let mut last: Vec<u8> = Vec::new();
    let mut i: usize = 0;
    assert(data@.take(0) =~= Seq::<u8>::empty());
    assert(zero_split(data@.take(0)).drop_last() =~= Seq::<Seq<u8>>::empty());
    assert(views(found@) =~= Seq::<Seq<u8>>::empty());
    assert(last@ =~= Seq::<u8>::empty());
    while i < data.len()
        invariant
            i <= data@.len(),
            zero_split(data@.take(i as int)).len() >= 1,
            views(found@) == filled(zero_split(data@.take(i as int)).drop_last()),
            last@ == zero_split(data@.take(i as int)).last(),
        decreases data@.len() - i,
    {
        let ghost parts = zero_split(data@.take(i as int));
        let ghost before = views(found@);
        assert(data@.take(i + 1).drop_last() =~= data@.take(i as int));
        assert(data@.take(i + 1).last() == data@[i as int]);
        let ghost now = zero_split(data@.take(i + 1));
        if data[i] == 0 {
            assert(now == parts.push(Seq::empty()));
            assert(now.drop_last() =~= parts);
            if last.len() > 0 {
                found.push(last);
                assert(views(found@) =~= before.push(parts.last()));
            }
            last = Vec::new();
            assert(last@ =~= Seq::<u8>::empty());
        } else {
            last.push(data[i]);
            assert(now.drop_last() =~= parts.drop_last());
        }
        i = i + 1;
    }
    assert(data@.take(i as int) =~= data@);
    let ghost before = views(found@);
    if last.len() > 0 {
        found.push(last);
        assert(views(found@) =~= before.push(zero_split(data@).last()));
    }
    found
}

/// What the information about a file says: keys and values in turn.
pub ghost enum FileInfo {
    /// A key has no value.
    Odd,
    /// Some field is not text.
    NotText,
    /// Keys and values.
    Pairs(Seq<(Seq<char>, Seq<char>)>),
}

/// What the information about a file says.
pub open spec fn file_info(data: Seq<u8>) -> FileInfo {
    let parts = fields(data);
    if parts.len() % 2 != 0 {
        FileInfo::Odd
    } else if exists|i: int| 0 <= i < parts.len() && !valid_utf8(#[trigger] parts[i]) {
        FileInfo::NotText
    } else {
        FileInfo::Pairs(
            Seq::new(
                parts.len() / 2,
                |i: int| (decode_utf8(parts[2 * i]), decode_utf8(parts[2 * i + 1])),
            ),
        )
    }
}

/// The value of a key; of two values the later counts.
pub open spec fn info_value(pairs: Seq<(Seq<char>, Seq<char>)>, key: Seq<char>) -> Option<Seq<char>>
    decreases pairs.len(),
{
    if pairs.len() == 0 {
        None
    } else if pairs.last().0 == key {
        Some(pairs.last().1)
    } else {
        info_value(pairs.drop_last(), key)
    }
}

/// Information about a file.
pub struct Info {
    /// Keys and values.
    pub pairs: Vec<(String, String)>,
}

impl View for Info {
    type V = Seq<(Seq<char>, Seq<char>)>;

    open spec fn view(&self) -> Seq<(Seq<char>, Seq<char>)> {
        Seq::new(self.pairs@.len(), |i: int| (self.pairs@[i].0@, self.pairs@[i].1@))
    }
}

impl Info {
    /// The value of a key.
    pub fn get(&self, key: &str) -> (value: Option<&String>)
        ensures
            match value {
                Some(value) => info_value(self@, key@) == Some(value@),
                None => info_value(self@, key@) is None,
            },
    {
        let mut left: usize = self.pairs.len();
        assert(self@.take(left as int) =~= self@);
        while left > 0
            invariant
                left <= self.pairs@.len(),
                info_value(self@, key@) == info_value(self@.take(left as int), key@),
            decreases left,
        {
            assert(self@.take(left as int).drop_last() =~= self@.take(left - 1));
            left = left - 1;
            if same_text(self.pairs[left].0.as_str(), key) {
                return Some(&self.pairs[left].1);
            }
        }
        None
    }
}

/// Reads the information about a file.
pub fn parse_info(data: &[u8]) -> (info: Result<Info, Failure>)
    ensures
        match file_info(data@) {
            FileInfo::Odd => info matches Err(failure) && failure.says(
                "Malformed AFC file information"@,
            ),
            FileInfo::NotText => info matches Err(failure) && failure is Utf8,
            FileInfo::Pairs(pairs) => info matches Ok(info) && info@ == pairs,
        },
{
    let parts: Vec<Vec<u8>> = split_fields(data);
    let ghost all = views(parts@);
    if parts.len() % 2 != 0 {
        return Err(Failure::said("Malformed AFC file information"));
    }
    let mut pairs: Vec<(String, String)> = Vec::new();
    let mut i: usize = 0;
    while i < parts.len()
        invariant
            all == views(parts@),
            all == fields(data@),
            all.len() % 2 == 0,
            i <= parts@.len(),
            i % 2 == 0,
            pairs@.len() == i / 2,
            forall|k: int| 0 <= k < i ==> valid_utf8(#[trigger] all[k]),
            forall|k: int|
                0 <= k < i / 2 ==> (#[trigger] pairs@[k]).0@ == decode_utf8(all[2 * k])
                    && pairs@[k].1@ == decode_utf8(all[2 * k + 1]),
        decreases parts@.len() - i,
    {
        assert(all[i as int] == parts@[i as int]@);
        assert(all[i + 1] == parts@[i + 1]@);
        let key: String = match decoded(parts[i].as_slice()) {
            Ok(key) => key,
            Err(failure) => return Err(failure),
        };
        let value: String = match decoded(parts[i + 1].as_slice()) {
            Ok(value) => value,
            Err(failure) => return Err(failure),
        };
        pairs.push((key, value));
        i = i + 2;
    }
    let info = Info { pairs };
    assert(file_info(data@) is Pairs);
    assert(info@ =~= file_info(data@)->Pairs_0);
    Ok(info)
}

/// What the reply to a question for information means for the existence of the
/// file: status 8 says that there is none.
pub open spec fn is_existence(reply: Result<Vec<u8>, Failure>, found: Result<bool, Failure>) -> bool {
    match reply {
        Ok(data) => match file_info(data@) {
            FileInfo::Odd => found matches Err(failure) && failure.says(
                "Malformed AFC file information"@,
            ),
            FileInfo::NotText => found matches Err(failure) && failure is Utf8,
            FileInfo::Pairs(_) => found matches Ok(true),
        },
        Err(Failure::Status(8)) => found matches Ok(false),
        Err(given) => found matches Err(failure) && failure == given,
    }
}

/// What an operation does next.
pub enum Progress<S, T> {
    /// Make the call and hand its answer to the state.
    Call(S, Request),
    /// The operation is over.
    Done(Result<T, Failure>),
}

/// The call that asks for information about a path.
pub open spec fn ask_info(path: Seq<char>) -> Ask {
    ask(10, path_bytes(path), 2)
}

fn info_request(path: &str) -> (r: Result<Request, Failure>)
    ensures
        match r {
            Ok(r) => !has_nul(path@) && r@ == ask_info(path@),
            Err(failure) => has_nul(path@) && failure.says("NUL in AFC path"@),
        },
{
    match path_arg(path) {
        Ok(arg) => Ok(simple_request(10, arg, 2)),
        Err(failure) => Err(failure),
    }
}

impl AfcClient {
    /// The call that asks whether a path exists.
    pub fn try_exists_request(path: &str) -> (r: Result<Request, Failure>)
        ensures
            match r {
                Ok(r) => !has_nul(path@) && r@ == ask_info(path@),
                Err(failure) => has_nul(path@) && failure.says("NUL in AFC path"@),
            },
    {
        info_request(path)
    }

    /// Whether the path exists, given the answer to that call.
    pub fn try_exists(reply: Result<Vec<u8>, Failure>) -> (found: Result<bool, Failure>)
        ensures
            is_existence(reply, found),
    {
        match reply {
            Ok(data) => match parse_info(data.as_slice()) {
                Ok(_) => Ok(true),
                Err(failure) => Err(failure),
            },
            Err(Failure::Status(status)) => if status == 8 {
                Ok(false)
            } else {
                Err(Failure::Status(status))
            },
            Err(failure) => Err(failure),
        }
    }

    /// Whether the path is known to exist, given the answer to that call.
    pub fn is_present(reply: Result<Vec<u8>, Failure>) -> (found: bool)
        ensures
            found == (reply matches Ok(data) && file_info(data@) is Pairs),
    {
        match AfcClient::try_exists(reply) {
            Ok(found) => found,
            Err(_) => false,
        }
    }

    /// The call that lists a directory.
    pub fn list_directory_request(path: &str) -> (r: Result<Request, Failure>)
        ensures
            match r {
                Ok(r) => !has_nul(path@) && r@ == ask(3, path_bytes(path@), 2),
                Err(failure) => has_nul(path@) && failure.says("NUL in AFC path"@),
            },
    {
        match path_arg(path) {
            Ok(arg) => Ok(simple_request(3, arg, 2)),
            Err(failure) => Err(failure),
        }
    }

    /// The names in a directory, given the answer to that call, without the
    /// entries for the directory itself and its parent.
    pub fn list_directory(data: &[u8]) -> (names: Result<Vec<String>, Failure>)
        ensures
            match children(fields(data@)) {
                Some(listed) => names matches Ok(names) && texts(names@) == listed,
                None => names matches Err(failure) && failure is Utf8,
            },
    {
        let parts: Vec<Vec<u8>> = split_fields(data);
        let ghost all = views(parts@);
        let mut names: Vec<String> = Vec::new();
        let dot: Vec<u8> = vec![0x2e];
        let dots: Vec<u8> = vec![0x2e, 0x2e];
        assert(dot@ =~= seq![0x2eu8]);
        assert(dots@ =~= seq![0x2eu8, 0x2e]);
        let mut i: usize = 0;
        assert(all.take(0) =~= Seq::<Seq<u8>>::empty());
        assert(texts(names@) =~= Seq::<Seq<char>>::empty());
        while i < parts.len()
            invariant
                all == views(parts@),
                all == fields(data@),
                dot@ == seq![0x2eu8],
                dots@ == seq![0x2eu8, 0x2e],
                i <= parts@.len(),
                children(all.take(i as int)) == Some(texts(names@)),
            decreases parts@.len() - i,
        {
            let ghost before = texts(names@);
            assert(all.take(i + 1).drop_last() =~= all.take(i as int));
            assert(all.take(i + 1).last() == parts@[i as int]@);
            if !same_bytes(parts[i].as_slice(), dot.as_slice()) && !same_bytes(
                parts[i].as_slice(),
                dots.as_slice(),
            ) {
                match decoded(parts[i].as_slice()) {
                    Ok(name) => {
                        names.push(name);
                        assert(texts(names@) =~= before.push(name@));
                    },
                    Err(failure) => {
                        proof {
                            children_fail(all, i + 1);
                        }
                        return Err(failure);
                    },
                }
            }
            i = i + 1;
        }
        assert(all.take(i as int) =~= all);
        Ok(names)
    }
}

/// The names that directory fields list, if they are all text.
pub open spec fn children(parts: Seq<Seq<u8>>) -> Option<Seq<Seq<char>>>
    decreases parts.len(),
{
    if parts.len() == 0 {
        Some(Seq::empty())
    } else {
        match children(parts.drop_last()) {
            None => None,
            Some(names) => if parts.last() == seq![0x2eu8] || parts.last() == seq![0x2eu8, 0x2e] {
                Some(names)
            } else if valid_utf8(parts.last()) {
                Some(names.push(decode_utf8(parts.last())))
            } else {
                None
            },
        }
    }
}

proof fn children_fail(parts: Seq<Seq<u8>>, n: int)
    requires
        0 <= n <= parts.len(),
        children(parts.take(n)) is None,
    ensures
        children(parts) is None,
    decreases parts.len(),
{
    if n == parts.len() {
        assert(parts.take(n) =~= parts);
    } else {
        assert(parts.drop_last().take(n) =~= parts.take(n));
        children_fail(parts.drop_last(), n);
    }
}

/// A packet begins with the letters `CFA6LPAA` and four numbers: how long it is,
/// how long it is without the payload, the number of the call, and the operation.
/// The arguments and the payload follow, whole and in this order.
pub proof fn a_packet_tells_its_parts(sequence: u64, call: Ask)
    requires
        40 + call.args.len() + call.payload.len() <= u64::MAX,
    ensures
        ({
            let p = packet(sequence, call);
            let n = 40 + call.args.len() as int;
            &&& p.len() == n + call.payload.len()
            &&& p.subrange(0, 8) == seq![67u8, 70, 65, 54, 76, 80, 65, 65]
            &&& le_value(p.subrange(8, 16)) == p.len()
            &&& le_value(p.subrange(16, 24)) == n
            &&& le_value(p.subrange(24, 32)) == sequence
            &&& le_value(p.subrange(32, 40)) == call.op
            &&& p.subrange(40, n) == call.args
            &&& p.skip(n) == call.payload
        }),
{
    let p = packet(sequence, call);
    let n = 40 + call.args.len() as int;
    capacities();
    le_round_trip(40 + call.args.len() + call.payload.len(), 8);
    le_round_trip(40 + call.args.len(), 8);
    le_round_trip(sequence as nat, 8);
    le_round_trip(call.op as nat, 8);
    assert(p.subrange(0, 8) =~= magic());
    assert(magic() =~= seq![67u8, 70, 65, 54, 76, 80, 65, 65]);
    assert(p.subrange(8, 16) =~= le(40 + call.args.len() + call.payload.len(), 8));
    assert(p.subrange(16, 24) =~= le(40 + call.args.len(), 8));
    assert(p.subrange(24, 32) =~= le(sequence as nat, 8));
    assert(p.subrange(32, 40) =~= le(call.op as nat, 8));
    assert(p.subrange(40, n) =~= call.args);
    assert(p.skip(n) =~= call.payload);
}

/// The header of a reply is accepted exactly where it begins with the letters of
/// the protocol, tells a length from 40 to 33554432 and a head within it, and
/// answers the last call. It then tells the code of the reply and how many bytes
/// follow.
pub proof fn replies_answer_the_last_call(
    client: AfcClient,
    header: &[u8],
    announcement: Result<(u64, usize), Failure>,
)
    requires
        header@.len() == 40,
        call_ensures(AfcClient::reply_header, (&client, header), announcement),
    ensures
        ({
            let n = le_value(header@.subrange(8, 16));
            let head = le_value(header@.subrange(16, 24));
            &&& announcement is Ok <==> header@.subrange(0, 8) == seq![
                67u8,
                70,
                65,
                54,
                76,
                80,
                65,
                65,
            ] && 40 <= n <= 33554432 && 40 <= head <= n && le_value(header@.subrange(24, 32))
                == client.sequence
            &&& announcement matches Ok(found) ==> found.0 == le_value(header@.subrange(32, 40))
                && found.1 == n - 40
        }),
{
    assert(magic() =~= seq![67u8, 70, 65, 54, 76, 80, 65, 65]);
}

/// A reply gives its data exactly where it has the expected code and, where that is
/// the code of a status, the status is eight zero bytes. A status other than zero is
/// reported as it is.
pub proof fn only_the_expected_reply_counts(
    code: u64,
    data: Vec<u8>,
    expected: u64,
    found: Result<Vec<u8>, Failure>,
)
    requires
        call_ensures(answer, (code, data, expected), found),
    ensures
        found is Ok <==> code == expected && (code == 1 ==> data@.len() == 8 && le_value(data@) == 0),
        found matches Ok(found) ==> found@ == data@,
        code == 1 && data@.len() == 8 && le_value(data@) != 0 ==> (found matches Err(
            Failure::Status(status),
        ) && status == le_value(data@)),
{
}

/// The fields of a reply stand between its zero bytes: a zero byte parts them
/// wherever it stands, a run of other bytes is one field, and nothing is none.
pub proof fn fields_stand_between_zeros(a: Seq<u8>, b: Seq<u8>)
    ensures
        fields(a + seq![0u8] + b) == fields(a) + fields(b),
        fields(Seq::empty()).len() == 0,
        a.len() > 0 && !a.contains(0u8) ==> fields(a) == seq![a],
{
    zero_parts(a, b);
    filled_apart(zero_split(a), zero_split(b));
    reveal_with_fuel(filled, 2);
    reveal_with_fuel(zero_split, 2);
    if a.len() > 0 && !a.contains(0u8) {
        without_zero(a);
        assert(seq![a].drop_last() =~= Seq::<Seq<u8>>::empty());
        assert(filled(seq![a]) =~= seq![a]);
    }
    let none = seq![Seq::<u8>::empty()];
    assert(none.drop_last() =~= Seq::<Seq<u8>>::empty());
    assert(filled(none).len() == 0);
}

proof fn without_zero(a: Seq<u8>)
    requires
        !a.contains(0u8),
    ensures
        zero_split(a) == seq![a],
    decreases a.len(),
{
    if a.len() > 0 {
        let shorter = a.drop_last();
        assert forall|i: int| 0 <= i < shorter.len() implies shorter[i] != 0 by {
            assert(a[i] != 0);
        }
        without_zero(shorter);
        assert(a[a.len() - 1] != 0);
        assert(shorter.push(a.last()) =~= a);
        assert(zero_split(a) =~= seq![a]);
    } else {
        assert(a =~= Seq::<u8>::empty());
        assert(zero_split(a) =~= seq![a]);
    }
}

proof fn zero_parts(a: Seq<u8>, b: Seq<u8>)
    ensures
        zero_split(a + seq![0u8] + b) == zero_split(a) + zero_split(b),
    decreases b.len(),
{
    let whole = a + seq![0u8] + b;
    if b.len() == 0 {
        assert(whole.drop_last() =~= a);
        assert(zero_split(whole) =~= zero_split(a) + zero_split(b));
    } else {
        zero_parts(a, b.drop_last());
        zero_split_gives_parts(b.drop_last());
        assert(whole.drop_last() =~= a + seq![0u8] + b.drop_last());
        assert(whole.last() == b.last());
        assert(zero_split(whole) =~= zero_split(a) + zero_split(b));
    }
}

proof fn filled_apart(a: Seq<Seq<u8>>, b: Seq<Seq<u8>>)
    ensures
        filled(a + b) == filled(a) + filled(b),
    decreases b.len(),
{
    if b.len() == 0 {
        assert(a + b =~= a);
        assert(filled(a) + filled(b) =~= filled(a));
    } else {
        filled_apart(a, b.drop_last());
        assert((a + b).drop_last() =~= a + b.drop_last());
        assert((a + b).last() == b.last());
        assert(filled(a + b) =~= filled(a) + filled(b));
    }
}

/// The information about a file is read in pairs: the field at every even place is
/// a key and the one behind it its value. It can be read exactly where the number of
/// fields is even and all of them are text.
pub proof fn information_comes_in_pairs(data: &[u8], info: Result<Info, Failure>)
    requires
        call_ensures(parse_info, (data,), info),
    ensures
        info is Ok <==> fields(data@).len() % 2 == 0 && forall|i: int|
            0 <= i < fields(data@).len() ==> valid_utf8(#[trigger] fields(data@)[i]),
        info matches Ok(info) ==> info@.len() * 2 == fields(data@).len() && forall|i: int|
            0 <= i < info@.len() ==> (#[trigger] info@[i]).0 == decode_utf8(fields(data@)[2 * i])
                && info@[i].1 == decode_utf8(fields(data@)[2 * i + 1]),
{
}

/// The value of a key is the one that was given for it last, and there is one exactly
/// where the key is there.
pub proof fn the_last_value_counts(info: Info, key: &str, value: Option<&String>)
    requires
        call_ensures(Info::get, (&info, key), value),
    ensures
        value is Some <==> exists|i: int| 0 <= i < info@.len() && (#[trigger] info@[i]).0 == key@,
        value matches Some(value) ==> exists|i: int|
            0 <= i < info@.len() && #[trigger] info@[i] == (key@, value@) && forall|j: int|
                i < j < info@.len() ==> (#[trigger] info@[j]).0 != key@,
{
    last_value(info@, key@);
}

proof fn last_value(pairs: Seq<(Seq<char>, Seq<char>)>, key: Seq<char>)
    ensures
        info_value(pairs, key) is None <==> forall|i: int|
            0 <= i < pairs.len() ==> (#[trigger] pairs[i]).0 != key,
        info_value(pairs, key) matches Some(value) ==> exists|i: int|
            0 <= i < pairs.len() && #[trigger] pairs[i] == (key, value) && forall|j: int|
                i < j < pairs.len() ==> (#[trigger] pairs[j]).0 != key,
    decreases pairs.len(),
{
    if pairs.len() > 0 {
        let shorter = pairs.drop_last();
        let last = pairs.len() - 1;
        if pairs.last().0 == key {
            assert(pairs[last] == (key, pairs.last().1));
        } else {
            last_value(shorter, key);
            if let Some(value) = info_value(pairs, key) {
                let i = choose|i: int|
                    0 <= i < shorter.len() && #[trigger] shorter[i] == (key, value) && forall|j: int|
                        i < j < shorter.len() ==> (#[trigger] shorter[j]).0 != key;
                assert(pairs[i] == (key, value));
                assert forall|j: int| i < j < pairs.len() implies (#[trigger] pairs[j]).0 != key by {
                    if j < last {
                        assert(pairs[j] == shorter[j]);
                    }
                }
            } else {
                assert forall|i: int| 0 <= i < pairs.len() implies (#[trigger] pairs[i]).0
                    != key by {
                    if i < last {
                        assert(pairs[i] == shorter[i]);
                    }
                }
            }
        }
    }
}

/// Of a directory every name is listed, in order, but for the directory itself and
/// its parent. It cannot be listed exactly where one of those names is no text.
pub proof fn every_name_is_listed(data: &[u8], names: Result<Vec<String>, Failure>)
    requires
        call_ensures(AfcClient::list_directory, (data,), names),
    ensures
        ({
            let own = fields(data@).filter(|f: Seq<u8>| f != seq![46u8] && f != seq![46u8, 46]);
            &&& names is Ok <==> forall|i: int|
                0 <= i < own.len() ==> valid_utf8(#[trigger] own[i])
            &&& names matches Ok(names) ==> texts(names@) == own.map_values(
                |f: Seq<u8>| decode_utf8(f),
            )
        }),
{
    names_of(fields(data@));
}

proof fn names_of(parts: Seq<Seq<u8>>)
    ensures
        ({
            let own = parts.filter(|f: Seq<u8>| f != seq![46u8] && f != seq![46u8, 46]);
            &&& children(parts) is Some <==> forall|i: int|
                0 <= i < own.len() ==> valid_utf8(#[trigger] own[i])
            &&& children(parts) matches Some(names) ==> names == own.map_values(
                |f: Seq<u8>| decode_utf8(f),
            )
        }),
    decreases parts.len(),
{
    reveal(Seq::filter);
    let is_own = |f: Seq<u8>| f != seq![46u8] && f != seq![46u8, 46];
    let text = |f: Seq<u8>| decode_utf8(f);
    let own = parts.filter(is_own);
    if parts.len() == 0 {
        assert(own.map_values(text) =~= Seq::<Seq<char>>::empty());
    } else {
        let shorter = parts.drop_last();
        let before = shorter.filter(is_own);
        let last = parts.last();
        names_of(shorter);
        if is_own(last) {
            assert(own == before.push(last));
            assert(own.map_values(text) =~= before.map_values(text).push(decode_utf8(last)));
            if forall|i: int| 0 <= i < own.len() ==> valid_utf8(#[trigger] own[i]) {
                assert(valid_utf8(own[before.len() as int]));
                assert forall|i: int| 0 <= i < before.len() implies valid_utf8(
                    #[trigger] before[i],
                ) by {
                    assert(own[i] == before[i]);
                }
            }
            if children(parts) is Some {
                assert forall|i: int| 0 <= i < own.len() implies valid_utf8(#[trigger] own[i]) by {
                    if i < before.len() {
                        assert(own[i] == before[i]);
                    }
                }
            }
        } else {
            assert(own == before);
        }
    }
}

/// A path exists where the service tells about it, and does not where the service
/// answers with status 8; nothing else settles it.
pub proof fn status_eight_means_absent(
    reply: Result<Vec<u8>, Failure>,
    found: Result<bool, Failure>,
    present: bool,
)
    requires
        call_ensures(AfcClient::try_exists, (reply,), found),
        call_ensures(AfcClient::is_present, (reply,), present),
    ensures
        reply matches Err(Failure::Status(8)) ==> found matches Ok(false),
        found matches Ok(false) ==> reply matches Err(Failure::Status(8)),
        reply matches Err(given) && !(given matches Failure::Status(8)) ==> found is Err,
        found matches Ok(true) ==> reply is Ok,
        reply matches Ok(data) && fields(data@).len() % 2 == 0 && (forall|i: int|
            0 <= i < fields(data@).len() ==> valid_utf8(#[trigger] fields(data@)[i]))
            ==> found matches Ok(true),
        present <==> (found matches Ok(true)),
{
}

/// The calls name the path, ended by a zero byte, and nothing else: operation 10 asks
/// for information and operation 3 for a list, and both expect data. A path with a
/// zero byte in it is not sent.
pub proof fn calls_name_their_path(
    path: &str,
    info: Result<Request, Failure>,
    list: Result<Request, Failure>,
)
    requires
        call_ensures(AfcClient::try_exists_request, (path,), info),
        call_ensures(AfcClient::list_directory_request, (path,), list),
    ensures
        info is Ok <==> !encode_utf8(path@).contains(0u8),
        list is Ok <==> !encode_utf8(path@).contains(0u8),
        info matches Ok(r) ==> r.op == 10 && r.expected == 2 && r.payload@.len() == 0 && r.args@
            == encode_utf8(path@) + seq![0u8],
        list matches Ok(r) ==> r.op == 3 && r.expected == 2 && r.payload@.len() == 0 && r.args@
            == encode_utf8(path@) + seq![0u8],
{
    assert(path_bytes(path@) =~= encode_utf8(path@) + seq![0u8]);
    if let Ok(r) = info {
        assert(r@.args == r.args@ && r@.payload == r.payload@);
    }
    if let Ok(r) = list {
        assert(r@.args == r.args@ && r@.payload == r.payload@);
    }
}

} // verus!
