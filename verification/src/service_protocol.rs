//! Property lists behind a length, as the phone's services exchange them.
use crate::failure::Failure;
use crate::value::{comes_back, no_list, parse, plist_binary, plist_parsed, to_binary, Plist, Tree};
use crate::wire::{
    be, be_len, be_round_trip, be_value, byte_orders, capacities, copy_range, le, le_len,
    le_round_trip, le_value, push_be, push_bytes, push_le, read_be, read_le,
};
use vstd::prelude::*;

verus! {

broadcast use {le_len, be_len};

/// The longest message.
pub const LIMIT: usize = 33_554_432;

/// The length of a message in front of it.
pub open spec fn length_field(n: nat, little: bool) -> Seq<u8> {
    if little {
        le(n, 4)
    } else {
        be(n, 4)
    }
}

/// The number that a length field holds.
pub open spec fn length_value(header: Seq<u8>, little: bool) -> nat {
    if little {
        le_value(header)
    } else {
        be_value(header)
    }
}

/// A body behind its length.
pub open spec fn framed(body: Seq<u8>, little: bool) -> Seq<u8> {
    length_field(body.len(), little) + body
}

/// What stands at the front of a byte stream.
pub ghost enum Front {
    /// The stream ends before the message does.
    Short,
    /// The length is zero or too large.
    BadLength,
    /// The body is no property list.
    BadBody,
    /// A message with this value.
    Message(Tree),
}

/// The message at the front of a byte stream.
pub open spec fn front(input: Seq<u8>, little: bool) -> Front {
    if input.len() < 4 {
        Front::Short
    } else {
        let n = length_value(input.take(4), little);
        if n == 0 || n > LIMIT {
            Front::BadLength
        } else if input.len() < 4 + n {
            Front::Short
        } else {
            match plist_parsed(input.subrange(4, 4 + n as int)) {
                Some(tree) => Front::Message(tree),
                None => Front::BadBody,
            }
        }
    }
}

/// A length field gives back the length it was made for.
pub proof fn length_round_trip(n: nat, little: bool)
    requires
        n <= u32::MAX,
    ensures
        length_value(length_field(n, little), little) == n,
        length_field(n, little).len() == 4,
{
    capacities();
    le_round_trip(n, 4);
    be_round_trip(n, 4);
}

/// A framed body stands at the front of every stream that begins with it.
pub proof fn framed_is_front(body: Seq<u8>, rest: Seq<u8>, little: bool)
    requires
        0 < body.len() <= LIMIT,
    ensures
        front(framed(body, little) + rest, little) == match plist_parsed(body) {
            Some(tree) => Front::Message(tree),
            None => Front::BadBody,
        },
{
    length_round_trip(body.len(), little);
    let input = framed(body, little) + rest;
    assert(input.take(4) =~= length_field(body.len(), little));
    assert(input.subrange(4, 4 + body.len() as int) =~= body);
}

/// The bytes that send a value. It fails where the value is too large. Whoever
/// reads them, whatever follows, gets the value back.
pub fn send_plist(value: &Plist, little: bool) -> (bytes: Result<Vec<u8>, Failure>)
    ensures
        match bytes {
            Ok(bytes) => plist_binary(value.tree()).len() <= LIMIT && bytes@ == framed(
                plist_binary(value.tree()),
                little,
            ) && (comes_back(value.tree()) ==> forall|rest: Seq<u8>|
                #[trigger] front(bytes@ + rest, little) == Front::Message(value.tree())),
            Err(failure) => plist_binary(value.tree()).len() > LIMIT && failure.says(
                "Service message too large"@,
            ),
        },
{
    let body: Vec<u8> = to_binary(value);
    if body.len() > LIMIT {
        return Err(Failure::said("Service message too large"));
    }
    let mut bytes: Vec<u8> = Vec::new();
    if little {
        push_le(&mut bytes, body.len() as u64, 4);
    } else {
        push_be(&mut bytes, body.len() as u64, 4);
    }
    push_bytes(&mut bytes, body.as_slice());
    assert(bytes@ =~= framed(body@, little));
    proof {
        if comes_back(value.tree()) {
            assert forall|rest: Seq<u8>| #[trigger]
                front(bytes@ + rest, little) == Front::Message(value.tree()) by {
                framed_is_front(body@, rest, little);
            }
        }
    }
    Ok(bytes)
}

/// The length of the body that a header announces.
pub fn body_length(header: &[u8], little: bool) -> (n: Result<usize, Failure>)
    requires
        header@.len() == 4,
    ensures
        match n {
            Ok(n) => 0 < n <= LIMIT && n == length_value(header@, little),
            Err(failure) => !(0 < length_value(header@, little) <= LIMIT) && failure.says(
                "Invalid service message length"@,
            ),
        },
{
    assert(header@.subrange(0, 4) =~= header@);
    let n: u64 = if little {
        read_le(header, 0, 4)
    } else {
        read_be(header, 0, 4)
    };
    if n == 0 || n > LIMIT as u64 {
        return Err(Failure::said("Invalid service message length"));
    }
    Ok(n as usize)
}

/// The value at the front of a byte stream.
pub fn receive_plist(input: &[u8], little: bool) -> (value: Result<Plist, Failure>)
    ensures
        match front(input@, little) {
            Front::Message(tree) => value matches Ok(value) && value.tree() == tree,
            Front::Short => value matches Err(failure) && failure.says(
                "failed to fill whole buffer"@,
            ),
            Front::BadLength => value matches Err(failure) && failure.says(
                "Invalid service message length"@,
            ),
            Front::BadBody => value matches Err(failure) && no_list(
                failure,
                input@.subrange(4, 4 + length_value(input@.take(4), little) as int),
            ),
        },
{
    if input.len() < 4 {
        return Err(Failure::said("failed to fill whole buffer"));
    }
    let header: Vec<u8> = copy_range(input, 0, 4);
    assert(header@ =~= input@.take(4));
    let n: usize = match body_length(header.as_slice(), little) {
        Ok(n) => n,
        Err(failure) => return Err(failure),
    };
    if input.len() - 4 < n {
        return Err(Failure::said("failed to fill whole buffer"));
    }
    let body: Vec<u8> = copy_range(input, 4, 4 + n);
    parse(body.as_slice())
}

/// The length stands in front of a message in the asked byte order, lowest byte
/// first or highest byte first, and the message follows. A message of up to 33554432
/// bytes is sent, and none beyond.
pub proof fn the_length_is_in_the_asked_order(
    value: Plist,
    little: bool,
    bytes: Result<Vec<u8>, Failure>,
)
    requires
        call_ensures(send_plist, (&value, little), bytes),
    ensures
        ({
            let body = plist_binary(value.tree());
            let n = body.len();
            &&& bytes is Ok <==> n <= 33554432
            &&& bytes matches Ok(bytes) ==> bytes@.len() == n + 4 && bytes@.skip(4) == body
            &&& bytes matches Ok(bytes) ==> (little ==> bytes@.take(4) == seq![
                (n % 256) as u8,
                (n / 256 % 256) as u8,
                (n / 65536 % 256) as u8,
                (n / 16777216 % 256) as u8,
            ])
            &&& bytes matches Ok(bytes) ==> (!little ==> bytes@.take(4) == seq![
                (n / 16777216 % 256) as u8,
                (n / 65536 % 256) as u8,
                (n / 256 % 256) as u8,
                (n % 256) as u8,
            ])
        }),
{
    let body = plist_binary(value.tree());
    byte_orders(body.len());
    if let Ok(bytes) = bytes {
        assert(bytes@.skip(4) =~= body);
        assert(bytes@.take(4) =~= length_field(body.len(), little));
    }
}

/// A message that comes behind its length, in the asked byte order, is received; one
/// whose length is zero or beyond 33554432, or that is cut short, is refused.
pub proof fn a_message_behind_its_length_is_received(
    a: u8,
    b: u8,
    c: u8,
    d: u8,
    rest: Seq<u8>,
    little: bool,
    input: &[u8],
    value: Result<Plist, Failure>,
)
    requires
        input@ == seq![a, b, c, d] + rest,
        call_ensures(receive_plist, (input, little), value),
    ensures
        ({
            let n = if little {
                a + 256 * b + 65536 * c + 16777216 * d
            } else {
                d + 256 * c + 65536 * b + 16777216 * a
            };
            &&& !(0 < n <= 33554432) ==> value is Err
            &&& rest.len() < n ==> value is Err
            &&& 0 < n <= 33554432 && n <= rest.len() ==> match plist_parsed(rest.take(n)) {
                Some(tree) => value matches Ok(value) && value.tree() == tree,
                None => value is Err,
            }
        }),
{
    reveal_with_fuel(le_value, 5);
    let header = input@.take(4);
    assert(header =~= seq![a, b, c, d]);
    assert(header.reverse() =~= seq![d, c, b, a]);
    let h = if little {
        header
    } else {
        header.reverse()
    };
    assert(h.drop_first()[0] == h[1]);
    assert(h.drop_first().drop_first()[0] == h[2]);
    assert(h.drop_first().drop_first().drop_first()[0] == h[3]);
    let n = length_value(header, little);
    if n <= rest.len() {
        assert(input@.subrange(4, 4 + n as int) =~= rest.take(n as int));
    }
}

} // verus!
