//! Dates in property lists: which of them can be read from a list, and which of
//! them can be printed.
use crate::markup::{
    a_bare_tag_is_found, content, find_first, first_of, name_is, piece_at, plain_text_is_held,
    read_content, read_token, stands_at, the_first_place_is_first, token, Found, Token,
};
use vstd::prelude::*;

verus! {

/// `bplist00`, with which every binary property list begins.
pub const BINARY_HEADER: [u8; 8] = [98, 112, 108, 105, 115, 116, 48, 48];

/// `9999-12-31`, the last day of the calendar.
pub const LAST_DAY: [u8; 10] = [57, 57, 57, 57, 45, 49, 50, 45, 51, 49];

/// `date`, the name of the element that holds a date.
pub const DATE_NAME: [u8; 4] = [100, 97, 116, 101];

/// The seconds from the first moment of year 0 to that of 1970.
pub const SECONDS_BEFORE: u64 = 62_167_219_200;

/// The seconds from the first moment of 1970 to the last second of year 9999.
pub const SECONDS_AFTER: u64 = 253_402_300_799;

/// A moment so far before or after the first of 1970 lies in the years 0 to 9999.
pub open spec fn in_calendar(before: bool, seconds: u64, nanos: u32) -> bool {
    if before {
        seconds < SECONDS_BEFORE || (seconds == SECONDS_BEFORE && nanos == 0)
    } else {
        seconds <= SECONDS_AFTER
    }
}

/// The list is a binary one.
pub open spec fn is_binary(bytes: Seq<u8>) -> bool {
    stands_at(bytes, 0, BINARY_HEADER@)
}

/// The text has two decimal digits there.
pub open spec fn has_pair(text: Seq<u8>, at: int) -> bool {
    48 <= text[at] <= 57 && 48 <= text[at + 1] <= 57
}

/// The number that two decimal digits make.
pub open spec fn pair(text: Seq<u8>, at: int) -> int {
    10 * (text[at] - 48) + (text[at + 1] - 48)
}

/// A text such as `9999-12-31T23:59:59-01:00`: a time on the last day of the calendar
/// that, in its zone, comes after the end of the calendar.
pub open spec fn leads_out(text: Seq<u8>) -> bool {
    let end = text.len() as int;
    &&& end >= 25
    &&& stands_at(text, 0, LAST_DAY@)
    &&& has_pair(text, 11) && has_pair(text, 14)
    &&& text[end - 6] == 45
    &&& has_pair(text, end - 5) && has_pair(text, end - 2)
    &&& 60 * pair(text, 11) + pair(text, 14) + 60 * pair(text, end - 5) + pair(text, end - 2) >= 1440
}

/// What the elements of a property list are read as.
#[derive(Debug, Clone, Copy, PartialEq, Eq, Structural)]
pub enum Kind {
    /// A date.
    Date,
    /// Text of another kind.
    Leaf,
    /// A frame around other elements, or a truth value.
    Node,
    /// Nothing that a list holds.
    Other,
}

/// `key`
pub const KEY_NAME: [u8; 3] = [107, 101, 121];

/// `data`
pub const DATA_NAME: [u8; 4] = [100, 97, 116, 97];

/// `integer`
pub const INTEGER_NAME: [u8; 7] = [105, 110, 116, 101, 103, 101, 114];

/// `real`
pub const REAL_NAME: [u8; 4] = [114, 101, 97, 108];

/// `string`
pub const STRING_NAME: [u8; 6] = [115, 116, 114, 105, 110, 103];

/// `plist`
pub const PLIST_NAME: [u8; 5] = [112, 108, 105, 115, 116];

/// `array`
pub const ARRAY_NAME: [u8; 5] = [97, 114, 114, 97, 121];

/// `dict`
pub const DICT_NAME: [u8; 4] = [100, 105, 99, 116];

/// `true`
pub const TRUE_NAME: [u8; 4] = [116, 114, 117, 101];

/// `false`
pub const FALSE_NAME: [u8; 5] = [102, 97, 108, 115, 101];

/// What an element with this name is read as.
pub open spec fn kind_of(name: Seq<u8>) -> Kind {
    if name == DATE_NAME@ {
        Kind::Date
    } else if name == KEY_NAME@ || name == DATA_NAME@ || name == INTEGER_NAME@ || name == REAL_NAME@ || name == STRING_NAME@ {
        Kind::Leaf
    } else if name == PLIST_NAME@ || name == ARRAY_NAME@ || name == DICT_NAME@ || name == TRUE_NAME@ || name == FALSE_NAME@ {
        Kind::Node
    } else {
        Kind::Other
    }
}

/// Where a name begins behind its prefix.
pub open spec fn local_name(bytes: Seq<u8>, from: int, to: int) -> int {
    let colon = first_of(bytes, from, seq![58u8]);
    if colon < to {
        colon + 1
    } else {
        from
    }
}

/// The text is more than white space, as one of its ASCII characters shows.
pub open spec fn has_words(bytes: Seq<u8>, from: int, to: int) -> bool {
    exists|k: int| from <= k < to && is_visible(#[trigger] bytes[k])
}

/// An ASCII character that is no white space.
pub open spec fn is_visible(byte: u8) -> bool {
    byte < 128 && byte != 32 && !(9 <= byte <= 13)
}

/// No date that is read from `at` on leads out of the calendar. Reading goes on until
/// something stands there that a property list cannot hold.
pub open spec fn dates_stay(bytes: Seq<u8>, at: int) -> bool
    decreases bytes.len() - at,
{
    match token(bytes, at) {
        Token::Stop => true,
        Token::Text(to) => has_words(bytes, at, to) || !(at < to <= bytes.len()) || dates_stay(
            bytes,
            to,
        ),
        Token::Reference(to) => bytes[at + 1] != 35 || !(at < to <= bytes.len()) || dates_stay(
            bytes,
            to,
        ),
        Token::Skip(to) => !(at < to <= bytes.len()) || dates_stay(bytes, to),
        Token::Close(to) => !(at < to <= bytes.len()) || dates_stay(bytes, to),
        Token::Open(from, to, empty, after) => {
            let kind = kind_of(bytes.subrange(local_name(bytes, from, to), to));
            if !(at < after <= bytes.len()) || kind == Kind::Other || (kind == Kind::Date && empty) {
                true
            } else if kind == Kind::Node || empty {
                dates_stay(bytes, after)
            } else {
                match content(bytes, after, Seq::empty()) {
                    None => true,
                    Some((text, next)) => !(kind == Kind::Date && leads_out(text)) && (!(at < next
                        <= bytes.len()) || dates_stay(bytes, next)),
                }
            }
        },
    }
}

/// Every date in a list that is not binary stays in the calendar.
pub open spec fn dates_read(bytes: Seq<u8>) -> bool {
    is_binary(bytes) || dates_stay(bytes, 0)
}

fn digit_pair(text: &[u8], at: usize) -> (n: Option<u32>)
    requires
        at + 1 < text@.len(),
    ensures
        match n {
            Some(n) => has_pair(text@, at as int) && n == pair(text@, at as int) && n < 100,
            None => !has_pair(text@, at as int),
        },
{
    let (high, low): (u8, u8) = (text[at], text[at + 1]);
    if 48 <= high && high <= 57 && 48 <= low && low <= 57 {
        Some(10 * (high - 48) as u32 + (low - 48) as u32)
    } else {
        None
    }
}

/// Whether a date text leads out of the calendar.
fn leaves_calendar(text: &[u8]) -> (yes: bool)
    ensures
        yes == leads_out(text@),
{
    let end: usize = text.len();
    if end < 25 || !piece_at(text, 0, &LAST_DAY) || text[end - 6] != 45 {
        return false;
    }
    match (
        digit_pair(text, 11),
        digit_pair(text, 14),
        digit_pair(text, end - 5),
        digit_pair(text, end - 2),
    ) {
        (Some(hour), Some(minute), Some(hours), Some(minutes)) => 60 * hour + minute + 60 * hours
            + minutes >= 1440,
        _ => false,
    }
}

fn find_kind(bytes: &[u8], from: usize, to: usize) -> (kind: Kind)
    requires
        from <= to <= bytes@.len(),
    ensures
        kind == kind_of(bytes@.subrange(local_name(bytes@, from as int, to as int), to as int)),
{
    let mark: [u8; 1] = [58];
    assert(mark@ =~= seq![58u8]);
    let colon: usize = find_first(bytes, from, &mark);
    let start: usize = if colon < to {
        colon + 1
    } else {
        from
    };
    if name_is(bytes, start, to, &DATE_NAME) {
        Kind::Date
    } else if name_is(bytes, start, to, &KEY_NAME) || name_is(bytes, start, to, &DATA_NAME) || name_is(bytes, start, to, &INTEGER_NAME) || name_is(bytes, start, to, &REAL_NAME) || name_is(bytes, start, to, &STRING_NAME) {
        Kind::Leaf
    } else if name_is(bytes, start, to, &PLIST_NAME) || name_is(bytes, start, to, &ARRAY_NAME) || name_is(bytes, start, to, &DICT_NAME) || name_is(bytes, start, to, &TRUE_NAME) || name_is(bytes, start, to, &FALSE_NAME) {
        Kind::Node
    } else {
        Kind::Other
    }
}

fn finds_words(bytes: &[u8], from: usize, to: usize) -> (yes: bool)
    requires
        from <= to <= bytes@.len(),
    ensures
        yes == has_words(bytes@, from as int, to as int),
{
    let mut k: usize = from;
    while k < to
        invariant
            from <= k <= to <= bytes@.len(),
            forall|i: int| from <= i < k ==> !is_visible(#[trigger] bytes@[i]),
        decreases to - k,
    {
        let byte: u8 = bytes[k];
        if byte < 128 && byte != 32 && !(9 <= byte && byte <= 13) {
            assert(is_visible(bytes@[k as int]));
            return true;
        }
        k = k + 1;
    }
    false
}

/// Whether every date of a list can be read.
pub fn all_dates_read(bytes: &[u8]) -> (yes: bool)
    ensures
        yes == dates_read(bytes@),
{
    if piece_at(bytes, 0, &BINARY_HEADER) {
        return true;
    }
    let mut at: usize = 0;
    loop
        invariant
            at <= bytes@.len(),
            !is_binary(bytes@),
            dates_stay(bytes@, 0) == dates_stay(bytes@, at as int),
        decreases bytes@.len() - at,
    {
        match read_token(bytes, at) {
            Found::Stop => return true,
            Found::Text(to) => {
                if finds_words(bytes, at, to) {
                    return true;
                }
                at = to;
            },
            Found::Reference(to) => {
                if bytes[at + 1] != 35 {
                    return true;
                }
                at = to;
            },
            Found::Skip(to) => {
                at = to;
            },
            Found::Close(to) => {
                at = to;
            },
            Found::Open(from, to, empty, after) => {
                let kind: Kind = find_kind(bytes, from, to);
                if kind == Kind::Other || (kind == Kind::Date && empty) {
                    return true;
                }
                if kind == Kind::Node || empty {
                    at = after;
                } else {
                    match read_content(bytes, after) {
                        None => return true,
                        Some((text, next)) => {
                            if kind == Kind::Date && leaves_calendar(text.as_slice()) {
                                return false;
                            }
                            at = next;
                        },
                    }
                }
            },
        }
    }
}

/// Whether a moment lies in the years 0 to 9999.
pub fn lies_in_calendar(before: bool, seconds: u64, nanos: u32) -> (yes: bool)
    ensures
        yes == in_calendar(before, seconds, nanos),
{
    if before {
        seconds < SECONDS_BEFORE || (seconds == SECONDS_BEFORE && nanos == 0)
    } else {
        seconds <= SECONDS_AFTER
    }
}

/// The years 0 to 9999 of the calendar: a moment lies in them exactly where it comes no
/// earlier than their first and no later than their last second. A year has 365 days
/// and, where it is divisible by 4 but not by 100, or by 400, one more.
pub proof fn the_calendar_has_ten_thousand_years(before: bool, seconds: u64, nanos: u32, yes: bool)
    requires
        call_ensures(lies_in_calendar, (before, seconds, nanos), yes),
    ensures
        ({
            let to_1970: int = 86400 * (365 * 1970 + 493 - 20 + 5);
            let whole: int = 86400 * (365 * 10000 + 2500 - 100 + 25);
            &&& before ==> (yes <==> seconds < to_1970 || (seconds == to_1970 && nanos == 0))
            &&& !before ==> (yes <==> to_1970 + seconds < whole)
        }),
{
}

/// At `at` stands an element with this bare name that holds plain text, which ends at
/// `slash`; its closing tag ends at `close`.
pub open spec fn holds_text(bytes: Seq<u8>, at: int, name: Seq<u8>, slash: int, close: int) -> bool {
    let end = at + 1 + name.len();
    &&& 0 <= at
    &&& end < slash
    &&& slash + 1 < close < bytes.len()
    &&& bytes[at] == 60
    &&& bytes.subrange(at + 1, end) == name
    &&& bytes[end] == 62
    &&& forall|k: int| end < k < slash ==> #[trigger] bytes[k] != 60 && bytes[k] != 38
    &&& bytes[slash] == 60
    &&& bytes[slash + 1] == 47
    &&& bytes[close] == 62
    &&& forall|k: int|
        slash < k < close ==> #[trigger] bytes[k] != 62 && bytes[k] != 34 && bytes[k] != 39
}

/// A date decides by its text: the dates from there on stay in the calendar exactly
/// where its own text does and those behind it do. Text of another kind, even if it
/// reads like a date, decides nothing.
pub proof fn a_date_decides_by_its_text(bytes: Seq<u8>, at: int, name: Seq<u8>, slash: int, close: int)
    requires
        name == seq![100u8, 97, 116, 101] || name == seq![115u8, 116, 114, 105, 110, 103],
        holds_text(bytes, at, name, slash, close),
    ensures
        name == seq![100u8, 97, 116, 101] ==> (dates_stay(bytes, at) <==> !leads_out(
            bytes.subrange(at + 6, slash),
        ) && dates_stay(bytes, close + 1)),
        name == seq![115u8, 116, 114, 105, 110, 103] ==> (dates_stay(bytes, at) <==> dates_stay(
            bytes,
            close + 1,
        )),
{
    let end = at + 1 + name.len();
    assert forall|k: int| at < k < end implies #[trigger] bytes[k] == name[k - at - 1] by {
        assert(bytes.subrange(at + 1, end)[k - at - 1] == bytes[k]);
    }
    assert(bytes[at + 1] == name[0]);
    assert(bytes[end - 1] == name[name.len() - 1]);
    a_bare_tag_is_found(bytes, at, end);
    plain_text_is_held(bytes, end + 1, slash, close, Seq::empty());
    let text = bytes.subrange(end + 1, slash);
    assert(Seq::<u8>::empty() + text =~= text);
    let colon = first_of(bytes, at + 1, seq![58u8]);
    the_first_place_is_first(bytes, at + 1, seq![58u8]);
    if colon < end {
        assert(bytes[colon] == name[colon - at - 1]);
        assert(seq![58u8].contains(bytes[colon]));
        assert(bytes[colon] == 58);
        assert(false);
    }
    assert(local_name(bytes, at + 1, end) == at + 1);
    assert(DATE_NAME@ =~= seq![100u8, 97, 116, 101]);
    assert(STRING_NAME@ =~= seq![115u8, 116, 114, 105, 110, 103]);
    assert(STRING_NAME@.len() == 6 && DATE_NAME@.len() == 4);
}

/// A binary list is not looked into: its dates are read whatever its bytes are.
pub proof fn binary_lists_are_read(bytes: &[u8], yes: bool)
    requires
        call_ensures(all_dates_read, (bytes,), yes),
        bytes@.len() >= 8,
        bytes@.take(8) == seq![98u8, 112, 108, 105, 115, 116, 48, 48],
    ensures
        yes,
{
    assert(BINARY_HEADER@ =~= seq![98u8, 112, 108, 105, 115, 116, 48, 48]);
    assert(bytes@.subrange(0, 8) =~= bytes@.take(8));
}

} // verus!
