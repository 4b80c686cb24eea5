//! XML markup, as far as it takes to find the dates of a property list: the pieces
//! that a reader takes a text apart into, and what an element holds.
use crate::text::{decimal, digit, hex, hexadecimal_of_a_byte};
use vstd::prelude::*;

verus! {

/// The piece stands at that place.
pub open spec fn stands_at(bytes: Seq<u8>, at: int, piece: Seq<u8>) -> bool {
    0 <= at && at + piece.len() <= bytes.len() && bytes.subrange(at, at + piece.len()) == piece
}

/// The first place from `at` on where one of the listed bytes stands, or the end.
pub open spec fn first_of(bytes: Seq<u8>, at: int, list: Seq<u8>) -> int
    decreases bytes.len() - at,
{
    if at >= bytes.len() {
        bytes.len() as int
    } else if list.contains(bytes[at]) {
        at
    } else {
        first_of(bytes, at + 1, list)
    }
}

/// Where the piece first ends that begins at `at` or later; the end of the bytes and
/// one more where it does not occur.
pub open spec fn past(bytes: Seq<u8>, at: int, piece: Seq<u8>) -> int
    decreases bytes.len() - at,
{
    if at >= bytes.len() {
        bytes.len() as int + 1
    } else if stands_at(bytes, at, piece) {
        at + piece.len()
    } else {
        past(bytes, at + 1, piece)
    }
}

/// Where the tag ends that is being read from `at` on: at the first `>` outside
/// quotations, or nowhere, which is the end of the bytes. `quote` is the mark that
/// closes the quotation at `at`, and 0 outside quotations.
pub open spec fn tag_end(bytes: Seq<u8>, at: int, quote: u8) -> int
    decreases bytes.len() - at,
{
    if at >= bytes.len() {
        bytes.len() as int
    } else if quote == 0 && bytes[at] == 62 {
        at
    } else {
        tag_end(bytes, at + 1, quote_after(quote, bytes[at]))
    }
}

/// The mark that closes the quotation after one more byte.
pub open spec fn quote_after(quote: u8, byte: u8) -> u8 {
    if quote == 0 && (byte == 34 || byte == 39) {
        byte
    } else if byte == quote {
        0
    } else {
        quote
    }
}

/// White space inside a tag.
pub open spec fn is_gap(byte: u8) -> bool {
    byte == 32 || byte == 9 || byte == 10 || byte == 13
}

/// Where the name of a tag ends: at the first white space, or where the tag does.
pub open spec fn name_end(bytes: Seq<u8>, at: int, tag: int) -> int
    decreases tag - at,
{
    if at >= tag || is_gap(bytes[at]) {
        at
    } else {
        name_end(bytes, at + 1, tag)
    }
}

/// `<!--`
pub const COMMENT: [u8; 4] = [60, 33, 45, 45];

/// `-->`
pub const COMMENT_END: [u8; 3] = [45, 45, 62];

/// `<![CDATA[`
pub const VERBATIM: [u8; 9] = [60, 33, 91, 67, 68, 65, 84, 65, 91];

/// `]]>`
pub const VERBATIM_END: [u8; 3] = [93, 93, 62];

/// `<?`
pub const INSTRUCTION: [u8; 2] = [60, 63];

/// `?>`
pub const INSTRUCTION_END: [u8; 2] = [63, 62];

/// `<!ELEMENT`
pub const ELEMENT: [u8; 9] = [60, 33, 69, 76, 69, 77, 69, 78, 84];

/// `<!ENTITY`
pub const ENTITY: [u8; 8] = [60, 33, 69, 78, 84, 73, 84, 89];

/// `<!ATTLIST`
pub const ATTLIST: [u8; 9] = [60, 33, 65, 84, 84, 76, 73, 83, 84];

/// `<!NOTATION`
pub const NOTATION: [u8; 10] = [60, 33, 78, 79, 84, 65, 84, 73, 79, 78];

/// Where a declaration ends that begins at `at`, among those of a document type.
pub open spec fn declaration_end(bytes: Seq<u8>, at: int) -> int {
    if stands_at(bytes, at, INSTRUCTION@) {
        past(bytes, at + 2, INSTRUCTION_END@)
    } else if stands_at(bytes, at, COMMENT@) {
        past(bytes, at + 4, COMMENT_END@)
    } else if stands_at(bytes, at, ELEMENT@) {
        first_of(bytes, at + 9, seq![62u8]) + 1
    } else if stands_at(bytes, at, ENTITY@) {
        tag_end(bytes, at + 8, 0) + 1
    } else if stands_at(bytes, at, ATTLIST@) {
        tag_end(bytes, at + 9, 0) + 1
    } else if stands_at(bytes, at, NOTATION@) {
        tag_end(bytes, at + 10, 0) + 1
    } else {
        first_of(bytes, at + 1, seq![62u8]) + 1
    }
}

/// Where a document type ends whose list of declarations is being read from `at` on.
pub open spec fn subset_end(bytes: Seq<u8>, at: int) -> int
    decreases bytes.len() - at,
{
    if at >= bytes.len() {
        bytes.len() as int + 1
    } else if bytes[at] == 93 {
        first_of(bytes, at + 1, seq![62u8]) + 1
    } else if bytes[at] != 60 {
        subset_end(bytes, at + 1)
    } else if at < declaration_end(bytes, at) <= bytes.len() {
        subset_end(bytes, declaration_end(bytes, at))
    } else {
        bytes.len() as int + 1
    }
}

/// Where a document type ends that is being read from `at` on, with the quotation
/// that is open there.
pub open spec fn type_end(bytes: Seq<u8>, at: int, quote: u8) -> int
    decreases bytes.len() - at,
{
    if at >= bytes.len() {
        bytes.len() as int + 1
    } else if quote == 0 && bytes[at] == 62 {
        at + 1
    } else if quote == 0 && bytes[at] == 91 {
        subset_end(bytes, at + 1)
    } else {
        type_end(bytes, at + 1, quote_after(quote, bytes[at]))
    }
}

/// What a reader of markup finds at a place.
pub ghost enum Token {
    /// The end, or something that it cannot read.
    Stop,
    /// Text up to that place.
    Text(int),
    /// A reference up to that place.
    Reference(int),
    /// Something without meaning up to that place: a comment, a verbatim section, an
    /// instruction or a document type.
    Skip(int),
    /// An opening tag up to the last place; its name lies between the first two. The
    /// flag says that it closes itself.
    Open(int, int, bool, int),
    /// A closing tag up to that place.
    Close(int),
}

/// What is skipped up to `to`, where the bytes reach so far.
pub open spec fn skipped(bytes: Seq<u8>, to: int) -> Token {
    if to <= bytes.len() {
        Token::Skip(to)
    } else {
        Token::Stop
    }
}

/// What a `<` begins.
pub open spec fn markup_at(bytes: Seq<u8>, at: int) -> Token {
    let tag = tag_end(bytes, at + 1, 0);
    if at + 1 >= bytes.len() {
        Token::Stop
    } else if stands_at(bytes, at, COMMENT@) {
        skipped(bytes, past(bytes, at + 4, COMMENT_END@))
    } else if stands_at(bytes, at, VERBATIM@) {
        skipped(bytes, past(bytes, at + 9, VERBATIM_END@))
    } else if bytes[at + 1] == 33 {
        if at + 2 < bytes.len() && (bytes[at + 2] == 68 || bytes[at + 2] == 100) {
            skipped(bytes, type_end(bytes, at + 2, 0))
        } else {
            Token::Stop
        }
    } else if bytes[at + 1] == 63 {
        if stands_at(bytes, at + 1, INSTRUCTION_END@) {
            Token::Stop
        } else {
            skipped(bytes, past(bytes, at + 2, INSTRUCTION_END@))
        }
    } else if tag >= bytes.len() {
        Token::Stop
    } else if bytes[at + 1] == 47 {
        Token::Close(tag + 1)
    } else if tag > at + 1 && bytes[tag - 1] == 47 {
        Token::Open(at + 1, name_end(bytes, at + 1, tag - 1), true, tag + 1)
    } else {
        Token::Open(at + 1, name_end(bytes, at + 1, tag), false, tag + 1)
    }
}

/// What a reader finds at a place between two tags.
pub open spec fn token(bytes: Seq<u8>, at: int) -> Token {
    let end = first_of(bytes, at + 1, seq![59u8, 38u8, 60u8]);
    if at >= bytes.len() {
        Token::Stop
    } else if bytes[at] == 60 {
        markup_at(bytes, at)
    } else if bytes[at] != 38 {
        Token::Text(first_of(bytes, at, seq![60u8, 38u8]))
    } else if end < bytes.len() && bytes[end] == 59 {
        Token::Reference(end + 1)
    } else {
        Token::Stop
    }
}

/// The number that digits make, if they are all digits to that base.
pub open spec fn number_of(digits: Seq<u8>, base: nat) -> Option<nat>
    decreases digits.len(),
{
    if digits.len() == 0 {
        Some(0)
    } else {
        match (number_of(digits.drop_last(), base), digit_value(digits.last())) {
            (Some(high), Some(low)) => if low < base {
                Some(high * base + low)
            } else {
                None
            },
            _ => None,
        }
    }
}

/// What a digit stands for.
pub open spec fn digit_value(byte: u8) -> Option<nat> {
    if 48 <= byte <= 57 {
        Some((byte - 48) as nat)
    } else if 97 <= byte <= 102 {
        Some((byte - 87) as nat)
    } else if 65 <= byte <= 70 {
        Some((byte - 55) as nat)
    } else {
        None
    }
}

/// The bytes of the character with this number. Characters beyond ASCII stand as two
/// bytes that no text has.
pub open spec fn character(number: nat) -> Option<Seq<u8>> {
    if number == 0 || number > 0x10_FFFF {
        None
    } else if number < 128 {
        Some(seq![number as u8])
    } else {
        Some(seq![255u8, 255u8])
    }
}

/// What a reference with this name stands for: a number with `#` its character, the
/// five names of XML theirs, and any other name nothing. A number that is none cannot
/// be read.
pub open spec fn referred(name: Seq<u8>) -> Option<Seq<u8>> {
    if name.len() > 0 && name[0] == 35 {
        let hexadecimal = name.len() > 1 && name[1] == 120;
        let digits = name.skip(if hexadecimal {
            2
        } else {
            1
        });
        match number_of(
            digits,
            if hexadecimal {
                16
            } else {
                10
            },
        ) {
            Some(number) => character(number),
            None => None,
        }
    } else if name == seq![108u8, 116u8] {
        Some(seq![60u8])
    } else if name == seq![103u8, 116u8] {
        Some(seq![62u8])
    } else if name == seq![97u8, 109u8, 112u8] {
        Some(seq![38u8])
    } else if name == seq![97u8, 112u8, 111u8, 115u8] {
        Some(seq![39u8])
    } else if name == seq![113u8, 117u8, 111u8, 116u8] {
        Some(seq![34u8])
    } else {
        Some(Seq::empty())
    }
}

/// What an element holds whose contents are being read from `at` on, when `text` was
/// there before, and where it is closed. There is none where the contents cannot be
/// read, or where another element is opened.
pub open spec fn content(bytes: Seq<u8>, at: int, text: Seq<u8>) -> Option<(Seq<u8>, int)>
    decreases bytes.len() - at,
{
    match token(bytes, at) {
        Token::Text(to) => if at < to <= bytes.len() {
            content(bytes, to, text + bytes.subrange(at, to))
        } else {
            None
        },
        Token::Reference(to) => if at < to <= bytes.len() {
            match referred(bytes.subrange(at + 1, to - 1)) {
                Some(piece) => content(bytes, to, text + piece),
                None => None,
            }
        } else {
            None
        },
        Token::Skip(to) => if at < to <= bytes.len() {
            content(bytes, to, text)
        } else {
            None
        },
        Token::Close(to) => Some((text, to)),
        _ => None,
    }
}

/// What a reader of markup finds at a place.
pub enum Found {
    Stop,
    Text(usize),
    Reference(usize),
    Skip(usize),
    Open(usize, usize, bool, usize),
    Close(usize),
}

impl View for Found {
    type V = Token;

    open spec fn view(&self) -> Token {
        match self {
            Found::Stop => Token::Stop,
            Found::Text(to) => Token::Text(*to as int),
            Found::Reference(to) => Token::Reference(*to as int),
            Found::Skip(to) => Token::Skip(*to as int),
            Found::Open(from, to, empty, after) => Token::Open(
                *from as int,
                *to as int,
                *empty,
                *after as int,
            ),
            Found::Close(to) => Token::Close(*to as int),
        }
    }
}

/// Whether a piece stands at a place.
pub fn piece_at(bytes: &[u8], at: usize, piece: &[u8]) -> (yes: bool)
    ensures
        yes == stands_at(bytes@, at as int, piece@),
{
    if at > bytes.len() || bytes.len() - at < piece.len() {
        return false;
    }
    let end: usize = at + piece.len();
    let mut i: usize = 0;
    while i < piece.len()
        invariant
            end == at + piece@.len(),
            end <= bytes@.len(),
            i <= piece@.len(),
            forall|k: int| 0 <= k < i ==> bytes@[at + k] == #[trigger] piece@[k],
        decreases piece@.len() - i,
    {
        if bytes[at + i] != piece[i] {
            assert(bytes@.subrange(at as int, at + piece@.len())[i as int] == bytes@[at + i]);
            return false;
        }
        i = i + 1;
    }
    assert(bytes@.subrange(at as int, at + piece@.len()) =~= piece@);
    true
}

fn listed(list: &[u8], byte: u8) -> (yes: bool)
    ensures
        yes == list@.contains(byte),
{
    let mut i: usize = 0;
    while i < list.len()
        invariant
            i <= list@.len(),
            forall|k: int| 0 <= k < i ==> list@[k] != byte,
        decreases list@.len() - i,
    {
        if list[i] == byte {
            assert(list@[i as int] == byte);
            return true;
        }
        i = i + 1;
    }
    false
}

/// The first place from `from` on where one of the listed bytes stands.
pub fn find_first(bytes: &[u8], from: usize, list: &[u8]) -> (at: usize)
    requires
        from <= bytes@.len(),
    ensures
        at == first_of(bytes@, from as int, list@),
        from <= at <= bytes@.len(),
        at < bytes@.len() ==> list@.contains(bytes@[at as int]),
{
    let mut at: usize = from;
    while at < bytes.len() && !listed(list, bytes[at])
        invariant
            from <= at <= bytes@.len(),
            first_of(bytes@, from as int, list@) == first_of(bytes@, at as int, list@),
        decreases bytes@.len() - at,
    {
        at = at + 1;
    }
    at
}

fn find_past(bytes: &[u8], from: usize, piece: &[u8]) -> (to: Option<usize>)
    ensures
        match to {
            Some(to) => to == past(bytes@, from as int, piece@) && from <= to <= bytes@.len(),
            None => past(bytes@, from as int, piece@) > bytes@.len(),
        },
{
    let mut at: usize = from;
    while at < bytes.len()
        invariant
            from <= at,
            at <= bytes@.len() || at == from,
            past(bytes@, from as int, piece@) == past(bytes@, at as int, piece@),
        decreases bytes@.len() - at,
    {
        if piece_at(bytes, at, piece) {
            return Some(at + piece.len());
        }
        at = at + 1;
    }
    None
}

fn next_quote(quote: u8, byte: u8) -> (next: u8)
    ensures
        next == quote_after(quote, byte),
{
    if quote == 0 && (byte == 34 || byte == 39) {
        byte
    } else if byte == quote {
        0
    } else {
        quote
    }
}

fn find_tag_end(bytes: &[u8], from: usize) -> (end: usize)
    requires
        from <= bytes@.len(),
    ensures
        end == tag_end(bytes@, from as int, 0),
        from <= end <= bytes@.len(),
{
    let mut quote: u8 = 0;
    let mut at: usize = from;
    while at < bytes.len() && !(quote == 0 && bytes[at] == 62)
        invariant
            from <= at <= bytes@.len(),
            tag_end(bytes@, from as int, 0) == tag_end(bytes@, at as int, quote),
        decreases bytes@.len() - at,
    {
        quote = next_quote(quote, bytes[at]);
        at = at + 1;
    }
    at
}

fn find_name_end(bytes: &[u8], from: usize, tag: usize) -> (end: usize)
    requires
        from <= tag <= bytes@.len(),
    ensures
        end == name_end(bytes@, from as int, tag as int),
        from <= end <= tag,
{
    let mut at: usize = from;
    while at < tag && !(bytes[at] == 32 || bytes[at] == 9 || bytes[at] == 10 || bytes[at] == 13)
        invariant
            from <= at <= tag <= bytes@.len(),
            name_end(bytes@, from as int, tag as int) == name_end(bytes@, at as int, tag as int),
        decreases tag - at,
    {
        at = at + 1;
    }
    at
}

/// The place behind `at`, where the bytes reach to `at`.
fn behind(bytes: &[u8], at: usize) -> (to: Option<usize>)
    requires
        at <= bytes@.len(),
    ensures
        match to {
            Some(to) => to == at + 1 && to <= bytes@.len(),
            None => at + 1 > bytes@.len(),
        },
{
    if at < bytes.len() {
        Some(at + 1)
    } else {
        None
    }
}

fn find_declaration_end(bytes: &[u8], at: usize) -> (to: Option<usize>)
    requires
        at < bytes@.len(),
    ensures
        match to {
            Some(to) => to == declaration_end(bytes@, at as int) && to <= bytes@.len() && to > at,
            None => declaration_end(bytes@, at as int) > bytes@.len(),
        },
{
    let close: [u8; 1] = [62];
    let count: usize = bytes.len();
    assert(close@ =~= seq![62u8]);
    assert(at < count);
    if piece_at(bytes, at, &INSTRUCTION) {
        find_past(bytes, at + 2, &INSTRUCTION_END)
    } else if piece_at(bytes, at, &COMMENT) {
        find_past(bytes, at + 4, &COMMENT_END)
    } else if piece_at(bytes, at, &ELEMENT) {
        behind(bytes, find_first(bytes, at + 9, &close))
    } else if piece_at(bytes, at, &ENTITY) {
        behind(bytes, find_tag_end(bytes, at + 8))
    } else if piece_at(bytes, at, &ATTLIST) {
        behind(bytes, find_tag_end(bytes, at + 9))
    } else if piece_at(bytes, at, &NOTATION) {
        behind(bytes, find_tag_end(bytes, at + 10))
    } else {
        behind(bytes, find_first(bytes, at + 1, &close))
    }
}

fn find_subset_end(bytes: &[u8], from: usize) -> (to: Option<usize>)
    requires
        from <= bytes@.len(),
    ensures
        match to {
            Some(to) => to == subset_end(bytes@, from as int) && from <= to <= bytes@.len(),
            None => subset_end(bytes@, from as int) > bytes@.len(),
        },
{
    let close: [u8; 1] = [62];
    assert(close@ =~= seq![62u8]);
    let mut at: usize = from;
    while at < bytes.len()
        invariant
            close@ == seq![62u8],
            from <= at <= bytes@.len(),
            subset_end(bytes@, from as int) == subset_end(bytes@, at as int),
        decreases bytes@.len() - at,
    {
        if bytes[at] == 93 {
            return behind(bytes, find_first(bytes, at + 1, &close));
        }
        if bytes[at] == 60 {
            match find_declaration_end(bytes, at) {
                Some(to) => {
                    at = to;
                },
                None => return None,
            }
        } else {
            at = at + 1;
        }
    }
    None
}

fn find_type_end(bytes: &[u8], from: usize) -> (to: Option<usize>)
    requires
        from <= bytes@.len(),
    ensures
        match to {
            Some(to) => to == type_end(bytes@, from as int, 0) && from <= to <= bytes@.len(),
            None => type_end(bytes@, from as int, 0) > bytes@.len(),
        },
{
    let mut quote: u8 = 0;
    let mut at: usize = from;
    while at < bytes.len()
        invariant
            from <= at <= bytes@.len(),
            type_end(bytes@, from as int, 0) == type_end(bytes@, at as int, quote),
        decreases bytes@.len() - at,
    {
        if quote == 0 && bytes[at] == 62 {
            return Some(at + 1);
        }
        if quote == 0 && bytes[at] == 91 {
            return find_subset_end(bytes, at + 1);
        }
        quote = next_quote(quote, bytes[at]);
        at = at + 1;
    }
    None
}

fn skip_to(to: Option<usize>) -> (found: Found)
    ensures
        found@ == match to {
            Some(to) => Token::Skip(to as int),
            None => Token::Stop,
        },
{
    match to {
        Some(to) => Found::Skip(to),
        None => Found::Stop,
    }
}

/// The token found lies within the bytes and leads on.
pub open spec fn leads_on(found: Token, at: int, len: int) -> bool {
    match found {
        Token::Stop => true,
        Token::Text(to) => at < to <= len,
        Token::Reference(to) => at + 1 < to <= len,
        Token::Skip(to) => at < to <= len,
        Token::Open(from, to, _, after) => at < from <= to <= len && at < after <= len,
        Token::Close(to) => at < to <= len,
    }
}

fn read_markup(bytes: &[u8], at: usize) -> (found: Found)
    requires
        at < bytes@.len(),
        bytes@[at as int] == 60,
    ensures
        found@ == markup_at(bytes@, at as int),
        leads_on(found@, at as int, bytes@.len() as int),
{
    if bytes.len() - at < 2 {
        return Found::Stop;
    }
    if piece_at(bytes, at, &COMMENT) {
        return skip_to(find_past(bytes, at + 4, &COMMENT_END));
    }
    if piece_at(bytes, at, &VERBATIM) {
        return skip_to(find_past(bytes, at + 9, &VERBATIM_END));
    }
    if bytes[at + 1] == 33 {
        if bytes.len() - at > 2 && (bytes[at + 2] == 68 || bytes[at + 2] == 100) {
            return skip_to(find_type_end(bytes, at + 2));
        }
        return Found::Stop;
    }
    if bytes[at + 1] == 63 {
        if piece_at(bytes, at + 1, &INSTRUCTION_END) {
            return Found::Stop;
        }
        return skip_to(find_past(bytes, at + 2, &INSTRUCTION_END));
    }
    let tag: usize = find_tag_end(bytes, at + 1);
    if tag >= bytes.len() {
        return Found::Stop;
    }
    if bytes[at + 1] == 47 {
        return Found::Close(tag + 1);
    }
    if tag > at + 1 && bytes[tag - 1] == 47 {
        return Found::Open(at + 1, find_name_end(bytes, at + 1, tag - 1), true, tag + 1);
    }
    Found::Open(at + 1, find_name_end(bytes, at + 1, tag), false, tag + 1)
}

/// What a reader finds at a place between two tags.
pub fn read_token(bytes: &[u8], at: usize) -> (found: Found)
    ensures
        found@ == token(bytes@, at as int),
        leads_on(found@, at as int, bytes@.len() as int),
{
    if at >= bytes.len() {
        return Found::Stop;
    }
    if bytes[at] == 60 {
        return read_markup(bytes, at);
    }
    if bytes[at] != 38 {
        let text: [u8; 2] = [60, 38];
        assert(text@ =~= seq![60u8, 38u8]);
        assert(!text@.contains(bytes@[at as int]));
        let to: usize = find_first(bytes, at, &text);
        assert(to != at);
        return Found::Text(to);
    }
    let ends: [u8; 3] = [59, 38, 60];
    assert(ends@ =~= seq![59u8, 38u8, 60u8]);
    let end: usize = find_first(bytes, at + 1, &ends);
    if end < bytes.len() && bytes[end] == 59 {
        Found::Reference(end + 1)
    } else {
        Found::Stop
    }
}

/// What digits of a text make, if they are a number up to 0x10FFFF; other numbers count
/// as none.
fn read_number(bytes: &[u8], from: usize, to: usize, base: u32) -> (number: Option<u32>)
    requires
        from <= to <= bytes@.len(),
        base == 10 || base == 16,
    ensures
        match number {
            Some(n) => number_of(bytes@.subrange(from as int, to as int), base as nat) == Some(
                n as nat,
            ) && n <= 0x10_FFFF,
            None => number_of(bytes@.subrange(from as int, to as int), base as nat) matches Some(n)
                ==> n > 0x10_FFFF,
        },
{
    let ghost digits = bytes@.subrange(from as int, to as int);
    let mut number: u32 = 0;
    let mut at: usize = from;
    assert(digits.take(0) =~= Seq::<u8>::empty());
    while at < to
        invariant
            from <= at <= to <= bytes@.len(),
            base == 10 || base == 16,
            digits == bytes@.subrange(from as int, to as int),
            number <= 0x10_FFFF,
            number_of(digits.take(at - from), base as nat) == Some(number as nat),
        decreases to - at,
    {
        let byte: u8 = bytes[at];
        let ghost k = at - from;
        proof {
            assert(digits.take(k + 1).drop_last() =~= digits.take(k));
            assert(digits.take(k + 1).last() == byte);
        }
        let low: u32 = if 48 <= byte && byte <= 57 {
            (byte - 48) as u32
        } else if 97 <= byte && byte <= 102 {
            (byte - 87) as u32
        } else if 65 <= byte && byte <= 70 {
            (byte - 55) as u32
        } else {
            99
        };
        if low >= base {
            proof {
                stays_none(digits, k + 1, base as nat);
            }
            return None;
        }
        number = if base == 10 {
            number * 10 + low
        } else {
            number * 16 + low
        };
        at = at + 1;
        if number > 0x10_FFFF {
            proof {
                only_grows(digits, k + 1, base as nat);
            }
            return None;
        }
    }
    assert(digits.take(to - from) =~= digits);
    Some(number)
}

/// What is no number does not become one by more digits.
proof fn stays_none(digits: Seq<u8>, k: int, base: nat)
    requires
        0 <= k <= digits.len(),
        number_of(digits.take(k), base) is None,
    ensures
        number_of(digits, base) is None,
    decreases digits.len() - k,
{
    if k < digits.len() {
        assert(digits.take(k + 1).drop_last() =~= digits.take(k));
        stays_none(digits, k + 1, base);
    } else {
        assert(digits.take(k) =~= digits);
    }
}

/// More digits make a number no smaller.
proof fn only_grows(digits: Seq<u8>, k: int, base: nat)
    requires
        0 <= k <= digits.len(),
        base >= 1,
        number_of(digits.take(k), base) matches Some(n) && n > 0x10_FFFF,
    ensures
        number_of(digits, base) matches Some(n) ==> n > 0x10_FFFF,
    decreases digits.len() - k,
{
    if k < digits.len() {
        assert(digits.take(k + 1).drop_last() =~= digits.take(k));
        let n = number_of(digits.take(k), base).unwrap();
        assert(n * base >= n) by (nonlinear_arith)
            requires
                base >= 1,
                n >= 0,
        ;
        if number_of(digits.take(k + 1), base) is None {
            stays_none(digits, k + 1, base);
        } else {
            only_grows(digits, k + 1, base);
        }
    } else {
        assert(digits.take(k) =~= digits);
    }
}

/// Whether the name between two places is this one.
pub fn name_is(bytes: &[u8], from: usize, to: usize, name: &[u8]) -> (yes: bool)
    requires
        from <= to <= bytes@.len(),
    ensures
        yes == (bytes@.subrange(from as int, to as int) == name@),
{
    if to - from != name.len() {
        return false;
    }
    piece_at(bytes, from, name)
}

/// What the reference with the name between two places stands for.
fn read_reference(bytes: &[u8], from: usize, to: usize) -> (piece: Option<Vec<u8>>)
    requires
        from <= to <= bytes@.len(),
    ensures
        match piece {
            Some(piece) => referred(bytes@.subrange(from as int, to as int)) == Some(piece@),
            None => referred(bytes@.subrange(from as int, to as int)) is None,
        },
{
    let ghost name = bytes@.subrange(from as int, to as int);
    let mut piece: Vec<u8> = Vec::new();
    if from < to && bytes[from] == 35 {
        let hexadecimal: bool = to - from > 1 && bytes[from + 1] == 120;
        let start: usize = if hexadecimal {
            from + 2
        } else {
            from + 1
        };
        let base: u32 = if hexadecimal {
            16
        } else {
            10
        };
        assert(bytes@.subrange(start as int, to as int) =~= name.skip(start - from));
        let number: u32 = match read_number(bytes, start, to, base) {
            Some(number) => number,
            None => return None,
        };
        if number == 0 {
            return None;
        }
        if number < 128 {
            piece.push(number as u8);
            assert(piece@ =~= seq![number as u8]);
        } else {
            piece.push(255);
            piece.push(255);
            assert(piece@ =~= seq![255u8, 255u8]);
        }
        return Some(piece);
    }
    let lt: [u8; 2] = [108, 116];
    let gt: [u8; 2] = [103, 116];
    let amp: [u8; 3] = [97, 109, 112];
    let apos: [u8; 4] = [97, 112, 111, 115];
    let quot: [u8; 4] = [113, 117, 111, 116];
    assert(lt@ =~= seq![108u8, 116u8]);
    assert(gt@ =~= seq![103u8, 116u8]);
    assert(amp@ =~= seq![97u8, 109u8, 112u8]);
    assert(apos@ =~= seq![97u8, 112u8, 111u8, 115u8]);
    assert(quot@ =~= seq![113u8, 117u8, 111u8, 116u8]);
    if name_is(bytes, from, to, &lt) {
        piece.push(60);
        assert(piece@ =~= seq![60u8]);
    } else if name_is(bytes, from, to, &gt) {
        piece.push(62);
        assert(piece@ =~= seq![62u8]);
    } else if name_is(bytes, from, to, &amp) {
        piece.push(38);
        assert(piece@ =~= seq![38u8]);
    } else if name_is(bytes, from, to, &apos) {
        piece.push(39);
        assert(piece@ =~= seq![39u8]);
    } else if name_is(bytes, from, to, &quot) {
        piece.push(34);
        assert(piece@ =~= seq![34u8]);
    } else {
        assert(piece@ =~= Seq::<u8>::empty());
    }
    Some(piece)
}

/// What an element holds whose contents begin at `from`, and where it is closed.
pub fn read_content(bytes: &[u8], from: usize) -> (held: Option<(Vec<u8>, usize)>)
    ensures
        match held {
            Some(held) => content(bytes@, from as int, Seq::empty()) == Some(
                (held.0@, held.1 as int),
            ) && from < held.1 <= bytes@.len(),
            None => content(bytes@, from as int, Seq::empty()) is None,
        },
{
    let mut text: Vec<u8> = Vec::new();
    let mut at: usize = from;
    assert(text@ =~= Seq::<u8>::empty());
    loop
        invariant
            from <= at,
            at == from || at <= bytes@.len(),
            content(bytes@, from as int, Seq::empty()) == content(bytes@, at as int, text@),
        decreases bytes@.len() - at,
    {
        match read_token(bytes, at) {
            Found::Text(to) => {
                let ghost before = text@;
                let mut i: usize = at;
                while i < to
                    invariant
                        at <= i <= to <= bytes@.len(),
                        text@ == before + bytes@.subrange(at as int, i as int),
                    decreases to - i,
                {
                    text.push(bytes[i]);
                    i = i + 1;
                    assert(text@ =~= before + bytes@.subrange(at as int, i as int));
                }
                at = to;
            },
            Found::Reference(to) => {
                match read_reference(bytes, at + 1, to - 1) {
                    Some(piece) => {
                        let ghost before = text@;
                        let mut piece: Vec<u8> = piece;
                        let ghost more = piece@;
                        text.append(&mut piece);
                        assert(text@ =~= before + more);
                    },
                    None => return None,
                }
                at = to;
            },
            Found::Skip(to) => {
                at = to;
            },
            Found::Close(to) => return Some((text, to)),
            _ => return None,
        }
    }
}

/// The first place of a listed byte holds one, and no place before it does; where none
/// does, it is the end.
pub proof fn the_first_place_is_first(bytes: Seq<u8>, at: int, list: Seq<u8>)
    requires
        0 <= at <= bytes.len(),
    ensures
        at <= first_of(bytes, at, list) <= bytes.len(),
        first_of(bytes, at, list) < bytes.len() ==> list.contains(
            bytes[first_of(bytes, at, list)],
        ),
        forall|k: int| at <= k < first_of(bytes, at, list) ==> !list.contains(#[trigger] bytes[k]),
    decreases bytes.len() - at,
{
    if at < bytes.len() && !list.contains(bytes[at]) {
        the_first_place_is_first(bytes, at + 1, list);
    }
}

proof fn the_first_place_is_the_only_one(bytes: Seq<u8>, at: int, list: Seq<u8>, place: int)
    requires
        0 <= at <= place < bytes.len(),
        list.contains(bytes[place]),
        forall|k: int| at <= k < place ==> !list.contains(#[trigger] bytes[k]),
    ensures
        first_of(bytes, at, list) == place,
{
    the_first_place_is_first(bytes, at, list);
    let found = first_of(bytes, at, list);
    if found > place {
        assert(!list.contains(bytes[place]));
    }
    if found < place {
        assert(!list.contains(bytes[found]));
    }
}

/// A piece is passed where it first stands: it ends at the place that is given, and it
/// stands at no earlier place; where it does not occur, the place lies beyond the end.
pub proof fn a_piece_is_passed_where_it_first_stands(bytes: Seq<u8>, at: int, piece: Seq<u8>)
    requires
        0 <= at <= bytes.len(),
        piece.len() > 0,
    ensures
        ({
            let to = past(bytes, at, piece);
            &&& to <= bytes.len() ==> at <= to - piece.len() && stands_at(
                bytes,
                to - piece.len(),
                piece,
            ) && forall|k: int|
                at <= k < to - piece.len() ==> !#[trigger] stands_at(bytes, k, piece)
            &&& to > bytes.len() ==> forall|k: int| at <= k ==> !#[trigger] stands_at(bytes, k, piece)
        }),
    decreases bytes.len() - at,
{
    if at < bytes.len() && !stands_at(bytes, at, piece) {
        a_piece_is_passed_where_it_first_stands(bytes, at + 1, piece);
    }
}

/// A tag ends at the first `>`, where no quotation mark stands before it.
pub proof fn a_tag_ends_at_the_first_bracket(bytes: Seq<u8>, at: int, end: int)
    requires
        0 <= at <= end < bytes.len(),
        bytes[end] == 62,
        forall|k: int|
            at <= k < end ==> #[trigger] bytes[k] != 62 && bytes[k] != 34 && bytes[k] != 39,
    ensures
        tag_end(bytes, at, 0) == end,
    decreases end - at,
{
    if at < end {
        assert(bytes[at] != 62 && bytes[at] != 34 && bytes[at] != 39);
        assert(quote_after(0, bytes[at]) == 0);
        a_tag_ends_at_the_first_bracket(bytes, at + 1, end);
    }
}

/// What stands between two equal quotation marks does not end a tag, whatever it is: the
/// tag goes on behind them.
pub proof fn quotations_do_not_end_a_tag(bytes: Seq<u8>, at: int, close: int)
    requires
        0 <= at < close < bytes.len(),
        bytes[at] == 34 || bytes[at] == 39,
        bytes[close] == bytes[at],
        forall|k: int| at < k < close ==> #[trigger] bytes[k] != bytes[at],
    ensures
        tag_end(bytes, at, 0) == tag_end(bytes, close + 1, 0),
{
    assert(quote_after(0, bytes[at]) == bytes[at]);
    inside_a_quotation(bytes, at + 1, close, bytes[at]);
}

proof fn inside_a_quotation(bytes: Seq<u8>, at: int, close: int, quote: u8)
    requires
        0 <= at <= close < bytes.len(),
        quote == 34 || quote == 39,
        bytes[close] == quote,
        forall|k: int| at <= k < close ==> #[trigger] bytes[k] != quote,
    ensures
        tag_end(bytes, at, quote) == tag_end(bytes, close + 1, 0),
    decreases close - at,
{
    if at < close {
        assert(bytes[at] != quote);
        assert(quote_after(quote, bytes[at]) == quote);
        inside_a_quotation(bytes, at + 1, close, quote);
    }
}

/// The bytes of a text in ASCII.
pub open spec fn ascii(text: Seq<char>) -> Seq<u8> {
    Seq::new(text.len(), |i: int| text[i] as u8)
}

/// A number that was written in decimal is read as itself, and so is a byte that was
/// written with two hexadecimal digits.
pub proof fn written_digits_are_read(n: nat)
    ensures
        number_of(ascii(decimal(n)), 10) == Some(n),
        n < 256 ==> number_of(ascii(hex(n, 2)), 16) == Some(n),
    decreases n,
{
    let s = ascii(decimal(n));
    if n >= 10 {
        written_digits_are_read(n / 10);
        assert(s.drop_last() =~= ascii(decimal(n / 10)));
        assert(decimal(n).last() == digit(n % 10));
        assert(s.last() == digit(n % 10) as u8);
        assert(digit_value(s.last()) == Some((n % 10) as nat));
    } else {
        assert(s.drop_last() =~= Seq::<u8>::empty());
        assert(decimal(n)[0] == digit(n));
        assert(s.last() == digit(n) as u8);
        assert(digit_value(s.last()) == Some(n));
        assert(number_of(s.drop_last(), 10) == Some(0nat));
    }
    if n < 256 {
        hexadecimal_of_a_byte(n);
        let h = ascii(hex(n, 2));
        let first = h.drop_last();
        assert(first.drop_last() =~= Seq::<u8>::empty());
        assert(number_of(first.drop_last(), 16) == Some(0nat));
        assert(first.last() == digit(n / 16) as u8);
        assert(digit_value(first.last()) == Some((n / 16) as nat));
        assert(number_of(first, 16) == Some((n / 16) as nat));
        assert(h.last() == digit(n % 16) as u8);
        assert(digit_value(h.last()) == Some((n % 16) as nat));
    }
}

/// A reference to a character by its number, in decimal or hexadecimal, stands for that
/// character.
pub proof fn characters_are_referred_to_by_number(n: nat)
    requires
        0 < n < 128,
    ensures
        referred(seq![35u8] + ascii(decimal(n))) == Some(seq![n as u8]),
        referred(seq![35u8, 120u8] + ascii(hex(n, 2))) == Some(seq![n as u8]),
{
    written_digits_are_read(n);
    let plain = seq![35u8] + ascii(decimal(n));
    let coded = seq![35u8, 120u8] + ascii(hex(n, 2));
    assert(plain.skip(1) =~= ascii(decimal(n)));
    assert(coded.skip(2) =~= ascii(hex(n, 2)));
    reveal_with_fuel(decimal, 4);
    assert(decimal(n)[0] == digit(n) || decimal(n)[0] == digit(n / 10) || decimal(n)[0] == digit(
        n / 100,
    ));
    assert(plain.len() > 1 ==> plain[1] == decimal(n)[0] as u8);
}

/// Text without `<` and `&` is what an element holds, up to the closing tag, whatever
/// stood before it.
pub proof fn plain_text_is_held(bytes: Seq<u8>, at: int, slash: int, close: int, before: Seq<u8>)
    requires
        0 <= at <= slash,
        slash + 1 < close < bytes.len(),
        forall|k: int| at <= k < slash ==> #[trigger] bytes[k] != 60 && bytes[k] != 38,
        bytes[slash] == 60,
        bytes[slash + 1] == 47,
        bytes[close] == 62,
        forall|k: int|
            slash < k < close ==> #[trigger] bytes[k] != 62 && bytes[k] != 34 && bytes[k] != 39,
    ensures
        content(bytes, at, before) == Some((before + bytes.subrange(at, slash), close + 1)),
{
    closing_tag_is_found(bytes, slash, close);
    let list = seq![60u8, 38u8];
    assert(list[0] == 60 && list[1] == 38);
    if at < slash {
        assert forall|k: int| at <= k < slash implies !list.contains(#[trigger] bytes[k]) by {
            assert(bytes[k] != 60 && bytes[k] != 38);
        }
        the_first_place_is_the_only_one(bytes, at, list, slash);
        assert(bytes[at] != 60 && bytes[at] != 38);
        assert(token(bytes, at) == Token::Text(slash));
        assert(content(bytes, slash, before + bytes.subrange(at, slash)) == Some(
            (before + bytes.subrange(at, slash), close + 1),
        ));
    } else {
        assert(before + bytes.subrange(at, slash) =~= before);
    }
}

proof fn closing_tag_is_found(bytes: Seq<u8>, at: int, close: int)
    requires
        0 <= at,
        at + 1 < close < bytes.len(),
        bytes[at] == 60,
        bytes[at + 1] == 47,
        bytes[close] == 62,
        forall|k: int|
            at < k < close ==> #[trigger] bytes[k] != 62 && bytes[k] != 34 && bytes[k] != 39,
    ensures
        token(bytes, at) == Token::Close(close + 1),
{
    a_tag_ends_at_the_first_bracket(bytes, at + 1, close);
    other_markup(bytes, at);
}

/// Neither a comment nor a verbatim section begins where another byte than `!` follows.
proof fn other_markup(bytes: Seq<u8>, at: int)
    requires
        0 <= at,
        at + 1 < bytes.len(),
        bytes[at + 1] != 33,
    ensures
        !stands_at(bytes, at, COMMENT@),
        !stands_at(bytes, at, VERBATIM@),
{
    if stands_at(bytes, at, COMMENT@) {
        assert(bytes.subrange(at, at + 4)[1] == COMMENT@[1]);
    }
    if stands_at(bytes, at, VERBATIM@) {
        assert(bytes.subrange(at, at + 9)[1] == VERBATIM@[1]);
    }
}

/// A tag that holds a name alone is found with that name.
pub proof fn a_bare_tag_is_found(bytes: Seq<u8>, at: int, end: int)
    requires
        0 <= at,
        at + 1 < end < bytes.len(),
        bytes[at] == 60,
        bytes[end] == 62,
        bytes[at + 1] != 33,
        bytes[at + 1] != 63,
        bytes[at + 1] != 47,
        bytes[end - 1] != 47,
        forall|k: int|
            at < k < end ==> #[trigger] bytes[k] != 62 && bytes[k] != 34 && bytes[k] != 39
                && !is_gap(bytes[k]),
    ensures
        token(bytes, at) == Token::Open(at + 1, end, false, end + 1),
{
    a_tag_ends_at_the_first_bracket(bytes, at + 1, end);
    other_markup(bytes, at);
    name_goes_to_the_end(bytes, at + 1, end);
}

proof fn name_goes_to_the_end(bytes: Seq<u8>, at: int, end: int)
    requires
        0 <= at <= end <= bytes.len(),
        forall|k: int| at <= k < end ==> !is_gap(#[trigger] bytes[k]),
    ensures
        name_end(bytes, at, end) == end,
    decreases end - at,
{
    if at < end {
        assert(!is_gap(bytes[at]));
        name_goes_to_the_end(bytes, at + 1, end);
    }
}

} // verus!
