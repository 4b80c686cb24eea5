//! Character sequences: searching, trimming, splitting and number formatting.
use crate::failure::Failure;
use crate::wire::same_bytes;
use vstd::prelude::*;
use vstd::utf8::{decode_utf8, valid_utf8};

verus! {

/// `String::push` appends one character.
pub assume_specification[ String::push ](s: &mut String, c: char)
    ensures
        final(s)@ == old(s)@.push(c),
;

/// `std::str::from_utf8`: the text that the bytes encode, where they are valid
/// UTF-8, and otherwise an error.
#[verifier::external_body]
fn from_utf8(bytes: &[u8]) -> (text: Result<String, std::str::Utf8Error>)
    ensures
        match text {
            Ok(text) => valid_utf8(bytes@) && text@ == decode_utf8(bytes@),
            Err(_) => !valid_utf8(bytes@),
        },
{
    std::str::from_utf8(bytes).map(String::from)
}

/// The text that the bytes encode. It fails where they are not UTF-8.
pub fn decoded(bytes: &[u8]) -> (text: Result<String, Failure>)
    ensures
        match text {
            Ok(text) => valid_utf8(bytes@) && text@ == decode_utf8(bytes@),
            Err(failure) => !valid_utf8(bytes@) && failure is Utf8,
        },
{
    match from_utf8(bytes) {
        Ok(text) => Ok(text),
        Err(error) => Err(Failure::Utf8(error)),
    }
}

/// The characters of a string, in order.
pub fn chars_of(s: &str) -> (chars: Vec<char>)
    ensures
        chars@ == s@,
{
    let mut chars: Vec<char> = Vec::new();
    for c in it: s.chars()
        invariant
            chars@ == s@.take(it.index() as int),
            it.seq() == s@,
    {
        chars.push(c);
        assert(chars@ =~= s@.take(it.index() + 1));
    }
    assert(chars@ =~= s@);
    chars
}

/// Whether two strings hold the same characters.
pub fn same_text(a: &str, b: &str) -> (same: bool)
    ensures
        same == (a@ == b@),
{
    proof {
        vstd::utf8::encode_utf8_decode_utf8(a@);
        vstd::utf8::encode_utf8_decode_utf8(b@);
    }
    same_bytes(a.as_bytes(), b.as_bytes())
}

/// The views of a run of strings.
pub open spec fn texts(strings: Seq<String>) -> Seq<Seq<char>> {
    Seq::new(strings.len(), |i: int| strings[i]@)
}

/// The character of a digit below sixteen, in lower case.
pub open spec fn digit(n: nat) -> char {
    if n < 10 {
        ('0' as nat + n) as char
    } else {
        ('a' as nat + (n - 10)) as char
    }
}

/// The decimal digits of a number, without leading zeros.
pub open spec fn decimal(n: nat) -> Seq<char>
    decreases n,
{
    if n < 10 {
        seq![digit(n)]
    } else {
        decimal(n / 10).push(digit(n % 10))
    }
}

/// The last `width` hexadecimal digits of a number.
pub open spec fn hex(n: nat, width: nat) -> Seq<char>
    decreases width,
{
    if width == 0 {
        Seq::empty()
    } else {
        hex(n / 16, (width - 1) as nat).push(digit(n % 16))
    }
}

/// The parts of `s` between the separators.
pub open spec fn split(s: Seq<char>, separator: char) -> Seq<Seq<char>>
    decreases s.len(),
{
    if s.len() == 0 {
        seq![Seq::empty()]
    } else {
        let parts = split(s.drop_last(), separator);
        if s.last() == separator {
            parts.push(Seq::empty())
        } else {
            parts.update(parts.len() - 1, parts.last().push(s.last()))
        }
    }
}

/// `needle` stands in `hay` at some place.
pub open spec fn occurs(needle: Seq<char>, hay: Seq<char>) -> bool {
    exists|i: int| occurs_at(needle, hay, i)
}

/// `needle` stands in `hay` from index `at` on.
pub open spec fn occurs_at(needle: Seq<char>, hay: Seq<char>, at: int) -> bool {
    0 <= at && at + needle.len() <= hay.len() && hay.subrange(at, at + needle.len()) == needle
}

/// The character of a digit below sixteen.
pub fn digit_char(n: u8) -> (c: char)
    requires
        n < 16,
    ensures
        c == digit(n as nat),
{
    if n < 10 {
        (48u8 + n) as char
    } else {
        (97u8 + (n - 10)) as char
    }
}

/// The decimal digits of a number.
pub fn decimal_wide(n: u128) -> (s: String)
    ensures
        s@ == decimal(n as nat),
    decreases n,
{
    if n < 10 {
        let mut s: String = String::new();
        s.push(digit_char(n as u8));
        assert(s@ =~= seq![digit(n as nat)]);
        s
    } else {
        let mut s: String = decimal_wide(n / 10);
        s.push(digit_char((n % 10) as u8));
        s
    }
}

/// The decimal digits of a number.
pub fn decimal_text(n: u64) -> (s: String)
    ensures
        s@ == decimal(n as nat),
{
    decimal_wide(n as u128)
}

/// The last `width` hexadecimal digits of a number.
pub fn hex_text(n: u64, width: usize) -> (s: String)
    ensures
        s@ == hex(n as nat, width as nat),
    decreases width,
{
    if width == 0 {
        let s: String = String::new();
        assert(s@ =~= Seq::<char>::empty());
        s
    } else {
        let mut s: String = hex_text(n / 16, width - 1);
        s.push(digit_char((n % 16) as u8));
        s
    }
}

/// Splitting always gives at least one part.
pub proof fn split_gives_parts(s: Seq<char>, separator: char)
    ensures
        split(s, separator).len() >= 1,
    decreases s.len(),
{
    if s.len() > 0 {
        split_gives_parts(s.drop_last(), separator);
    }
}

/// The parts of a string between the separators.
pub fn split_text(s: &str, separator: char) -> (parts: Vec<String>)
    ensures
        texts(parts@) == split(s@, separator),
{
    let mut parts: Vec<String> = Vec::new();
    let mut last: String = String::new();
    assert(texts(parts@).push(last@) =~= seq![Seq::<char>::empty()]);
    assert(s@.take(0) =~= Seq::<char>::empty());
    for c in it: s.chars()
        invariant
            it.seq() == s@,
            texts(parts@).push(last@) == split(s@.take(it.index() as int), separator),
    {
        let ghost before = s@.take(it.index() as int);
        let ghost now = s@.take(it.index() + 1);
        let ghost old_parts = texts(parts@);
        let ghost old_last = last@;
        assert(now.drop_last() =~= before);
        assert(now.last() == c);
        if c == separator {
            parts.push(last);
            last = String::new();
            assert(texts(parts@) =~= old_parts.push(old_last));
            assert(last@ =~= Seq::<char>::empty());
        } else {
            last.push(c);
            assert(texts(parts@).push(last@) =~= old_parts.push(old_last).update(
                old_parts.len() as int,
                last@,
            ));
        }
    }
    assert(s@.take(s@.len() as int) =~= s@);
    parts.push(last);
    assert(texts(parts@) =~= split(s@, separator));
    parts
}

/// Whether `needle` stands in `hay` from index `at` on.
pub fn stands_at(needle: &[char], hay: &[char], at: usize) -> (found: bool)
    ensures
        found == occurs_at(needle@, hay@, at as int),
{
    if hay.len() < needle.len() || hay.len() - needle.len() < at {
        return false;
    }
    let mut i: usize = 0;
    while i < needle.len()
        invariant
            i <= needle@.len(),
            at + needle@.len() <= hay@.len(),
            hay@.len() <= usize::MAX,
            hay@.subrange(at as int, at + i) == needle@.take(i as int),
        decreases needle@.len() - i,
    {
        if hay[at + i] != needle[i] {
            assert(hay@.subrange(at as int, at + needle@.len())[i as int] != needle@[i as int]);
            return false;
        }
        i = i + 1;
        assert(hay@.subrange(at as int, at + i) =~= needle@.take(i as int));
    }
    assert(needle@.take(i as int) =~= needle@);
    true
}

/// Whether `needle` stands somewhere in `hay`.
pub fn contains_text(hay: &str, needle: &str) -> (found: bool)
    ensures
        found == occurs(needle@, hay@),
{
    let hay_chars: Vec<char> = chars_of(hay);
    let needle_chars: Vec<char> = chars_of(needle);
    let mut at: usize = 0;
    while at < hay_chars.len()
        invariant
            hay_chars@ == hay@,
            needle_chars@ == needle@,
            at <= hay@.len(),
            forall|i: int| 0 <= i < at ==> !occurs_at(needle@, hay@, i),
        decreases hay@.len() - at,
    {
        if stands_at(needle_chars.as_slice(), hay_chars.as_slice(), at) {
            return true;
        }
        at = at + 1;
    }
    let found: bool = stands_at(needle_chars.as_slice(), hay_chars.as_slice(), at);
    found
}

/// Whether `s` begins with `prefix`.
pub fn begins_with(s: &str, prefix: &str) -> (found: bool)
    ensures
        found == prefix@.is_prefix_of(s@),
{
    let chars: Vec<char> = chars_of(s);
    let wanted: Vec<char> = chars_of(prefix);
    stands_at(wanted.as_slice(), chars.as_slice(), 0)
}

/// The characters of `s` from index `from` up to `to`.
pub fn part_of(s: &str, from: usize, to: usize) -> (part: String)
    requires
        from <= to <= s@.len(),
    ensures
        part@ == s@.subrange(from as int, to as int),
{
    let chars: Vec<char> = chars_of(s);
    let mut part: String = String::new();
    let mut i: usize = from;
    while i < to
        invariant
            chars@ == s@,
            from <= i <= to <= s@.len(),
            part@ == s@.subrange(from as int, i as int),
        decreases to - i,
    {
        part.push(chars[i]);
        i = i + 1;
        assert(part@ =~= s@.subrange(from as int, i as int));
    }
    part
}

/// The character with an ASCII capital made small.
pub open spec fn lower(c: char) -> char {
    if 'A' <= c <= 'Z' {
        (c as nat + 32) as char
    } else {
        c
    }
}

/// The character with a small ASCII letter made capital.
pub open spec fn upper(c: char) -> char {
    if 'a' <= c <= 'z' {
        (c as nat - 32) as char
    } else {
        c
    }
}

/// The text with its ASCII capitals made small.
pub open spec fn lowered(s: Seq<char>) -> Seq<char> {
    Seq::new(s.len(), |i: int| lower(s[i]))
}

/// The text with its small ASCII letters made capital.
pub open spec fn uppered(s: Seq<char>) -> Seq<char> {
    Seq::new(s.len(), |i: int| upper(s[i]))
}

/// The character with an ASCII capital made small.
pub fn lower_char(c: char) -> (l: char)
    ensures
        l == lower(c),
{
    if 'A' <= c && c <= 'Z' {
        (c as u8 + 32) as char
    } else {
        c
    }
}

/// The character with a small ASCII letter made capital.
pub fn upper_char(c: char) -> (u: char)
    ensures
        u == upper(c),
{
    if 'a' <= c && c <= 'z' {
        (c as u8 - 32) as char
    } else {
        c
    }
}

/// The text with its ASCII capitals made small.
pub fn lower_text(s: &str) -> (l: String)
    ensures
        l@ == lowered(s@),
{
    let mut l: String = String::new();
    for c in it: s.chars()
        invariant
            it.seq() == s@,
            l@ == lowered(s@).take(it.index() as int),
    {
        l.push(lower_char(c));
        assert(l@ =~= lowered(s@).take(it.index() + 1));
    }
    assert(l@ =~= lowered(s@));
    l
}

/// The text with its small ASCII letters made capital.
pub fn upper_text(s: &str) -> (u: String)
    ensures
        u@ == uppered(s@),
{
    let mut u: String = String::new();
    for c in it: s.chars()
        invariant
            it.seq() == s@,
            u@ == uppered(s@).take(it.index() as int),
    {
        u.push(upper_char(c));
        assert(u@ =~= uppered(s@).take(it.index() + 1));
    }
    assert(u@ =~= uppered(s@));
    u
}

/// What a decimal numeral stands for.
pub enum Numeral {
    /// A number that fits.
    Number(u64),
    /// There are no characters.
    Empty,
    /// Some character is no digit.
    NotADigit,
    /// The number does not fit.
    TooLarge,
}

/// A decimal digit.
pub open spec fn is_digit(c: char) -> bool {
    '0' <= c <= '9'
}

/// The number that a run of digits stands for, read from the left. The first
/// character that is no digit, or at which the number gets too large, decides.
pub open spec fn digits_value(s: Seq<char>) -> Numeral
    decreases s.len(),
{
    if s.len() == 0 {
        Numeral::Number(0)
    } else {
        match digits_value(s.drop_last()) {
            Numeral::Number(n) => if !is_digit(s.last()) {
                Numeral::NotADigit
            } else {
                let next = n * 10 + (s.last() as int - '0' as int);
                if next > u64::MAX {
                    Numeral::TooLarge
                } else {
                    Numeral::Number(next as u64)
                }
            },
            other => other,
        }
    }
}

/// The number that a numeral with an optional plus sign stands for.
pub open spec fn numeral(s: Seq<char>) -> Numeral {
    if s.len() == 0 {
        Numeral::Empty
    } else if s[0] == '+' {
        if s.len() == 1 {
            Numeral::NotADigit
        } else {
            digits_value(s.skip(1))
        }
    } else {
        digits_value(s)
    }
}

/// Reads a numeral with an optional plus sign.
pub fn parse_numeral(s: &str) -> (n: Numeral)
    ensures
        n == numeral(s@),
{
    let chars: Vec<char> = chars_of(s);
    if chars.len() == 0 {
        return Numeral::Empty;
    }
    if chars[0] == '+' && chars.len() == 1 {
        return Numeral::NotADigit;
    }
    let start: usize = if chars[0] == '+' {
        1
    } else {
        0
    };
    let ghost digits = s@.skip(start as int);
    assert(s@.skip(0) =~= s@);
    let mut value: u64 = 0;
    let mut i: usize = start;
    assert(digits.take(0) =~= Seq::<char>::empty());
    while i < chars.len()
        invariant
            chars@ == s@,
            digits == s@.skip(start as int),
            numeral(s@) == digits_value(digits),
            start <= i <= chars@.len(),
            digits_value(digits.take(i - start)) == Numeral::Number(value),
        decreases chars@.len() - i,
    {
        let c: char = chars[i];
        let ghost now = digits.take(i - start + 1);
        assert(now.drop_last() =~= digits.take(i - start));
        assert(now.last() == c);
        if c < '0' || c > '9' {
            proof {
                digits_stop(digits, i - start + 1);
            }
            return Numeral::NotADigit;
        }
        let digit: u64 = (c as u32 - 48) as u64;
        if value > u64::MAX / 10 || value * 10 > u64::MAX - digit {
            proof {
                digits_stop(digits, i - start + 1);
            }
            return Numeral::TooLarge;
        }
        value = value * 10 + digit;
        i = i + 1;
    }
    assert(digits.take(i - start) =~= digits);
    Numeral::Number(value)
}

/// Once a run of digits has failed, more characters do not mend it.
proof fn digits_stop(s: Seq<char>, n: int)
    requires
        0 <= n <= s.len(),
        !(digits_value(s.take(n)) is Number),
    ensures
        digits_value(s) == digits_value(s.take(n)),
    decreases s.len(),
{
    if n == s.len() {
        assert(s.take(n) =~= s);
    } else {
        assert(s.drop_last().take(n) =~= s.take(n));
        digits_stop(s.drop_last(), n);
    }
}

/// The text without the character `c`.
pub open spec fn without(s: Seq<char>, c: char) -> Seq<char>
    decreases s.len(),
{
    if s.len() == 0 {
        Seq::empty()
    } else if s.last() == c {
        without(s.drop_last(), c)
    } else {
        without(s.drop_last(), c).push(s.last())
    }
}

/// The text without the character `dropped`.
pub fn text_without(s: &str, dropped: char) -> (rest: String)
    ensures
        rest@ == without(s@, dropped),
{
    let mut rest: String = String::new();
    assert(s@.take(0) =~= Seq::<char>::empty());
    assert(rest@ =~= Seq::<char>::empty());
    for c in it: s.chars()
        invariant
            it.seq() == s@,
            rest@ == without(s@.take(it.index() as int), dropped),
    {
        assert(s@.take(it.index() + 1).drop_last() =~= s@.take(it.index() as int));
        if c != dropped {
            rest.push(c);
        }
    }
    assert(s@.take(s@.len() as int) =~= s@);
    rest
}

/// A hexadecimal digit in either case.
pub open spec fn is_hex_digit(c: char) -> bool {
    '0' <= c <= '9' || 'a' <= c <= 'f' || 'A' <= c <= 'F'
}

/// Every character is a hexadecimal digit.
pub open spec fn all_hex(s: Seq<char>) -> bool {
    forall|i: int| 0 <= i < s.len() ==> is_hex_digit(#[trigger] s[i])
}

/// Whether every character is a hexadecimal digit.
pub fn is_all_hex(s: &str) -> (all: bool)
    ensures
        all == all_hex(s@),
{
    let chars: Vec<char> = chars_of(s);
    let mut i: usize = 0;
    while i < chars.len()
        invariant
            chars@ == s@,
            i <= chars@.len(),
            forall|k: int| 0 <= k < i ==> is_hex_digit(#[trigger] s@[k]),
        decreases chars@.len() - i,
    {
        let c: char = chars[i];
        if !(('0' <= c && c <= '9') || ('a' <= c && c <= 'f') || ('A' <= c && c <= 'F')) {
            assert(!is_hex_digit(s@[i as int]));
            return false;
        }
        i = i + 1;
    }
    true
}

/// The texts one after the other, with `separator` between them.
pub open spec fn joined_by(parts: Seq<Seq<char>>, separator: Seq<char>) -> Seq<char>
    decreases parts.len(),
{
    if parts.len() == 0 {
        Seq::empty()
    } else if parts.len() == 1 {
        parts[0]
    } else {
        joined_by(parts.drop_last(), separator) + separator + parts.last()
    }
}

/// The texts one after the other, with `separator` between them.
pub fn join_texts(parts: &Vec<String>, separator: &str) -> (all: String)
    ensures
        all@ == joined_by(texts(parts@), separator@),
{
    let ghost pieces = texts(parts@);
    let mut all: String = String::new();
    let mut i: usize = 0;
    assert(pieces.take(0) =~= Seq::<Seq<char>>::empty());
    assert(all@ =~= Seq::<char>::empty());
    while i < parts.len()
        invariant
            pieces == texts(parts@),
            i <= parts@.len(),
            all@ == joined_by(pieces.take(i as int), separator@),
        decreases parts@.len() - i,
    {
        assert(pieces.take(i + 1).drop_last() =~= pieces.take(i as int));
        assert(pieces.take(i + 1).last() == parts@[i as int]@);
        if i > 0 {
            all.append(separator);
        }
        all.append(parts[i].as_str());
        assert(all@ =~= joined_by(pieces.take(i + 1), separator@));
        i = i + 1;
    }
    assert(pieces.take(i as int) =~= pieces);
    all
}

/// Where `c` stands for the last time, or -1.
pub open spec fn last_index(s: Seq<char>, c: char) -> int
    decreases s.len(),
{
    if s.len() == 0 {
        -1
    } else if s.last() == c {
        s.len() - 1
    } else {
        last_index(s.drop_last(), c)
    }
}

/// The text before the last `c`, if there is one.
pub fn before_last(s: &str, c: char) -> (part: Option<String>)
    ensures
        match part {
            Some(part) => last_index(s@, c) >= 0 && part@ == s@.take(last_index(s@, c)),
            None => last_index(s@, c) < 0,
        },
{
    let chars: Vec<char> = chars_of(s);
    let mut left: usize = chars.len();
    assert(s@.take(left as int) =~= s@);
    while left > 0
        invariant
            chars@ == s@,
            left <= chars@.len(),
            last_index(s@, c) == last_index(s@.take(left as int), c),
        decreases left,
    {
        assert(s@.take(left as int).drop_last() =~= s@.take(left - 1));
        left = left - 1;
        if chars[left] == c {
            let part: String = part_of(s, 0, left);
            assert(part@ =~= s@.take(left as int));
            return Some(part);
        }
    }
    None
}

/// A character of Unicode's `White_Space` property.
pub open spec fn is_space(c: char) -> bool {
    let n = c as u32;
    0x9 <= n <= 0xD || n == 0x20 || n == 0x85 || n == 0xA0 || n == 0x1680 || 0x2000 <= n <= 0x200A
        || n == 0x2028 || n == 0x2029 || n == 0x202F || n == 0x205F || n == 0x3000
}

/// Whether a character is white space.
pub fn is_space_char(c: char) -> (space: bool)
    ensures
        space == is_space(c),
{
    let n: u32 = c as u32;
    (0x9 <= n && n <= 0xD) || n == 0x20 || n == 0x85 || n == 0xA0 || n == 0x1680 || (0x2000 <= n && n
        <= 0x200A) || n == 0x2028 || n == 0x2029 || n == 0x202F || n == 0x205F || n == 0x3000
}

/// The text without the listed characters at its end.
pub open spec fn stripped_end(s: Seq<char>, list: Seq<char>) -> Seq<char>
    decreases s.len(),
{
    if s.len() > 0 && list.contains(s.last()) {
        stripped_end(s.drop_last(), list)
    } else {
        s
    }
}

/// The text without the listed characters at its beginning.
pub open spec fn stripped_start(s: Seq<char>, list: Seq<char>) -> Seq<char>
    decreases s.len(),
{
    if s.len() > 0 && list.contains(s[0]) {
        stripped_start(s.drop_first(), list)
    } else {
        s
    }
}

/// The text without white space at its end.
pub open spec fn trimmed_end(s: Seq<char>) -> Seq<char>
    decreases s.len(),
{
    if s.len() > 0 && is_space(s.last()) {
        trimmed_end(s.drop_last())
    } else {
        s
    }
}

/// The text without white space at its beginning.
pub open spec fn trimmed_start(s: Seq<char>) -> Seq<char>
    decreases s.len(),
{
    if s.len() > 0 && is_space(s[0]) {
        trimmed_start(s.drop_first())
    } else {
        s
    }
}

/// The text without white space at both ends.
pub open spec fn trimmed(s: Seq<char>) -> Seq<char> {
    trimmed_end(trimmed_start(s))
}

/// A part of a part is a part of the whole.
pub proof fn part_of_part(a: Seq<char>, b: Seq<char>, c: Seq<char>)
    requires
        occurs(a, b),
        occurs(b, c),
    ensures
        occurs(a, c),
{
    let i = choose|i: int| occurs_at(a, b, i);
    let j = choose|j: int| occurs_at(b, c, j);
    assert(c.subrange(j + i, j + i + a.len()) =~= b.subrange(i, i + a.len()));
    assert(occurs_at(a, c, j + i));
}

/// A text is a part of itself.
pub proof fn whole_is_part(s: Seq<char>)
    ensures
        occurs(s, s),
{
    assert(s.subrange(0, s.len() as int) =~= s);
    assert(occurs_at(s, s, 0));
}

proof fn all_but_last_is_part(s: Seq<char>)
    requires
        s.len() > 0,
    ensures
        occurs(s.drop_last(), s),
{
    assert(s.subrange(0, s.len() - 1) =~= s.drop_last());
    assert(occurs_at(s.drop_last(), s, 0));
}

proof fn all_but_first_is_part(s: Seq<char>)
    requires
        s.len() > 0,
    ensures
        occurs(s.drop_first(), s),
{
    assert(s.subrange(1, s.len() as int) =~= s.drop_first());
    assert(occurs_at(s.drop_first(), s, 1));
}

/// What is left after stripping the end is a part of the text.
pub proof fn stripped_end_is_part(s: Seq<char>, list: Seq<char>)
    ensures
        occurs(stripped_end(s, list), s),
    decreases s.len(),
{
    if s.len() > 0 && list.contains(s.last()) {
        stripped_end_is_part(s.drop_last(), list);
        all_but_last_is_part(s);
        part_of_part(stripped_end(s, list), s.drop_last(), s);
    } else {
        whole_is_part(s);
    }
}

/// What is left after stripping the beginning is a part of the text.
pub proof fn stripped_start_is_part(s: Seq<char>, list: Seq<char>)
    ensures
        occurs(stripped_start(s, list), s),
    decreases s.len(),
{
    if s.len() > 0 && list.contains(s[0]) {
        stripped_start_is_part(s.drop_first(), list);
        all_but_first_is_part(s);
        part_of_part(stripped_start(s, list), s.drop_first(), s);
    } else {
        whole_is_part(s);
    }
}

proof fn trimmed_end_is_part(s: Seq<char>)
    ensures
        occurs(trimmed_end(s), s),
    decreases s.len(),
{
    if s.len() > 0 && is_space(s.last()) {
        trimmed_end_is_part(s.drop_last());
        all_but_last_is_part(s);
        part_of_part(trimmed_end(s), s.drop_last(), s);
    } else {
        whole_is_part(s);
    }
}

proof fn trimmed_start_is_part(s: Seq<char>)
    ensures
        occurs(trimmed_start(s), s),
    decreases s.len(),
{
    if s.len() > 0 && is_space(s[0]) {
        trimmed_start_is_part(s.drop_first());
        all_but_first_is_part(s);
        part_of_part(trimmed_start(s), s.drop_first(), s);
    } else {
        whole_is_part(s);
    }
}

/// A text without the white space around it is a part of the text.
pub proof fn trimmed_is_part(s: Seq<char>)
    ensures
        occurs(trimmed(s), s),
{
    trimmed_start_is_part(s);
    trimmed_end_is_part(trimmed_start(s));
    part_of_part(trimmed(s), trimmed_start(s), s);
}

/// A part of a text has no character that the text has not.
pub proof fn part_has_no_more(a: Seq<char>, b: Seq<char>, c: char)
    requires
        occurs(a, b),
        a.contains(c),
    ensures
        b.contains(c),
{
    let i = choose|i: int| occurs_at(a, b, i);
    let k = choose|k: int| 0 <= k < a.len() && a[k] == c;
    assert(b.subrange(i, i + a.len())[k] == b[i + k]);
}

/// Whether a character stands in a short list.
pub fn one_of(c: char, list: &[char]) -> (found: bool)
    ensures
        found == list@.contains(c),
{
    let mut i: usize = 0;
    while i < list.len()
        invariant
            i <= list@.len(),
            forall|k: int| 0 <= k < i ==> list@[k] != c,
        decreases list@.len() - i,
    {
        if list[i] == c {
            assert(list@[i as int] == c);
            return true;
        }
        i = i + 1;
    }
    false
}

/// The text without the listed characters at its end.
pub fn strip_end(s: &str, list: &[char]) -> (rest: String)
    ensures
        rest@ == stripped_end(s@, list@),
{
    let chars: Vec<char> = chars_of(s);
    let mut end: usize = chars.len();
    assert(s@.take(end as int) =~= s@);
    while end > 0 && one_of(chars[end - 1], list)
        invariant
            chars@ == s@,
            end <= chars@.len(),
            stripped_end(s@, list@) == stripped_end(s@.take(end as int), list@),
        decreases end,
    {
        assert(s@.take(end as int).drop_last() =~= s@.take(end - 1));
        end = end - 1;
    }
    let rest: String = part_of(s, 0, end);
    assert(rest@ =~= s@.take(end as int));
    rest
}

/// The text without the listed characters at its beginning.
pub fn strip_start(s: &str, list: &[char]) -> (rest: String)
    ensures
        rest@ == stripped_start(s@, list@),
{
    let chars: Vec<char> = chars_of(s);
    let mut start: usize = 0;
    assert(s@.skip(0) =~= s@);
    while start < chars.len() && one_of(chars[start], list)
        invariant
            chars@ == s@,
            start <= chars@.len(),
            stripped_start(s@, list@) == stripped_start(s@.skip(start as int), list@),
        decreases chars@.len() - start,
    {
        assert(s@.skip(start as int).drop_first() =~= s@.skip(start + 1));
        start = start + 1;
    }
    let rest: String = part_of(s, start, chars.len());
    assert(rest@ =~= s@.skip(start as int));
    rest
}

/// The text without white space at both ends.
pub fn trim_text(s: &str) -> (rest: String)
    ensures
        rest@ == trimmed(s@),
{
    let chars: Vec<char> = chars_of(s);
    let mut start: usize = 0;
    assert(s@.skip(0) =~= s@);
    while start < chars.len() && is_space_char(chars[start])
        invariant
            chars@ == s@,
            start <= chars@.len(),
            trimmed_start(s@) == trimmed_start(s@.skip(start as int)),
        decreases chars@.len() - start,
    {
        assert(s@.skip(start as int).drop_first() =~= s@.skip(start + 1));
        start = start + 1;
    }
    let ghost tail = s@.skip(start as int);
    assert(trimmed_start(s@) == tail);
    let mut end: usize = chars.len();
    assert(tail.take(end - start) =~= tail);
    while end > start && is_space_char(chars[end - 1])
        invariant
            chars@ == s@,
            tail == s@.skip(start as int),
            start <= end <= chars@.len(),
            trimmed_end(tail) == trimmed_end(tail.take(end - start)),
        decreases end,
    {
        assert(tail.take(end - start).drop_last() =~= tail.take(end - 1 - start));
        end = end - 1;
    }
    let rest: String = part_of(s, start, end);
    assert(rest@ =~= tail.take(end - start));
    rest
}

/// The lower-case form of a text.
pub uninterp spec fn lower_case(s: Seq<char>) -> Seq<char>;

/// `str::to_lowercase`: a function of the text.
#[verifier::external_body]
fn to_lowercase(s: &str) -> (lower: String)
    ensures
        lower@ == lower_case(s@),
{
    s.to_lowercase()
}

/// The lower-case form of a text.
pub fn lower_case_text(s: &str) -> (lower: String)
    ensures
        lower@ == lower_case(s@),
{
    to_lowercase(s)
}

/// The text that bytes encode, with a replacement character for every run of
/// bytes that is not UTF-8.
pub uninterp spec fn lossy(bytes: Seq<u8>) -> Seq<char>;

/// `String::from_utf8_lossy`: a function of the bytes; valid UTF-8 is decoded as
/// it stands.
#[verifier::external_body]
fn from_utf8_lossy(bytes: &[u8]) -> (text: String)
    ensures
        text@ == lossy(bytes@),
        valid_utf8(bytes@) ==> text@ == decode_utf8(bytes@),
{
    String::from_utf8_lossy(bytes).into_owned()
}

/// The text that bytes encode, whatever they are.
pub fn decoded_lossy(bytes: &[u8]) -> (text: String)
    ensures
        text@ == lossy(bytes@),
        valid_utf8(bytes@) ==> text@ == decode_utf8(bytes@),
{
    from_utf8_lossy(bytes)
}

/// The text with every carriage return before a line feed taken out.
pub open spec fn with_lf(s: Seq<char>) -> Seq<char>
    decreases s.len(),
{
    if s.len() == 0 {
        Seq::empty()
    } else if s.last() == '\n' && s.len() > 1 && s[s.len() - 2] == '\r' {
        with_lf(s.take(s.len() - 2)).push('\n')
    } else {
        with_lf(s.drop_last()).push(s.last())
    }
}

/// The text with every carriage return before a line feed taken out.
pub fn lf_text(s: &str) -> (text: String)
    ensures
        text@ == with_lf(s@),
{
    let chars: Vec<char> = chars_of(s);
    let mut text: String = String::new();
    let mut i: usize = 0;
    assert(s@.take(0) =~= Seq::<char>::empty());
    assert(text@ =~= Seq::<char>::empty());
    while i < chars.len()
        invariant
            chars@ == s@,
            i <= chars@.len(),
            text@ == with_lf(s@.take(i as int)),
            0 < i < chars@.len() ==> !(s@[i - 1] == '\r' && s@[i as int] == '\n'),
        decreases chars@.len() - i,
    {
        if chars[i] == '\r' && i < chars.len() - 1 && chars[i + 1] == '\n' {
            text.push('\n');
            assert(s@.take(i + 2).take(i as int) =~= s@.take(i as int));
            i = i + 2;
        } else {
            text.push(chars[i]);
            assert(s@.take(i + 1).drop_last() =~= s@.take(i as int));
            i = i + 1;
        }
    }
    assert(s@.take(i as int) =~= s@);
    text
}

/// Where every carriage return stands before a line feed, none is left.
pub proof fn lf_leaves_no_cr(s: Seq<char>)
    requires
        forall|i: int|
            0 <= i < s.len() && #[trigger] s[i] == '\r' ==> i + 1 < s.len() && s[i + 1] == '\n',
    ensures
        !with_lf(s).contains('\r'),
    decreases s.len(),
{
    if s.len() > 0 {
        let shorter = if s.last() == '\n' && s.len() > 1 && s[s.len() - 2] == '\r' {
            s.take(s.len() - 2)
        } else {
            s.drop_last()
        };
        assert(s[s.len() - 1] != '\r');
        assert forall|i: int| 0 <= i < shorter.len() && #[trigger] shorter[i] == '\r' implies i + 1
            < shorter.len() && shorter[i + 1] == '\n' by {
            assert(s[i] == '\r');
            if i + 1 == s.len() - 2 {
                assert(s[i + 1] == '\n');
            }
        }
        lf_leaves_no_cr(shorter);
        let before = with_lf(shorter);
        let now = with_lf(s);
        assert(now =~= before.push(s.last()));
        assert forall|k: int| 0 <= k < now.len() implies now[k] != '\r' by {
            if k < before.len() {
                assert(before[k] != '\r');
            }
        }
    }
}

/// Whether a list holds a text.
pub fn holds(list: &Vec<String>, text: &str) -> (found: bool)
    ensures
        found == texts(list@).contains(text@),
{
    let mut i: usize = 0;
    while i < list.len()
        invariant
            i <= list@.len(),
            forall|k: int| 0 <= k < i ==> (#[trigger] list@[k])@ != text@,
        decreases list@.len() - i,
    {
        if same_text(list[i].as_str(), text) {
            assert(texts(list@)[i as int] == text@);
            return true;
        }
        i = i + 1;
    }
    assert forall|k: int| 0 <= k < texts(list@).len() implies texts(list@)[k] != text@ by {
        assert(list@[k]@ != text@);
    }
    false
}

/// The digits below sixteen are the ten decimal ones and the letters `a` to `f`.
pub proof fn digits_are_hexadecimal(n: nat)
    requires
        n < 16,
    ensures
        digit(n) == "0123456789abcdef"@[n as int],
{
    reveal_strlit("0123456789abcdef");
}

/// Two digits are the hexadecimal form of a byte: the high half and the low half.
pub proof fn hexadecimal_of_a_byte(n: nat)
    requires
        n < 256,
    ensures
        hex(n, 2).len() == 2,
        hex(n, 2)[0] == digit(n / 16),
        hex(n, 2)[1] == digit(n % 16),
{
    reveal_with_fuel(hex, 3);
}

/// The hexadecimal form has the width that was asked for.
pub proof fn hexadecimal_has_its_width(n: nat, width: nat)
    ensures
        hex(n, width).len() == width,
    decreases width,
{
    if width > 0 {
        hexadecimal_has_its_width(n / 16, (width - 1) as nat);
    }
}

/// A number that was written in decimal is read back as itself, and it is written
/// without needless zeros.
pub proof fn written_numbers_are_read_back(n: u64)
    ensures
        numeral(decimal(n as nat)) == Numeral::Number(n),
        decimal(n as nat).len() >= 1,
        n > 0 ==> decimal(n as nat)[0] != '0',
        forall|i: int| 0 <= i < decimal(n as nat).len() ==> is_digit(#[trigger] decimal(n as nat)[i]),
{
    decimal_digits(n);
}

proof fn decimal_digits(n: u64)
    ensures
        digits_value(decimal(n as nat)) == Numeral::Number(n),
        decimal(n as nat).len() >= 1,
        n > 0 ==> decimal(n as nat)[0] != '0',
        forall|i: int| 0 <= i < decimal(n as nat).len() ==> is_digit(#[trigger] decimal(n as nat)[i]),
    decreases n,
{
    let s = decimal(n as nat);
    if n >= 10 {
        decimal_digits(n / 10);
        assert(s.drop_last() =~= decimal((n / 10) as nat));
        assert(s.last() == digit((n % 10) as nat));
    } else {
        assert(s.drop_last() =~= Seq::<char>::empty());
        assert(s.last() == digit(n as nat));
        assert(digits_value(s.drop_last()) == Numeral::Number(0));
    }
}

/// Different numbers are written differently.
pub proof fn numbers_are_written_apart(a: nat, b: nat)
    requires
        decimal(a) == decimal(b),
    ensures
        a == b,
    decreases a,
{
    if a >= 10 && b >= 10 {
        assert(decimal(a).drop_last() =~= decimal(a / 10));
        assert(decimal(b).drop_last() =~= decimal(b / 10));
        numbers_are_written_apart(a / 10, b / 10);
        assert(decimal(a).last() == digit(a % 10));
        assert(decimal(b).last() == digit(b % 10));
    } else if a < 10 && b < 10 {
        assert(decimal(a)[0] == digit(a));
        assert(decimal(b)[0] == digit(b));
    } else if a < 10 {
        decimal_is_not_empty(b / 10);
        assert(decimal(a).len() == 1);
    } else {
        decimal_is_not_empty(a / 10);
        assert(decimal(b).len() == 1);
    }
}

proof fn decimal_is_not_empty(n: nat)
    ensures
        decimal(n).len() >= 1,
    decreases n,
{
    if n >= 10 {
        decimal_is_not_empty(n / 10);
    }
}

/// A numeral without its plus sign.
pub open spec fn unsigned(s: Seq<char>) -> Seq<char> {
    if s.len() > 0 && s[0] == '+' {
        s.skip(1)
    } else {
        s
    }
}

/// A numeral that stands for a number has digits only, after at most one plus
/// sign; one that does not, and is neither empty nor too large, holds something
/// else or a plus sign alone.
pub proof fn numerals_are_digits(s: Seq<char>)
    ensures
        numeral(s) is Empty <==> s.len() == 0,
        numeral(s) is Number ==> unsigned(s).len() > 0 && forall|i: int|
            0 <= i < unsigned(s).len() ==> '0' <= #[trigger] unsigned(s)[i] <= '9',
        numeral(s) is NotADigit ==> s == seq!['+'] || exists|i: int|
            0 <= i < unsigned(s).len() && !('0' <= #[trigger] unsigned(s)[i] <= '9'),
{
    if s.len() > 0 {
        digits_or_not(unsigned(s));
        if s[0] == '+' && s.len() == 1 {
            assert(s =~= seq!['+']);
        }
    }
}

proof fn digits_or_not(s: Seq<char>)
    ensures
        !(digits_value(s) is Empty),
        digits_value(s) is Number ==> forall|i: int|
            0 <= i < s.len() ==> '0' <= #[trigger] s[i] <= '9',
        digits_value(s) is NotADigit ==> exists|i: int|
            0 <= i < s.len() && !('0' <= #[trigger] s[i] <= '9'),
    decreases s.len(),
{
    if s.len() > 0 {
        let shorter = s.drop_last();
        digits_or_not(shorter);
        if digits_value(s) is NotADigit {
            if digits_value(shorter) is NotADigit {
                let i = choose|i: int|
                    0 <= i < shorter.len() && !('0' <= #[trigger] shorter[i] <= '9');
                assert(!('0' <= s[i] <= '9'));
            } else {
                assert(!('0' <= s[s.len() - 1] <= '9'));
            }
        }
        if digits_value(s) is Number {
            assert forall|i: int| 0 <= i < s.len() implies '0' <= #[trigger] s[i] <= '9' by {
                if i < s.len() - 1 {
                    assert(s[i] == shorter[i]);
                }
            }
        }
    }
}

/// Splitting loses nothing and leaves no separator in a part: the parts with the
/// separator between them are the text again.
pub proof fn split_parts_make_the_text(s: Seq<char>, separator: char)
    ensures
        joined_by(split(s, separator), seq![separator]) == s,
        forall|i: int|
            0 <= i < split(s, separator).len() ==> !(#[trigger] split(s, separator)[i]).contains(
                separator,
            ),
    decreases s.len(),
{
    let parts = split(s, separator);
    if s.len() == 0 {
        assert(parts[0] =~= s);
    } else {
        let shorter = s.drop_last();
        let before = split(shorter, separator);
        split_parts_make_the_text(shorter, separator);
        split_gives_parts(shorter, separator);
        if s.last() == separator {
            assert(parts.drop_last() =~= before);
            assert(joined_by(parts, seq![separator]) =~= s);
            assert forall|i: int| 0 <= i < parts.len() implies !(#[trigger] parts[i]).contains(
                separator,
            ) by {
                if i < before.len() {
                    assert(parts[i] == before[i]);
                }
            }
        } else {
            assert(parts.drop_last() =~= before.drop_last());
            assert(parts.last() == before.last().push(s.last()));
            assert(joined_by(parts, seq![separator]) =~= joined_by(before, seq![separator]).push(
                s.last(),
            ));
            assert(s =~= shorter.push(s.last()));
            assert forall|i: int| 0 <= i < parts.len() implies !(#[trigger] parts[i]).contains(
                separator,
            ) by {
                if i < before.len() - 1 {
                    assert(parts[i] == before[i]);
                } else {
                    let grown = before[i].push(s.last());
                    assert(parts[i] == grown);
                    if grown.contains(separator) {
                        let k = choose|k: int| 0 <= k < grown.len() && grown[k] == separator;
                        assert(before[i][k] == separator);
                    }
                }
            }
        }
    }
}

proof fn split_after_plain(s: Seq<char>, plain: Seq<char>, separator: char)
    requires
        !plain.contains(separator),
    ensures
        split(s + plain, separator) == split(s, separator).update(
            split(s, separator).len() - 1,
            split(s, separator).last() + plain,
        ),
    decreases plain.len(),
{
    let parts = split(s, separator);
    split_gives_parts(s, separator);
    if plain.len() == 0 {
        assert(s + plain =~= s);
        assert(parts.last() + plain =~= parts.last());
        assert(parts.update(parts.len() - 1, parts.last()) =~= parts);
    } else {
        let whole = s + plain;
        assert(whole.drop_last() =~= s + plain.drop_last());
        assert(whole.last() == plain.last());
        assert(plain[plain.len() - 1] != separator);
        assert forall|k: int| 0 <= k < plain.drop_last().len() implies plain.drop_last()[k]
            != separator by {
            assert(plain[k] != separator);
        }
        split_after_plain(s, plain.drop_last(), separator);
        let before = split(whole.drop_last(), separator);
        assert(before.last() == parts.last() + plain.drop_last());
        assert(before.last().push(plain.last()) =~= parts.last() + plain);
        assert(split(whole, separator) =~= parts.update(parts.len() - 1, parts.last() + plain));
    }
}

/// Texts that were joined are split into the same texts again, where none of them
/// holds the separator.
pub proof fn joined_texts_are_split_again(parts: Seq<Seq<char>>, separator: char)
    requires
        parts.len() > 0,
        forall|i: int| 0 <= i < parts.len() ==> !(#[trigger] parts[i]).contains(separator),
    ensures
        split(joined_by(parts, seq![separator]), separator) == parts,
    decreases parts.len(),
{
    if parts.len() == 1 {
        let none = Seq::<char>::empty();
        split_after_plain(none, parts[0], separator);
        assert(none + parts[0] =~= parts[0]);
        assert(split(parts[0], separator) =~= parts);
    } else {
        let fewer = parts.drop_last();
        let before = joined_by(fewer, seq![separator]);
        assert forall|i: int| 0 <= i < fewer.len() implies !(#[trigger] fewer[i]).contains(
            separator,
        ) by {
            assert(fewer[i] == parts[i]);
        }
        joined_texts_are_split_again(fewer, separator);
        let open = before + seq![separator];
        assert(open.drop_last() =~= before);
        assert(split(open, separator) == fewer.push(Seq::empty()));
        split_after_plain(open, parts.last(), separator);
        assert(Seq::<char>::empty() + parts.last() =~= parts.last());
        assert(split(open + parts.last(), separator) =~= parts);
    }
}

/// A text without a character is the text of all its other characters, in order.
pub proof fn only_the_character_is_dropped(s: Seq<char>, c: char)
    ensures
        without(s, c) == s.filter(|x: char| x != c),
        !without(s, c).contains(c),
    decreases s.len(),
{
    reveal(Seq::filter);
    if s.len() > 0 {
        only_the_character_is_dropped(s.drop_last(), c);
        let rest = without(s, c);
        let before = without(s.drop_last(), c);
        if rest.contains(c) {
            let k = choose|k: int| 0 <= k < rest.len() && rest[k] == c;
            if k < before.len() {
                assert(before[k] == c);
            }
        }
    }
}

/// The last place of a character holds it, and no later place does; there is none
/// exactly where the text does not hold it.
pub proof fn last_index_is_last(s: Seq<char>, c: char)
    ensures
        -1 <= last_index(s, c) < s.len(),
        last_index(s, c) >= 0 <==> s.contains(c),
        last_index(s, c) >= 0 ==> s[last_index(s, c)] == c,
        forall|j: int| last_index(s, c) < j < s.len() ==> #[trigger] s[j] != c,
    decreases s.len(),
{
    if s.len() > 0 {
        let shorter = s.drop_last();
        last_index_is_last(shorter, c);
        if s.last() != c {
            assert forall|j: int| last_index(s, c) < j < s.len() implies #[trigger] s[j] != c by {
                if j < s.len() - 1 {
                    assert(s[j] == shorter[j]);
                }
            }
            if s.contains(c) {
                let k = choose|k: int| 0 <= k < s.len() && s[k] == c;
                assert(shorter[k] == c);
            }
        }
    }
}

/// Stripping the end takes listed characters only, and takes all of them: what is
/// left is a beginning of the text and does not end in a listed one.
pub proof fn end_is_stripped(s: Seq<char>, list: Seq<char>)
    ensures
        ({
            let n = stripped_end(s, list).len();
            &&& n <= s.len()
            &&& stripped_end(s, list) == s.take(n as int)
            &&& n > 0 ==> !list.contains(s[n - 1])
            &&& forall|i: int| n <= i < s.len() ==> list.contains(#[trigger] s[i])
        }),
    decreases s.len(),
{
    if s.len() > 0 && list.contains(s.last()) {
        let shorter = s.drop_last();
        end_is_stripped(shorter, list);
        let n = stripped_end(s, list).len();
        assert(shorter.take(n as int) =~= s.take(n as int));
        assert forall|i: int| n <= i < s.len() implies list.contains(#[trigger] s[i]) by {
            if i < s.len() - 1 {
                assert(s[i] == shorter[i]);
            }
        }
    } else {
        assert(s.take(s.len() as int) =~= s);
    }
}

/// Stripping the beginning takes listed characters only, and takes all of them.
pub proof fn beginning_is_stripped(s: Seq<char>, list: Seq<char>)
    ensures
        ({
            let n = s.len() - stripped_start(s, list).len();
            &&& 0 <= n
            &&& stripped_start(s, list) == s.skip(n)
            &&& n < s.len() ==> !list.contains(s[n])
            &&& forall|i: int| 0 <= i < n ==> list.contains(#[trigger] s[i])
        }),
    decreases s.len(),
{
    if s.len() > 0 && list.contains(s[0]) {
        let shorter = s.drop_first();
        beginning_is_stripped(shorter, list);
        let n = s.len() - stripped_start(s, list).len();
        assert(shorter.skip(n - 1) =~= s.skip(n));
        if n < s.len() {
            assert(s[n] == shorter[n - 1]);
        }
        assert forall|i: int| 0 <= i < n implies list.contains(#[trigger] s[i]) by {
            if i > 0 {
                assert(s[i] == shorter[i - 1]);
            }
        }
    } else {
        assert(s.skip(0) =~= s);
    }
}

proof fn end_is_trimmed(s: Seq<char>)
    ensures
        ({
            let n = trimmed_end(s).len();
            &&& n <= s.len()
            &&& trimmed_end(s) == s.take(n as int)
            &&& n > 0 ==> !is_space(s[n - 1])
            &&& forall|i: int| n <= i < s.len() ==> is_space(#[trigger] s[i])
        }),
    decreases s.len(),
{
    if s.len() > 0 && is_space(s.last()) {
        let shorter = s.drop_last();
        end_is_trimmed(shorter);
        let n = trimmed_end(s).len();
        assert(shorter.take(n as int) =~= s.take(n as int));
        assert forall|i: int| n <= i < s.len() implies is_space(#[trigger] s[i]) by {
            if i < s.len() - 1 {
                assert(s[i] == shorter[i]);
            }
        }
    } else {
        assert(s.take(s.len() as int) =~= s);
    }
}

proof fn beginning_is_trimmed(s: Seq<char>)
    ensures
        ({
            let n = s.len() - trimmed_start(s).len();
            &&& 0 <= n
            &&& trimmed_start(s) == s.skip(n)
            &&& n < s.len() ==> !is_space(s[n])
            &&& forall|i: int| 0 <= i < n ==> is_space(#[trigger] s[i])
        }),
    decreases s.len(),
{
    if s.len() > 0 && is_space(s[0]) {
        let shorter = s.drop_first();
        beginning_is_trimmed(shorter);
        let n = s.len() - trimmed_start(s).len();
        assert(shorter.skip(n - 1) =~= s.skip(n));
        if n < s.len() {
            assert(s[n] == shorter[n - 1]);
        }
        assert forall|i: int| 0 <= i < n implies is_space(#[trigger] s[i]) by {
            if i > 0 {
                assert(s[i] == shorter[i - 1]);
            }
        }
    } else {
        assert(s.skip(0) =~= s);
    }
}

/// Trimming takes the white space at both ends and nothing else: the text is white
/// space, what is left, and white space again, and what is left neither begins nor
/// ends with white space.
pub proof fn white_space_is_trimmed(s: Seq<char>)
    ensures
        trimmed(s).len() > 0 ==> !is_space(trimmed(s)[0]) && !is_space(trimmed(s).last()),
        exists|before: Seq<char>, after: Seq<char>|
            s == #[trigger] (before + trimmed(s) + after) && (forall|i: int|
                0 <= i < before.len() ==> is_space(#[trigger] before[i])) && (forall|i: int|
                0 <= i < after.len() ==> is_space(#[trigger] after[i])),
{
    let rest = trimmed_start(s);
    beginning_is_trimmed(s);
    end_is_trimmed(rest);
    let n = s.len() - rest.len();
    let m = trimmed(s).len() as int;
    let before = s.take(n);
    let after = rest.skip(m);
    assert(s =~= before + trimmed(s) + after);
    assert(forall|i: int| 0 <= i < before.len() ==> is_space(#[trigger] before[i]));
    assert forall|i: int| 0 <= i < after.len() implies is_space(#[trigger] after[i]) by {
        assert(after[i] == rest[m + i]);
    }
    if m > 0 {
        assert(trimmed(s)[0] == rest[0]);
        assert(rest[0] == s[n]);
    }
}

/// The case of the twenty-six letters is changed, letter by letter, and nothing
/// else.
pub proof fn only_letters_change_case(c: char)
    ensures
        "ABCDEFGHIJKLMNOPQRSTUVWXYZ"@.contains(c) ==> exists|i: int|
            0 <= i < 26 && c == #[trigger] "ABCDEFGHIJKLMNOPQRSTUVWXYZ"@[i] && lower(c)
                == "abcdefghijklmnopqrstuvwxyz"@[i],
        "abcdefghijklmnopqrstuvwxyz"@.contains(c) ==> exists|i: int|
            0 <= i < 26 && c == #[trigger] "abcdefghijklmnopqrstuvwxyz"@[i] && upper(c)
                == "ABCDEFGHIJKLMNOPQRSTUVWXYZ"@[i],
        !"ABCDEFGHIJKLMNOPQRSTUVWXYZ"@.contains(c) ==> lower(c) == c,
        !"abcdefghijklmnopqrstuvwxyz"@.contains(c) ==> upper(c) == c,
{
    reveal_strlit("ABCDEFGHIJKLMNOPQRSTUVWXYZ");
    reveal_strlit("abcdefghijklmnopqrstuvwxyz");
    let capitals = "ABCDEFGHIJKLMNOPQRSTUVWXYZ"@;
    let smalls = "abcdefghijklmnopqrstuvwxyz"@;
    if 'A' <= c <= 'Z' {
        let i = c as int - 'A' as int;
        assert(capitals[i] == c);
        assert(smalls[i] == lower(c));
    }
    if 'a' <= c <= 'z' {
        let i = c as int - 'a' as int;
        assert(smalls[i] == c);
        assert(capitals[i] == upper(c));
    }
}

/// Two texts that differ in the case of their letters only have the same small and
/// the same capital form.
pub proof fn case_is_forgotten(s: Seq<char>)
    ensures
        lowered(uppered(s)) == lowered(s),
        uppered(lowered(s)) == uppered(s),
        lowered(lowered(s)) == lowered(s),
        uppered(uppered(s)) == uppered(s),
{
    assert(lowered(uppered(s)) =~= lowered(s));
    assert(uppered(lowered(s)) =~= uppered(s));
    assert(lowered(lowered(s)) =~= lowered(s));
    assert(uppered(uppered(s)) =~= uppered(s));
}

/// A carriage return and line feed become a line feed wherever they stand, and a
/// text without such a pair is left as it is.
pub proof fn line_ends_become_line_feeds(a: Seq<char>, b: Seq<char>)
    ensures
        with_lf(a + seq!['\r', '\n'] + b) == with_lf(a) + seq!['\n'] + with_lf(b),
        (forall|i: int| 0 <= i < a.len() - 1 ==> !(#[trigger] a[i] == '\r' && a[i + 1] == '\n'))
            ==> with_lf(a) == a,
    decreases b.len(),
{
    if forall|i: int| 0 <= i < a.len() - 1 ==> !(#[trigger] a[i] == '\r' && a[i + 1] == '\n') {
        without_pairs_unchanged(a);
    }
    let whole = a + seq!['\r', '\n'] + b;
    if b.len() == 0 {
        assert(whole.take(whole.len() - 2) =~= a);
        assert(with_lf(whole) =~= with_lf(a) + seq!['\n'] + with_lf(b));
    } else if b.last() == '\n' && b.len() > 1 && b[b.len() - 2] == '\r' {
        let shorter = b.take(b.len() - 2);
        line_ends_become_line_feeds(a, shorter);
        assert(whole.take(whole.len() - 2) =~= a + seq!['\r', '\n'] + shorter);
        assert(whole[whole.len() - 2] == b[b.len() - 2]);
        assert(with_lf(whole) =~= with_lf(a) + seq!['\n'] + with_lf(b));
    } else {
        let shorter = b.drop_last();
        line_ends_become_line_feeds(a, shorter);
        assert(whole.drop_last() =~= a + seq!['\r', '\n'] + shorter);
        assert(whole.last() == b.last());
        if b.len() > 1 {
            assert(whole[whole.len() - 2] == b[b.len() - 2]);
        } else {
            assert(whole[whole.len() - 2] == '\n');
        }
        assert(with_lf(whole) =~= with_lf(a) + seq!['\n'] + with_lf(b));
    }
}

proof fn without_pairs_unchanged(s: Seq<char>)
    requires
        forall|i: int| 0 <= i < s.len() - 1 ==> !(#[trigger] s[i] == '\r' && s[i + 1] == '\n'),
    ensures
        with_lf(s) == s,
    decreases s.len(),
{
    if s.len() > 0 {
        let shorter = s.drop_last();
        assert forall|i: int| 0 <= i < shorter.len() - 1 implies !(#[trigger] shorter[i] == '\r'
            && shorter[i + 1] == '\n') by {
            assert(shorter[i] == s[i]);
        }
        without_pairs_unchanged(shorter);
        if s.len() > 1 && s.last() == '\n' {
            assert(s[s.len() - 2] != '\r');
        }
        assert(with_lf(s) =~= s);
    } else {
        assert(with_lf(s) =~= s);
    }
}

} // verus!
