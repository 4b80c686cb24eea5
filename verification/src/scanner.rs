//! Wallet card identifiers in the phone's log.
use crate::failure::Failure;
use crate::lines::{held_after_all, line_texts, lines_of, Held, LineDecoder};
use crate::text::{
    contains_text, decimal, decimal_text, decimal_wide, holds, lower_case, lower_case_text, occurs,
    part_has_no_more, part_of_part, same_text, strip_end, strip_start, stripped_end,
    stripped_end_is_part, stripped_start, stripped_start_is_part, texts, trim_text, trimmed,
    trimmed_is_part,
};
use vstd::prelude::*;
use vstd::utf8::encode_utf8;

verus! {

/// A card that was seen before.
#[derive(Debug)]
pub struct SavedCard {
    /// Its identifier.
    pub hash: String,
    /// Its name.
    pub name: String,
}

impl View for SavedCard {
    type V = (Seq<char>, Seq<char>);

    open spec fn view(&self) -> (Seq<char>, Seq<char>) {
        (self.hash@, self.name@)
    }
}

/// The views of a run of cards.
pub open spec fn card_views(cards: Seq<SavedCard>) -> Seq<(Seq<char>, Seq<char>)> {
    Seq::new(cards.len(), |i: int| cards[i]@)
}

/// Identifiers that stand for no card.
pub const DUMMY_HASHES: [&'static str; 3] = [
    "M6nDwZrkYbFlsodLgCbvyFZQ1cc=",
    "kJL-D0rr-SZhbj2c8nK-OQ9hCMY=",
    "hwAtAmHKYwsQrJbT5cTNDsaxVME=",
];

/// Words that mark a line as one about Wallet.
pub const WALLET_KEYWORDS: [&'static str; 10] = [
    "passd",
    "passbook",
    "passkit",
    "stockholm",
    "nanopassd",
    "npkcompanion",
    "wallet",
    "/cards/",
    "/passes/",
    ".pkpass",
];

/// Finds the name of a card.
pub const NAME_PATTERN: &'static str = r#"(?i)(?:localizedDescription|description|passName|title)\s*[:=]\s*['"]([^'"]+)['"]"#;

/// Finds an identifier that the phone has hidden.
pub const HIDDEN_PATTERN: &'static str = r"(?i)(?:pass\s+uniqueID|passUniqueIdentifier|passIdentifier|cardIdentifier|card[_\s]?hash|pass[_\s]?hash)\s*[:=]?\s*<private>";

/// Find identifiers of cards: in a card path, before a pass suffix, after a word
/// for an identifier, and standing alone in padded form.
pub const HASH_PATTERNS: [&'static str; 4] = [
    r#"(?i)/(?:Cards|Passes/Cards)/([A-Za-z0-9+_=-]{20,44})(?:\.pkpass|\.pkcache|\.cache|/|\s|["'),]|$)"#,
    r#"/([A-Za-z0-9+_=-]{20,44})\.(?:pkpass|pkcache|cache)"#,
    r#"(?i)(?:card[_\s]?(?:hash|id)|pass[_\s]?(?:hash|id)|unique[_\s]?(?:id|identifier)|passUniqueIdentifier|passIdentifier|cardIdentifier)\s*(?:[:=]\s*|\s+)['"]?([A-Za-z0-9+_=-]{20,44})(?:[^A-Za-z0-9+/_=-]|$)"#,
    r#"(?:^|[^A-Za-z0-9+/_=-])([A-Za-z0-9+/_-]{27}=|[A-Za-z0-9+/_-]{43}=)(?:[^A-Za-z0-9+/_=-]|$)"#,
];

/// The two quotation marks.
pub open spec fn quotes() -> Seq<char> {
    seq!['\'', '"']
}

/// Full stop and comma.
pub open spec fn stops() -> Seq<char> {
    seq!['.', ',']
}

/// An identifier without quotation marks around it and punctuation behind it.
pub open spec fn bare(h: Seq<char>) -> Seq<char> {
    stripped_end(stripped_end(stripped_start(h, quotes()), quotes()), stops())
}

/// A character that identifiers are made of.
pub open spec fn is_hash_char(c: char) -> bool {
    'A' <= c <= 'Z' || 'a' <= c <= 'z' || '0' <= c <= '9' || c == '+' || c == '-' || c == '_' || c
        == '='
}

/// An identifier without its padding.
pub open spec fn core_of(h: Seq<char>) -> Seq<char> {
    stripped_end(h, seq!['='])
}

/// The identifier is one of those that stand for no card.
pub open spec fn is_dummy(h: Seq<char>) -> bool {
    exists|k: int| 0 <= k < DUMMY_HASHES@.len() && #[trigger] core_of(DUMMY_HASHES@[k]@) == core_of(h)
}

/// A usable identifier: 20 to 44 characters, not a UUID, padded by at most two
/// equals signs at its end, not one character repeated, and not a dummy.
pub open spec fn is_usable(h: Seq<char>) -> bool {
    &&& 20 <= h.len() <= 44
    &&& !(h.len() == 36 && h.contains('-'))
    &&& forall|i: int| 0 <= i < h.len() ==> is_hash_char(#[trigger] h[i])
    &&& !core_of(h).contains('=')
    &&& h.len() - core_of(h).len() <= 2
    &&& exists|i: int| 0 <= i < core_of(h).len() && #[trigger] core_of(h)[i] != h[0]
    &&& !is_dummy(h)
}

/// The identifier in a candidate, if it is usable.
pub open spec fn normalized(h: Seq<char>) -> Option<Seq<char>> {
    if is_usable(bare(h)) {
        Some(bare(h))
    } else {
        None
    }
}

fn core_text(h: &str) -> (rest: String)
    ensures
        rest@ == core_of(h@),
{
    let padding: Vec<char> = vec!['='];
    assert(padding@ =~= seq!['=']);
    strip_end(h, padding.as_slice())
}

fn dummy(h: &str) -> (found: bool)
    ensures
        found == is_dummy(h@),
{
    let plain: String = core_text(h);
    let mut k: usize = 0;
    while k < DUMMY_HASHES.len()
        invariant
            plain@ == core_of(h@),
            k <= DUMMY_HASHES@.len(),
            forall|j: int| 0 <= j < k ==> #[trigger] core_of(DUMMY_HASHES@[j]@) != core_of(h@),
        decreases DUMMY_HASHES@.len() - k,
    {
        if same_text(core_text(DUMMY_HASHES[k]).as_str(), plain.as_str()) {
            assert(core_of(DUMMY_HASHES@[k as int]@) == core_of(h@));
            return true;
        }
        k = k + 1;
    }
    false
}

/// Stripping characters from the end leaves the beginning as it was.
proof fn stripped_end_begins(s: Seq<char>, list: Seq<char>)
    ensures
        stripped_end(s, list).len() <= s.len(),
        stripped_end(s, list) == s.take(stripped_end(s, list).len() as int),
        forall|i: int| stripped_end(s, list).len() <= i < s.len() ==> list.contains(#[trigger] s[i]),
        stripped_end(s, list).len() > 0 ==> !list.contains(stripped_end(s, list).last()),
    decreases s.len(),
{
    if s.len() > 0 && list.contains(s.last()) {
        let shorter = s.drop_last();
        stripped_end_begins(shorter, list);
        let n = stripped_end(s, list).len() as int;
        assert(shorter.take(n) =~= s.take(n));
        assert forall|i: int| n <= i < s.len() implies list.contains(#[trigger] s[i]) by {
            if i < s.len() - 1 {
                assert(shorter[i] == s[i]);
            }
        }
    } else {
        assert(s.take(s.len() as int) =~= s);
    }
}

/// The identifier in a candidate, if it is usable.
pub fn normalized_hash(h: &str) -> (hash: Option<String>)
    ensures
        match hash {
            Some(hash) => normalized(h@) == Some(hash@),
            None => normalized(h@) is None,
        },
{
    let marks: Vec<char> = vec!['\'', '"'];
    let points: Vec<char> = vec!['.', ','];
    assert(marks@ =~= quotes());
    assert(points@ =~= stops());
    let open: String = strip_start(h, marks.as_slice());
    let closed: String = strip_end(open.as_str(), marks.as_slice());
    let hash: String = strip_end(closed.as_str(), points.as_slice());
    assert(hash@ == bare(h@));
    if !usable(hash.as_str()) {
        return None;
    }
    Some(hash)
}

fn usable(hash: &str) -> (good: bool)
    ensures
        good == is_usable(hash@),
{
    let chars: Vec<char> = crate::text::chars_of(hash);
    let count: usize = chars.len();
    if count < 20 || count > 44 {
        return false;
    }
    let mut dashed: bool = false;
    let mut i: usize = 0;
    while i < count
        invariant
            chars@ == hash@,
            count == chars@.len(),
            i <= count,
            forall|k: int| 0 <= k < i ==> is_hash_char(#[trigger] hash@[k]),
            dashed ==> hash@.contains('-'),
            !dashed ==> forall|k: int| 0 <= k < i ==> hash@[k] != '-',
        decreases count - i,
    {
        let c: char = chars[i];
        if !(('A' <= c && c <= 'Z') || ('a' <= c && c <= 'z') || ('0' <= c && c <= '9') || c == '+' || c
            == '-' || c == '_' || c == '=') {
            assert(!is_hash_char(hash@[i as int]));
            return false;
        }
        if c == '-' {
            assert(hash@[i as int] == '-');
            dashed = true;
        }
        i = i + 1;
    }
    if count == 36 && dashed {
        return false;
    }
    let plain: String = core_text(hash);
    let inner: Vec<char> = crate::text::chars_of(plain.as_str());
    proof {
        stripped_end_begins(hash@, seq!['=']);
    }
    if count - inner.len() > 2 {
        return false;
    }
    let mut padded: bool = false;
    let mut mixed: bool = false;
    let mut j: usize = 0;
    while j < inner.len()
        invariant
            chars@ == hash@,
            inner@ == core_of(hash@),
            20 <= chars@.len(),
            j <= inner@.len(),
            padded ==> core_of(hash@).contains('='),
            !padded ==> forall|k: int| 0 <= k < j ==> core_of(hash@)[k] != '=',
            mixed ==> exists|k: int| 0 <= k < core_of(hash@).len() && #[trigger] core_of(hash@)[k]
                != hash@[0],
            !mixed ==> forall|k: int| 0 <= k < j ==> core_of(hash@)[k] == hash@[0],
        decreases inner@.len() - j,
    {
        if inner[j] == '=' {
            assert(core_of(hash@)[j as int] == '=');
            padded = true;
        }
        if inner[j] != chars[0] {
            assert(core_of(hash@)[j as int] != hash@[0]);
            mixed = true;
        }
        j = j + 1;
    }
    if padded || !mixed {
        return false;
    }
    !dummy(hash)
}

/// Whether a text is the identifier of a card.
pub fn is_valid_card_hash(h: &str) -> (valid: bool)
    ensures
        valid == (normalized(h@) is Some),
{
    normalized_hash(h).is_some()
}

/// A usable identifier is its own normal form.
pub proof fn normal_form_is_stable(h: Seq<char>)
    requires
        is_usable(h),
    ensures
        bare(h) == h,
        normalized(h) == Some(h),
{
    assert(!quotes().contains(h[0])) by {
        assert(is_hash_char(h[0]));
    }
    assert(stripped_start(h, quotes()) == h);
    assert(is_hash_char(h[h.len() - 1]));
    assert(!quotes().contains(h.last()));
    assert(!stops().contains(h.last()));
}

/// What comes out of normalising is usable, and normalising it again changes
/// nothing.
pub proof fn normalizing_twice(h: Seq<char>)
    requires
        normalized(h) is Some,
    ensures
        is_usable(normalized(h).unwrap()),
        normalized(normalized(h).unwrap()) == normalized(h),
{
    normal_form_is_stable(bare(h));
}

/// Keeps the cards whose identifiers are usable.
pub open spec fn usable_cards(cards: Seq<(Seq<char>, Seq<char>)>) -> Seq<(Seq<char>, Seq<char>)>
    decreases cards.len(),
{
    if cards.len() == 0 {
        Seq::empty()
    } else if normalized(cards.last().0) is Some {
        usable_cards(cards.drop_last()).push(cards.last())
    } else {
        usable_cards(cards.drop_last())
    }
}

/// The cards of a stored list whose identifiers are usable. A list that cannot be
/// read counts as empty.
pub fn load_saved_cards(stored: Option<Vec<SavedCard>>) -> (cards: Vec<SavedCard>)
    ensures
        match stored {
            Some(stored) => card_views(cards@) == usable_cards(card_views(stored@)),
            None => cards@.len() == 0,
        },
{
    let mut cards: Vec<SavedCard> = Vec::new();
    let mut stored: Vec<SavedCard> = match stored {
        Some(stored) => stored,
        None => return cards,
    };
    let ghost all = card_views(stored@);
    let ghost whole = stored@;
    let ghost mut done: int = 0;
    assert(all.take(0) =~= Seq::<(Seq<char>, Seq<char>)>::empty());
    assert(card_views(cards@) =~= Seq::<(Seq<char>, Seq<char>)>::empty());
    assert(whole.skip(0) =~= whole);
    while stored.len() > 0
        invariant
            all == card_views(whole),
            0 <= done <= whole.len(),
            stored@ == whole.skip(done),
            card_views(cards@) == usable_cards(all.take(done)),
        decreases stored@.len(),
    {
        let ghost before = card_views(cards@);
        let card = stored.remove(0);
        proof {
            assert(card == whole[done]);
            assert(all.take(done + 1).drop_last() =~= all.take(done));
            assert(all.take(done + 1).last() == card@);
        }
        if is_valid_card_hash(card.hash.as_str()) {
            cards.push(card);
            assert(card_views(cards@) =~= before.push(card@));
        }
        proof {
            done = done + 1;
            assert(stored@ =~= whole.skip(done));
        }
    }
    assert(all.take(done) =~= all);
    cards
}

/// A compiled pattern of the `regex` crate.
#[verifier::external_type_specification]
#[verifier::external_body]
pub struct ExRegex(regex::Regex);

/// Why the `regex` crate refused a pattern.
#[verifier::external_type_specification]
#[verifier::external_body]
pub struct ExRegexError(regex::Error);

/// The pattern that was compiled, with its options written into it.
pub uninterp spec fn regex_source(r: regex::Regex) -> Seq<char>;

/// Whether a pattern can be compiled.
pub uninterp spec fn regex_compiles(pattern: Seq<char>) -> bool;

/// What the first group of the leftmost match of a pattern holds: the outer
/// option says whether the pattern matches and the group takes part.
pub uninterp spec fn regex_group(pattern: Seq<char>, text: Seq<char>) -> Option<Seq<char>>;

/// What the first group holds in each of the successive matches of a pattern.
pub uninterp spec fn regex_groups(pattern: Seq<char>, text: Seq<char>) -> Seq<Option<Seq<char>>>;

/// Whether a pattern matches somewhere in a text.
pub uninterp spec fn regex_matches(pattern: Seq<char>, text: Seq<char>) -> bool;

/// `regex::Regex::new`: whether a pattern compiles depends on the pattern alone,
/// and the result remembers it.
#[verifier::external_body]
fn compile(pattern: &str) -> (r: Result<regex::Regex, regex::Error>)
    ensures
        r is Ok == regex_compiles(pattern@),
        r matches Ok(r) ==> regex_source(r) == pattern@,
{
    regex::Regex::new(pattern)
}

/// The text of an optional group.
pub open spec fn group_text(group: Option<String>) -> Option<Seq<char>> {
    match group {
        Some(group) => Some(group@),
        None => None,
    }
}

/// The texts of a run of groups.
pub open spec fn group_texts(groups: Seq<Option<String>>) -> Seq<Option<Seq<char>>> {
    Seq::new(groups.len(), |i: int| group_text(groups[i]))
}

/// There is no quotation mark in the text.
pub open spec fn unquoted(text: Seq<char>) -> bool {
    !text.contains('\'') && !text.contains('"')
}

/// What the groups hold are parts of the text.
pub open spec fn are_parts(groups: Seq<Option<Seq<char>>>, text: Seq<char>) -> bool {
    forall|i: int|
        0 <= i < groups.len() ==> (#[trigger] groups[i] matches Some(found) ==> occurs(found, text))
}

/// `regex::Regex::captures` and the first group of what it finds: a function of
/// pattern and text, and a part of the text. The group of the name pattern is a run
/// of characters other than quotation marks.
#[verifier::external_body]
fn first_group(r: &regex::Regex, text: &str) -> (group: Option<String>)
    ensures
        group_text(group) == regex_group(regex_source(*r), text@),
        group matches Some(found) ==> occurs(found@, text@),
        regex_source(*r) == NAME_PATTERN@ ==> (group matches Some(found) ==> unquoted(found@)),
{
    r.captures(text).and_then(|c| c.get(1)).map(|m| m.as_str().to_owned())
}

/// `regex::Regex::captures_iter` and the first group of each match: a function of
/// pattern and text, and each a part of the text.
#[verifier::external_body]
fn all_groups(r: &regex::Regex, text: &str) -> (groups: Vec<Option<String>>)
    ensures
        group_texts(groups@) == regex_groups(regex_source(*r), text@),
        are_parts(group_texts(groups@), text@),
{
    r.captures_iter(text).map(|c| c.get(1).map(|m| m.as_str().to_owned())).collect()
}

/// `regex::Regex::is_match`: a function of pattern and text.
#[verifier::external_body]
fn found_in(r: &regex::Regex, text: &str) -> (found: bool)
    ensures
        found == regex_matches(regex_source(*r), text@),
{
    r.is_match(text)
}

/// All patterns compile.
pub open spec fn patterns_compile() -> bool {
    &&& regex_compiles(NAME_PATTERN@)
    &&& regex_compiles(HIDDEN_PATTERN@)
    &&& forall|k: int| 0 <= k < HASH_PATTERNS@.len() ==> regex_compiles(#[trigger] HASH_PATTERNS@[k]@)
}

/// The line is about Wallet.
pub open spec fn mentions_wallet(line: Seq<char>) -> bool {
    exists|k: int| 0 <= k < WALLET_KEYWORDS@.len() && occurs(#[trigger] WALLET_KEYWORDS@[k]@, lower_case(line))
}

/// The name in what the name pattern found, if it is one: longer than one byte
/// and not hidden.
pub open spec fn name_in(group: Option<Seq<char>>) -> Option<Seq<char>> {
    match group {
        None => None,
        Some(found) => {
            let name = trimmed(found);
            if encode_utf8(name).len() > 1 && !occurs("<private>"@, lower_case(name)) {
                Some(name)
            } else {
                None
            }
        },
    }
}

/// The usable identifiers among candidates, each once, in the order in which they
/// come up.
pub open spec fn hashes_among(candidates: Seq<Option<Seq<char>>>) -> Seq<Seq<char>>
    decreases candidates.len(),
{
    if candidates.len() == 0 {
        Seq::empty()
    } else {
        let before = hashes_among(candidates.drop_last());
        match candidates.last() {
            None => before,
            Some(candidate) => match normalized(candidate) {
                None => before,
                Some(hash) => if before.contains(hash) {
                    before
                } else {
                    before.push(hash)
                },
            },
        }
    }
}

/// No identifier comes out twice, and all of them are usable.
pub proof fn hashes_are_distinct(candidates: Seq<Option<Seq<char>>>)
    ensures
        hashes_among(candidates).no_duplicates(),
        forall|i: int|
            0 <= i < hashes_among(candidates).len() ==> is_usable(#[trigger] hashes_among(candidates)[i]),
    decreases candidates.len(),
{
    if candidates.len() > 0 {
        hashes_are_distinct(candidates.drop_last());
    }
}

/// What is left of an identifier without quotation marks and punctuation is a part of
/// it.
proof fn bare_is_part(h: Seq<char>)
    ensures
        occurs(bare(h), h),
{
    let open = stripped_start(h, quotes());
    let closed = stripped_end(open, quotes());
    stripped_start_is_part(h, quotes());
    stripped_end_is_part(open, quotes());
    stripped_end_is_part(closed, stops());
    part_of_part(bare(h), closed, open);
    part_of_part(bare(h), open, h);
}

/// Where the candidates are parts of a line, so is every identifier that comes out.
pub proof fn hashes_are_parts(candidates: Seq<Option<Seq<char>>>, line: Seq<char>)
    requires
        are_parts(candidates, line),
    ensures
        forall|i: int|
            0 <= i < hashes_among(candidates).len() ==> occurs(
                #[trigger] hashes_among(candidates)[i],
                line,
            ),
    decreases candidates.len(),
{
    if candidates.len() > 0 {
        let earlier = candidates.drop_last();
        assert forall|i: int| 0 <= i < earlier.len() implies (#[trigger] earlier[i] matches Some(
            found,
        ) ==> occurs(found, line)) by {
            assert(earlier[i] == candidates[i]);
        }
        hashes_are_parts(earlier, line);
        assert(candidates[candidates.len() - 1] == candidates.last());
        if let Some(candidate) = candidates.last() {
            bare_is_part(candidate);
            part_of_part(bare(candidate), candidate, line);
        }
        let before = hashes_among(earlier);
        let now = hashes_among(candidates);
        assert forall|i: int| 0 <= i < now.len() implies occurs(#[trigger] now[i], line) by {
            if i < before.len() {
                assert(now[i] == before[i]);
                assert(occurs(before[i], line));
            } else {
                assert(now == before.push(bare(candidates.last().unwrap())));
            }
        }
    }
}

/// Where the group is a part of a line without quotation marks, so is the name in it.
pub proof fn name_is_part(group: Option<Seq<char>>, line: Seq<char>)
    requires
        group matches Some(found) ==> occurs(found, line) && unquoted(found),
    ensures
        name_in(group) matches Some(name) ==> occurs(name, line) && unquoted(name),
{
    if let Some(found) = group {
        trimmed_is_part(found);
        part_of_part(trimmed(found), found, line);
        if trimmed(found).contains('\'') {
            part_has_no_more(trimmed(found), found, '\'');
        }
        if trimmed(found).contains('"') {
            part_has_no_more(trimmed(found), found, '"');
        }
    }
}

/// An unusable candidate does not hide a usable one: every usable candidate is
/// among what comes out.
pub proof fn no_hash_is_lost(candidates: Seq<Option<Seq<char>>>, i: int)
    requires
        0 <= i < candidates.len(),
        candidates[i] matches Some(candidate) && normalized(candidate) is Some,
    ensures
        hashes_among(candidates).contains(normalized(candidates[i].unwrap()).unwrap()),
    decreases candidates.len(),
{
    let hash = normalized(candidates[i].unwrap()).unwrap();
    let before = hashes_among(candidates.drop_last());
    let now = hashes_among(candidates);
    if i < candidates.len() - 1 {
        no_hash_is_lost(candidates.drop_last(), i);
        let k = choose|k: int| 0 <= k < before.len() && before[k] == hash;
        assert(now[k] == hash);
    } else if !before.contains(hash) {
        assert(now[now.len() - 1] == hash);
    }
}

/// The candidates that the first `n` patterns find in a line.
pub open spec fn candidates_of(line: Seq<char>, n: int) -> Seq<Option<Seq<char>>>
    decreases n,
{
    if n <= 0 {
        Seq::empty()
    } else {
        candidates_of(line, n - 1) + regex_groups(HASH_PATTERNS@[n - 1]@, line)
    }
}

/// The identifiers in a line.
pub open spec fn hashes_in(line: Seq<char>) -> Seq<Seq<char>> {
    if mentions_wallet(line) {
        hashes_among(candidates_of(line, HASH_PATTERNS@.len() as int))
    } else {
        Seq::empty()
    }
}

/// Whether a line is about Wallet.
pub fn is_wallet_line(line: &str) -> (about: bool)
    ensures
        about == mentions_wallet(line@),
{
    let lower: String = lower_case_text(line);
    let mut k: usize = 0;
    while k < WALLET_KEYWORDS.len()
        invariant
            lower@ == lower_case(line@),
            k <= WALLET_KEYWORDS@.len(),
            forall|j: int|
                0 <= j < k ==> !occurs(#[trigger] WALLET_KEYWORDS@[j]@, lower_case(line@)),
        decreases WALLET_KEYWORDS@.len() - k,
    {
        if contains_text(lower.as_str(), WALLET_KEYWORDS[k]) {
            assert(occurs(WALLET_KEYWORDS@[k as int]@, lower_case(line@)));
            return true;
        }
        k = k + 1;
    }
    false
}

/// The name in what the name pattern found, if it is one.
pub fn card_name(group: Option<String>) -> (name: Option<String>)
    ensures
        group_text(name) == name_in(group_text(group)),
{
    match group {
        None => None,
        Some(found) => {
            let name: String = trim_text(found.as_str());
            if name.as_str().as_bytes().len() > 1 && !contains_text(
                lower_case_text(name.as_str()).as_str(),
                "<private>",
            ) {
                Some(name)
            } else {
                None
            }
        },
    }
}

/// The usable identifiers among candidates, each once.
pub fn distinct_hashes(candidates: &Vec<Option<String>>) -> (hashes: Vec<String>)
    ensures
        texts(hashes@) == hashes_among(group_texts(candidates@)),
{
    let ghost all = group_texts(candidates@);
    let mut hashes: Vec<String> = Vec::new();
    let mut i: usize = 0;
    assert(all.take(0) =~= Seq::<Option<Seq<char>>>::empty());
    assert(texts(hashes@) =~= Seq::<Seq<char>>::empty());
    while i < candidates.len()
        invariant
            all == group_texts(candidates@),
            i <= candidates@.len(),
            texts(hashes@) == hashes_among(all.take(i as int)),
        decreases candidates@.len() - i,
    {
        let ghost before = texts(hashes@);
        assert(all.take(i + 1).drop_last() =~= all.take(i as int));
        assert(all.take(i + 1).last() == group_text(candidates@[i as int]));
        if let Some(candidate) = &candidates[i] {
            if let Some(hash) = normalized_hash(candidate.as_str()) {
                if !holds(&hashes, hash.as_str()) {
                    hashes.push(hash);
                    assert(texts(hashes@) =~= before.push(hash@));
                }
            }
        }
        i = i + 1;
    }
    assert(all.take(i as int) =~= all);
    hashes
}

/// What is found in a line: no identifier twice, each of them a usable part of the
/// line, and none where the line is not about Wallet.
pub open spec fn found_properly(hashes: Seq<Seq<char>>, line: Seq<char>) -> bool {
    &&& hashes.no_duplicates()
    &&& forall|i: int|
        0 <= i < hashes.len() ==> is_usable(#[trigger] hashes[i]) && occurs(hashes[i], line)
            && normalized(hashes[i]) == Some(hashes[i])
    &&& !mentions_wallet(line) ==> hashes.len() == 0
}

/// The patterns, compiled.
pub struct CardPatterns {
    name: regex::Regex,
    hidden: regex::Regex,
    hashes: Vec<regex::Regex>,
}

impl CardPatterns {
    #[verifier::type_invariant]
    spec fn is_compiled(self) -> bool {
        &&& regex_source(self.name) == NAME_PATTERN@
        &&& regex_source(self.hidden) == HIDDEN_PATTERN@
        &&& self.hashes@.len() == HASH_PATTERNS@.len()
        &&& forall|k: int|
            0 <= k < self.hashes@.len() ==> regex_source(#[trigger] self.hashes@[k])
                == HASH_PATTERNS@[k]@
    }

    /// Compiles the patterns, if they can be compiled.
    pub fn compile() -> (patterns: Option<CardPatterns>)
        ensures
            patterns is Some == patterns_compile(),
    {
        let name: regex::Regex = match compile(NAME_PATTERN) {
            Ok(r) => r,
            Err(_) => return None,
        };
        let hidden: regex::Regex = match compile(HIDDEN_PATTERN) {
            Ok(r) => r,
            Err(_) => return None,
        };
        let mut hashes: Vec<regex::Regex> = Vec::new();
        let mut k: usize = 0;
        while k < HASH_PATTERNS.len()
            invariant
                k <= HASH_PATTERNS@.len(),
                hashes@.len() == k,
                forall|j: int|
                    0 <= j < k ==> regex_source(#[trigger] hashes@[j]) == HASH_PATTERNS@[j]@,
                forall|j: int| 0 <= j < k ==> regex_compiles(#[trigger] HASH_PATTERNS@[j]@),
            decreases HASH_PATTERNS@.len() - k,
        {
            match compile(HASH_PATTERNS[k]) {
                Ok(r) => hashes.push(r),
                Err(_) => {
                    assert(!regex_compiles(HASH_PATTERNS@[k as int]@));
                    return None;
                },
            }
            k = k + 1;
        }
        Some(CardPatterns { name, hidden, hashes })
    }

    /// Whether the phone has hidden an identifier in the line.
    pub fn hides_identifier(&self, line: &str) -> (hidden: bool)
        ensures
            hidden == regex_matches(HIDDEN_PATTERN@, line@),
    {
        proof {
            use_type_invariant(self);
        }
        found_in(&self.hidden, line)
    }

    /// The name of the card in the line, if there is one.
    pub fn name_in_line(&self, line: &str) -> (name: Option<String>)
        ensures
            group_text(name) == name_in(regex_group(NAME_PATTERN@, line@)),
            name matches Some(name) ==> occurs(name@, line@) && unquoted(name@),
    {
        proof {
            use_type_invariant(self);
        }
        let group: Option<String> = first_group(&self.name, line);
        proof {
            name_is_part(group_text(group), line@);
        }
        card_name(group)
    }

    /// The identifiers in the line.
    pub fn hashes_in_line(&self, line: &str) -> (hashes: Vec<String>)
        ensures
            texts(hashes@) == hashes_in(line@),
            found_properly(texts(hashes@), line@),
    {
        proof {
            use_type_invariant(self);
        }
        if !is_wallet_line(line) {
            let none: Vec<String> = Vec::new();
            assert(texts(none@) =~= Seq::<Seq<char>>::empty());
            return none;
        }
        let mut candidates: Vec<Option<String>> = Vec::new();
        let mut k: usize = 0;
        assert(group_texts(candidates@) =~= Seq::<Option<Seq<char>>>::empty());
        while k < self.hashes.len()
            invariant
                self.hashes@.len() == HASH_PATTERNS@.len(),
                forall|j: int|
                    0 <= j < self.hashes@.len() ==> regex_source(#[trigger] self.hashes@[j])
                        == HASH_PATTERNS@[j]@,
                k <= self.hashes@.len(),
                group_texts(candidates@) == candidates_of(line@, k as int),
                are_parts(group_texts(candidates@), line@),
            decreases self.hashes@.len() - k,
        {
            let ghost before = candidates@;
            let mut groups: Vec<Option<String>> = all_groups(&self.hashes[k], line);
            let ghost more = groups@;
            candidates.append(&mut groups);
            assert(group_texts(candidates@) =~= group_texts(before) + group_texts(more));
            k = k + 1;
        }
        proof {
            let found = hashes_among(group_texts(candidates@));
            assert forall|i: int| 0 <= i < found.len() implies normalized(#[trigger] found[i]) == Some(
                found[i],
            ) by {
                hashes_are_distinct(group_texts(candidates@));
                normal_form_is_stable(found[i]);
            }
            hashes_are_distinct(group_texts(candidates@));
            hashes_are_parts(group_texts(candidates@), line@);
        }
        distinct_hashes(&candidates)
    }
}

/// The name of the card in a line, if there is one.
pub fn extract_card_name_from_line(line: &str) -> (name: Option<String>)
    ensures
        patterns_compile() ==> group_text(name) == name_in(regex_group(NAME_PATTERN@, line@)),
        !patterns_compile() ==> name is None,
        name matches Some(name) ==> occurs(name@, line@) && unquoted(name@),
{
    match CardPatterns::compile() {
        Some(patterns) => patterns.name_in_line(line),
        None => None,
    }
}

/// The identifiers in a line.
pub fn extract_card_hashes(line: &str) -> (hashes: Vec<String>)
    ensures
        patterns_compile() ==> texts(hashes@) == hashes_in(line@),
        !patterns_compile() ==> hashes@.len() == 0,
        found_properly(texts(hashes@), line@),
{
    match CardPatterns::compile() {
        Some(patterns) => patterns.hashes_in_line(line),
        None => Vec::new(),
    }
}

/// What a scan has learned.
pub ghost struct Learned {
    /// The identifiers that came up.
    pub seen: Seq<Seq<char>>,
    /// The stored cards.
    pub saved: Seq<(Seq<char>, Seq<char>)>,
    /// How many lines came.
    pub lines: int,
    /// How many of them were about Wallet.
    pub wallet_lines: int,
    /// In how many of those the phone had hidden an identifier.
    pub hidden_lines: int,
    /// The user was told about hidden identifiers.
    pub told: bool,
}

/// A card that came up: identifier, name, and how many cards are stored then.
pub struct Found {
    pub hash: String,
    pub name: String,
    pub saved: usize,
}

impl View for Found {
    type V = (Seq<char>, Seq<char>, int);

    open spec fn view(&self) -> (Seq<char>, Seq<char>, int) {
        (self.hash@, self.name@, self.saved as int)
    }
}

/// The views of a run of found cards.
pub open spec fn found_views(found: Seq<Found>) -> Seq<(Seq<char>, Seq<char>, int)> {
    Seq::new(found.len(), |i: int| found[i]@)
}

/// The name of the first stored card with the identifier.
pub open spec fn stored_name(saved: Seq<(Seq<char>, Seq<char>)>, hash: Seq<char>) -> Option<Seq<char>>
    decreases saved.len(),
{
    if saved.len() == 0 {
        None
    } else if saved[0].0 == hash {
        Some(saved[0].1)
    } else {
        stored_name(saved.drop_first(), hash)
    }
}

/// The name for a card: the one in the line, or the stored one, or a number.
pub open spec fn chosen_name(
    saved: Seq<(Seq<char>, Seq<char>)>,
    hash: Seq<char>,
    name: Seq<char>,
) -> Seq<char> {
    if name.len() > 0 {
        name
    } else {
        match stored_name(saved, hash) {
            Some(stored) => stored,
            None => "Card "@ + decimal(saved.len() + 1),
        }
    }
}

/// What a scan knows after an identifier came up.
pub open spec fn took(before: Learned, hash: Seq<char>, name: Seq<char>) -> Learned {
    if before.seen.contains(hash) {
        before
    } else {
        Learned {
            seen: before.seen.push(hash),
            saved: if stored_name(before.saved, hash) is Some {
                before.saved
            } else {
                before.saved.push((hash, chosen_name(before.saved, hash, name)))
            },
            ..before
        }
    }
}

/// What a scan knows after a run of identifiers.
pub open spec fn took_all(before: Learned, hashes: Seq<Seq<char>>, name: Seq<char>) -> Learned
    decreases hashes.len(),
{
    if hashes.len() == 0 {
        before
    } else {
        took(took_all(before, hashes.drop_last(), name), hashes.last(), name)
    }
}

/// The cards that are new among a run of identifiers.
pub open spec fn found_among(before: Learned, hashes: Seq<Seq<char>>, name: Seq<char>) -> Seq<
    (Seq<char>, Seq<char>, int),
>
    decreases hashes.len(),
{
    if hashes.len() == 0 {
        Seq::empty()
    } else {
        let earlier = found_among(before, hashes.drop_last(), name);
        let known = took_all(before, hashes.drop_last(), name);
        let hash = hashes.last();
        if known.seen.contains(hash) {
            earlier
        } else {
            earlier.push(
                (
                    hash,
                    chosen_name(known.saved, hash, name),
                    took(known, hash, name).saved.len() as int,
                ),
            )
        }
    }
}

/// The name that goes with the identifiers of a line: a line with several
/// identifiers names none of them.
pub open spec fn name_for(hashes: Seq<Seq<char>>, name: Option<Seq<char>>) -> Seq<char> {
    match name {
        Some(name) => if hashes.len() == 1 {
            name
        } else {
            Seq::empty()
        },
        None => Seq::empty(),
    }
}

/// What a scan knows once a line is counted.
pub open spec fn counted(before: Learned, wallet: bool, hidden: bool) -> Learned {
    Learned {
        lines: before.lines + 1,
        wallet_lines: before.wallet_lines + if wallet {
            1int
        } else {
            0
        },
        hidden_lines: before.hidden_lines + if wallet && hidden {
            1int
        } else {
            0
        },
        ..before
    }
}

/// What a scan knows after a line.
pub open spec fn heard(before: Learned, line: Seq<char>) -> Learned {
    took_all(
        counted(before, mentions_wallet(line), regex_matches(HIDDEN_PATTERN@, line)),
        hashes_in(line),
        name_for(hashes_in(line), name_in(regex_group(NAME_PATTERN@, line))),
    )
}

/// The cards that are new in a line.
pub open spec fn found_in_line(before: Learned, line: Seq<char>) -> Seq<(Seq<char>, Seq<char>, int)> {
    found_among(
        before,
        hashes_in(line),
        name_for(hashes_in(line), name_in(regex_group(NAME_PATTERN@, line))),
    )
}

/// What a scan knows after a run of lines.
pub open spec fn heard_all(before: Learned, lines: Seq<Seq<char>>) -> Learned
    decreases lines.len(),
{
    if lines.len() == 0 {
        before
    } else {
        heard(heard_all(before, lines.drop_last()), lines.last())
    }
}

/// The cards that are new in a run of lines.
pub open spec fn found_in_lines(before: Learned, lines: Seq<Seq<char>>) -> Seq<
    (Seq<char>, Seq<char>, int),
>
    decreases lines.len(),
{
    if lines.len() == 0 {
        Seq::empty()
    } else {
        found_in_lines(before, lines.drop_last()) + found_in_line(
            heard_all(before, lines.drop_last()),
            lines.last(),
        )
    }
}

/// The lines of a progress report.
pub open spec fn report_lines(known: Learned) -> Seq<Seq<char>> {
    let first = "Scan active: "@ + decimal(known.lines as nat) + " log lines, "@ + decimal(
        known.wallet_lines as nat,
    ) + " Wallet lines, "@ + decimal(known.seen.len()) + " cards detected."@;
    if known.hidden_lines > 0 && !known.told {
        seq![
            first,
            "Wallet received the card selection, but iOS hid its identifier as <private>. For a supported transit card, keep scanning and open Wallet > card > (...) > Card Details > Turn On Service Mode. Other card types may not offer this. Previously detected cards do not mean all cards were found."@,
        ]
    } else if known.seen.len() == 0 {
        seq![
            first,
            if known.wallet_lines == 0 {
                "No Wallet activity yet. Open Wallet on iPhone and tap a card."@
            } else {
                "Wallet activity received, but no usable card identifier yet. Open card details while scanning."@
            },
        ]
    } else {
        seq![first]
    }
}

/// What a scan knows after a progress report.
pub open spec fn reported(known: Learned) -> Learned {
    Learned { told: known.told || known.hidden_lines > 0, ..known }
}

/// A scan of the phone's log.
pub struct Scan {
    decoder: LineDecoder,
    seen: Vec<String>,
    saved: Vec<SavedCard>,
    lines: u64,
    wallet_lines: u64,
    hidden_lines: u64,
    told: bool,
}

/// What a read of the log brought.
pub enum ScanRead {
    /// The phone closed the log.
    Closed,
    /// A piece of the log.
    Piece(Vec<u8>),
    /// Nothing, for now.
    Nothing,
    /// The log cannot be read any more.
    Failed(Failure),
}

/// How a scan begins.
pub enum ScanStart {
    /// It was stopped before it began: log this line, and be done.
    Stopped(String),
    /// The phone's log could not be opened.
    Failed(Failure),
    /// Read the log.
    Go,
}

/// How a scan begins, given why the phone's log could not be opened, if it could not,
/// and whether the user stopped the scan meanwhile.
pub fn begin_scan(failed: Option<Failure>, stop: bool) -> (start: ScanStart)
    ensures
        if stop {
            start matches ScanStart::Stopped(line) && line@ == "Scan stopped."@
        } else {
            match failed {
                Some(failure) => start matches ScanStart::Failed(shown) && shown.under(
                    "Wallet scan connection failed"@,
                    failure,
                ),
                None => start is Go,
            }
        },
{
    if stop {
        return ScanStart::Stopped("Scan stopped.".to_owned());
    }
    match failed {
        Some(failure) => ScanStart::Failed(failure.context("Wallet scan connection failed")),
        None => ScanStart::Go,
    }
}

/// What a step of a scan gives.
pub enum ScanStep {
    /// Store and report these cards, then log these lines, then read on.
    Go { found: Vec<Found>, report: Vec<String> },
    /// The scan is over.
    Stop(Failure),
}

impl Scan {
    /// What the scan has learned.
    pub closed spec fn learned(self) -> Learned {
        Learned {
            seen: texts(self.seen@),
            saved: card_views(self.saved@),
            lines: self.lines as int,
            wallet_lines: self.wallet_lines as int,
            hidden_lines: self.hidden_lines as int,
            told: self.told,
        }
    }

    /// What is left of the last piece.
    pub closed spec fn rest(self) -> Held {
        self.decoder@
    }

    #[verifier::type_invariant]
    spec fn counts_agree(self) -> bool {
        self.hidden_lines <= self.wallet_lines <= self.lines
    }

    /// A scan that begins with the stored cards.
    pub fn new(saved: Vec<SavedCard>) -> (scan: Scan)
        ensures
            scan.learned() == (Learned {
                seen: Seq::empty(),
                saved: card_views(saved@),
                lines: 0,
                wallet_lines: 0,
                hidden_lines: 0,
                told: false,
            }),
            scan.rest() == (Held { pending: Seq::empty(), discarding: false }),
    {
        let seen: Vec<String> = Vec::new();
        assert(texts(seen@) =~= Seq::<Seq<char>>::empty());
        Scan {
            decoder: LineDecoder::new(),
            seen,
            saved,
            lines: 0,
            wallet_lines: 0,
            hidden_lines: 0,
            told: false,
        }
    }

    /// The cards to store.
    pub fn saved(&self) -> (cards: &Vec<SavedCard>)
        ensures
            card_views(cards@) == self.learned().saved,
    {
        &self.saved
    }

    /// How many identifiers came up.
    pub fn count(&self) -> (n: usize)
        ensures
            n == self.learned().seen.len(),
    {
        self.seen.len()
    }

    /// The line that is logged when the user stops the scan.
    pub fn stopped(&self) -> (line: String)
        ensures
            line@ == "Scan stopped. "@ + decimal(self.learned().seen.len()) + " cards detected."@,
    {
        "Scan stopped. ".to_owned().concat(decimal_text(self.seen.len() as u64).as_str()).concat(
            " cards detected.",
        )
    }

    fn find_saved(&self, hash: &str) -> (name: Option<String>)
        ensures
            group_text(name) == stored_name(self.learned().saved, hash@),
    {
        let ghost all = card_views(self.saved@);
        let mut i: usize = 0;
        assert(all.skip(0) =~= all);
        while i < self.saved.len()
            invariant
                all == card_views(self.saved@),
                i <= self.saved@.len(),
                stored_name(all, hash@) == stored_name(all.skip(i as int), hash@),
            decreases self.saved@.len() - i,
        {
            if same_text(self.saved[i].hash.as_str(), hash) {
                return Some(self.saved[i].name.clone());
            }
            assert(all.skip(i as int).drop_first() =~= all.skip(i + 1));
            i = i + 1;
        }
        None
    }

    /// Takes up the identifiers of a line.
    fn take_all(&mut self, hashes: &Vec<String>, name: &str) -> (found: Vec<Found>)
        ensures
            final(self).learned() == took_all(old(self).learned(), texts(hashes@), name@),
            final(self).rest() == old(self).rest(),
            found_views(found@) == found_among(old(self).learned(), texts(hashes@), name@),
    {
        proof {
            use_type_invariant(&*self);
        }
        let ghost start = self.learned();
        let ghost all = texts(hashes@);
        let mut found: Vec<Found> = Vec::new();
        let mut i: usize = 0;
        let named: bool = name.unicode_len() > 0;
        assert(all.take(0) =~= Seq::<Seq<char>>::empty());
        assert(found_views(found@) =~= Seq::<(Seq<char>, Seq<char>, int)>::empty());
        while i < hashes.len()
            invariant
                all == texts(hashes@),
                named == (name@.len() > 0),
                i <= hashes@.len(),
                self.counts_agree(),
                self.rest() == old(self).rest(),
                self.learned() == took_all(start, all.take(i as int), name@),
                found_views(found@) == found_among(start, all.take(i as int), name@),
            decreases hashes@.len() - i,
        {
            let ghost known = self.learned();
            let ghost earlier = found_views(found@);
            let ghost hash = hashes@[i as int]@;
            assert(all.take(i + 1).drop_last() =~= all.take(i as int));
            assert(all.take(i + 1).last() == hash);
            if !holds(&self.seen, hashes[i].as_str()) {
                let stored: Option<String> = self.find_saved(hashes[i].as_str());
                let is_new: bool = stored.is_none();
                let card_name: String = if named {
                    name.to_owned()
                } else {
                    match stored {
                        Some(stored) => stored,
                        None => "Card ".to_owned().concat(
                            decimal_wide(self.saved.len() as u128 + 1).as_str(),
                        ),
                    }
                };
                assert(card_name@ == chosen_name(known.saved, hash, name@));
                let mut seen: Vec<String> = Vec::new();
                std::mem::swap(&mut seen, &mut self.seen);
                seen.push(hashes[i].clone());
                assert(texts(seen@) =~= known.seen.push(hash));
                self.seen = seen;
                if is_new {
                    let mut saved: Vec<SavedCard> = Vec::new();
                    std::mem::swap(&mut saved, &mut self.saved);
                    saved.push(SavedCard { hash: hashes[i].clone(), name: card_name.clone() });
                    assert(card_views(saved@) =~= known.saved.push((hash, card_name@)));
                    self.saved = saved;
                }
                assert(self.learned() == took(known, hash, name@));
                found.push(
                    Found { hash: hashes[i].clone(), name: card_name, saved: self.saved.len() },
                );
                assert(found_views(found@) =~= earlier.push(
                    (hash, card_name@, self.learned().saved.len() as int),
                ));
            }
            i = i + 1;
        }
        assert(all.take(i as int) =~= all);
        found
    }

    /// Takes a line.
    pub fn on_line(&mut self, patterns: &CardPatterns, line: &str) -> (found: Vec<Found>)
        requires
            old(self).learned().lines < u64::MAX,
        ensures
            final(self).learned() == heard(old(self).learned(), line@),
            final(self).rest() == old(self).rest(),
            found_views(found@) == found_in_line(old(self).learned(), line@),
            forall|i: int|
                0 <= i < hashes_in(line@).len() && !old(self).learned().seen.contains(
                    #[trigger] hashes_in(line@)[i],
                ) ==> found_hashes(found_views(found@)).contains(hashes_in(line@)[i]),
    {
        proof {
            use_type_invariant(&*self);
        }
        let ghost start = self.learned();
        let wallet: bool = is_wallet_line(line);
        let hidden: bool = wallet && patterns.hides_identifier(line);
        self.lines = self.lines + 1;
        if wallet {
            self.wallet_lines = self.wallet_lines + 1;
        }
        if hidden {
            self.hidden_lines = self.hidden_lines + 1;
        }
        let ghost known = counted(
            start,
            mentions_wallet(line@),
            regex_matches(HIDDEN_PATTERN@, line@),
        );
        assert(self.learned() == known);
        let hashes: Vec<String> = patterns.hashes_in_line(line);
        let name: String = if hashes.len() == 1 {
            match patterns.name_in_line(line) {
                Some(name) => name,
                None => String::new(),
            }
        } else {
            String::new()
        };
        assert(name@ =~= name_for(
            hashes_in(line@),
            name_in(regex_group(NAME_PATTERN@, line@)),
        ));
        proof {
            found_ignores_counts(start, known, hashes_in(line@), name@);
            hashes_are_distinct(candidates_of(line@, HASH_PATTERNS@.len() as int));
            every_unseen_identifier_is_found(start, hashes_in(line@), name@);
        }
        self.take_all(&hashes, name.as_str())
    }

    /// The lines of a progress report.
    pub fn report(&mut self) -> (report: Vec<String>)
        ensures
            texts(report@) == report_lines(old(self).learned()),
            final(self).learned() == reported(old(self).learned()),
            final(self).rest() == old(self).rest(),
    {
        proof {
            use_type_invariant(&*self);
        }
        let ghost known = self.learned();
        let first: String = "Scan active: ".to_owned().concat(
            decimal_text(self.lines).as_str(),
        ).concat(" log lines, ").concat(decimal_text(self.wallet_lines).as_str()).concat(
            " Wallet lines, ",
        ).concat(decimal_text(self.seen.len() as u64).as_str()).concat(" cards detected.");
        let mut report: Vec<String> = Vec::new();
        report.push(first);
        if self.hidden_lines > 0 && !self.told {
            self.told = true;
            report.push(
                "Wallet received the card selection, but iOS hid its identifier as <private>. For a supported transit card, keep scanning and open Wallet > card > (...) > Card Details > Turn On Service Mode. Other card types may not offer this. Previously detected cards do not mean all cards were found.".to_owned(),
            );
        } else if self.seen.len() == 0 {
            report.push(
                if self.wallet_lines == 0 {
                    "No Wallet activity yet. Open Wallet on iPhone and tap a card.".to_owned()
                } else {
                    "Wallet activity received, but no usable card identifier yet. Open card details while scanning.".to_owned()
                },
            );
        }
        assert(texts(report@) =~= report_lines(known));
        report
    }

    /// Takes a piece of the log.
    fn on_piece(&mut self, patterns: &CardPatterns, piece: &[u8]) -> (found: Vec<Found>)
        requires
            old(self).learned().lines + piece@.len() <= u64::MAX,
        ensures
            final(self).rest() == held_after_all(old(self).rest(), piece@),
            final(self).learned() == heard_all(
                old(self).learned(),
                line_texts(lines_of(old(self).rest(), piece@)),
            ),
            found_views(found@) == found_in_lines(
                old(self).learned(),
                line_texts(lines_of(old(self).rest(), piece@)),
            ),
    {
        proof {
            use_type_invariant(&*self);
        }
        let ghost start = self.learned();
        let ghost rest = self.rest();
        let mut decoder: LineDecoder = LineDecoder::new();
        std::mem::swap(&mut decoder, &mut self.decoder);
        let lines: Vec<String> = decoder.feed(piece);
        self.decoder = decoder;
        let ghost all = texts(lines@);
        proof {
            few_lines(rest, piece@);
        }
        let ghost after = self.rest();
        let mut found: Vec<Found> = Vec::new();
        let mut i: usize = 0;
        assert(all.take(0) =~= Seq::<Seq<char>>::empty());
        assert(found_views(found@) =~= Seq::<(Seq<char>, Seq<char>, int)>::empty());
        while i < lines.len()
            invariant
                all == texts(lines@),
                start.lines + all.len() <= u64::MAX,
                i <= lines@.len(),
                self.rest() == after,
                self.learned() == heard_all(start, all.take(i as int)),
                self.learned().lines == start.lines + i,
                found_views(found@) == found_in_lines(start, all.take(i as int)),
            decreases lines@.len() - i,
        {
            let ghost earlier = found@;
            let ghost known = self.learned();
            assert(all.take(i + 1).drop_last() =~= all.take(i as int));
            assert(all.take(i + 1).last() == lines@[i as int]@);
            let mut more: Vec<Found> = self.on_line(patterns, lines[i].as_str());
            proof {
                took_keeps_counts(
                    counted(
                        known,
                        mentions_wallet(lines@[i as int]@),
                        regex_matches(HIDDEN_PATTERN@, lines@[i as int]@),
                    ),
                    hashes_in(lines@[i as int]@),
                    name_for(
                        hashes_in(lines@[i as int]@),
                        name_in(regex_group(NAME_PATTERN@, lines@[i as int]@)),
                    ),
                );
            }
            let ghost latest = more@;
            found.append(&mut more);
            assert(found_views(found@) =~= found_views(earlier) + found_views(latest));
            i = i + 1;
        }
        assert(all.take(i as int) =~= all);
        found
    }
}

proof fn took_keeps_counts(before: Learned, hashes: Seq<Seq<char>>, name: Seq<char>)
    ensures
        took_all(before, hashes, name).lines == before.lines,
    decreases hashes.len(),
{
    if hashes.len() > 0 {
        took_keeps_counts(before, hashes.drop_last(), name);
    }
}

proof fn found_ignores_counts(a: Learned, b: Learned, hashes: Seq<Seq<char>>, name: Seq<char>)
    requires
        a.seen == b.seen,
        a.saved == b.saved,
    ensures
        found_among(a, hashes, name) == found_among(b, hashes, name),
        took_all(a, hashes, name).seen == took_all(b, hashes, name).seen,
        took_all(a, hashes, name).saved == took_all(b, hashes, name).saved,
    decreases hashes.len(),
{
    if hashes.len() > 0 {
        found_ignores_counts(a, b, hashes.drop_last(), name);
    }
}

proof fn few_lines(held: Held, bytes: Seq<u8>)
    ensures
        lines_of(held, bytes).len() <= bytes.len(),
    decreases bytes.len(),
{
    if bytes.len() > 0 {
        few_lines(held, bytes.drop_last());
    }
}

/// The lines that are logged about a found card, given why the stored cards could not
/// be written, if they could not.
pub fn found_lines(found: &Found, unsaved: Option<&Failure>) -> (lines: Vec<String>)
    ensures
        lines@.len() > 0,
        (lines@.len() == 2) == (unsaved is Some),
        lines@.len() <= 2,
        lines@.last()@ == "Wallet card detected: "@ + found.name@
            + ". Hash is ready in the card field."@,
        unsaved matches Some(failure) ==> exists|words: Seq<char>| #[trigger]
            failure.tells(words) && lines@[0]@ == "Card detected, but saving it failed: "@ + words,
{
    let mut lines: Vec<String> = Vec::new();
    match unsaved {
        Some(failure) => {
            let text: String = failure.message();
            let line: String = "Card detected, but saving it failed: ".to_owned().concat(
                text.as_str(),
            );
            assert(failure.tells(text@));
            lines.push(line);
        },
        None => {},
    }
    lines.push(found_line(found));
    lines
}

/// The line that is logged about a found card.
fn found_line(found: &Found) -> (line: String)
    ensures
        line@ == "Wallet card detected: "@ + found.name@ + ". Hash is ready in the card field."@,
{
    "Wallet card detected: ".to_owned().concat(found.name.as_str()).concat(
        ". Hash is ready in the card field.",
    )
}

/// One step of a scan: takes what a read brought, and adds a progress report where
/// one is due.
pub fn scan_syslog_for_cards(
    scan: &mut Scan,
    patterns: &CardPatterns,
    read: ScanRead,
    report_due: bool,
) -> (step: ScanStep)
    requires
        read matches ScanRead::Piece(piece) ==> old(scan).learned().lines + piece@.len() <= u64::MAX,
    ensures
        match read {
            ScanRead::Closed => final(scan).learned() == old(scan).learned() && final(scan).rest()
                == old(scan).rest() && (step matches ScanStep::Stop(
                failure,
            ) && failure.says(
                "iPhone closed the wallet log connection. Reconnect and scan again"@,
            )),
            ScanRead::Failed(failure) => final(scan).learned() == old(scan).learned()
                && final(scan).rest() == old(scan).rest() && (step matches ScanStep::Stop(
                shown,
            ) && shown.under("Wallet log stream was interrupted"@, failure)),
            _ => {
                let (after, new, rest) = match read {
                    ScanRead::Piece(piece) => {
                        let lines = line_texts(lines_of(old(scan).rest(), piece@));
                        (
                            heard_all(old(scan).learned(), lines),
                            found_in_lines(old(scan).learned(), lines),
                            held_after_all(old(scan).rest(), piece@),
                        )
                    },
                    _ => (old(scan).learned(), Seq::empty(), old(scan).rest()),
                };
                &&& final(scan).rest() == rest
                &&& final(scan).learned() == if report_due {
                    reported(after)
                } else {
                    after
                }
                &&& step matches ScanStep::Go { found, report }
                &&& found_views(found@) == new
                &&& texts(report@) == if report_due {
                    report_lines(after)
                } else {
                    Seq::empty()
                }
            },
        },
{
    let found: Vec<Found> = match read {
        ScanRead::Closed => return ScanStep::Stop(
            Failure::said("iPhone closed the wallet log connection. Reconnect and scan again"),
        ),
        ScanRead::Failed(failure) => return ScanStep::Stop(
            failure.context("Wallet log stream was interrupted"),
        ),
        ScanRead::Piece(piece) => scan.on_piece(patterns, piece.as_slice()),
        ScanRead::Nothing => {
            let none: Vec<Found> = Vec::new();
            assert(found_views(none@) =~= Seq::<(Seq<char>, Seq<char>, int)>::empty());
            none
        },
    };
    let report: Vec<String> = if report_due {
        scan.report()
    } else {
        let none: Vec<String> = Vec::new();
        assert(texts(none@) =~= Seq::<Seq<char>>::empty());
        none
    };
    ScanStep::Go { found, report }
}

/// A card is reported once: what a scan has seen is never reported again, and
/// what it reports it has not seen before.
pub proof fn cards_are_reported_once(before: Learned, hashes: Seq<Seq<char>>, name: Seq<char>, i: int)
    requires
        0 <= i < found_among(before, hashes, name).len(),
    ensures
        !before.seen.contains(found_among(before, hashes, name)[i].0),
        took_all(before, hashes, name).seen.contains(found_among(before, hashes, name)[i].0),
    decreases hashes.len(),
{
    let shorter = hashes.drop_last();
    let earlier = found_among(before, shorter, name);
    let known = took_all(before, shorter, name);
    let now = took_all(before, hashes, name);
    seen_grows(before, shorter, name);
    if i < earlier.len() {
        cards_are_reported_once(before, shorter, name, i);
        let hash = earlier[i].0;
        let k = choose|k: int| 0 <= k < known.seen.len() && known.seen[k] == hash;
        assert(now.seen[k] == hash);
    } else {
        let hash = hashes.last();
        assert(now.seen == known.seen.push(hash));
        assert(now.seen[known.seen.len() as int] == hash);
        if before.seen.contains(hash) {
            let k = choose|k: int| 0 <= k < before.seen.len() && before.seen[k] == hash;
            assert(known.seen[k] == hash);
        }
    }
}

proof fn seen_grows(before: Learned, hashes: Seq<Seq<char>>, name: Seq<char>)
    ensures
        before.seen.len() <= took_all(before, hashes, name).seen.len(),
        forall|k: int|
            0 <= k < before.seen.len() ==> took_all(before, hashes, name).seen[k] == #[trigger] before.seen[k],
    decreases hashes.len(),
{
    if hashes.len() > 0 {
        seen_grows(before, hashes.drop_last(), name);
    }
}

/// The identifiers of a run of found cards.
pub open spec fn found_hashes(found: Seq<(Seq<char>, Seq<char>, int)>) -> Seq<Seq<char>> {
    Seq::new(found.len(), |i: int| found[i].0)
}

/// A card with this identifier is stored.
pub open spec fn is_stored(saved: Seq<(Seq<char>, Seq<char>)>, hash: Seq<char>) -> bool {
    exists|k: int| 0 <= k < saved.len() && (#[trigger] saved[k]).0 == hash
}

/// The stored name is that of the first stored card with the identifier, and there
/// is one exactly where such a card is stored.
pub proof fn stored_name_is_of_the_card(saved: Seq<(Seq<char>, Seq<char>)>, hash: Seq<char>)
    ensures
        stored_name(saved, hash) is Some <==> is_stored(saved, hash),
        stored_name(saved, hash) matches Some(name) ==> exists|k: int|
            0 <= k < saved.len() && #[trigger] saved[k] == (hash, name) && forall|j: int|
                0 <= j < k ==> (#[trigger] saved[j]).0 != hash,
    decreases saved.len(),
{
    if saved.len() > 0 {
        if saved[0].0 == hash {
            assert(saved[0] == (hash, saved[0].1));
        } else {
            let rest = saved.drop_first();
            stored_name_is_of_the_card(rest, hash);
            if let Some(name) = stored_name(saved, hash) {
                let k = choose|k: int|
                    0 <= k < rest.len() && #[trigger] rest[k] == (hash, name) && forall|j: int|
                        0 <= j < k ==> (#[trigger] rest[j]).0 != hash;
                assert(saved[k + 1] == (hash, name));
                assert forall|j: int| 0 <= j < k + 1 implies (#[trigger] saved[j]).0 != hash by {
                    if j > 0 {
                        assert(rest[j - 1].0 != hash);
                    }
                }
            }
            if is_stored(saved, hash) {
                let k = choose|k: int| 0 <= k < saved.len() && (#[trigger] saved[k]).0 == hash;
                assert(rest[k - 1].0 == hash);
            }
        }
    }
}

/// Every identifier that a scan has not seen before is found, whether or not a card
/// with it is stored, in the order in which the identifiers come, and no other one
/// is found. Afterwards the scan has seen what it had seen and what it found.
pub proof fn every_unseen_identifier_is_found(
    before: Learned,
    hashes: Seq<Seq<char>>,
    name: Seq<char>,
)
    requires
        hashes.no_duplicates(),
    ensures
        found_hashes(found_among(before, hashes, name)) == hashes.filter(
            |h: Seq<char>| !before.seen.contains(h),
        ),
        forall|i: int|
            0 <= i < hashes.len() && !before.seen.contains(#[trigger] hashes[i]) ==> found_hashes(
                found_among(before, hashes, name),
            ).contains(hashes[i]),
        took_all(before, hashes, name).seen == before.seen + found_hashes(
            found_among(before, hashes, name),
        ),
    decreases hashes.len(),
{
    reveal(Seq::filter);
    let unseen = |h: Seq<char>| !before.seen.contains(h);
    let found = found_among(before, hashes, name);
    if hashes.len() == 0 {
        assert(found_hashes(found) =~= hashes.filter(unseen));
        assert(before.seen + found_hashes(found) =~= before.seen);
    } else {
        let shorter = hashes.drop_last();
        let hash = hashes.last();
        let earlier = found_among(before, shorter, name);
        let known = took_all(before, shorter, name);
        assert(shorter.no_duplicates());
        every_unseen_identifier_is_found(before, shorter, name);
        assert(known.seen.contains(hash) <==> before.seen.contains(hash)) by {
            if known.seen.contains(hash) && !before.seen.contains(hash) {
                let k = choose|k: int| 0 <= k < known.seen.len() && known.seen[k] == hash;
                let among = found_hashes(earlier);
                if k < before.seen.len() {
                    assert(before.seen[k] == hash);
                } else {
                    assert(among[k - before.seen.len()] == hash);
                    shorter.lemma_filter_contains_rev(unseen, hash);
                    let j = choose|j: int| 0 <= j < shorter.len() && shorter[j] == hash;
                    assert(hashes[j] == hashes[hashes.len() - 1]);
                }
            }
            if before.seen.contains(hash) {
                let k = choose|k: int| 0 <= k < before.seen.len() && before.seen[k] == hash;
                assert(known.seen[k] == hash);
            }
        }
        if before.seen.contains(hash) {
            assert(found == earlier);
        } else {
            assert(found_hashes(found) =~= found_hashes(earlier).push(hash));
            assert(before.seen + found_hashes(found) =~= known.seen.push(hash));
        }
        assert(hashes.filter(unseen) == if unseen(hash) {
            shorter.filter(unseen).push(hash)
        } else {
            shorter.filter(unseen)
        });
        assert forall|i: int|
            0 <= i < hashes.len() && !before.seen.contains(#[trigger] hashes[i]) implies found_hashes(
            found,
        ).contains(hashes[i]) by {
            if i < shorter.len() {
                assert(shorter[i] == hashes[i]);
                let k = choose|k: int|
                    0 <= k < found_hashes(earlier).len() && found_hashes(earlier)[k] == hashes[i];
                assert(found_hashes(found)[k] == hashes[i]);
            } else {
                assert(found_hashes(found)[found.len() - 1] == hash);
            }
        }
    }
}

/// No stored card is lost or changed. A found card that was not stored is stored
/// with the name under which it is found, as the last of the cards that are stored
/// then; a found card that was stored stays as it is, and nothing else is stored.
pub proof fn stored_cards_stay_and_found_ones_join(
    before: Learned,
    hashes: Seq<Seq<char>>,
    name: Seq<char>,
)
    ensures
        ({
            let found = found_among(before, hashes, name);
            let after = took_all(before, hashes, name);
            &&& before.saved.is_prefix_of(after.saved)
            &&& forall|i: int|
                0 <= i < found.len() ==> {
                    let (hash, shown, count) = #[trigger] found[i];
                    &&& before.saved.len() <= count <= after.saved.len()
                    &&& is_stored(after.saved, hash)
                    &&& !is_stored(before.saved, hash) ==> is_stored(after.saved.take(count), hash)
                }
            &&& forall|k: int|
                before.saved.len() <= k < after.saved.len() ==> found.contains(
                    ((#[trigger] after.saved[k]).0, after.saved[k].1, k + 1),
                )
        }),
    decreases hashes.len(),
{
    let found = found_among(before, hashes, name);
    let after = took_all(before, hashes, name);
    if hashes.len() > 0 {
        let shorter = hashes.drop_last();
        let hash = hashes.last();
        let earlier = found_among(before, shorter, name);
        let known = took_all(before, shorter, name);
        stored_cards_stay_and_found_ones_join(before, shorter, name);
        stored_name_is_of_the_card(known.saved, hash);
        assert(known.saved.is_prefix_of(after.saved));
        assert(before.saved.is_prefix_of(after.saved));
        assert forall|i: int| 0 <= i < found.len() implies {
            let (hash, shown, count) = #[trigger] found[i];
            &&& before.saved.len() <= count <= after.saved.len()
            &&& is_stored(after.saved, hash)
            &&& !is_stored(before.saved, hash) ==> is_stored(after.saved.take(count), hash)
        } by {
            let (each, shown, count) = found[i];
            if i < earlier.len() {
                assert(found[i] == earlier[i]);
                let k = choose|k: int| 0 <= k < known.saved.len() && (#[trigger] known.saved[k]).0
                    == each;
                assert(after.saved[k].0 == each);
                assert(after.saved.take(count) =~= known.saved.take(count));
            } else {
                assert(count == after.saved.len());
                assert(after.saved.take(count) =~= after.saved);
                if is_stored(known.saved, each) {
                    let k = choose|k: int|
                        0 <= k < known.saved.len() && (#[trigger] known.saved[k]).0 == each;
                    assert(after.saved[k].0 == each);
                } else {
                    assert(after.saved[known.saved.len() as int].0 == each);
                }
            }
        }
        assert forall|k: int| before.saved.len() <= k < after.saved.len() implies found.contains(
            ((#[trigger] after.saved[k]).0, after.saved[k].1, k + 1),
        ) by {
            if k < known.saved.len() {
                assert(after.saved[k] == known.saved[k]);
                let i = choose|i: int|
                    0 <= i < earlier.len() && earlier[i] == (
                        known.saved[k].0,
                        known.saved[k].1,
                        k + 1,
                    );
                assert(found[i] == earlier[i]);
            } else {
                assert(found[found.len() - 1] == (hash, after.saved[k].1, k + 1));
            }
        }
    }
}

/// A found card is called what the line calls it. Where the line names no card, it
/// keeps the name under which it is stored; where none is stored, it is numbered by
/// the cards that are stored with it.
pub proof fn found_cards_are_named(before: Learned, hashes: Seq<Seq<char>>, name: Seq<char>, i: int)
    requires
        hashes.no_duplicates(),
        0 <= i < found_among(before, hashes, name).len(),
    ensures
        ({
            let (hash, shown, count) = found_among(before, hashes, name)[i];
            &&& name.len() > 0 ==> shown == name
            &&& name.len() == 0 && is_stored(before.saved, hash) ==> exists|k: int|
                0 <= k < before.saved.len() && #[trigger] before.saved[k] == (hash, shown)
                    && forall|j: int| 0 <= j < k ==> (#[trigger] before.saved[j]).0 != hash
            &&& name.len() == 0 && !is_stored(before.saved, hash) ==> shown == "Card "@ + decimal(
                count as nat,
            )
        }),
    decreases hashes.len(),
{
    let found = found_among(before, hashes, name);
    let shorter = hashes.drop_last();
    let earlier = found_among(before, shorter, name);
    let known = took_all(before, shorter, name);
    assert(shorter.no_duplicates());
    if i < earlier.len() {
        found_cards_are_named(before, shorter, name, i);
        assert(found[i] == earlier[i]);
    } else {
        let hash = hashes.last();
        every_unseen_identifier_is_found(before, shorter, name);
        stored_cards_stay_and_found_ones_join(before, shorter, name);
        stored_name_is_of_the_card(known.saved, hash);
        stored_name_is_of_the_card(before.saved, hash);
        if is_stored(before.saved, hash) {
            let k = choose|k: int|
                0 <= k < before.saved.len() && #[trigger] before.saved[k] == (
                    hash,
                    stored_name(before.saved, hash).unwrap(),
                ) && forall|j: int| 0 <= j < k ==> (#[trigger] before.saved[j]).0 != hash;
            assert(known.saved[k] == before.saved[k]);
            let m = choose|m: int|
                0 <= m < known.saved.len() && #[trigger] known.saved[m] == (
                    hash,
                    stored_name(known.saved, hash).unwrap(),
                ) && forall|j: int| 0 <= j < m ==> (#[trigger] known.saved[j]).0 != hash;
            if m < k {
                assert(before.saved[m] == known.saved[m]);
            }
            if k < m {
                assert(known.saved[k].0 != hash);
            }
            assert(m == k);
        } else if is_stored(known.saved, hash) {
            let k = choose|k: int| 0 <= k < known.saved.len() && (#[trigger] known.saved[k]).0 == hash;
            if k < before.saved.len() {
                assert(before.saved[k] == known.saved[k]);
            }
            let f = choose|f: int|
                0 <= f < earlier.len() && earlier[f] == (
                    known.saved[k].0,
                    known.saved[k].1,
                    k + 1,
                );
            cards_are_reported_once(before, shorter, name, f);
            assert(known.seen.contains(hash));
        }
    }
}

/// An identifier is in a line exactly where the line is about Wallet and one of the
/// patterns finds, in one of its matches, a candidate whose normal form it is.
pub proof fn identifiers_of_a_line(line: Seq<char>, hash: Seq<char>)
    ensures
        hashes_in(line).contains(hash) <==> mentions_wallet(line) && exists|p: int, c: Seq<char>|
            0 <= p < 4 && #[trigger] regex_groups(HASH_PATTERNS@[p]@, line).contains(Some(c))
                && normalized(c) == Some(hash),
{
    let all = candidates_of(line, 4);
    assert(HASH_PATTERNS@.len() == 4);
    hashes_come_from_candidates(all, hash);
    if hashes_in(line).contains(hash) {
        let i = choose|i: int|
            0 <= i < all.len() && (#[trigger] all[i] matches Some(candidate) && normalized(candidate)
                == Some(hash));
        let c = all[i].unwrap();
        assert(all.contains(Some(c)));
        candidates_are_of_patterns(line, 4, Some(c));
        let p = choose|p: int|
            0 <= p < 4 && (#[trigger] regex_groups(HASH_PATTERNS@[p]@, line)).contains(Some(c));
        assert(regex_groups(HASH_PATTERNS@[p]@, line).contains(Some(c)));
    }
    if mentions_wallet(line) && exists|p: int, c: Seq<char>|
        0 <= p < 4 && #[trigger] regex_groups(HASH_PATTERNS@[p]@, line).contains(Some(c))
            && normalized(c) == Some(hash) {
        let (p, c) = choose|p: int, c: Seq<char>|
            0 <= p < 4 && #[trigger] regex_groups(HASH_PATTERNS@[p]@, line).contains(Some(c))
                && normalized(c) == Some(hash);
        candidates_are_of_patterns(line, 4, Some(c));
        let i = choose|i: int| 0 <= i < all.len() && all[i] == Some(c);
        no_hash_is_lost(all, i);
    }
}

proof fn candidates_are_of_patterns(line: Seq<char>, n: int, c: Option<Seq<char>>)
    requires
        0 <= n <= HASH_PATTERNS@.len(),
    ensures
        candidates_of(line, n).contains(c) <==> exists|p: int|
            0 <= p < n && (#[trigger] regex_groups(HASH_PATTERNS@[p]@, line)).contains(c),
    decreases n,
{
    if n > 0 {
        let before = candidates_of(line, n - 1);
        let last = regex_groups(HASH_PATTERNS@[n - 1]@, line);
        let all = candidates_of(line, n);
        candidates_are_of_patterns(line, n - 1, c);
        if all.contains(c) {
            let i = choose|i: int| 0 <= i < all.len() && all[i] == c;
            if i < before.len() {
                assert(before[i] == c);
                let p = choose|p: int|
                    0 <= p < n - 1 && (#[trigger] regex_groups(HASH_PATTERNS@[p]@, line)).contains(c);
                assert(regex_groups(HASH_PATTERNS@[p]@, line).contains(c));
            } else {
                assert(last[i - before.len()] == c);
                assert(regex_groups(HASH_PATTERNS@[n - 1]@, line).contains(c));
            }
        }
        if exists|p: int|
            0 <= p < n && (#[trigger] regex_groups(HASH_PATTERNS@[p]@, line)).contains(c) {
            let p = choose|p: int|
                0 <= p < n && (#[trigger] regex_groups(HASH_PATTERNS@[p]@, line)).contains(c);
            if p < n - 1 {
                assert(before.contains(c));
                let i = choose|i: int| 0 <= i < before.len() && before[i] == c;
                assert(all[i] == c);
            } else {
                let m = choose|m: int| 0 <= m < last.len() && last[m] == c;
                assert(all[before.len() + m] == c);
            }
        }
    }
}

proof fn hashes_come_from_candidates(candidates: Seq<Option<Seq<char>>>, hash: Seq<char>)
    ensures
        hashes_among(candidates).contains(hash) ==> exists|i: int|
            0 <= i < candidates.len() && (#[trigger] candidates[i] matches Some(candidate)
                && normalized(candidate) == Some(hash)),
    decreases candidates.len(),
{
    if candidates.len() > 0 && hashes_among(candidates).contains(hash) {
        let shorter = candidates.drop_last();
        let before = hashes_among(shorter);
        hashes_come_from_candidates(shorter, hash);
        let k = choose|k: int|
            0 <= k < hashes_among(candidates).len() && hashes_among(candidates)[k] == hash;
        if k < before.len() {
            assert(before[k] == hash);
            let i = choose|i: int|
                0 <= i < shorter.len() && (#[trigger] shorter[i] matches Some(candidate)
                    && normalized(candidate) == Some(hash));
            assert(candidates[i] == shorter[i]);
        } else {
            assert(candidates[candidates.len() - 1] == candidates.last());
        }
    }
}

/// A line that holds one identifier and a name names that card; a line with several
/// identifiers names none of them, whatever name it holds.
pub proof fn only_a_single_card_is_named(before: Learned, line: Seq<char>, i: int)
    requires
        0 <= i < found_in_line(before, line).len(),
    ensures
        ({
            let (hash, shown, count) = found_in_line(before, line)[i];
            let named = name_in(regex_group(NAME_PATTERN@, line));
            &&& hashes_in(line).contains(hash)
            &&& !before.seen.contains(hash)
            &&& hashes_in(line).len() == 1 && (named matches Some(name) && name.len() > 0) ==> shown
                == named.unwrap()
            &&& hashes_in(line).len() > 1 || named is None ==> (if is_stored(before.saved, hash) {
                before.saved.contains((hash, shown))
            } else {
                shown == "Card "@ + decimal(count as nat)
            })
        }),
{
    reveal(Seq::filter);
    let hashes = hashes_in(line);
    let name = name_for(hashes, name_in(regex_group(NAME_PATTERN@, line)));
    hashes_are_distinct(candidates_of(line, HASH_PATTERNS@.len() as int));
    found_cards_are_named(before, hashes, name, i);
    cards_are_reported_once(before, hashes, name, i);
    every_unseen_identifier_is_found(before, hashes, name);
    let among = found_hashes(found_in_line(before, line));
    assert(among[i] == found_in_line(before, line)[i].0);
    hashes.lemma_filter_contains_rev(|h: Seq<char>| !before.seen.contains(h), among[i]);
}

/// No identifier of a run of lines is lost: each was seen before or is found, and
/// is seen afterwards. Every line is counted, and so is every line about Wallet and
/// every one of those that hides an identifier.
pub proof fn every_line_counts(before: Learned, lines: Seq<Seq<char>>)
    ensures
        forall|j: int, h: Seq<char>|
            0 <= j < lines.len() && #[trigger] hashes_in(lines[j]).contains(h) ==> (
            before.seen.contains(h) || found_hashes(found_in_lines(before, lines)).contains(h))
                && heard_all(before, lines).seen.contains(h),
        before.seen.is_prefix_of(heard_all(before, lines).seen),
        before.saved.is_prefix_of(heard_all(before, lines).saved),
        heard_all(before, lines).seen == before.seen + found_hashes(found_in_lines(before, lines)),
        heard_all(before, lines).lines == before.lines + lines.len(),
        heard_all(before, lines).wallet_lines == before.wallet_lines + lines.filter(
            |l: Seq<char>| mentions_wallet(l),
        ).len(),
        heard_all(before, lines).hidden_lines == before.hidden_lines + lines.filter(
            |l: Seq<char>| mentions_wallet(l) && regex_matches(HIDDEN_PATTERN@, l),
        ).len(),
        heard_all(before, lines).told == before.told,
    decreases lines.len(),
{
    reveal(Seq::filter);
    let found = found_in_lines(before, lines);
    let after = heard_all(before, lines);
    if lines.len() == 0 {
        assert(before.seen + found_hashes(found) =~= before.seen);
        assert(lines.filter(|l: Seq<char>| mentions_wallet(l)).len() == 0);
        assert(lines.filter(
            |l: Seq<char>| mentions_wallet(l) && regex_matches(HIDDEN_PATTERN@, l),
        ).len() == 0);
    } else {
        let shorter = lines.drop_last();
        let line = lines.last();
        let earlier = found_in_lines(before, shorter);
        let known = heard_all(before, shorter);
        let hashes = hashes_in(line);
        let name = name_for(hashes, name_in(regex_group(NAME_PATTERN@, line)));
        let noted = counted(known, mentions_wallet(line), regex_matches(HIDDEN_PATTERN@, line));
        every_line_counts(before, shorter);
        hashes_are_distinct(candidates_of(line, HASH_PATTERNS@.len() as int));
        every_unseen_identifier_is_found(known, hashes, name);
        every_unseen_identifier_is_found(noted, hashes, name);
        found_ignores_counts(known, noted, hashes, name);
        stored_cards_stay_and_found_ones_join(noted, hashes, name);
        taking_up_counts_nothing(noted, hashes, name);
        let new = found_in_line(known, line);
        assert(found == earlier + new);
        assert(found_hashes(found) =~= found_hashes(earlier) + found_hashes(new));
        assert(after.seen =~= before.seen + found_hashes(found));
        let about = |l: Seq<char>| mentions_wallet(l);
        let hides = |l: Seq<char>| mentions_wallet(l) && regex_matches(HIDDEN_PATTERN@, l);
        assert(lines.filter(about).len() == shorter.filter(about).len() + if mentions_wallet(line) {
            1int
        } else {
            0
        });
        assert(lines.filter(hides).len() == shorter.filter(hides).len() + if mentions_wallet(line)
            && regex_matches(HIDDEN_PATTERN@, line) {
            1int
        } else {
            0
        });
        assert forall|j: int, h: Seq<char>|
            0 <= j < lines.len() && #[trigger] hashes_in(lines[j]).contains(h) implies (
        before.seen.contains(h) || found_hashes(found).contains(h)) && after.seen.contains(h) by {
            if j < shorter.len() {
                assert(hashes_in(shorter[j]).contains(h));
                if !before.seen.contains(h) {
                    let k = choose|k: int|
                        0 <= k < found_hashes(earlier).len() && found_hashes(earlier)[k] == h;
                    assert(found_hashes(found)[k] == h);
                }
            } else {
                let i = choose|i: int| 0 <= i < hashes.len() && hashes[i] == h;
                if known.seen.contains(h) {
                    let k = choose|k: int| 0 <= k < known.seen.len() && known.seen[k] == h;
                    if k < before.seen.len() {
                        assert(before.seen[k] == h);
                    } else {
                        assert(found_hashes(found)[k - before.seen.len()] == h);
                    }
                } else {
                    assert(found_hashes(new).contains(hashes[i]));
                    let k = choose|k: int|
                        0 <= k < found_hashes(new).len() && found_hashes(new)[k] == h;
                    assert(found_hashes(found)[earlier.len() + k] == h);
                }
            }
            if before.seen.contains(h) {
                let k = choose|k: int| 0 <= k < before.seen.len() && before.seen[k] == h;
                assert(after.seen[k] == h);
            } else {
                let k = choose|k: int|
                    0 <= k < found_hashes(found).len() && found_hashes(found)[k] == h;
                assert(after.seen[before.seen.len() + k] == h);
            }
        }
    }
}

proof fn taking_up_counts_nothing(before: Learned, hashes: Seq<Seq<char>>, name: Seq<char>)
    ensures
        took_all(before, hashes, name).lines == before.lines,
        took_all(before, hashes, name).wallet_lines == before.wallet_lines,
        took_all(before, hashes, name).hidden_lines == before.hidden_lines,
        took_all(before, hashes, name).told == before.told,
    decreases hashes.len(),
{
    if hashes.len() > 0 {
        taking_up_counts_nothing(before, hashes.drop_last(), name);
    }
}

/// Of a stored list exactly the cards with a usable identifier are kept, in order
/// and as they are.
pub proof fn stored_cards_with_usable_identifiers_are_kept(
    stored: Vec<SavedCard>,
    cards: Vec<SavedCard>,
)
    requires
        call_ensures(load_saved_cards, (Some(stored),), cards),
    ensures
        card_views(cards@) == card_views(stored@).filter(
            |c: (Seq<char>, Seq<char>)| normalized(c.0) is Some,
        ),
{
    usable_cards_are_filtered(card_views(stored@));
}

proof fn usable_cards_are_filtered(cards: Seq<(Seq<char>, Seq<char>)>)
    ensures
        usable_cards(cards) == cards.filter(|c: (Seq<char>, Seq<char>)| normalized(c.0) is Some),
    decreases cards.len(),
{
    reveal(Seq::filter);
    if cards.len() > 0 {
        usable_cards_are_filtered(cards.drop_last());
    }
}

/// The user is told about hidden identifiers in the first report after one was
/// hidden, and in no later one. Every report begins with the numbers of lines, of
/// lines about Wallet and of cards; where no card came up, it says what to do.
pub proof fn hidden_identifiers_are_told_once(known: Learned)
    requires
        known.hidden_lines >= 0,
    ensures
        report_lines(known).len() >= 1,
        report_lines(known)[0] == "Scan active: "@ + decimal(known.lines as nat) + " log lines, "@
            + decimal(known.wallet_lines as nat) + " Wallet lines, "@ + decimal(known.seen.len())
            + " cards detected."@,
        report_lines(known).len() == 2 <==> (known.hidden_lines > 0 && !known.told)
            || known.seen.len() == 0,
        report_lines(known).len() <= 2,
        known.hidden_lines > 0 && !known.told ==> report_lines(known)[1]
            == "Wallet received the card selection, but iOS hid its identifier as <private>. For a supported transit card, keep scanning and open Wallet > card > (...) > Card Details > Turn On Service Mode. Other card types may not offer this. Previously detected cards do not mean all cards were found."@,
        (known.hidden_lines == 0 || known.told) && known.seen.len() == 0 ==> report_lines(known)[1]
            == (if known.wallet_lines == 0 {
            "No Wallet activity yet. Open Wallet on iPhone and tap a card."@
        } else {
            "Wallet activity received, but no usable card identifier yet. Open card details while scanning."@
        }),
        known.hidden_lines > 0 ==> reported(known).told,
        known.seen.len() > 0 ==> report_lines(reported(known)).len() == 1,
        reported(known).seen == known.seen,
        reported(known).saved == known.saved,
        reported(known).lines == known.lines,
        reported(known).wallet_lines == known.wallet_lines,
        reported(known).hidden_lines == known.hidden_lines,
{
}

/// What identifiers are made of, apart from their padding.
pub open spec fn hash_alphabet() -> Seq<char> {
    "ABCDEFGHIJKLMNOPQRSTUVWXYZabcdefghijklmnopqrstuvwxyz0123456789+-_"@
}

/// An identifier with its padding: `n` equals signs at its end and none before.
pub open spec fn padded_by(h: Seq<char>, n: int) -> bool {
    &&& 0 <= n <= h.len()
    &&& forall|i: int| 0 <= i < h.len() - n ==> #[trigger] h[i] != '='
    &&& forall|i: int| h.len() - n <= i < h.len() ==> #[trigger] h[i] == '='
}

/// A text is a usable identifier exactly where it has 20 to 44 characters, all
/// letters, digits, plus, minus or underscore but for at most two equals signs at
/// its end, is no text of 36 characters with a minus, is not one character over and
/// over, and is none of the dummies, with or without padding.
pub proof fn usable_identifiers(h: Seq<char>)
    ensures
        is_usable(h) <==> exists|n: int|
            #![trigger padded_by(h, n)]
            n <= 2 && padded_by(h, n) && 20 <= h.len() <= 44 && !(h.len() == 36 && h.contains('-'))
                && (forall|i: int|
                0 <= i < h.len() - n ==> hash_alphabet().contains(#[trigger] h[i])) && (exists|i: int|
                0 <= i < h.len() - n && #[trigger] h[i] != h[0]) && (forall|k: int|
                0 <= k < 3 ==> core_of((#[trigger] DUMMY_HASHES@[k])@) != h.take(h.len() - n)),
{
    let core = core_of(h);
    let pad = h.len() - core.len();
    assert(DUMMY_HASHES@.len() == 3);
    stripped_end_begins(h, seq!['=']);
    assert forall|i: int| 0 <= i < h.len() implies (hash_alphabet().contains(#[trigger] h[i])
        || h[i] == '=' <==> is_hash_char(h[i])) && !hash_alphabet().contains('=') by {
        alphabet_characters(h[i]);
        alphabet_characters('=');
    }
    if is_usable(h) {
        assert(padded_by(h, pad)) by {
            assert forall|i: int| 0 <= i < h.len() - pad implies #[trigger] h[i] != '=' by {
                assert(core[i] == h[i]);
            }
            assert forall|i: int| h.len() - pad <= i < h.len() implies #[trigger] h[i] == '=' by {
                assert(seq!['='].contains(h[i]));
            }
        }
        assert(h.take(h.len() - pad) =~= core);
        let i = choose|i: int| 0 <= i < core.len() && #[trigger] core[i] != h[0];
        assert(h[i] != h[0]);
        assert forall|k: int| 0 <= k < 3 implies core_of((#[trigger] DUMMY_HASHES@[k])@)
            != h.take(h.len() - pad) by {
            assert(core_of(DUMMY_HASHES@[k]@) != core);
        }
    }
    if exists|n: int|
        #![trigger padded_by(h, n)]
        n <= 2 && padded_by(h, n) && 20 <= h.len() <= 44 && !(h.len() == 36 && h.contains('-')) && (
        forall|i: int| 0 <= i < h.len() - n ==> hash_alphabet().contains(#[trigger] h[i])) && (
        exists|i: int| 0 <= i < h.len() - n && #[trigger] h[i] != h[0]) && (forall|k: int|
            0 <= k < 3 ==> core_of((#[trigger] DUMMY_HASHES@[k])@) != h.take(h.len() - n)) {
        let n = choose|n: int|
            #![trigger padded_by(h, n)]
            n <= 2 && padded_by(h, n) && 20 <= h.len() <= 44 && !(h.len() == 36 && h.contains('-'))
                && (forall|i: int|
                0 <= i < h.len() - n ==> hash_alphabet().contains(#[trigger] h[i])) && (exists|i: int|
                0 <= i < h.len() - n && #[trigger] h[i] != h[0]) && (forall|k: int|
                0 <= k < 3 ==> core_of((#[trigger] DUMMY_HASHES@[k])@) != h.take(h.len() - n));
        if pad < n {
            assert(h[core.len() - 1] == '=');
            assert(core.last() == '=');
            assert(seq!['='][0] == '=');
            assert(false);
        }
        if pad > n {
            assert(seq!['='].contains(h[h.len() - pad]));
            assert(h[h.len() - pad] != '=');
            assert(false);
        }
        assert(core =~= h.take(h.len() - n));
        assert forall|i: int| 0 <= i < h.len() implies is_hash_char(#[trigger] h[i]) by {
            if i >= h.len() - n {
                assert(h[i] == '=');
            }
        }
        if core.contains('=') {
            let i = choose|i: int| 0 <= i < core.len() && core[i] == '=';
            assert(h[i] != '=');
        }
        let i = choose|i: int| 0 <= i < h.len() - n && #[trigger] h[i] != h[0];
        assert(core[i] != h[0]);
        if is_dummy(h) {
            let k = choose|k: int|
                0 <= k < DUMMY_HASHES@.len() && #[trigger] core_of(DUMMY_HASHES@[k]@) == core_of(h);
            assert(core_of(DUMMY_HASHES@[k]@) != h.take(h.len() - n));
        }
    }
}

proof fn alphabet_characters(c: char)
    ensures
        hash_alphabet().contains(c) <==> is_hash_char(c) && c != '=',
{
    reveal_strlit("ABCDEFGHIJKLMNOPQRSTUVWXYZabcdefghijklmnopqrstuvwxyz0123456789+-_");
    let all = hash_alphabet();
    if 'A' <= c <= 'Z' {
        assert(all[c as int - 'A' as int] == c);
    } else if 'a' <= c <= 'z' {
        assert(all[26 + c as int - 'a' as int] == c);
    } else if '0' <= c <= '9' {
        assert(all[52 + c as int - '0' as int] == c);
    } else if c == '+' {
        assert(all[62] == c);
    } else if c == '-' {
        assert(all[63] == c);
    } else if c == '_' {
        assert(all[64] == c);
    } else if all.contains(c) {
        let k = choose|k: int| 0 <= k < all.len() && all[k] == c;
        assert(false);
    }
}

/// Quotation marks around an identifier, and full stops and commas behind a bare
/// one, do not matter.
pub proof fn quotation_marks_are_dropped(
    open: Seq<char>,
    h: Seq<char>,
    close: Seq<char>,
    behind: Seq<char>,
)
    requires
        is_usable(h),
        forall|i: int| 0 <= i < open.len() ==> #[trigger] open[i] == '\'' || open[i] == '"',
        forall|i: int| 0 <= i < close.len() ==> #[trigger] close[i] == '\'' || close[i] == '"',
        forall|i: int| 0 <= i < behind.len() ==> #[trigger] behind[i] == '.' || behind[i] == ',',
    ensures
        normalized(open + h + close) == Some(h),
        normalized(open + h + behind) == Some(h),
{
    assert(is_hash_char(h[0]));
    assert(is_hash_char(h[h.len() - 1]));
    assert(quotes()[0] == '\'' && quotes()[1] == '"');
    assert(stops()[0] == '.' && stops()[1] == ',');
    assert(!quotes().contains(h[0]));
    assert(!quotes().contains(h.last()) && !stops().contains(h.last()));
    strip_listed_start(open, h + close, quotes());
    assert(open + h + close =~= open + (h + close));
    strip_listed_end(h, close, quotes());
    assert(stripped_end(h, stops()) == h);
    strip_listed_start(open, h + behind, quotes());
    assert(open + h + behind =~= open + (h + behind));
    if behind.len() == 0 {
        assert(h + behind =~= h);
    } else {
        assert((h + behind).last() == behind[behind.len() - 1]);
    }
    assert(stripped_end(h + behind, quotes()) == h + behind);
    strip_listed_end(h, behind, stops());
}

proof fn strip_listed_start(listed: Seq<char>, rest: Seq<char>, list: Seq<char>)
    requires
        forall|i: int| 0 <= i < listed.len() ==> list.contains(#[trigger] listed[i]),
        rest.len() > 0,
        !list.contains(rest[0]),
    ensures
        stripped_start(listed + rest, list) == rest,
    decreases listed.len(),
{
    if listed.len() == 0 {
        assert(listed + rest =~= rest);
    } else {
        assert((listed + rest)[0] == listed[0]);
        assert((listed + rest).drop_first() =~= listed.drop_first() + rest);
        strip_listed_start(listed.drop_first(), rest, list);
    }
}

proof fn strip_listed_end(rest: Seq<char>, listed: Seq<char>, list: Seq<char>)
    requires
        forall|i: int| 0 <= i < listed.len() ==> list.contains(#[trigger] listed[i]),
        rest.len() > 0,
        !list.contains(rest.last()),
    ensures
        stripped_end(rest + listed, list) == rest,
    decreases listed.len(),
{
    if listed.len() == 0 {
        assert(rest + listed =~= rest);
    } else {
        assert((rest + listed).last() == listed[listed.len() - 1]);
        assert((rest + listed).drop_last() =~= rest + listed.drop_last());
        strip_listed_end(rest, listed.drop_last(), list);
    }
}

/// A step of a scan takes up every line that the piece completes: each identifier in
/// one of them was seen before or is found now, and is seen afterwards. A step that
/// brought nothing finds nothing and forgets nothing. The scan ends exactly where the
/// log was closed or failed, and then what it has learned stays.
pub proof fn a_step_takes_up_every_line(
    scan: &mut Scan,
    patterns: CardPatterns,
    read: ScanRead,
    report_due: bool,
    step: ScanStep,
)
    requires
        call_ensures(scan_syslog_for_cards, (scan, &patterns, read, report_due), step),
    ensures
        step is Stop <==> read is Closed || read is Failed,
        step is Stop ==> final(scan).learned() == old(scan).learned(),
        old(scan).learned().seen.is_prefix_of(final(scan).learned().seen),
        old(scan).learned().saved.is_prefix_of(final(scan).learned().saved),
        read is Nothing ==> final(scan).learned().seen == old(scan).learned().seen && final(scan).learned().saved == old(scan).learned().saved && (step matches ScanStep::Go {
            found,
            report,
        } && found@.len() == 0 && (report@.len() == 0 <==> !report_due)),
        read matches ScanRead::Piece(piece) ==> (step matches ScanStep::Go { found, report } && ({
            let lines = line_texts(lines_of(old(scan).rest(), piece@));
            &&& final(scan).learned().lines == old(scan).learned().lines + lines.len()
            &&& final(scan).learned().seen == old(scan).learned().seen + found_hashes(
                found_views(found@),
            )
            &&& forall|j: int, h: Seq<char>|
                0 <= j < lines.len() && #[trigger] hashes_in(lines[j]).contains(h) ==> (
                old(scan).learned().seen.contains(h) || found_hashes(found_views(found@)).contains(
                    h,
                )) && final(scan).learned().seen.contains(h)
            &&& report@.len() == 0 <==> !report_due
        })),
{
    match read {
        ScanRead::Piece(piece) => {
            let lines = line_texts(lines_of(old(scan).rest(), piece@));
            every_line_counts(old(scan).learned(), lines);
            if let ScanStep::Go { found, report } = step {
                assert(texts(report@).len() == report@.len());
            }
        },
        _ => {
            if let ScanStep::Go { found, report } = step {
                assert(texts(report@).len() == report@.len());
                assert(found_views(found@).len() == found@.len());
            }
        },
    }
}

/// A scan begins with the stored cards and nothing seen, and begins to read the log
/// exactly where it was opened and the user has not stopped the scan.
pub proof fn a_scan_begins_with_the_stored_cards(
    saved: Vec<SavedCard>,
    scan: Scan,
    failed: Option<Failure>,
    stop: bool,
    start: ScanStart,
)
    requires
        call_ensures(Scan::new, (saved,), scan),
        call_ensures(begin_scan, (failed, stop), start),
    ensures
        scan.learned().seen.len() == 0,
        scan.learned().saved == card_views(saved@),
        scan.learned().lines == 0 && scan.learned().wallet_lines == 0
            && scan.learned().hidden_lines == 0 && !scan.learned().told,
        start is Go <==> !stop && failed is None,
        start is Stopped <==> stop,
{
}

/// A name is what the name pattern found, without the white space around it, where that
/// is longer than one byte and is not the mark of something hidden, in whatever case.
pub proof fn hidden_and_short_names_are_none(group: Option<String>, name: Option<String>)
    requires
        call_ensures(card_name, (group,), name),
    ensures
        name is Some <==> (group matches Some(found) && encode_utf8(trimmed(found@)).len() >= 2
            && !occurs("<private>"@, lower_case(trimmed(found@)))),
        name matches Some(name) ==> (group matches Some(found) && name@ == trimmed(found@)),
{
}

/// A line is about Wallet exactly where one of ten words stands in it, in whatever
/// case.
pub proof fn ten_words_are_about_wallet(line: &str, about: bool)
    requires
        call_ensures(is_wallet_line, (line,), about),
    ensures
        ({
            let low = lower_case(line@);
            about <==> occurs("passd"@, low) || occurs("passbook"@, low) || occurs("passkit"@, low)
                || occurs("stockholm"@, low) || occurs("nanopassd"@, low) || occurs(
                "npkcompanion"@,
                low,
            ) || occurs("wallet"@, low) || occurs("/cards/"@, low) || occurs("/passes/"@, low)
                || occurs(".pkpass"@, low)
        }),
{
    let low = lower_case(line@);
    assert(WALLET_KEYWORDS@.len() == 10);
    assert(WALLET_KEYWORDS@[0]@ == "passd"@ && WALLET_KEYWORDS@[1]@ == "passbook"@
        && WALLET_KEYWORDS@[2]@ == "passkit"@ && WALLET_KEYWORDS@[3]@ == "stockholm"@
        && WALLET_KEYWORDS@[4]@ == "nanopassd"@ && WALLET_KEYWORDS@[5]@ == "npkcompanion"@
        && WALLET_KEYWORDS@[6]@ == "wallet"@ && WALLET_KEYWORDS@[7]@ == "/cards/"@
        && WALLET_KEYWORDS@[8]@ == "/passes/"@ && WALLET_KEYWORDS@[9]@ == ".pkpass"@);
}

} // verus!
