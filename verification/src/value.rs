//! Property-list values as the protocols use them.
//!
//! A [`Plist`] is a tree of plain data. The `plist` crate turns it into bytes
//! and bytes into it; kinds of values that no protocol step looks into (reals,
//! UIDs, negative integers) are carried through unopened. Of a date it is known
//! which moment it is, since not every moment can be printed.
use crate::dates::{all_dates_read, dates_read, in_calendar, is_binary, lies_in_calendar};
use crate::failure::Failure;
use crate::text::same_text;
use std::time::{SystemTime, UNIX_EPOCH};
use vstd::prelude::*;

verus! {

/// A value of the `plist` crate.
#[verifier::external_type_specification]
#[verifier::external_body]
pub struct ExPlistValue(plist::Value);

/// A date of the `plist` crate.
#[verifier::external_type_specification]
#[verifier::external_body]
pub struct ExPlistDate(plist::Date);

/// An error of the `plist` crate.
#[verifier::external_type_specification]
#[verifier::external_body]
pub struct ExPlistError(plist::Error);

/// A property-list value.
#[derive(Debug)]
pub enum Plist {
    Array(Vec<Plist>),
    Dict(Dict),
    Bool(bool),
    Data(Vec<u8>),
    Integer(u64),
    Text(String),
    Date(plist::Date),
    Other(Unopened),
}

/// A value of a kind that the protocols never open: a real number, a negative
/// integer or a reference.
#[derive(Debug)]
pub struct Unopened {
    value: plist::Value,
}

/// An insertion-ordered map from text to values, each key held once.
#[derive(Debug)]
pub struct Dict {
    entries: Vec<(String, Plist)>,
}

/// What a value holds.
pub enum Tree {
    Array(Seq<Tree>),
    Dict(Seq<(Seq<char>, Tree)>),
    Bool(bool),
    Data(Seq<u8>),
    Integer(u64),
    Text(Seq<char>),
    /// Whether the date lies before 1970, and by how many seconds and nanoseconds it
    /// lies away from its first moment.
    Date(bool, u64, u32),
    Other(plist::Value),
}

impl Plist {
    /// The tree that this value holds.
    pub open spec fn tree(self) -> Tree
        decreases self,
    {
        match self {
            Plist::Array(items) => Tree::Array(trees(items@)),
            Plist::Dict(entries) => Tree::Dict(entries.pairs()),
            Plist::Bool(b) => Tree::Bool(b),
            Plist::Data(bytes) => Tree::Data(bytes@),
            Plist::Integer(n) => Tree::Integer(n),
            Plist::Text(s) => Tree::Text(s@),
            Plist::Date(date) => date_tree(date),
            Plist::Other(v) => Tree::Other(v.inner()),
        }
    }
}

/// How far a date lies from the first moment of 1970: whether before it, and by how
/// many seconds and nanoseconds.
pub uninterp spec fn moment_of(date: plist::Date) -> (bool, u64, u32);

/// The tree that a date is.
pub open spec fn date_tree(date: plist::Date) -> Tree {
    Tree::Date(moment_of(date).0, moment_of(date).1, moment_of(date).2)
}

/// `SystemTime::from` on a `plist::Date`, and `SystemTime::duration_since` with
/// `UNIX_EPOCH`: how far the date lies from the first moment of 1970.
#[verifier::external_body]
fn distance_of(date: &plist::Date) -> (distance: (bool, u64, u32))
    ensures
        distance == moment_of(*date),
{
    match SystemTime::from(*date).duration_since(UNIX_EPOCH) {
        Ok(after) => (false, after.as_secs(), after.subsec_nanos()),
        Err(before) => (true, before.duration().as_secs(), before.duration().subsec_nanos()),
    }
}

impl Unopened {
    /// The value.
    pub closed spec fn inner(self) -> plist::Value {
        self.value
    }

    #[verifier::type_invariant]
    spec fn is_unopened(self) -> bool {
        plist_tree(self.value) == Tree::Other(self.value)
    }
}

impl Clone for Unopened {
    fn clone(&self) -> (copy: Unopened)
        ensures
            copy.inner() == self.inner(),
    {
        proof {
            use_type_invariant(self);
        }
        Unopened { value: clone_unopened(&self.value) }
    }
}

/// The trees that a run of values holds.
pub open spec fn trees(items: Seq<Plist>) -> Seq<Tree>
    decreases items,
{
    Seq::new(items.len(), |i: int| if 0 <= i < items.len() { items[i].tree() } else { arbitrary() })
}

/// The keys and trees that a run of entries holds.
pub open spec fn entry_pairs(entries: Seq<(String, Plist)>) -> Seq<(Seq<char>, Tree)>
    decreases entries,
{
    Seq::new(
        entries.len(),
        |i: int| if 0 <= i < entries.len() { (entries[i].0@, entries[i].1.tree()) } else { arbitrary() },
    )
}

/// The first tree stored under `key`, if there is one.
pub open spec fn lookup(pairs: Seq<(Seq<char>, Tree)>, key: Seq<char>) -> Option<Tree>
    decreases pairs.len(),
{
    if pairs.len() == 0 {
        None
    } else if pairs[0].0 == key {
        Some(pairs[0].1)
    } else {
        lookup(pairs.drop_first(), key)
    }
}

/// The position of `key` among the pairs, or their number if it is not there.
pub open spec fn position(pairs: Seq<(Seq<char>, Tree)>, key: Seq<char>) -> int
    decreases pairs.len(),
{
    if pairs.len() == 0 {
        0
    } else if pairs[0].0 == key {
        0
    } else {
        1 + position(pairs.drop_first(), key)
    }
}

/// The pairs after `tree` is stored under `key`: in the place of the old tree,
/// or at the end.
pub open spec fn stored(pairs: Seq<(Seq<char>, Tree)>, key: Seq<char>, tree: Tree) -> Seq<
    (Seq<char>, Tree),
> {
    let at = position(pairs, key);
    if at < pairs.len() {
        pairs.update(at, (key, tree))
    } else {
        pairs.push((key, tree))
    }
}

/// The pairs after `key` is taken out: the last pair fills its place.
pub open spec fn removed(pairs: Seq<(Seq<char>, Tree)>, key: Seq<char>) -> Seq<(Seq<char>, Tree)> {
    let at = position(pairs, key);
    if at < pairs.len() {
        pairs.update(at, pairs.last()).drop_last()
    } else {
        pairs
    }
}

/// No key occurs twice.
pub open spec fn distinct_keys(pairs: Seq<(Seq<char>, Tree)>) -> bool {
    forall|i: int, j: int| 0 <= i < j < pairs.len() ==> #[trigger] pairs[i].0 != #[trigger] pairs[j].0
}

/// `position` finds the first pair with the key.
pub proof fn position_is_first(pairs: Seq<(Seq<char>, Tree)>, key: Seq<char>)
    ensures
        0 <= position(pairs, key) <= pairs.len(),
        forall|i: int| 0 <= i < position(pairs, key) ==> (#[trigger] pairs[i]).0 != key,
        position(pairs, key) < pairs.len() ==> pairs[position(pairs, key)].0 == key && lookup(
            pairs,
            key,
        ) == Some(pairs[position(pairs, key)].1),
        position(pairs, key) == pairs.len() ==> lookup(pairs, key) is None,
    decreases pairs.len(),
{
    if pairs.len() > 0 && pairs[0].0 != key {
        let rest = pairs.drop_first();
        position_is_first(rest, key);
        assert forall|i: int| 0 <= i < position(pairs, key) implies (#[trigger] pairs[i]).0
            != key by {
            if i > 0 {
                assert(rest[i - 1].0 != key);
            }
        }
    }
}

/// A pair whose key is held by no earlier pair is where `position` points.
pub proof fn position_at(pairs: Seq<(Seq<char>, Tree)>, key: Seq<char>, at: int)
    requires
        0 <= at < pairs.len(),
        pairs[at].0 == key,
        forall|i: int| 0 <= i < at ==> (#[trigger] pairs[i]).0 != key,
    ensures
        position(pairs, key) == at,
{
    position_is_first(pairs, key);
    let p = position(pairs, key);
    if p < at {
        assert(pairs[p].0 != key);
    }
    if p > at {
        assert(pairs[at].0 != key);
    }
}

/// Looking up a key after storing under it gives the stored tree; every other
/// key keeps what it had.
pub proof fn stored_is_found(
    pairs: Seq<(Seq<char>, Tree)>,
    key: Seq<char>,
    tree: Tree,
    other: Seq<char>,
)
    ensures
        lookup(stored(pairs, key, tree), key) == Some(tree),
        other != key ==> lookup(stored(pairs, key, tree), other) == lookup(pairs, other),
{
    let after = stored(pairs, key, tree);
    position_is_first(pairs, key);
    position_at(after, key, position(pairs, key));
    position_is_first(after, key);
    if other != key {
        position_is_first(pairs, other);
        position_is_first(after, other);
        let at = position(pairs, other);
        if at < pairs.len() {
            position_at(after, other, at);
        } else {
            let p = position(after, other);
            if p < pairs.len() {
                assert(pairs[p].0 == other);
            }
        }
    }
}

/// A key that was taken out is no longer found; every other key keeps what it had.
pub proof fn removed_is_gone(pairs: Seq<(Seq<char>, Tree)>, key: Seq<char>, other: Seq<char>)
    requires
        distinct_keys(pairs),
    ensures
        lookup(removed(pairs, key), key) is None,
        other != key ==> lookup(removed(pairs, key), other) == lookup(pairs, other),
{
    let after = removed(pairs, key);
    let at = position(pairs, key);
    position_is_first(pairs, key);
    position_is_first(after, key);
    let p = position(after, key);
    if at < pairs.len() && p < after.len() {
        assert(after[p].0 == key);
        if p == at {
            assert(pairs[pairs.len() - 1].0 != pairs[at].0);
        } else if p < at {
            assert(pairs[p].0 != pairs[at].0);
        } else {
            assert(pairs[at].0 != pairs[p].0);
        }
        assert(false);
    }
    if other != key && at < pairs.len() {
        position_is_first(pairs, other);
        position_is_first(after, other);
        let was = position(pairs, other);
        if was < pairs.len() {
            let now = if was == pairs.len() - 1 {
                at
            } else {
                was
            };
            assert(after[now] == pairs[was]);
            assert forall|i: int| 0 <= i < now implies (#[trigger] after[i]).0 != other by {
                if i == at {
                    assert(after[i] == pairs.last());
                    assert(pairs[was].0 != pairs[pairs.len() - 1].0);
                } else {
                    assert(after[i] == pairs[i]);
                    if i < was {
                        assert(pairs[i].0 != other);
                    }
                }
            }
            position_at(after, other, now);
        } else {
            let q = position(after, other);
            if q < after.len() {
                if q == at {
                    assert(after[q] == pairs[pairs.len() - 1]);
                } else {
                    assert(after[q] == pairs[q]);
                }
                assert(false);
            }
        }
    }
}

impl Dict {
    /// The keys and trees held, in order of insertion.
    pub closed spec fn pairs(self) -> Seq<(Seq<char>, Tree)>
        decreases self,
    {
        entry_pairs(self.entries@)
    }

    #[verifier::type_invariant]
    spec fn keys_differ(self) -> bool {
        forall|i: int, j: int|
            0 <= i < j < self.entries@.len() ==> #[trigger] self.entries@[i].0@
                != #[trigger] self.entries@[j].0@
    }

    /// A dictionary without entries.
    pub fn new() -> (d: Dict)
        ensures
            d.pairs() == Seq::<(Seq<char>, Tree)>::empty(),
    {
        let d = Dict { entries: Vec::new() };
        assert(d.pairs() =~= Seq::<(Seq<char>, Tree)>::empty());
        d
    }

    /// The keys that a dictionary holds differ from each other.
    pub fn len(&self) -> (n: usize)
        ensures
            n == self.pairs().len(),
            distinct_keys(self.pairs()),
    {
        proof {
            use_type_invariant(self);
            assert forall|i: int, j: int| 0 <= i < j < self.pairs().len() implies #[trigger] self.pairs()[i].0
                != #[trigger] self.pairs()[j].0 by {
                assert(self.entries@[i].0@ != self.entries@[j].0@);
            }
        }
        self.entries.len()
    }

    /// The entry at `at`, by reference.
    pub fn entry(&self, at: usize) -> (e: (&String, &Plist))
        requires
            at < self.pairs().len(),
        ensures
            e.0@ == self.pairs()[at as int].0,
            e.1.tree() == self.pairs()[at as int].1,
    {
        (&self.entries[at].0, &self.entries[at].1)
    }

    /// Where `key` stands among the entries.
    fn find(&self, key: &str) -> (at: usize)
        ensures
            at == position(self.pairs(), key@),
            at <= self.entries@.len(),
    {
        let mut at: usize = 0;
        while at < self.entries.len()
            invariant
                at <= self.entries@.len(),
                forall|i: int| 0 <= i < at ==> (#[trigger] self.pairs()[i]).0 != key@,
            decreases self.entries@.len() - at,
        {
            if same_text(self.entries[at].0.as_str(), key) {
                proof {
                    position_at(self.pairs(), key@, at as int);
                }
                return at;
            }
            at = at + 1;
        }
        proof {
            position_is_first(self.pairs(), key@);
            let p = position(self.pairs(), key@);
            if p < self.pairs().len() {
                assert(self.pairs()[p].0 != key@);
            }
        }
        at
    }

    /// The value stored under `key`.
    pub fn get(&self, key: &str) -> (found: Option<&Plist>)
        ensures
            match found {
                Some(v) => lookup(self.pairs(), key@) == Some(v.tree()),
                None => lookup(self.pairs(), key@) is None,
            },
    {
        let at: usize = self.find(key);
        proof {
            position_is_first(self.pairs(), key@);
        }
        if at < self.entries.len() {
            Some(&self.entries[at].1)
        } else {
            None
        }
    }

    /// Stores `value` under `key`.
    pub fn insert(&mut self, key: String, value: Plist)
        ensures
            final(self).pairs() == stored(old(self).pairs(), key@, value.tree()),
    {
        proof {
            use_type_invariant(&*self);
        }
        let at: usize = self.find(key.as_str());
        proof {
            position_is_first(self.pairs(), key@);
        }
        let ghost before = self.entries@;
        let ghost pairs = self.pairs();
        let mut entries: Vec<(String, Plist)> = Vec::new();
        std::mem::swap(&mut entries, &mut self.entries);
        if at < entries.len() {
            entries.set(at, (key, value));
        } else {
            entries.push((key, value));
        }
        proof {
            assert forall|i: int, j: int| 0 <= i < j < entries@.len() implies #[trigger] entries@[i].0@
                != #[trigger] entries@[j].0@ by {
                if i != at && j != at {
                    assert(before[i].0@ != before[j].0@);
                } else if i != at {
                    assert(pairs[i].0 != key@);
                } else {
                    assert(before[i].0@ != before[j].0@);
                    assert(pairs[i].0 == key@);
                }
            }
            assert(entry_pairs(entries@) =~= stored(pairs, key@, value.tree()));
        }
        self.entries = entries;
    }

    /// Takes `key` out.
    pub fn remove(&mut self, key: &str)
        ensures
            final(self).pairs() == removed(old(self).pairs(), key@),
    {
        proof {
            use_type_invariant(&*self);
        }
        let at: usize = self.find(key);
        proof {
            position_is_first(self.pairs(), key@);
        }
        let ghost before = self.entries@;
        let ghost pairs = self.pairs();
        let mut entries: Vec<(String, Plist)> = Vec::new();
        std::mem::swap(&mut entries, &mut self.entries);
        if at < entries.len() {
            let _ = entries.swap_remove(at);
        }
        proof {
            assert forall|i: int, j: int| 0 <= i < j < entries@.len() implies #[trigger] entries@[i].0@
                != #[trigger] entries@[j].0@ by {
                let a = if i == at && at < before.len() { before.len() - 1 } else { i };
                let b = if j == at && at < before.len() { before.len() - 1 } else { j };
                assert(entries@[i] == before[a]);
                assert(entries@[j] == before[b]);
                if a < b {
                    assert(before[a].0@ != before[b].0@);
                } else {
                    assert(before[b].0@ != before[a].0@);
                }
            }
            assert(entry_pairs(entries@) =~= removed(pairs, key@));
        }
        self.entries = entries;
    }
}

/// The text a tree is, if it is text.
pub open spec fn text_in(t: Option<Tree>) -> Option<Seq<char>> {
    match t {
        Some(Tree::Text(s)) => Some(s),
        _ => None,
    }
}

/// The bytes a tree is, if it is data.
pub open spec fn data_in(t: Option<Tree>) -> Option<Seq<u8>> {
    match t {
        Some(Tree::Data(bytes)) => Some(bytes),
        _ => None,
    }
}

/// The truth value a tree is, if it is one.
pub open spec fn bool_in(t: Option<Tree>) -> Option<bool> {
    match t {
        Some(Tree::Bool(b)) => Some(b),
        _ => None,
    }
}

/// The number a tree is, if it is an unsigned integer.
pub open spec fn number_in(t: Option<Tree>) -> Option<u64> {
    match t {
        Some(Tree::Integer(n)) => Some(n),
        _ => None,
    }
}

/// The entries of a tree, if it is a dictionary.
pub open spec fn dict_in(t: Option<Tree>) -> Option<Seq<(Seq<char>, Tree)>> {
    match t {
        Some(Tree::Dict(pairs)) => Some(pairs),
        _ => None,
    }
}

/// The items of a tree, if it is an array.
pub open spec fn array_in(t: Option<Tree>) -> Option<Seq<Tree>> {
    match t {
        Some(Tree::Array(items)) => Some(items),
        _ => None,
    }
}

impl Plist {
    /// The text, if this is text.
    pub fn as_string(&self) -> (s: Option<&String>)
        ensures
            match s {
                Some(s) => text_in(Some(self.tree())) == Some(s@),
                None => text_in(Some(self.tree())) is None,
            },
    {
        match self {
            Plist::Text(s) => Some(s),
            _ => None,
        }
    }

    /// The bytes, if this is data.
    pub fn as_data(&self) -> (bytes: Option<&Vec<u8>>)
        ensures
            match bytes {
                Some(bytes) => data_in(Some(self.tree())) == Some(bytes@),
                None => data_in(Some(self.tree())) is None,
            },
    {
        match self {
            Plist::Data(bytes) => Some(bytes),
            _ => None,
        }
    }

    /// The truth value, if this is one.
    pub fn as_boolean(&self) -> (b: Option<bool>)
        ensures
            b == bool_in(Some(self.tree())),
    {
        match self {
            Plist::Bool(b) => Some(*b),
            _ => None,
        }
    }

    /// How far this lies from the first moment of 1970, if it is a date: whether before
    /// it, and by how many seconds and nanoseconds.
    pub fn as_date(&self) -> (d: Option<(bool, u64, u32)>)
        ensures
            d == match self.tree() {
                Tree::Date(before, seconds, nanos) => Some((before, seconds, nanos)),
                _ => None,
            },
    {
        match self {
            Plist::Date(date) => Some(distance_of(date)),
            _ => None,
        }
    }

    /// The number, if this is an unsigned integer.
    pub fn as_unsigned_integer(&self) -> (n: Option<u64>)
        ensures
            n == number_in(Some(self.tree())),
    {
        match self {
            Plist::Integer(n) => Some(*n),
            _ => None,
        }
    }

    /// The entries, if this is a dictionary.
    pub fn as_dictionary(&self) -> (d: Option<&Dict>)
        ensures
            match d {
                Some(d) => dict_in(Some(self.tree())) == Some(d.pairs()),
                None => dict_in(Some(self.tree())) is None,
            },
    {
        match self {
            Plist::Dict(d) => Some(d),
            _ => None,
        }
    }

    /// The entries themselves, if this is a dictionary.
    pub fn into_dictionary(self) -> (d: Option<Dict>)
        ensures
            match d {
                Some(d) => dict_in(Some(self.tree())) == Some(d.pairs()),
                None => dict_in(Some(self.tree())) is None,
            },
    {
        match self {
            Plist::Dict(d) => Some(d),
            _ => None,
        }
    }

    /// The items, if this is an array.
    pub fn as_array(&self) -> (items: Option<&Vec<Plist>>)
        ensures
            match items {
                Some(items) => array_in(Some(self.tree())) == Some(trees(items@)),
                None => array_in(Some(self.tree())) is None,
            },
    {
        match self {
            Plist::Array(items) => Some(items),
            _ => None,
        }
    }
}

impl Dict {
    /// The text under a key, if there is text.
    pub fn text(&self, key: &str) -> (s: Option<&String>)
        ensures
            match s {
                Some(s) => text_in(lookup(self.pairs(), key@)) == Some(s@),
                None => text_in(lookup(self.pairs(), key@)) is None,
            },
    {
        match self.get(key) {
            Some(v) => v.as_string(),
            None => None,
        }
    }

    /// The bytes under a key, if there is data.
    pub fn data(&self, key: &str) -> (bytes: Option<&Vec<u8>>)
        ensures
            match bytes {
                Some(bytes) => data_in(lookup(self.pairs(), key@)) == Some(bytes@),
                None => data_in(lookup(self.pairs(), key@)) is None,
            },
    {
        match self.get(key) {
            Some(v) => v.as_data(),
            None => None,
        }
    }

    /// The truth value under a key, if there is one.
    pub fn boolean(&self, key: &str) -> (b: Option<bool>)
        ensures
            b == bool_in(lookup(self.pairs(), key@)),
    {
        match self.get(key) {
            Some(v) => v.as_boolean(),
            None => None,
        }
    }

    /// The number under a key, if there is an unsigned integer.
    pub fn number(&self, key: &str) -> (n: Option<u64>)
        ensures
            n == number_in(lookup(self.pairs(), key@)),
    {
        match self.get(key) {
            Some(v) => v.as_unsigned_integer(),
            None => None,
        }
    }

    /// The dictionary under a key, if there is one.
    pub fn dictionary(&self, key: &str) -> (d: Option<&Dict>)
        ensures
            match d {
                Some(d) => dict_in(lookup(self.pairs(), key@)) == Some(d.pairs()),
                None => dict_in(lookup(self.pairs(), key@)) is None,
            },
    {
        match self.get(key) {
            Some(v) => v.as_dictionary(),
            None => None,
        }
    }

    /// The items under a key, if there is an array.
    pub fn array(&self, key: &str) -> (items: Option<&Vec<Plist>>)
        ensures
            match items {
                Some(items) => array_in(lookup(self.pairs(), key@)) == Some(trees(items@)),
                None => array_in(lookup(self.pairs(), key@)) is None,
            },
    {
        match self.get(key) {
            Some(v) => v.as_array(),
            None => None,
        }
    }
}

/// `plist::Value::clone` gives an equal value.
#[verifier::external_body]
fn clone_unopened(v: &plist::Value) -> (copy: plist::Value)
    ensures
        copy == *v,
{
    v.clone()
}

impl Clone for Plist {
    fn clone(&self) -> (copy: Plist)
        ensures
            copy.tree() == self.tree(),
        decreases self,
    {
        match self {
            Plist::Array(items) => {
                let mut copies: Vec<Plist> = Vec::new();
                let mut i: usize = 0;
                while i < items.len()
                    invariant
                        *self == Plist::Array(*items),
                        i <= items@.len(),
                        copies@.len() == i,
                        forall|k: int| 0 <= k < i ==> (#[trigger] copies@[k]).tree() == items@[k].tree(),
                    decreases items@.len() - i,
                {
                    assert(decreases_to!(*self => self->Array_0@[i as int]));
                    copies.push(items[i].clone());
                    i = i + 1;
                }
                assert(trees(copies@) =~= trees(items@));
                Plist::Array(copies)
            },
            Plist::Dict(d) => {
                assert(decreases_to!(*self => *d));
                Plist::Dict(d.clone())
            },
            Plist::Bool(b) => Plist::Bool(*b),
            Plist::Data(bytes) => {
                let copy: Vec<u8> = bytes.clone();
                assert(copy@ =~= bytes@);
                Plist::Data(copy)
            },
            Plist::Integer(n) => Plist::Integer(*n),
            Plist::Text(s) => Plist::Text(s.clone()),
            Plist::Date(date) => Plist::Date(*date),
            Plist::Other(v) => Plist::Other(v.clone()),
        }
    }
}

impl Clone for Dict {
    fn clone(&self) -> (copy: Dict)
        ensures
            copy.pairs() == self.pairs(),
        decreases self,
    {
        proof {
            use_type_invariant(self);
        }
        let mut entries: Vec<(String, Plist)> = Vec::new();
        let mut i: usize = 0;
        while i < self.entries.len()
            invariant
                i <= self.entries@.len(),
                entries@.len() == i,
                forall|k: int|
                    0 <= k < i ==> (#[trigger] entries@[k]).0@ == self.entries@[k].0@
                        && entries@[k].1.tree() == self.entries@[k].1.tree(),
            decreases self.entries@.len() - i,
        {
            assert(decreases_to!(*self => self.entries@[i as int].1));
            entries.push((self.entries[i].0.clone(), self.entries[i].1.clone()));
            i = i + 1;
        }
        assert(entry_pairs(entries@) =~= entry_pairs(self.entries@));
        assert forall|i: int, j: int| 0 <= i < j < entries@.len() implies #[trigger] entries@[i].0@
            != #[trigger] entries@[j].0@ by {
            assert(self.entries@[i].0@ != self.entries@[j].0@);
        }
        Dict { entries }
    }
}

/// What a value of the `plist` crate holds.
pub uninterp spec fn plist_tree(v: plist::Value) -> Tree;

/// The bytes of the binary property list that holds a tree.
pub uninterp spec fn plist_binary(t: Tree) -> Seq<u8>;

/// The bytes that the `plist` crate writes for a tree as XML, if XML can hold it.
pub uninterp spec fn xml_written(t: Tree) -> Option<Seq<u8>>;

/// The tree that the `plist` crate reads from a property list of any encoding, if
/// the bytes are one.
pub uninterp spec fn list_read(bytes: Seq<u8>) -> Option<Tree>;

/// Every date in the tree lies in the years that can be printed.
pub open spec fn dates_print(t: Tree) -> bool
    decreases t,
{
    match t {
        Tree::Array(items) => forall|i: int| 0 <= i < items.len() ==> dates_print(#[trigger] items[i]),
        Tree::Dict(pairs) => forall|i: int|
            0 <= i < pairs.len() ==> dates_print((#[trigger] pairs[i]).1),
        Tree::Date(before, seconds, nanos) => in_calendar(before, seconds, nanos),
        _ => true,
    }
}

/// The bytes of the XML property list that holds a tree, if XML can hold it and
/// every date can be printed.
pub open spec fn plist_xml(t: Tree) -> Option<Seq<u8>> {
    if dates_print(t) {
        xml_written(t)
    } else {
        None
    }
}

/// How it is said that there is no XML property list for a tree.
pub open spec fn no_xml(failure: Failure, t: Tree) -> bool {
    if dates_print(t) {
        failure is Plist && !is_open(t)
    } else {
        failure.says("Property list holds a date that cannot be written"@)
    }
}

/// The tree that a property list of any encoding holds, if it is one and every
/// date in it can be read.
pub open spec fn plist_parsed(bytes: Seq<u8>) -> Option<Tree> {
    if dates_read(bytes) {
        list_read(bytes)
    } else {
        None
    }
}

/// How it is said that bytes hold no property list.
pub open spec fn no_list(failure: Failure, bytes: Seq<u8>) -> bool {
    if dates_read(bytes) {
        failure is Plist
    } else {
        failure.says("Property list holds a date that cannot be read"@)
    }
}

/// Every part of the tree is of a kind that is opened, and so has a form in XML.
pub open spec fn is_open(t: Tree) -> bool
    decreases t,
{
    match t {
        Tree::Array(items) => forall|i: int| 0 <= i < items.len() ==> is_open(#[trigger] items[i]),
        Tree::Dict(pairs) => forall|i: int| 0 <= i < pairs.len() ==> is_open((#[trigger] pairs[i]).1),
        Tree::Other(_) => false,
        _ => true,
    }
}

/// A dictionary that is opened throughout stays so when something opened is stored.
pub proof fn stored_is_open(pairs: Seq<(Seq<char>, Tree)>, key: Seq<char>, tree: Tree)
    requires
        is_open(Tree::Dict(pairs)),
        is_open(tree),
    ensures
        is_open(Tree::Dict(stored(pairs, key, tree))),
{
    position_is_first(pairs, key);
    let now = stored(pairs, key, tree);
    assert forall|i: int| 0 <= i < now.len() implies is_open((#[trigger] now[i]).1) by {
        if i < pairs.len() {
            assert(Tree::Dict(pairs)->Dict_0[i] == pairs[i]);
        }
    }
}

/// A binary property list of the tree holds the very tree: its dates lie in the
/// calendar, and their fractions of a second are sums of halves down to the 512th part,
/// which a binary number holds as they are. Other dates may be rounded.
pub open spec fn comes_back(t: Tree) -> bool
    decreases t,
{
    match t {
        Tree::Array(items) => forall|i: int| 0 <= i < items.len() ==> comes_back(#[trigger] items[i]),
        Tree::Dict(pairs) => forall|i: int|
            0 <= i < pairs.len() ==> comes_back((#[trigger] pairs[i]).1),
        Tree::Date(before, seconds, nanos) => in_calendar(before, seconds, nanos) && nanos % 1_953_125
            == 0,
        _ => true,
    }
}

/// A value of the `plist` crate taken apart by one level.
pub enum Layer {
    Array(Vec<plist::Value>),
    Dict(Vec<(String, plist::Value)>),
    Bool(bool),
    Data(Vec<u8>),
    Integer(u64),
    Text(String),
    Date(plist::Date),
    Other(plist::Value),
}

/// The keys and trees of one dictionary level.
pub open spec fn layer_pairs(entries: Seq<(String, plist::Value)>) -> Seq<(Seq<char>, Tree)> {
    Seq::new(entries.len(), |i: int| (entries[i].0@, plist_tree(entries[i].1)))
}

/// The tree that one level stands for.
pub open spec fn layer_tree(l: Layer) -> Tree {
    match l {
        Layer::Array(items) => Tree::Array(Seq::new(items@.len(), |i: int| plist_tree(items@[i]))),
        Layer::Dict(entries) => Tree::Dict(layer_pairs(entries@)),
        Layer::Bool(b) => Tree::Bool(b),
        Layer::Data(bytes) => Tree::Data(bytes@),
        Layer::Integer(n) => Tree::Integer(n),
        Layer::Text(s) => Tree::Text(s@),
        Layer::Date(date) => date_tree(date),
        Layer::Other(v) => Tree::Other(v),
    }
}

/// The level could be that of a value: the keys of a dictionary differ from each
/// other, and what is not opened is of a kind that is not.
pub open spec fn is_level(l: Layer) -> bool {
    match l {
        Layer::Dict(entries) => distinct_keys(layer_pairs(entries@)),
        Layer::Other(v) => plist_tree(v) == Tree::Other(v),
        _ => true,
    }
}

/// The variants of `plist::Value` (and `plist::Dictionary` as a collected
/// iterator) built from their contents. A dictionary keeps its entries in the
/// order given, and holds each key once.
#[verifier::external_body]
fn close_layer(l: Layer) -> (v: plist::Value)
    requires
        is_level(l),
    ensures
        plist_tree(v) == layer_tree(l),
{
    match l {
        Layer::Array(items) => plist::Value::Array(items),
        Layer::Dict(entries) => plist::Value::Dictionary(entries.into_iter().collect()),
        Layer::Bool(b) => plist::Value::Boolean(b),
        Layer::Data(bytes) => plist::Value::Data(bytes),
        Layer::Integer(n) => plist::Value::Integer(n.into()),
        Layer::Text(s) => plist::Value::String(s),
        Layer::Date(date) => plist::Value::Date(date),
        Layer::Other(v) => v,
    }
}

/// The variants of `plist::Value` taken apart. `plist::Dictionary` hands out its
/// entries in order, each key once; `plist::Integer::as_unsigned` tells the
/// integers that a `u64` holds from the negative ones. Real numbers, negative
/// integers and references stay as they are.
#[verifier::external_body]
fn open_layer(v: plist::Value) -> (l: Layer)
    ensures
        layer_tree(l) == plist_tree(v),
        is_level(l),
{
    match v {
        plist::Value::Array(items) => Layer::Array(items),
        plist::Value::Dictionary(entries) => Layer::Dict(entries.into_iter().collect()),
        plist::Value::Boolean(b) => Layer::Bool(b),
        plist::Value::Data(bytes) => Layer::Data(bytes),
        plist::Value::Integer(n) => n.as_unsigned().map_or(Layer::Other(v), Layer::Integer),
        plist::Value::String(s) => Layer::Text(s),
        plist::Value::Date(date) => Layer::Date(date),
        other => Layer::Other(other),
    }
}

/// `plist::Value::from_reader` over a byte slice: what it reads, and whether it
/// can, is a function of the bytes. An XML date whose zone leads past the year 9999
/// makes it panic, so bytes with such a date are not handed to it.
#[verifier::external_body]
fn read_any(bytes: &[u8]) -> (r: Result<plist::Value, plist::Error>)
    requires
        dates_read(bytes@),
    ensures
        match r {
            Ok(v) => list_read(bytes@) == Some(plist_tree(v)),
            Err(_) => list_read(bytes@) is None,
        },
{
    plist::Value::from_reader(std::io::Cursor::new(bytes))
}

/// `plist::Value::to_writer_binary` into a growing buffer. Every value can be
/// written, the bytes are a function of its contents and begin with the header of
/// a binary list, and reading them gives the contents back: text, data, truth
/// values, references and integers of either sign as they were, real numbers bit
/// for bit, and dates whose seconds a binary number holds.
#[verifier::external_body]
fn write_binary(v: &plist::Value) -> (r: Result<Vec<u8>, plist::Error>)
    ensures
        r is Ok,
        r->Ok_0@ == plist_binary(plist_tree(*v)),
        is_binary(r->Ok_0@),
        comes_back(plist_tree(*v)) ==> list_read(r->Ok_0@) == Some(plist_tree(*v)),
{
    let mut bytes = Vec::new();
    v.to_writer_binary(&mut bytes)?;
    Ok(bytes)
}

/// `plist::Value::to_writer_xml` into a growing buffer: the bytes, and whether
/// XML can hold the value, are functions of its contents. It can where all parts are
/// of opened kinds, and then reading the bytes gives the contents back. The dates are
/// written in UTC, so all of them can be read. A date outside the years 0 to 9999 makes
/// it panic, so such a value is not handed to it.
#[verifier::external_body]
fn write_xml(v: &plist::Value) -> (r: Result<Vec<u8>, plist::Error>)
    requires
        dates_print(plist_tree(*v)),
    ensures
        match r {
            Ok(bytes) => xml_written(plist_tree(*v)) == Some(bytes@) && dates_read(bytes@) && (is_open(
                plist_tree(*v),
            ) ==> list_read(bytes@) == Some(plist_tree(*v))),
            Err(_) => xml_written(plist_tree(*v)) is None && !is_open(plist_tree(*v)),
        },
{
    let mut bytes = Vec::new();
    v.to_writer_xml(&mut bytes)?;
    Ok(bytes)
}

/// How a value prints for debugging.
pub uninterp spec fn plist_debug(t: Tree) -> Seq<char>;

/// The `Debug` form of a `plist::Value`: a function of its contents. A date outside
/// the years 0 to 9999 makes it panic, so such a value is not handed to it.
#[verifier::external_body]
fn debug_value(v: &plist::Value) -> (text: String)
    requires
        dates_print(plist_tree(*v)),
    ensures
        text@ == plist_debug(plist_tree(*v)),
{
    format!("{:?}", v)
}

/// How a value prints for debugging, if every date in it can be printed.
pub fn debug_text(value: &Plist) -> (text: Option<String>)
    ensures
        match text {
            Some(text) => dates_print(value.tree()) && text@ == plist_debug(value.tree()),
            None => !dates_print(value.tree()),
        },
{
    if all_dates_print(value) {
        Some(debug_value(&closed_value(value)))
    } else {
        None
    }
}

/// Where an array can be printed, so can each of its items.
proof fn array_prints(items: Seq<Tree>, i: int)
    requires
        dates_print(Tree::Array(items)),
        0 <= i < items.len(),
    ensures
        dates_print(items[i]),
{
    assert(Tree::Array(items)->Array_0[i] == items[i]);
}

/// Where a dictionary can be printed, so can each of its values.
proof fn dict_prints(pairs: Seq<(Seq<char>, Tree)>, i: int)
    requires
        dates_print(Tree::Dict(pairs)),
        0 <= i < pairs.len(),
    ensures
        dates_print(pairs[i].1),
{
    assert(Tree::Dict(pairs)->Dict_0[i] == pairs[i]);
}

/// Whether every date in a value can be printed.
pub fn all_dates_print(value: &Plist) -> (yes: bool)
    ensures
        yes == dates_print(value.tree()),
    decreases value,
{
    match value {
        Plist::Array(items) => {
            let mut i: usize = 0;
            while i < items.len()
                invariant
                    *value == Plist::Array(*items),
                    value.tree() == Tree::Array(trees(items@)),
                    i <= items@.len(),
                    forall|k: int| 0 <= k < i ==> dates_print((#[trigger] items@[k]).tree()),
                decreases items@.len() - i,
            {
                assert(decreases_to!(*value => value->Array_0@[i as int]));
                if !all_dates_print(&items[i]) {
                    proof {
                        if dates_print(value.tree()) {
                            array_prints(trees(items@), i as int);
                        }
                    }
                    return false;
                }
                i = i + 1;
            }
            assert forall|k: int| 0 <= k < trees(items@).len() implies dates_print(
                #[trigger] trees(items@)[k],
            ) by {
                assert(trees(items@)[k] == items@[k].tree());
            }
            true
        },
        Plist::Dict(d) => {
            let mut i: usize = 0;
            let n: usize = d.len();
            while i < n
                invariant
                    *value == Plist::Dict(*d),
                    value.tree() == Tree::Dict(d.pairs()),
                    n == d.entries@.len(),
                    i <= n,
                    forall|k: int| 0 <= k < i ==> dates_print((#[trigger] d.entries@[k]).1.tree()),
                decreases n - i,
            {
                assert(decreases_to!(*value => value->Dict_0.entries@[i as int].1));
                if !all_dates_print(&d.entries[i].1) {
                    proof {
                        if dates_print(value.tree()) {
                            dict_prints(d.pairs(), i as int);
                        }
                    }
                    return false;
                }
                i = i + 1;
            }
            assert forall|k: int| 0 <= k < d.pairs().len() implies dates_print(
                (#[trigger] d.pairs()[k]).1,
            ) by {
                assert(d.pairs()[k].1 == d.entries@[k].1.tree());
            }
            true
        },
        Plist::Date(date) => {
            let d: (bool, u64, u32) = distance_of(date);
            lies_in_calendar(d.0, d.1, d.2)
        },
        _ => true,
    }
}

/// The value of the `plist` crate with the same contents.
fn closed_value(v: &Plist) -> (p: plist::Value)
    ensures
        plist_tree(p) == v.tree(),
    decreases v,
{
    match v {
        Plist::Array(items) => {
            let mut parts: Vec<plist::Value> = Vec::new();
            let mut i: usize = 0;
            while i < items.len()
                invariant
                    *v == Plist::Array(*items),
                    i <= items@.len(),
                    parts@.len() == i,
                    forall|k: int| 0 <= k < i ==> plist_tree(#[trigger] parts@[k]) == items@[k].tree(),
                decreases items@.len() - i,
            {
                assert(decreases_to!(*v => v->Array_0@[i as int]));
                parts.push(closed_value(&items[i]));
                i = i + 1;
            }
            assert(Seq::new(parts@.len(), |i: int| plist_tree(parts@[i])) =~= trees(items@));
            close_layer(Layer::Array(parts))
        },
        Plist::Dict(d) => {
            let mut parts: Vec<(String, plist::Value)> = Vec::new();
            let mut i: usize = 0;
            let n: usize = d.len();
            while i < n
                invariant
                    *v == Plist::Dict(*d),
                    n == d.entries@.len(),
                    i <= n,
                    parts@.len() == i,
                    forall|k: int|
                        0 <= k < i ==> (#[trigger] parts@[k]).0@ == d.entries@[k].0@ && plist_tree(
                            parts@[k].1,
                        ) == d.entries@[k].1.tree(),
                decreases n - i,
            {
                assert(decreases_to!(*v => v->Dict_0.entries@[i as int].1));
                parts.push((d.entries[i].0.clone(), closed_value(&d.entries[i].1)));
                i = i + 1;
            }
            assert(layer_pairs(parts@) =~= d.pairs());
            close_layer(Layer::Dict(parts))
        },
        Plist::Bool(b) => close_layer(Layer::Bool(*b)),
        Plist::Data(bytes) => {
            let copy: Vec<u8> = bytes.clone();
            assert(copy@ =~= bytes@);
            close_layer(Layer::Data(copy))
        },
        Plist::Integer(n) => close_layer(Layer::Integer(*n)),
        Plist::Text(s) => close_layer(Layer::Text(s.clone())),
        Plist::Date(date) => close_layer(Layer::Date(*date)),
        Plist::Other(p) => {
            proof {
                use_type_invariant(p);
            }
            close_layer(Layer::Other(clone_unopened(&p.value)))
        },
    }
}

/// The contents of a value of the `plist` crate.
fn opened_value(p: plist::Value) -> (v: Plist)
    ensures
        v.tree() == plist_tree(p),
    decreases plist_tree(p),
{
    let ghost t = plist_tree(p);
    match open_layer(p) {
        Layer::Array(parts) => {
            let ghost all = parts@;
            let mut left: Vec<plist::Value> = parts;
            let mut items: Vec<Plist> = Vec::new();
            while left.len() > 0
                invariant
                    t == plist_tree(p),
                    t == Tree::Array(Seq::new(all.len(), |i: int| plist_tree(all[i]))),
                    items@.len() + left@.len() == all.len(),
                    left@ == all.skip(items@.len() as int),
                    forall|k: int|
                        0 <= k < items@.len() ==> (#[trigger] items@[k]).tree() == plist_tree(all[k]),
                decreases left@.len(),
            {
                let ghost k = items@.len() as int;
                let part = left.remove(0);
                proof {
                    assert(part == all[k]);
                    assert(t->Array_0[k] == plist_tree(part));
                    assert(decreases_to!(t => t->Array_0[k]));
                }
                items.push(opened_value(part));
                assert(left@ =~= all.skip(items@.len() as int));
            }
            assert(trees(items@) =~= Seq::new(all.len(), |i: int| plist_tree(all[i])));
            Plist::Array(items)
        },
        Layer::Dict(parts) => {
            let ghost all = parts@;
            let mut left: Vec<(String, plist::Value)> = parts;
            let mut entries: Vec<(String, Plist)> = Vec::new();
            while left.len() > 0
                invariant
                    t == plist_tree(p),
                    t == Tree::Dict(layer_pairs(all)),
                    distinct_keys(layer_pairs(all)),
                    entries@.len() + left@.len() == all.len(),
                    left@ == all.skip(entries@.len() as int),
                    forall|k: int|
                        0 <= k < entries@.len() ==> (#[trigger] entries@[k]).0@ == all[k].0@
                            && entries@[k].1.tree() == plist_tree(all[k].1),
                decreases left@.len(),
            {
                let ghost k = entries@.len() as int;
                let part = left.remove(0);
                proof {
                    assert(part == all[k]);
                    assert(t->Dict_0[k].1 == plist_tree(part.1));
                    assert(decreases_to!(t => t->Dict_0[k].1));
                }
                entries.push((part.0, opened_value(part.1)));
                assert(left@ =~= all.skip(entries@.len() as int));
            }
            assert(entry_pairs(entries@) =~= layer_pairs(all));
            assert forall|i: int, j: int| 0 <= i < j < entries@.len() implies #[trigger] entries@[i].0@
                != #[trigger] entries@[j].0@ by {
                assert(layer_pairs(all)[i].0 != layer_pairs(all)[j].0);
            }
            Plist::Dict(Dict { entries })
        },
        Layer::Bool(b) => Plist::Bool(b),
        Layer::Data(bytes) => Plist::Data(bytes),
        Layer::Integer(n) => Plist::Integer(n),
        Layer::Text(s) => Plist::Text(s),
        Layer::Date(date) => Plist::Date(date),
        Layer::Other(value) => Plist::Other(Unopened { value }),
    }
}

/// The binary property list that holds `value`.
pub fn to_binary(value: &Plist) -> (bytes: Vec<u8>)
    ensures
        bytes@ == plist_binary(value.tree()),
        is_binary(bytes@),
        comes_back(value.tree()) ==> plist_parsed(bytes@) == Some(value.tree()),
{
    match write_binary(&closed_value(value)) {
        Ok(bytes) => bytes,
        Err(_) => Vec::new(),
    }
}

/// The XML property list that holds `value`. It fails where XML cannot hold it, and
/// where a date cannot be printed.
pub fn to_xml(value: &Plist) -> (bytes: Result<Vec<u8>, Failure>)
    ensures
        match bytes {
            Ok(bytes) => plist_xml(value.tree()) == Some(bytes@) && (is_open(value.tree())
                ==> plist_parsed(bytes@) == Some(value.tree())),
            Err(failure) => plist_xml(value.tree()) is None && no_xml(failure, value.tree()),
        },
{
    if !all_dates_print(value) {
        return Err(Failure::said("Property list holds a date that cannot be written"));
    }
    match write_xml(&closed_value(value)) {
        Ok(bytes) => Ok(bytes),
        Err(error) => Err(Failure::Plist(error)),
    }
}

/// The value that a property list of any encoding holds. It fails where the
/// bytes are not a property list, and where a date cannot be read.
pub fn parse(bytes: &[u8]) -> (value: Result<Plist, Failure>)
    ensures
        match value {
            Ok(value) => plist_parsed(bytes@) == Some(value.tree()),
            Err(failure) => plist_parsed(bytes@) is None && no_list(failure, bytes@),
        },
{
    if !all_dates_read(bytes) {
        return Err(Failure::said("Property list holds a date that cannot be read"));
    }
    match read_any(bytes) {
        Ok(v) => Ok(opened_value(v)),
        Err(error) => Err(Failure::Plist(error)),
    }
}

/// The pairs left when entries are stored one after the other in an empty
/// dictionary.
pub open spec fn collected(items: Seq<(Seq<char>, Tree)>) -> Seq<(Seq<char>, Tree)>
    decreases items.len(),
{
    if items.len() == 0 {
        Seq::empty()
    } else {
        stored(collected(items.drop_last()), items.last().0, items.last().1)
    }
}

/// The dictionary with the given entries. Of two entries with one key the later
/// one counts.
pub open spec fn dict_of(items: Seq<(Seq<char>, Tree)>) -> Tree {
    Tree::Dict(collected(items))
}

/// The tree of the last item with the given key.
pub open spec fn last_under(items: Seq<(Seq<char>, Tree)>, key: Seq<char>) -> Option<Tree>
    decreases items.len(),
{
    if items.len() == 0 {
        None
    } else if items.last().0 == key {
        Some(items.last().1)
    } else {
        last_under(items.drop_last(), key)
    }
}

/// A dictionary answers with the last entry that was given for a key.
pub proof fn collected_lookup(items: Seq<(Seq<char>, Tree)>, key: Seq<char>)
    ensures
        lookup(collected(items), key) == last_under(items, key),
        distinct_keys(collected(items)),
    decreases items.len(),
{
    if items.len() > 0 {
        let shorter = collected(items.drop_last());
        collected_lookup(items.drop_last(), key);
        stored_is_found(shorter, items.last().0, items.last().1, key);
        position_is_first(shorter, items.last().0);
    }
}

/// A dictionary of values that come back comes back itself.
pub proof fn collected_comes_back(items: Seq<(Seq<char>, Tree)>)
    requires
        forall|i: int| 0 <= i < items.len() ==> comes_back((#[trigger] items[i]).1),
    ensures
        comes_back(dict_of(items)),
        forall|i: int| 0 <= i < collected(items).len() ==> comes_back((#[trigger] collected(items)[i]).1),
    decreases items.len(),
{
    if items.len() > 0 {
        collected_comes_back(items.drop_last());
        position_is_first(collected(items.drop_last()), items.last().0);
    }
}

/// The keys and trees of a run of items.
pub open spec fn item_pairs(items: Seq<(&str, Plist)>) -> Seq<(Seq<char>, Tree)> {
    Seq::new(items.len(), |i: int| (items[i].0@, items[i].1.tree()))
}

/// A dictionary of the given entries.
pub fn dict_from(items: Vec<(&str, Plist)>) -> (d: Dict)
    ensures
        d.pairs() == collected(item_pairs(items@)),
{
    let ghost all = items@;
    let mut left: Vec<(&str, Plist)> = items;
    let mut d: Dict = Dict::new();
    let ghost mut done: int = 0;
    assert(item_pairs(all).take(0) =~= Seq::<(Seq<char>, Tree)>::empty());
    assert(all.skip(0) =~= all);
    while left.len() > 0
        invariant
            0 <= done <= all.len(),
            left@ == all.skip(done),
            d.pairs() == collected(item_pairs(all).take(done)),
        decreases left@.len(),
    {
        let item = left.remove(0);
        assert(item == all[done]);
        d.insert(item.0.to_owned(), item.1);
        proof {
            done = done + 1;
            assert(left@ =~= all.skip(done));
            assert(item_pairs(all).take(done).drop_last() =~= item_pairs(all).take(done - 1));
        }
    }
    assert(item_pairs(all).take(done) =~= item_pairs(all));
    d
}

/// A dictionary holds every entry that was put into it last under its key, and
/// nothing under a key of which no entry was put into it.
pub proof fn a_dictionary_holds_its_items(items: Seq<(Seq<char>, Tree)>, key: Seq<char>)
    ensures
        forall|i: int|
            0 <= i < items.len() && (#[trigger] items[i]).0 == key && (forall|j: int|
                i < j < items.len() ==> (#[trigger] items[j]).0 != key) ==> lookup(
                collected(items),
                key,
            ) == Some(items[i].1),
        (forall|i: int| 0 <= i < items.len() ==> (#[trigger] items[i]).0 != key) ==> lookup(
            collected(items),
            key,
        ) is None,
        lookup(collected(items), key) is Some ==> exists|i: int|
            0 <= i < items.len() && (#[trigger] items[i]).0 == key && lookup(collected(items), key)
                == Some(items[i].1),
{
    collected_lookup(items, key);
    the_last_counts(items, key);
}

proof fn the_last_counts(items: Seq<(Seq<char>, Tree)>, key: Seq<char>)
    ensures
        last_under(items, key) is Some ==> exists|i: int|
            0 <= i < items.len() && (#[trigger] items[i]).0 == key && last_under(items, key) == Some(
                items[i].1,
            ) && forall|j: int| i < j < items.len() ==> (#[trigger] items[j]).0 != key,
        last_under(items, key) is None ==> forall|i: int|
            0 <= i < items.len() ==> (#[trigger] items[i]).0 != key,
    decreases items.len(),
{
    if items.len() > 0 {
        let shorter = items.drop_last();
        if items.last().0 == key {
            assert(items[items.len() - 1].0 == key);
        } else {
            the_last_counts(shorter, key);
            if last_under(items, key) is Some {
                let i = choose|i: int|
                    0 <= i < shorter.len() && (#[trigger] shorter[i]).0 == key && last_under(
                        shorter,
                        key,
                    ) == Some(shorter[i].1) && forall|j: int|
                        i < j < shorter.len() ==> (#[trigger] shorter[j]).0 != key;
                assert(items[i] == shorter[i]);
                assert forall|j: int| i < j < items.len() implies (#[trigger] items[j]).0 != key by {
                    if j < shorter.len() {
                        assert(items[j] == shorter[j]);
                    }
                }
            } else {
                assert forall|i: int| 0 <= i < items.len() implies (#[trigger] items[i]).0
                    != key by {
                    if i < shorter.len() {
                        assert(items[i] == shorter[i]);
                    }
                }
            }
        }
    }
}

/// What is inserted under a key is found there, and every other key keeps what it had.
pub proof fn an_inserted_value_is_found(d: &mut Dict, key: String, value: Plist, other: Seq<char>)
    requires
        call_ensures(Dict::insert, (d, key, value), ()),
    ensures
        lookup(final(d).pairs(), key@) == Some(value.tree()),
        other != key@ ==> lookup(final(d).pairs(), other) == lookup(old(d).pairs(), other),
{
    stored_is_found(old(d).pairs(), key@, value.tree(), other);
}

/// What is taken out is no longer found, and every other key keeps what it had.
pub proof fn a_removed_value_is_gone(d: &mut Dict, key: &str, other: Seq<char>)
    requires
        call_ensures(Dict::remove, (d, key), ()),
        distinct_keys(old(d).pairs()),
    ensures
        lookup(final(d).pairs(), key@) is None,
        other != key@ ==> lookup(final(d).pairs(), other) == lookup(old(d).pairs(), other),
{
    removed_is_gone(old(d).pairs(), key@, other);
}

/// A value is given as what it is, and as nothing else: a text as a text, bytes as
/// bytes, a truth value as one, a number as one.
pub proof fn values_are_what_they_are(
    value: Plist,
    text: Option<&String>,
    data: Option<&Vec<u8>>,
    truth: Option<bool>,
    number: Option<u64>,
    dict: Option<&Dict>,
    items: Option<&Vec<Plist>>,
)
    requires
        call_ensures(Plist::as_string, (&value,), text),
        call_ensures(Plist::as_data, (&value,), data),
        call_ensures(Plist::as_boolean, (&value,), truth),
        call_ensures(Plist::as_unsigned_integer, (&value,), number),
        call_ensures(Plist::as_dictionary, (&value,), dict),
        call_ensures(Plist::as_array, (&value,), items),
    ensures
        text is Some <==> value.tree() is Text,
        text matches Some(text) ==> value.tree() == Tree::Text(text@),
        data is Some <==> value.tree() is Data,
        data matches Some(data) ==> value.tree() == Tree::Data(data@),
        truth is Some <==> value.tree() is Bool,
        truth matches Some(truth) ==> value.tree() == Tree::Bool(truth),
        number is Some <==> value.tree() is Integer,
        number matches Some(number) ==> value.tree() == Tree::Integer(number),
        dict is Some <==> value.tree() is Dict,
        dict matches Some(dict) ==> value.tree() == Tree::Dict(dict.pairs()),
        items is Some <==> value.tree() is Array,
        items matches Some(items) ==> value.tree() == Tree::Array(trees(items@)),
{
}

/// What a dictionary gives for a key is what it holds there, where that is of the kind
/// that was asked for.
pub proof fn fields_are_what_they_are(
    d: Dict,
    key: &str,
    text: Option<&String>,
    data: Option<&Vec<u8>>,
    truth: Option<bool>,
    number: Option<u64>,
    dict: Option<&Dict>,
    items: Option<&Vec<Plist>>,
)
    requires
        call_ensures(Dict::text, (&d, key), text),
        call_ensures(Dict::data, (&d, key), data),
        call_ensures(Dict::boolean, (&d, key), truth),
        call_ensures(Dict::number, (&d, key), number),
        call_ensures(Dict::dictionary, (&d, key), dict),
        call_ensures(Dict::array, (&d, key), items),
    ensures
        text is Some <==> (lookup(d.pairs(), key@) matches Some(Tree::Text(_))),
        text matches Some(text) ==> lookup(d.pairs(), key@) == Some(Tree::Text(text@)),
        data is Some <==> (lookup(d.pairs(), key@) matches Some(Tree::Data(_))),
        data matches Some(data) ==> lookup(d.pairs(), key@) == Some(Tree::Data(data@)),
        truth is Some <==> (lookup(d.pairs(), key@) matches Some(Tree::Bool(_))),
        truth matches Some(truth) ==> lookup(d.pairs(), key@) == Some(Tree::Bool(truth)),
        number is Some <==> (lookup(d.pairs(), key@) matches Some(Tree::Integer(_))),
        number matches Some(number) ==> lookup(d.pairs(), key@) == Some(Tree::Integer(number)),
        dict is Some <==> (lookup(d.pairs(), key@) matches Some(Tree::Dict(_))),
        dict matches Some(dict) ==> lookup(d.pairs(), key@) == Some(Tree::Dict(dict.pairs())),
        items is Some <==> (lookup(d.pairs(), key@) matches Some(Tree::Array(_))),
        items matches Some(items) ==> lookup(d.pairs(), key@) == Some(Tree::Array(trees(items@))),
{
}

/// A key is found at the first pair that has it, and nowhere where no pair has it.
pub proof fn the_first_pair_is_found(pairs: Seq<(Seq<char>, Tree)>, key: Seq<char>)
    ensures
        lookup(pairs, key) is None <==> forall|i: int|
            0 <= i < pairs.len() ==> (#[trigger] pairs[i]).0 != key,
        lookup(pairs, key) matches Some(tree) ==> exists|i: int|
            0 <= i < pairs.len() && #[trigger] pairs[i] == (key, tree) && forall|j: int|
                0 <= j < i ==> (#[trigger] pairs[j]).0 != key,
{
    position_is_first(pairs, key);
    let at = position(pairs, key);
    if at < pairs.len() {
        assert(pairs[at] == (key, pairs[at].1));
    }
}

} // verus!
