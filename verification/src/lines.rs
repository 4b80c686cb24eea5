//! Lines out of a byte stream that comes in pieces.
use crate::text::{decoded_lossy, lossy, texts};
use vstd::prelude::*;

verus! {

/// The longest line that is kept.
pub const LINE_LIMIT: usize = 262_144;

/// What a decoder holds between two pieces.
pub ghost struct Held {
    pub pending: Seq<u8>,
    pub discarding: bool,
}

/// A byte that ends a line.
pub open spec fn ends_line(b: u8) -> bool {
    b == 10 || b == 0
}

/// What a decoder holds after a byte.
pub open spec fn held_after(held: Held, b: u8) -> Held {
    if ends_line(b) {
        Held { pending: Seq::empty(), discarding: false }
    } else if b == 13 || held.discarding {
        held
    } else if held.pending.len() < LINE_LIMIT {
        Held { pending: held.pending.push(b), discarding: false }
    } else {
        Held { pending: Seq::empty(), discarding: true }
    }
}

/// The line that a byte completes, if any.
pub open spec fn completed(held: Held, b: u8) -> Option<Seq<u8>> {
    if ends_line(b) && !held.discarding && held.pending.len() > 0 {
        Some(held.pending)
    } else {
        None
    }
}

/// What a decoder holds after a run of bytes.
pub open spec fn held_after_all(held: Held, bytes: Seq<u8>) -> Held
    decreases bytes.len(),
{
    if bytes.len() == 0 {
        held
    } else {
        held_after(held_after_all(held, bytes.drop_last()), bytes.last())
    }
}

/// The lines that a run of bytes completes, in order.
pub open spec fn lines_of(held: Held, bytes: Seq<u8>) -> Seq<Seq<u8>>
    decreases bytes.len(),
{
    if bytes.len() == 0 {
        Seq::empty()
    } else {
        let before = lines_of(held, bytes.drop_last());
        match completed(held_after_all(held, bytes.drop_last()), bytes.last()) {
            Some(line) => before.push(line),
            None => before,
        }
    }
}

/// What a decoder may hold: a line within the limit without the bytes that end
/// lines or are dropped, and nothing while it discards.
pub open spec fn may_hold(held: Held) -> bool {
    &&& held.pending.len() <= LINE_LIMIT
    &&& held.discarding ==> held.pending.len() == 0
    &&& forall|i: int|
        0 <= i < held.pending.len() ==> !ends_line(#[trigger] held.pending[i]) && held.pending[i] != 13
}

/// Bounds unterminated lines and keeps characters together that come in pieces.
pub struct LineDecoder {
    pending: Vec<u8>,
    discarding: bool,
}

impl View for LineDecoder {
    type V = Held;

    closed spec fn view(&self) -> Held {
        Held { pending: self.pending@, discarding: self.discarding }
    }
}

/// The texts of a run of lines.
pub open spec fn line_texts(lines: Seq<Seq<u8>>) -> Seq<Seq<char>> {
    Seq::new(lines.len(), |i: int| lossy(lines[i]))
}

impl LineDecoder {
    #[verifier::type_invariant]
    spec fn is_held(self) -> bool {
        may_hold(self@)
    }

    /// A decoder that holds nothing.
    pub fn new() -> (decoder: LineDecoder)
        ensures
            decoder@ == (Held { pending: Seq::empty(), discarding: false }),
    {
        let pending: Vec<u8> = Vec::new();
        assert(pending@ =~= Seq::<u8>::empty());
        LineDecoder { pending, discarding: false }
    }

    /// How many bytes are held.
    pub fn pending_len(&self) -> (n: usize)
        ensures
            n == self@.pending.len(),
            n <= LINE_LIMIT,
    {
        proof {
            use_type_invariant(self);
        }
        self.pending.len()
    }

    /// Takes a piece of the stream and gives the lines that it completes.
    pub fn feed(&mut self, bytes: &[u8]) -> (lines: Vec<String>)
        ensures
            final(self)@ == held_after_all(old(self)@, bytes@),
            texts(lines@) == line_texts(lines_of(old(self)@, bytes@)),
            may_hold(final(self)@),
    {
        let ghost start = self@;
        proof {
            use_type_invariant(&*self);
        }
        let mut pending: Vec<u8> = Vec::new();
        std::mem::swap(&mut pending, &mut self.pending);
        let mut discarding: bool = self.discarding;
        let mut lines: Vec<String> = Vec::new();
        let mut i: usize = 0;
        assert(bytes@.take(0) =~= Seq::<u8>::empty());
        assert(texts(lines@) =~= line_texts(Seq::empty()));
        while i < bytes.len()
            invariant
                i <= bytes@.len(),
                may_hold(held_after_all(start, bytes@.take(i as int))),
                held_after_all(start, bytes@.take(i as int)) == (Held {
                    pending: pending@,
                    discarding,
                }),
                texts(lines@) == line_texts(lines_of(start, bytes@.take(i as int))),
            decreases bytes@.len() - i,
        {
            let b: u8 = bytes[i];
            let ghost held = Held { pending: pending@, discarding };
            let ghost before = texts(lines@);
            let ghost so_far = lines_of(start, bytes@.take(i as int));
            assert(bytes@.take(i + 1).drop_last() =~= bytes@.take(i as int));
            assert(bytes@.take(i + 1).last() == b);
            if b == 10 || b == 0 {
                if !discarding && pending.len() > 0 {
                    let line: String = decoded_lossy(pending.as_slice());
                    lines.push(line);
                    assert(texts(lines@) =~= before.push(line@));
                    assert(line_texts(so_far.push(held.pending)) =~= line_texts(so_far).push(
                        line@,
                    ));
                }
                pending = Vec::new();
                assert(pending@ =~= Seq::<u8>::empty());
                discarding = false;
            } else if b != 13 && !discarding {
                if pending.len() < LINE_LIMIT {
                    pending.push(b);
                } else {
                    pending = Vec::new();
                    assert(pending@ =~= Seq::<u8>::empty());
                    discarding = true;
                }
            }
            i = i + 1;
        }
        assert(bytes@.take(i as int) =~= bytes@);
        *self = LineDecoder { pending, discarding };
        lines
    }
}

/// How a stream is cut into pieces does not matter: two pieces one after the
/// other leave the same behind, and give the same lines, as both at once.
pub proof fn pieces_do_not_matter(held: Held, first: Seq<u8>, second: Seq<u8>)
    ensures
        held_after_all(held, first + second) == held_after_all(held_after_all(held, first), second),
        lines_of(held, first + second) == lines_of(held, first) + lines_of(
            held_after_all(held, first),
            second,
        ),
    decreases second.len(),
{
    if second.len() == 0 {
        assert(first + second =~= first);
        assert(lines_of(held, first) + Seq::<Seq<u8>>::empty() =~= lines_of(held, first));
    } else {
        pieces_do_not_matter(held, first, second.drop_last());
        assert((first + second).drop_last() =~= first + second.drop_last());
        assert(lines_of(held, first + second) =~= lines_of(held, first) + lines_of(
            held_after_all(held, first),
            second,
        ));
    }
}

/// A decoder never holds more than a line of the greatest length.
pub proof fn held_is_bounded(held: Held, bytes: Seq<u8>)
    requires
        may_hold(held),
    ensures
        may_hold(held_after_all(held, bytes)),
    decreases bytes.len(),
{
    if bytes.len() > 0 {
        held_is_bounded(held, bytes.drop_last());
    }
}

/// A line within the limit comes out as it went in, whatever ends it.
pub proof fn short_lines_come_through(line: Seq<u8>, end: u8)
    requires
        0 < line.len() <= LINE_LIMIT,
        ends_line(end),
        forall|i: int| 0 <= i < line.len() ==> !ends_line(#[trigger] line[i]) && line[i] != 13,
    ensures
        lines_of((Held { pending: Seq::empty(), discarding: false }), line.push(end)) == seq![line],
        held_after_all((Held { pending: Seq::empty(), discarding: false }), line.push(end)) == (Held {
            pending: Seq::empty(),
            discarding: false,
        }),
{
    let fresh = Held { pending: Seq::empty(), discarding: false };
    unfinished(line);
    assert(line.push(end).drop_last() =~= line);
    assert(lines_of(fresh, line.push(end)) =~= seq![line]);
}

proof fn unfinished(line: Seq<u8>)
    requires
        line.len() <= LINE_LIMIT,
        forall|i: int| 0 <= i < line.len() ==> !ends_line(#[trigger] line[i]) && line[i] != 13,
    ensures
        held_after_all((Held { pending: Seq::empty(), discarding: false }), line) == (Held {
            pending: line,
            discarding: false,
        }),
        lines_of((Held { pending: Seq::empty(), discarding: false }), line).len() == 0,
    decreases line.len(),
{
    if line.len() > 0 {
        unfinished(line.drop_last());
        assert(line.drop_last().push(line.last()) =~= line);
    } else {
        assert(line =~= Seq::<u8>::empty());
    }
}

/// A line is the bytes up to a line feed or a zero byte, without the carriage
/// returns among them. It comes out whole where it holds a byte and at most 262144
/// of them; an empty one and a longer one do not come out, and neither leaves
/// anything behind for the next line.
pub proof fn a_line_is_its_bytes(raw: Seq<u8>, end: u8)
    requires
        end == 10 || end == 0,
        forall|i: int| 0 <= i < raw.len() ==> #[trigger] raw[i] != 10 && raw[i] != 0,
    ensures
        ({
            let fresh = Held { pending: Seq::empty(), discarding: false };
            let kept = raw.filter(|b: u8| b != 13);
            &&& held_after_all(fresh, raw.push(end)) == fresh
            &&& 0 < kept.len() <= 262144 ==> lines_of(fresh, raw.push(end)) == seq![kept]
            &&& !(0 < kept.len() <= 262144) ==> lines_of(fresh, raw.push(end)).len() == 0
        }),
{
    let fresh = Held { pending: Seq::empty(), discarding: false };
    let kept = raw.filter(|b: u8| b != 13);
    before_the_end(raw);
    assert(raw.push(end).drop_last() =~= raw);
    if 0 < kept.len() <= 262144 {
        assert(lines_of(fresh, raw.push(end)) =~= seq![kept]);
    }
}

proof fn before_the_end(raw: Seq<u8>)
    requires
        forall|i: int| 0 <= i < raw.len() ==> #[trigger] raw[i] != 10 && raw[i] != 0,
    ensures
        ({
            let fresh = Held { pending: Seq::empty(), discarding: false };
            let kept = raw.filter(|b: u8| b != 13);
            &&& lines_of(fresh, raw).len() == 0
            &&& kept.len() <= 262144 ==> held_after_all(fresh, raw) == (Held {
                pending: kept,
                discarding: false,
            })
            &&& kept.len() > 262144 ==> held_after_all(fresh, raw) == (Held {
                pending: Seq::empty(),
                discarding: true,
            })
        }),
    decreases raw.len(),
{
    reveal(Seq::filter);
    if raw.len() > 0 {
        let shorter = raw.drop_last();
        assert forall|i: int| 0 <= i < shorter.len() implies #[trigger] shorter[i] != 10
            && shorter[i] != 0 by {
            assert(shorter[i] == raw[i]);
        }
        before_the_end(shorter);
        assert(raw[raw.len() - 1] == raw.last());
        let is_kept = |b: u8| b != 13;
        assert(raw.filter(is_kept) == if raw.last() != 13 {
            shorter.filter(is_kept).push(raw.last())
        } else {
            shorter.filter(is_kept)
        });
    } else {
        assert(raw.filter(|b: u8| b != 13) =~= Seq::<u8>::empty());
    }
}

} // verus!
