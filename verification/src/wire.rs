//! Fixed-width integers on the wire, in both byte orders.
use vstd::prelude::*;

verus! {

/// The `width` low bytes of `x`, least significant first.
pub open spec fn le(x: nat, width: nat) -> Seq<u8>
    decreases width,
{
    if width == 0 {
        Seq::empty()
    } else {
        seq![(x % 256) as u8] + le(x / 256, (width - 1) as nat)
    }
}

/// The number whose little-endian bytes are `s`.
pub open spec fn le_value(s: Seq<u8>) -> nat
    decreases s.len(),
{
    if s.len() == 0 {
        0
    } else {
        s[0] as nat + 256 * le_value(s.drop_first())
    }
}

/// The `width` low bytes of `x`, most significant first.
pub open spec fn be(x: nat, width: nat) -> Seq<u8> {
    le(x, width).reverse()
}

/// The number whose big-endian bytes are `s`.
pub open spec fn be_value(s: Seq<u8>) -> nat {
    le_value(s.reverse())
}

/// One more than the largest number that `width` bytes can hold.
pub open spec fn capacity(width: nat) -> nat
    decreases width,
{
    if width == 0 {
        1
    } else {
        256 * capacity((width - 1) as nat)
    }
}

/// An encoded integer has the asked number of bytes.
pub broadcast proof fn le_len(x: nat, width: nat)
    ensures
        (#[trigger] le(x, width)).len() == width,
    decreases width,
{
    if width > 0 {
        le_len(x / 256, (width - 1) as nat);
    }
}

/// A big-endian integer has the asked number of bytes.
pub broadcast proof fn be_len(x: nat, width: nat)
    ensures
        (#[trigger] be(x, width)).len() == width,
{
    le_len(x, width);
}

/// Reading back a little-endian integer gives the number that was written,
/// reduced to what its bytes can hold.
pub proof fn le_round_trip(x: nat, width: nat)
    ensures
        le_value(le(x, width)) == x % capacity(width),
        x < capacity(width) ==> le_value(le(x, width)) == x,
        capacity(width) > 0,
    decreases width,
{
    if width > 0 {
        let w = (width - 1) as nat;
        le_round_trip(x / 256, w);
        let s = le(x, width);
        assert(s.drop_first() =~= le(x / 256, w));
        let c = capacity(w);
        assert(x % (256 * c) == x % 256 + 256 * ((x / 256) % c)) by (nonlinear_arith)
            requires
                c > 0,
        {
            let q = x / 256;
            let r = x % 256;
            let k = q / c;
            let m = q % c;
            assert(x == 256 * q + r);
            assert(q == c * k + m);
            assert(x == (256 * c) * k + (256 * m + r));
            assert(0 <= 256 * m + r < 256 * c);
            vstd::arithmetic::div_mod::lemma_fundamental_div_mod_converse(
                x as int,
                256 * c as int,
                k as int,
                (256 * m + r) as int,
            );
        }
    } else {
        assert(x % 1 == 0);
    }
    if x < capacity(width) {
        vstd::arithmetic::div_mod::lemma_small_mod(x, capacity(width));
    }
}

/// A value read from little-endian bytes fits their width.
pub proof fn le_value_bound(s: Seq<u8>)
    ensures
        le_value(s) < capacity(s.len()),
    decreases s.len(),
{
    if s.len() > 0 {
        le_value_bound(s.drop_first());
    }
}

/// Writing back a little-endian value gives the bytes that were read.
pub proof fn le_bytes_round_trip(s: Seq<u8>)
    ensures
        le(le_value(s), s.len()) == s,
    decreases s.len(),
{
    if s.len() > 0 {
        let t = s.drop_first();
        le_bytes_round_trip(t);
        let v = le_value(s);
        assert(v == s[0] as nat + 256 * le_value(t));
        assert(v % 256 == s[0]);
        assert(v / 256 == le_value(t));
        assert(le(v, s.len()) =~= s);
    }
}

/// Reading back a big-endian integer gives the number that was written,
/// reduced to what its bytes can hold.
pub proof fn be_round_trip(x: nat, width: nat)
    ensures
        be_value(be(x, width)) == x % capacity(width),
        x < capacity(width) ==> be_value(be(x, width)) == x,
{
    le_round_trip(x, width);
    assert(le(x, width).reverse().reverse() =~= le(x, width));
}

/// The capacities of the widths that the protocols use.
pub proof fn capacities()
    ensures
        capacity(1) == 0x100,
        capacity(2) == 0x1_0000,
        capacity(4) == 0x1_0000_0000,
        capacity(8) == 0x1_0000_0000_0000_0000,
{
    reveal_with_fuel(capacity, 9);
}

/// Appends `width` little-endian bytes of `x`.
pub fn push_le(out: &mut Vec<u8>, x: u64, width: usize)
    ensures
        final(out)@ == old(out)@ + le(x as nat, width as nat),
{
    let mut rest: u64 = x;
    let mut done: usize = 0;
    while done < width
        invariant
            done <= width,
            out@ + le(rest as nat, (width - done) as nat) == old(out)@ + le(x as nat, width as nat),
        decreases width - done,
    {
        let ghost before = out@;
        out.push((rest % 256) as u8);
        proof {
            let w = (width - done) as nat;
            assert(le(rest as nat, w) == seq![(rest % 256) as u8] + le(
                (rest / 256) as nat,
                (w - 1) as nat,
            ));
            assert(out@ + le((rest / 256) as nat, (w - 1) as nat) =~= before + le(rest as nat, w));
        }
        rest = rest / 256;
        done = done + 1;
    }
    assert(out@ + le(rest as nat, 0) =~= out@);
}

/// Appends `width` big-endian bytes of `x`.
pub fn push_be(out: &mut Vec<u8>, x: u64, width: usize)
    ensures
        final(out)@ == old(out)@ + be(x as nat, width as nat),
{
    let mut little: Vec<u8> = Vec::new();
    push_le(&mut little, x, width);
    assert(little@ =~= le(x as nat, width as nat));
    proof {
        le_len(x as nat, width as nat);
    }
    let mut left: usize = width;
    while left > 0
        invariant
            left <= width,
            little@ == le(x as nat, width as nat),
            little.len() == width,
            out@ == old(out)@ + little@.reverse().take(width - left),
        decreases left,
    {
        left = left - 1;
        out.push(little[left]);
        assert(out@ =~= old(out)@ + little@.reverse().take(width - left));
    }
    assert(little@.reverse().take(width as int) =~= little@.reverse());
}

/// Reads the little-endian integer in `bytes[from..from + width]`.
pub fn read_le(bytes: &[u8], from: usize, width: usize) -> (x: u64)
    requires
        from + width <= bytes@.len(),
        width <= 8,
    ensures
        x as nat == le_value(bytes@.subrange(from as int, from + width)),
{
    let total: usize = bytes.len();
    let mut value: u64 = 0;
    let mut left: usize = width;
    proof {
        capacities();
        reveal_with_fuel(capacity, 9);
    }
    let ghost all = bytes@.subrange(from as int, from + width);
    assert(all.skip(width as int) =~= Seq::<u8>::empty());
    while left > 0
        invariant
            left <= width <= 8,
            from + width <= total == bytes@.len(),
            all == bytes@.subrange(from as int, from + width),
            value as nat == le_value(all.skip(left as int)),
        decreases left,
    {
        let ghost tail = all.skip(left as int);
        left = left - 1;
        proof {
            le_value_bound(tail);
            reveal_with_fuel(capacity, 9);
            let wider = all.skip(left as int);
            assert(wider.drop_first() =~= tail);
            assert(wider[0] == bytes@[from + left]);
        }
        value = value * 256 + bytes[from + left] as u64;
    }
    assert(all.skip(0) =~= all);
    value
}

/// Reads the big-endian integer in `bytes[from..from + width]`.
pub fn read_be(bytes: &[u8], from: usize, width: usize) -> (x: u64)
    requires
        from + width <= bytes@.len(),
        width <= 8,
    ensures
        x as nat == be_value(bytes@.subrange(from as int, from + width)),
{
    let total: usize = bytes.len();
    let mut swapped: Vec<u8> = Vec::new();
    let ghost all = bytes@.subrange(from as int, from + width);
    let mut left: usize = width;
    while left > 0
        invariant
            left <= width,
            from + width <= total == bytes@.len(),
            all == bytes@.subrange(from as int, from + width),
            swapped@ == all.reverse().take(width - left),
        decreases left,
    {
        left = left - 1;
        swapped.push(bytes[from + left]);
        assert(swapped@ =~= all.reverse().take(width - left));
    }
    assert(swapped@ =~= all.reverse());
    assert(swapped@.subrange(0, width as int) =~= swapped@);
    read_le(swapped.as_slice(), 0, width)
}

/// Appends a run of bytes.
pub fn push_bytes(out: &mut Vec<u8>, bytes: &[u8])
    ensures
        final(out)@ == old(out)@ + bytes@,
{
    let mut i: usize = 0;
    while i < bytes.len()
        invariant
            i <= bytes@.len(),
            out@ == old(out)@ + bytes@.take(i as int),
        decreases bytes@.len() - i,
    {
        out.push(bytes[i]);
        i = i + 1;
        assert(out@ =~= old(out)@ + bytes@.take(i as int));
    }
    assert(bytes@.take(i as int) =~= bytes@);
}

/// Copies `bytes[from..to]`.
pub fn copy_range(bytes: &[u8], from: usize, to: usize) -> (part: Vec<u8>)
    requires
        from <= to <= bytes@.len(),
    ensures
        part@ == bytes@.subrange(from as int, to as int),
{
    let mut part: Vec<u8> = Vec::new();
    let mut i: usize = from;
    while i < to
        invariant
            from <= i <= to <= bytes@.len(),
            part@ == bytes@.subrange(from as int, i as int),
        decreases to - i,
    {
        part.push(bytes[i]);
        i = i + 1;
        assert(part@ =~= bytes@.subrange(from as int, i as int));
    }
    part
}

/// Copies a run of bytes.
pub fn copy_bytes(bytes: &[u8]) -> (copy: Vec<u8>)
    ensures
        copy@ == bytes@,
{
    let copy: Vec<u8> = copy_range(bytes, 0, bytes.len());
    assert(copy@ =~= bytes@);
    copy
}

/// Whether two byte runs are the same.
pub fn same_bytes(a: &[u8], b: &[u8]) -> (same: bool)
    ensures
        same == (a@ == b@),
{
    if a.len() != b.len() {
        return false;
    }
    let mut i: usize = 0;
    while i < a.len()
        invariant
            i <= a@.len() == b@.len(),
            a@.take(i as int) == b@.take(i as int),
        decreases a@.len() - i,
    {
        if a[i] != b[i] {
            return false;
        }
        i = i + 1;
        assert(a@.take(i as int) =~= a@.take(i - 1).push(a@[i - 1]));
        assert(b@.take(i as int) =~= b@.take(i - 1).push(b@[i - 1]));
    }
    assert(a@.take(i as int) =~= a@);
    assert(b@.take(i as int) =~= b@);
    true
}

/// The little-endian form has the lowest byte first, the big-endian form the
/// highest.
pub proof fn byte_orders(x: nat)
    ensures
        le(x, 2) == seq![(x % 256) as u8, (x / 256 % 256) as u8],
        be(x, 2) == seq![(x / 256 % 256) as u8, (x % 256) as u8],
        le(x, 4) == seq![
            (x % 256) as u8,
            (x / 256 % 256) as u8,
            (x / 65536 % 256) as u8,
            (x / 16777216 % 256) as u8,
        ],
        be(x, 4) == seq![
            (x / 16777216 % 256) as u8,
            (x / 65536 % 256) as u8,
            (x / 256 % 256) as u8,
            (x % 256) as u8,
        ],
{
    reveal_with_fuel(le, 5);
    assert(x / 256 / 256 == x / 65536);
    assert(x / 256 / 256 / 256 == x / 16777216);
    assert(le(x, 2) =~= seq![(x % 256) as u8, (x / 256 % 256) as u8]);
    assert(be(x, 2) =~= seq![(x / 256 % 256) as u8, (x % 256) as u8]);
    assert(le(x, 4) =~= seq![
        (x % 256) as u8,
        (x / 256 % 256) as u8,
        (x / 65536 % 256) as u8,
        (x / 16777216 % 256) as u8,
    ]);
    assert(be(x, 4) =~= seq![
        (x / 16777216 % 256) as u8,
        (x / 65536 % 256) as u8,
        (x / 256 % 256) as u8,
        (x % 256) as u8,
    ]);
}

/// In the little-endian form of a number, the byte at place `i` is the `i`-th
/// digit of the number to the base 256.
pub proof fn digits_to_the_base_256(x: nat, width: nat, i: nat)
    requires
        i < width,
    ensures
        le(x, width)[i as int] == (x / capacity(i)) % 256,
    decreases width,
{
    le_len(x / 256, (width - 1) as nat);
    if i > 0 {
        digits_to_the_base_256(x / 256, (width - 1) as nat, (i - 1) as nat);
        let c = capacity((i - 1) as nat);
        capacity_is_positive((i - 1) as nat);
        assert(x / (256 * c) == (x / 256) / c) by {
            vstd::arithmetic::div_mod::lemma_div_denominator(x as int, 256, c as int);
        }
    } else {
        assert(x / 1 == x);
    }
}

proof fn capacity_is_positive(width: nat)
    ensures
        capacity(width) > 0,
    decreases width,
{
    if width > 0 {
        capacity_is_positive((width - 1) as nat);
    }
}

} // verus!
