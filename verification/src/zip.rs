//! Uncompressed ZIP archives with the Unix mode in an Apple StreamingZip field.
use crate::wire::{be_len, capacities, le, le_len, le_round_trip, le_value, push_bytes, push_le};
use vstd::prelude::*;
use vstd::utf8::encode_utf8;

verus! {

broadcast use {le_len, be_len};

/// One member of an archive.
pub struct StoredZipEntry {
    /// Its name in the archive.
    pub name: String,
    /// Its Unix file type and permissions.
    pub mode: u16,
    /// Its contents.
    pub data: Vec<u8>,
}

/// What an archive member holds.
pub ghost struct Member {
    pub name: Seq<char>,
    pub mode: u16,
    pub data: Seq<u8>,
}

impl View for StoredZipEntry {
    type V = Member;

    open spec fn view(&self) -> Member {
        Member { name: self.name@, mode: self.mode, data: self.data@ }
    }
}

/// The members that a run of entries holds.
pub open spec fn members(entries: Seq<StoredZipEntry>) -> Seq<Member> {
    Seq::new(entries.len(), |i: int| entries[i]@)
}

/// One step of the reflected CRC-32 shift register.
pub open spec fn crc_bit(register: u32) -> u32 {
    if register & 1 != 0 {
        (register >> 1) ^ 0xEDB8_8320
    } else {
        register >> 1
    }
}

/// The register after `n` steps.
pub open spec fn crc_bits(register: u32, n: nat) -> u32
    decreases n,
{
    if n == 0 {
        register
    } else {
        crc_bit(crc_bits(register, (n - 1) as nat))
    }
}

/// The register after `data`, starting from all ones.
pub open spec fn crc_register(data: Seq<u8>) -> u32
    decreases data.len(),
{
    if data.len() == 0 {
        0xFFFF_FFFF
    } else {
        crc_bits(crc_register(data.drop_last()) ^ (data.last() as u32), 8)
    }
}

/// The CRC-32 of `data`.
pub open spec fn crc32(data: Seq<u8>) -> u32 {
    !crc_register(data)
}

/// The bytes of three texts of one length, added up without carry.
pub open spec fn mixed(a: Seq<u8>, b: Seq<u8>, c: Seq<u8>) -> Seq<u8> {
    Seq::new(a.len(), |i: int| a[i] ^ b[i] ^ c[i])
}

/// The register steps distribute over exclusive or.
proof fn steps_distribute(x: u32, y: u32, n: nat)
    ensures
        crc_bits(x ^ y, n) == crc_bits(x, n) ^ crc_bits(y, n),
    decreases n,
{
    if n > 0 {
        steps_distribute(x, y, (n - 1) as nat);
        let p = crc_bits(x, (n - 1) as nat);
        let q = crc_bits(y, (n - 1) as nat);
        assert(crc_bit(p ^ q) == crc_bit(p) ^ crc_bit(q)) by (bit_vector);
    }
}

/// The register after the mixture of three texts is the mixture of the registers.
proof fn registers_mix(a: Seq<u8>, b: Seq<u8>, c: Seq<u8>)
    requires
        a.len() == b.len() == c.len(),
    ensures
        crc_register(mixed(a, b, c)) == crc_register(a) ^ crc_register(b) ^ crc_register(c),
    decreases a.len(),
{
    if a.len() == 0 {
        assert(0xFFFF_FFFFu32 == 0xFFFF_FFFFu32 ^ 0xFFFF_FFFFu32 ^ 0xFFFF_FFFFu32) by (bit_vector);
    } else {
        registers_mix(a.drop_last(), b.drop_last(), c.drop_last());
        assert(mixed(a, b, c).drop_last() =~= mixed(a.drop_last(), b.drop_last(), c.drop_last()));
        let (p, q, r) = (
            crc_register(a.drop_last()),
            crc_register(b.drop_last()),
            crc_register(c.drop_last()),
        );
        let (x, y, z) = (a.last(), b.last(), c.last());
        assert((p ^ q ^ r) ^ ((x ^ y ^ z) as u32) == (p ^ (x as u32)) ^ (q ^ (y as u32)) ^ (r ^ (
        z as u32))) by (bit_vector);
        steps_distribute((p ^ (x as u32)) ^ (q ^ (y as u32)), r ^ (z as u32), 8);
        steps_distribute(p ^ (x as u32), q ^ (y as u32), 8);
    }
}

/// The checksum is affine: that of three texts of one length added up without carry
/// is the sum of the three checksums.
pub proof fn checksums_mix(a: Seq<u8>, b: Seq<u8>, c: Seq<u8>)
    requires
        a.len() == b.len() == c.len(),
    ensures
        crc32(a) ^ crc32(b) ^ crc32(c) == crc32(mixed(a, b, c)),
{
    registers_mix(a, b, c);
    let (p, q, r) = (crc_register(a), crc_register(b), crc_register(c));
    assert(!p ^ !q ^ !r == !(p ^ q ^ r)) by (bit_vector);
}

/// Where the last eight bits are zero, up to eight steps only shift.
proof fn zeros_shift(x: u32, n: nat)
    requires
        x & 0xFF == 0,
        n <= 8,
    ensures
        crc_bits(x, n) == x >> (n as u32),
    decreases n,
{
    if n == 0 {
        assert(x >> 0u32 == x) by (bit_vector);
    } else {
        zeros_shift(x, (n - 1) as nat);
        let k = (n - 1) as u32;
        assert(crc_bit(x >> k) == x >> ((k + 1) as u32)) by (bit_vector)
            requires
                x & 0xFF == 0,
                k < 8,
        ;
    }
}

/// To take in the last byte of a word is to take in the whole word, but for what is
/// left of it.
proof fn byte_of_word(register: u32, word: u32)
    ensures
        crc_bits(register ^ (word & 0xFF), 8) ^ (word >> 8) == crc_bits(register ^ word, 8),
{
    let high = word & 0xFFFF_FF00;
    assert(high & 0xFF == 0 && high >> 8 == word >> 8 && register ^ word == (register ^ (word
        & 0xFF)) ^ high) by (bit_vector)
        requires
            high == word & 0xFFFF_FF00,
    ;
    steps_distribute(register ^ (word & 0xFF), high, 8);
    zeros_shift(high, 8);
}

/// Eight steps, one after the other.
proof fn eight_steps(x: u32)
    ensures
        crc_bits(x, 8) == crc_bit(crc_bit(crc_bit(crc_bit(crc_bit(crc_bit(crc_bit(crc_bit(x)))))))),
{
    reveal_with_fuel(crc_bits, 9);
}

/// The register after a text and one more byte.
proof fn one_more_byte(data: Seq<u8>, byte: u8)
    ensures
        crc_register(data.push(byte)) == crc_bits(crc_register(data) ^ (byte as u32), 8),
{
    assert(data.push(byte).drop_last() =~= data);
}

/// A text that is followed by its own checksum, least byte first, always has the same
/// checksum.
pub proof fn checksum_closes(data: Seq<u8>)
    ensures
        crc32(data + le(crc32(data) as nat, 4)) == 0x2144_DF1C,
{
    let r0 = crc_register(data);
    let w0 = !r0;
    let (w1, w2, w3) = (w0 >> 8, w0 >> 16, w0 >> 24);
    let (b0, b1, b2, b3) = (
        (w0 as nat % 256) as u8,
        (w1 as nat % 256) as u8,
        (w2 as nat % 256) as u8,
        (w3 as nat % 256) as u8,
    );
    assert(w1 == w0 / 256 && w2 == w1 / 256 && w3 == w2 / 256 && w1 >> 8 == w2 && w2 >> 8 == w3 && w3
        >> 8 == 0) by (bit_vector)
        requires
            w1 == w0 >> 8,
            w2 == w0 >> 16,
            w3 == w0 >> 24,
    ;
    assert(w0 & 0xFF == w0 % 256 && w1 & 0xFF == w1 % 256 && w2 & 0xFF == w2 % 256 && w3 & 0xFF == w3
        % 256) by (bit_vector);
    assert(le(w0 as nat, 4) =~= seq![b0, b1, b2, b3]) by {
        reveal_with_fuel(le, 5);
        assert(w0 as nat / 256 == w1 as nat);
        assert(w1 as nat / 256 == w2 as nat);
        assert(w2 as nat / 256 == w3 as nat);
    }
    let d1 = data.push(b0);
    let d2 = d1.push(b1);
    let d3 = d2.push(b2);
    let d4 = d3.push(b3);
    assert(data + le(w0 as nat, 4) =~= d4);
    one_more_byte(data, b0);
    one_more_byte(d1, b1);
    one_more_byte(d2, b2);
    one_more_byte(d3, b3);
    let (r1, r2, r3, r4) = (crc_register(d1), crc_register(d2), crc_register(d3), crc_register(d4));
    byte_of_word(r0, w0);
    byte_of_word(r1, w1);
    byte_of_word(r2, w2);
    byte_of_word(r3, w3);
    assert(r0 ^ w0 == 0xFFFF_FFFF) by (bit_vector)
        requires
            w0 == !r0,
    ;
    assert(r4 ^ 0u32 == r4) by (bit_vector);
    eight_steps(0xFFFF_FFFFu32);
    assert(crc_bit(crc_bit(crc_bit(crc_bit(crc_bit(crc_bit(crc_bit(crc_bit(0xFFFF_FFFFu32))))))))
        == 0x2DFD_1072u32) by (bit_vector);
    eight_steps(0x2DFD_1072u32);
    assert(crc_bit(crc_bit(crc_bit(crc_bit(crc_bit(crc_bit(crc_bit(crc_bit(0x2DFD_1072u32))))))))
        == 0xBE26_ED00u32) by (bit_vector);
    eight_steps(0xBE26_ED00u32);
    assert(crc_bit(crc_bit(crc_bit(crc_bit(crc_bit(crc_bit(crc_bit(crc_bit(0xBE26_ED00u32))))))))
        == 0x00BE_26EDu32) by (bit_vector);
    eight_steps(0x00BE_26EDu32);
    assert(crc_bit(crc_bit(crc_bit(crc_bit(crc_bit(crc_bit(crc_bit(crc_bit(0x00BE_26EDu32))))))))
        == 0xDEBB_20E3u32) by (bit_vector);
    assert(!0xDEBB_20E3u32 == 0x2144_DF1Cu32) by (bit_vector);
}

/// The identifier of the StreamingZip extra field.
pub const SZ_EXTRA_ID: u16 = 0x5A53;

/// The StreamingZip extra field: its identifier, its length, the mode.
pub open spec fn extra_field(mode: u16) -> Seq<u8> {
    le(SZ_EXTRA_ID as nat, 2) + le(2, 2) + le(mode as nat, 2)
}

/// The fields that the local and the central header of a member share: flags,
/// method, time, date, checksum, sizes, and the lengths of name and extra field.
pub open spec fn common_fields(m: Member) -> Seq<u8> {
    le(20, 2) + le(0, 2) + le(0, 2) + le(0x2800, 2) + le(0x5D30, 2) + le(crc32(m.data) as nat, 4)
        + le(m.data.len(), 4) + le(m.data.len(), 4) + le(encode_utf8(m.name).len(), 2) + le(6, 2)
}

/// The local record of a member: header, name, extra field, contents.
pub open spec fn local_record(m: Member) -> Seq<u8> {
    le(0x0403_4b50, 4) + common_fields(m) + encode_utf8(m.name) + extra_field(m.mode) + m.data
}

/// The record of the central directory for a member whose local record begins
/// at `offset`.
pub open spec fn central_record(m: Member, offset: nat) -> Seq<u8> {
    le(0x0201_4b50, 4) + le(0x0314, 2) + common_fields(m) + le(0, 2) + le(0, 2) + le(0, 2) + le(
        m.mode as nat * 0x1_0000,
        4,
    ) + le(offset, 4) + encode_utf8(m.name) + extra_field(m.mode)
}

/// The local records of all members.
pub open spec fn local_records(ms: Seq<Member>) -> Seq<u8>
    decreases ms.len(),
{
    if ms.len() == 0 {
        Seq::empty()
    } else {
        local_records(ms.drop_last()) + local_record(ms.last())
    }
}

/// Where the local record of member `i` begins.
pub open spec fn offset_of(ms: Seq<Member>, i: int) -> nat {
    local_records(ms.take(i)).len()
}

/// The central directory.
pub open spec fn central_directory(ms: Seq<Member>) -> Seq<u8>
    decreases ms.len(),
{
    if ms.len() == 0 {
        Seq::empty()
    } else {
        central_directory(ms.drop_last()) + central_record(
            ms.last(),
            local_records(ms.drop_last()).len(),
        )
    }
}

/// The record that closes an archive.
pub open spec fn end_record(count: nat, directory_len: nat, directory_start: nat) -> Seq<u8> {
    le(0x0605_4b50, 4) + le(0, 2) + le(0, 2) + le(count, 2) + le(count, 2) + le(directory_len, 4)
        + le(directory_start, 4) + le(0, 2)
}

/// The bytes of the archive that holds the members.
pub open spec fn archive(ms: Seq<Member>) -> Seq<u8> {
    local_records(ms) + central_directory(ms) + end_record(
        ms.len(),
        central_directory(ms).len(),
        local_records(ms).len(),
    )
}

/// The local records of the first members begin the local records of them all.
proof fn local_records_begin(ms: Seq<Member>, i: int)
    requires
        0 <= i <= ms.len(),
    ensures
        local_records(ms.take(i)).len() <= local_records(ms).len(),
        local_records(ms).take(local_records(ms.take(i)).len() as int) == local_records(ms.take(i)),
    decreases ms.len(),
{
    let first = local_records(ms.take(i));
    let n = first.len() as int;
    if i == ms.len() {
        assert(ms.take(i) =~= ms);
        assert(local_records(ms).take(n) =~= first);
    } else {
        let shorter = ms.drop_last();
        local_records_begin(shorter, i);
        assert(shorter.take(i) =~= ms.take(i));
        assert(local_records(ms).take(n) =~= local_records(shorter).take(n));
    }
}

/// Every member's local record stands in the archive at the offset that the
/// central directory gives for it.
pub proof fn members_stand_at_their_offsets(ms: Seq<Member>, i: int)
    requires
        0 <= i < ms.len(),
    ensures
        offset_of(ms, i) + local_record(ms[i]).len() <= archive(ms).len(),
        archive(ms).subrange(
            offset_of(ms, i) as int,
            (offset_of(ms, i) + local_record(ms[i]).len()) as int,
        ) == local_record(ms[i]),
{
    let at = offset_of(ms, i) as int;
    let record = local_record(ms[i]);
    local_records_begin(ms, i + 1);
    let upto = local_records(ms.take(i + 1));
    assert(ms.take(i + 1).drop_last() =~= ms.take(i));
    assert(upto == local_records(ms.take(i)) + record);
    let end = upto.len() as int;
    assert(archive(ms).subrange(at, at + record.len()) =~= local_records(ms).take(end).subrange(
        at,
        at + record.len(),
    ));
    assert(upto.subrange(at, at + record.len()) =~= record);
}

/// Where the central record of member `i` begins in the central directory.
pub open spec fn central_offset(ms: Seq<Member>, i: int) -> nat {
    central_directory(ms.take(i)).len()
}

/// The central records of the first members begin the central directory.
proof fn central_directory_begins(ms: Seq<Member>, i: int)
    requires
        0 <= i <= ms.len(),
    ensures
        central_directory(ms.take(i)).len() <= central_directory(ms).len(),
        central_directory(ms).take(central_directory(ms.take(i)).len() as int)
            == central_directory(ms.take(i)),
    decreases ms.len(),
{
    let first = central_directory(ms.take(i));
    let n = first.len() as int;
    if i == ms.len() {
        assert(ms.take(i) =~= ms);
        assert(central_directory(ms).take(n) =~= first);
    } else {
        let shorter = ms.drop_last();
        central_directory_begins(shorter, i);
        assert(shorter.take(i) =~= ms.take(i));
        assert(central_directory(ms).take(n) =~= central_directory(shorter).take(n));
    }
}

/// The central directory lists the members in order, each with the offset of its
/// local record, and the closing record says where the directory begins, how
/// long it is and how many members there are.
pub proof fn directory_lists_members(ms: Seq<Member>, i: int)
    requires
        0 <= i < ms.len(),
    ensures
        ({
            let begin = (local_records(ms).len() + central_offset(ms, i)) as int;
            let record = central_record(ms[i], offset_of(ms, i));
            &&& begin + record.len() <= archive(ms).len() - 22
            &&& archive(ms).subrange(begin, begin + record.len()) == record
        }),
        archive(ms).skip(archive(ms).len() - 22) == end_record(
            ms.len(),
            central_directory(ms).len(),
            local_records(ms).len(),
        ),
{
    let begin = (local_records(ms).len() + central_offset(ms, i)) as int;
    let record = central_record(ms[i], offset_of(ms, i));
    central_directory_begins(ms, i + 1);
    let upto = central_directory(ms.take(i + 1));
    assert(ms.take(i + 1).drop_last() =~= ms.take(i));
    assert(upto == central_directory(ms.take(i)) + record);
    let closing = end_record(ms.len(), central_directory(ms).len(), local_records(ms).len());
    assert(closing.len() == 22);
    let end = upto.len() as int;
    let from = central_offset(ms, i) as int;
    assert(archive(ms).subrange(begin, begin + record.len()) =~= central_directory(ms).take(
        end,
    ).subrange(from, from + record.len()));
    assert(upto.subrange(from, from + record.len()) =~= record);
    assert(archive(ms).skip(archive(ms).len() - 22) =~= closing);
}

/// The CRC-32 of `data`.
pub fn crc32_simple(data: &[u8]) -> (crc: u32)
    ensures
        crc == crc32(data@),
{
    let mut register: u32 = 0xFFFF_FFFF;
    let mut i: usize = 0;
    assert(data@.take(0) =~= Seq::<u8>::empty());
    while i < data.len()
        invariant
            i <= data@.len(),
            register == crc_register(data@.take(i as int)),
        decreases data@.len() - i,
    {
        let ghost before = register;
        register = register ^ (data[i] as u32);
        let ghost mixed = register;
        let mut bits: u8 = 0;
        while bits < 8
            invariant
                bits <= 8,
                register == crc_bits(mixed, bits as nat),
            decreases 8 - bits,
        {
            if register & 1 != 0 {
                register = (register >> 1) ^ 0xEDB8_8320;
            } else {
                register = register >> 1;
            }
            bits = bits + 1;
        }
        i = i + 1;
        assert(data@.take(i as int).drop_last() =~= data@.take(i - 1));
    }
    assert(data@.take(i as int) =~= data@);
    !register
}

fn push_common(out: &mut Vec<u8>, entry: &StoredZipEntry)
    ensures
        final(out)@ == old(out)@ + common_fields(entry@),
{
    let size: u64 = entry.data.len() as u64;
    push_le(out, 20, 2);
    push_le(out, 0, 2);
    push_le(out, 0, 2);
    push_le(out, 0x2800, 2);
    push_le(out, 0x5D30, 2);
    push_le(out, crc32_simple(entry.data.as_slice()) as u64, 4);
    push_le(out, size, 4);
    push_le(out, size, 4);
    push_le(out, entry.name.as_str().as_bytes().len() as u64, 2);
    push_le(out, 6, 2);
    assert(out@ =~= old(out)@ + common_fields(entry@));
}

fn push_extra(out: &mut Vec<u8>, mode: u16)
    ensures
        final(out)@ == old(out)@ + extra_field(mode),
{
    push_le(out, SZ_EXTRA_ID as u64, 2);
    push_le(out, 2, 2);
    push_le(out, mode as u64, 2);
    assert(out@ =~= old(out)@ + extra_field(mode));
}

fn push_local(out: &mut Vec<u8>, entry: &StoredZipEntry)
    ensures
        final(out)@ == old(out)@ + local_record(entry@),
{
    push_le(out, 0x0403_4b50, 4);
    push_common(out, entry);
    push_bytes(out, entry.name.as_str().as_bytes());
    push_extra(out, entry.mode);
    push_bytes(out, entry.data.as_slice());
    assert(out@ =~= old(out)@ + local_record(entry@));
}

fn push_central(out: &mut Vec<u8>, entry: &StoredZipEntry, offset: u64)
    ensures
        final(out)@ == old(out)@ + central_record(entry@, offset as nat),
{
    push_le(out, 0x0201_4b50, 4);
    push_le(out, 0x0314, 2);
    push_common(out, entry);
    push_le(out, 0, 2);
    push_le(out, 0, 2);
    push_le(out, 0, 2);
    push_le(out, entry.mode as u64 * 0x1_0000, 4);
    push_le(out, offset, 4);
    push_bytes(out, entry.name.as_str().as_bytes());
    push_extra(out, entry.mode);
    assert(out@ =~= old(out)@ + central_record(entry@, offset as nat));
}

/// The archive that holds the entries. Sizes, offsets and counts that their
/// fields cannot hold are cut to the low bytes.
pub fn pack(entries: &Vec<StoredZipEntry>) -> (out: Vec<u8>)
    ensures
        out@ == archive(members(entries@)),
{
    let ghost ms = members(entries@);
    let mut out: Vec<u8> = Vec::new();
    let mut offsets: Vec<u64> = Vec::new();
    let mut i: usize = 0;
    assert(ms.take(0) =~= Seq::<Member>::empty());
    while i < entries.len()
        invariant
            ms == members(entries@),
            i <= entries@.len(),
            out@ == local_records(ms.take(i as int)),
            offsets@.len() == i,
            forall|k: int| 0 <= k < i ==> (#[trigger] offsets@[k]) as nat == offset_of(ms, k),
        decreases entries@.len() - i,
    {
        offsets.push(out.len() as u64);
        push_local(&mut out, &entries[i]);
        i = i + 1;
        assert(ms.take(i as int).drop_last() =~= ms.take(i - 1));
    }
    assert(ms.take(i as int) =~= ms);
    let start: u64 = out.len() as u64;
    let ghost locals = out@;
    let mut directory: Vec<u8> = Vec::new();
    let mut j: usize = 0;
    while j < entries.len()
        invariant
            ms == members(entries@),
            j <= entries@.len(),
            offsets@.len() == entries@.len(),
            forall|k: int|
                0 <= k < entries@.len() ==> (#[trigger] offsets@[k]) as nat == offset_of(ms, k),
            directory@ == central_directory(ms.take(j as int)),
        decreases entries@.len() - j,
    {
        push_central(&mut directory, &entries[j], offsets[j]);
        j = j + 1;
        assert(ms.take(j as int).drop_last() =~= ms.take(j - 1));
    }
    assert(ms.take(j as int) =~= ms);
    push_bytes(&mut out, directory.as_slice());
    push_le(&mut out, 0x0605_4b50, 4);
    push_le(&mut out, 0, 2);
    push_le(&mut out, 0, 2);
    push_le(&mut out, entries.len() as u64, 2);
    push_le(&mut out, entries.len() as u64, 2);
    push_le(&mut out, directory.len() as u64, 4);
    push_le(&mut out, start, 4);
    push_le(&mut out, 0, 2);
    assert(out@ =~= archive(ms));
    out
}

/// At `at` stands a stored member: a local header with this name, this mode, these
/// contents and their checksum.
pub open spec fn holds_member(bytes: Seq<u8>, at: int, name: Seq<char>, mode: u16, data: Seq<u8>) -> bool {
    let n = encode_utf8(name).len() as int;
    let begin = at + 36 + n;
    &&& 0 <= at
    &&& begin + data.len() <= bytes.len()
    &&& le_value(bytes.subrange(at, at + 4)) == 0x0403_4b50
    &&& le_value(bytes.subrange(at + 4, at + 6)) == 20
    &&& le_value(bytes.subrange(at + 6, at + 8)) == 0
    &&& le_value(bytes.subrange(at + 8, at + 10)) == 0
    &&& le_value(bytes.subrange(at + 10, at + 12)) == 0x2800
    &&& le_value(bytes.subrange(at + 12, at + 14)) == 0x5D30
    &&& le_value(bytes.subrange(at + 14, at + 18)) == crc32(data)
    &&& bytes.subrange(at + 18, at + 22) == le(data.len(), 4)
    &&& bytes.subrange(at + 22, at + 26) == le(data.len(), 4)
    &&& bytes.subrange(at + 26, at + 28) == le(n as nat, 2)
    &&& le_value(bytes.subrange(at + 28, at + 30)) == 6
    &&& bytes.subrange(at + 30, at + 30 + n) == encode_utf8(name)
    &&& le_value(bytes.subrange(at + 30 + n, at + 32 + n)) == 0x5A53
    &&& le_value(bytes.subrange(at + 32 + n, at + 34 + n)) == 2
    &&& le_value(bytes.subrange(at + 34 + n, at + 36 + n)) == mode
    &&& bytes.subrange(begin, begin + data.len()) == data
}

/// At `entry` stands a record of the central directory for a member with this name,
/// this mode and these contents, whose local header begins at `at`.
pub open spec fn lists_member(
    bytes: Seq<u8>,
    entry: int,
    at: nat,
    name: Seq<char>,
    mode: u16,
    data: Seq<u8>,
) -> bool {
    let n = encode_utf8(name).len() as int;
    &&& 0 <= entry
    &&& entry + 52 + n <= bytes.len()
    &&& le_value(bytes.subrange(entry, entry + 4)) == 0x0201_4b50
    &&& le_value(bytes.subrange(entry + 4, entry + 6)) == 0x0314
    &&& le_value(bytes.subrange(entry + 6, entry + 8)) == 20
    &&& le_value(bytes.subrange(entry + 8, entry + 10)) == 0
    &&& le_value(bytes.subrange(entry + 10, entry + 12)) == 0
    &&& le_value(bytes.subrange(entry + 12, entry + 14)) == 0x2800
    &&& le_value(bytes.subrange(entry + 14, entry + 16)) == 0x5D30
    &&& le_value(bytes.subrange(entry + 16, entry + 20)) == crc32(data)
    &&& bytes.subrange(entry + 20, entry + 24) == le(data.len(), 4)
    &&& bytes.subrange(entry + 24, entry + 28) == le(data.len(), 4)
    &&& bytes.subrange(entry + 28, entry + 30) == le(n as nat, 2)
    &&& le_value(bytes.subrange(entry + 30, entry + 32)) == 6
    &&& le_value(bytes.subrange(entry + 32, entry + 34)) == 0
    &&& le_value(bytes.subrange(entry + 34, entry + 36)) == 0
    &&& le_value(bytes.subrange(entry + 36, entry + 38)) == 0
    &&& le_value(bytes.subrange(entry + 38, entry + 42)) == mode as nat * 65536
    &&& bytes.subrange(entry + 42, entry + 46) == le(at, 4)
    &&& bytes.subrange(entry + 46, entry + 46 + n) == encode_utf8(name)
    &&& le_value(bytes.subrange(entry + 50 + n, entry + 52 + n)) == mode
}

proof fn common_fields_at(m: Member)
    ensures
        common_fields(m).len() == 26,
        common_fields(m).subrange(0, 2) == le(20, 2),
        common_fields(m).subrange(2, 4) == le(0, 2),
        common_fields(m).subrange(4, 6) == le(0, 2),
        common_fields(m).subrange(6, 8) == le(0x2800, 2),
        common_fields(m).subrange(8, 10) == le(0x5D30, 2),
        common_fields(m).subrange(10, 14) == le(crc32(m.data) as nat, 4),
        common_fields(m).subrange(14, 18) == le(m.data.len(), 4),
        common_fields(m).subrange(18, 22) == le(m.data.len(), 4),
        common_fields(m).subrange(22, 24) == le(encode_utf8(m.name).len(), 2),
        common_fields(m).subrange(24, 26) == le(6, 2),
{
    let f = common_fields(m);
    assert(f.subrange(0, 2) =~= le(20, 2));
    assert(f.subrange(2, 4) =~= le(0, 2));
    assert(f.subrange(4, 6) =~= le(0, 2));
    assert(f.subrange(6, 8) =~= le(0x2800, 2));
    assert(f.subrange(8, 10) =~= le(0x5D30, 2));
    assert(f.subrange(10, 14) =~= le(crc32(m.data) as nat, 4));
    assert(f.subrange(14, 18) =~= le(m.data.len(), 4));
    assert(f.subrange(18, 22) =~= le(m.data.len(), 4));
    assert(f.subrange(22, 24) =~= le(encode_utf8(m.name).len(), 2));
    assert(f.subrange(24, 26) =~= le(6, 2));
}

proof fn small_numbers(mode: u16, crc: u32)
    ensures
        le_value(le(0, 2)) == 0,
        le_value(le(6, 2)) == 6,
        le_value(le(2, 2)) == 2,
        le_value(le(20, 2)) == 20,
        le_value(le(0x2800, 2)) == 0x2800,
        le_value(le(0x5D30, 2)) == 0x5D30,
        le_value(le(0x0314, 2)) == 0x0314,
        le_value(le(0x5A53, 2)) == 0x5A53,
        le_value(le(mode as nat, 2)) == mode,
        le_value(le(mode as nat * 0x1_0000, 4)) == mode as nat * 65536,
        le_value(le(crc as nat, 4)) == crc,
        le_value(le(0x0403_4b50, 4)) == 0x0403_4b50,
        le_value(le(0x0201_4b50, 4)) == 0x0201_4b50,
{
    capacities();
    le_round_trip(0, 2);
    le_round_trip(6, 2);
    le_round_trip(2, 2);
    le_round_trip(20, 2);
    le_round_trip(0x2800, 2);
    le_round_trip(0x5D30, 2);
    le_round_trip(0x0314, 2);
    le_round_trip(0x5A53, 2);
    le_round_trip(mode as nat, 2);
    le_round_trip(mode as nat * 0x1_0000, 4);
    le_round_trip(crc as nat, 4);
    le_round_trip(0x0403_4b50, 4);
    le_round_trip(0x0201_4b50, 4);
}

/// Every member of an archive can be read back: its local header stands in the
/// archive with its own name, mode and contents, and the central directory lists it
/// with the place of that header.
pub proof fn members_can_be_read_back(ms: Seq<Member>, i: int)
    requires
        0 <= i < ms.len(),
    ensures
        holds_member(archive(ms), offset_of(ms, i) as int, ms[i].name, ms[i].mode, ms[i].data),
        exists|entry: int|
            local_records(ms).len() <= entry && #[trigger] lists_member(
                archive(ms),
                entry,
                offset_of(ms, i),
                ms[i].name,
                ms[i].mode,
                ms[i].data,
            ),
{
    members_stand_at_their_offsets(ms, i);
    local_record_is_read(archive(ms), offset_of(ms, i) as int, ms[i], local_record(ms[i]));
    directory_entry_can_be_read_back(ms, i);
}

/// A part of a part is a part of the whole.
proof fn within(bytes: Seq<u8>, at: int, r: Seq<u8>, a: int, b: int)
    requires
        0 <= at,
        at + r.len() <= bytes.len(),
        bytes.subrange(at, at + r.len()) == r,
        0 <= a <= b <= r.len(),
    ensures
        bytes.subrange(at + a, at + b) == r.subrange(a, b),
{
    assert(bytes.subrange(at, at + r.len()).subrange(a, b) =~= bytes.subrange(at + a, at + b));
}

proof fn local_record_fields(m: Member)
    ensures
        ({
            let r = local_record(m);
            let n = encode_utf8(m.name).len() as int;
            &&& r.len() == 36 + n + m.data.len()
            &&& r.subrange(0, 4) == le(0x0403_4b50, 4)
            &&& r.subrange(4, 6) == le(20, 2)
            &&& r.subrange(6, 8) == le(0, 2)
            &&& r.subrange(8, 10) == le(0, 2)
            &&& r.subrange(10, 12) == le(0x2800, 2)
            &&& r.subrange(12, 14) == le(0x5D30, 2)
            &&& r.subrange(14, 18) == le(crc32(m.data) as nat, 4)
            &&& r.subrange(18, 22) == le(m.data.len(), 4)
            &&& r.subrange(22, 26) == le(m.data.len(), 4)
            &&& r.subrange(26, 28) == le(n as nat, 2)
            &&& r.subrange(28, 30) == le(6, 2)
            &&& r.subrange(30, 30 + n) == encode_utf8(m.name)
            &&& r.subrange(30 + n, 32 + n) == le(0x5A53, 2)
            &&& r.subrange(32 + n, 34 + n) == le(2, 2)
            &&& r.subrange(34 + n, 36 + n) == le(m.mode as nat, 2)
            &&& r.subrange(36 + n, 36 + n + m.data.len()) == m.data
        }),
{
    let r = local_record(m);
    let n = encode_utf8(m.name).len() as int;
    let fields = common_fields(m);
    common_fields_at(m);
    assert(r.len() == 36 + n + m.data.len());
    assert(r.subrange(0, 4) =~= le(0x0403_4b50, 4));
    assert(r.subrange(4, 30) =~= fields);
    assert(r.subrange(4, 6) =~= fields.subrange(0, 2));
    assert(r.subrange(6, 8) =~= fields.subrange(2, 4));
    assert(r.subrange(8, 10) =~= fields.subrange(4, 6));
    assert(r.subrange(10, 12) =~= fields.subrange(6, 8));
    assert(r.subrange(12, 14) =~= fields.subrange(8, 10));
    assert(r.subrange(14, 18) =~= fields.subrange(10, 14));
    assert(r.subrange(18, 22) =~= fields.subrange(14, 18));
    assert(r.subrange(22, 26) =~= fields.subrange(18, 22));
    assert(r.subrange(26, 28) =~= fields.subrange(22, 24));
    assert(r.subrange(28, 30) =~= fields.subrange(24, 26));
    assert(r.subrange(30, 30 + n) =~= encode_utf8(m.name));
    assert(r.subrange(30 + n, 32 + n) =~= le(0x5A53, 2));
    assert(r.subrange(32 + n, 34 + n) =~= le(2, 2));
    assert(r.subrange(34 + n, 36 + n) =~= le(m.mode as nat, 2));
    assert(r.subrange(36 + n, 36 + n + m.data.len()) =~= m.data);
}

proof fn local_record_is_read(bytes: Seq<u8>, at: int, m: Member, r: Seq<u8>)
    requires
        r == local_record(m),
        0 <= at,
        at + r.len() <= bytes.len(),
        bytes.subrange(at, at + r.len()) == r,
    ensures
        holds_member(bytes, at, m.name, m.mode, m.data),
{
    let n = encode_utf8(m.name).len() as int;
    small_numbers(m.mode, crc32(m.data));
    local_record_fields(m);
    within(bytes, at, r, 0, 4);
    within(bytes, at, r, 4, 6);
    within(bytes, at, r, 6, 8);
    within(bytes, at, r, 8, 10);
    within(bytes, at, r, 10, 12);
    within(bytes, at, r, 12, 14);
    within(bytes, at, r, 14, 18);
    within(bytes, at, r, 18, 22);
    within(bytes, at, r, 22, 26);
    within(bytes, at, r, 26, 28);
    within(bytes, at, r, 28, 30);
    within(bytes, at, r, 30, 30 + n);
    within(bytes, at, r, 30 + n, 32 + n);
    within(bytes, at, r, 32 + n, 34 + n);
    within(bytes, at, r, 34 + n, 36 + n);
    within(bytes, at, r, 36 + n, 36 + n + m.data.len());
}

proof fn directory_entry_can_be_read_back(ms: Seq<Member>, i: int)
    requires
        0 <= i < ms.len(),
    ensures
        lists_member(
            archive(ms),
            (local_records(ms).len() + central_offset(ms, i)) as int,
            offset_of(ms, i),
            ms[i].name,
            ms[i].mode,
            ms[i].data,
        ),
{
    directory_lists_members(ms, i);
    central_record_is_read(
        archive(ms),
        (local_records(ms).len() + central_offset(ms, i)) as int,
        ms[i],
        offset_of(ms, i),
        central_record(ms[i], offset_of(ms, i)),
    );
}

proof fn central_record_is_read(bytes: Seq<u8>, at: int, m: Member, offset: nat, r: Seq<u8>)
    requires
        r == central_record(m, offset),
        0 <= at,
        at + r.len() <= bytes.len(),
        bytes.subrange(at, at + r.len()) == r,
    ensures
        lists_member(bytes, at, offset, m.name, m.mode, m.data),
{
    let n = encode_utf8(m.name).len() as int;
    small_numbers(m.mode, crc32(m.data));
    central_record_fields(m, offset);
    within(bytes, at, r, 0, 4);
    within(bytes, at, r, 4, 6);
    within(bytes, at, r, 6, 8);
    within(bytes, at, r, 8, 10);
    within(bytes, at, r, 10, 12);
    within(bytes, at, r, 12, 14);
    within(bytes, at, r, 14, 16);
    within(bytes, at, r, 32, 34);
    within(bytes, at, r, 34, 36);
    within(bytes, at, r, 36, 38);
    within(bytes, at, r, 16, 20);
    within(bytes, at, r, 20, 24);
    within(bytes, at, r, 24, 28);
    within(bytes, at, r, 28, 30);
    within(bytes, at, r, 30, 32);
    within(bytes, at, r, 38, 42);
    within(bytes, at, r, 42, 46);
    within(bytes, at, r, 46, 46 + n);
    within(bytes, at, r, 50 + n, 52 + n);
}

proof fn central_record_fields(m: Member, offset: nat)
    ensures
        ({
            let r = central_record(m, offset);
            let n = encode_utf8(m.name).len() as int;
            &&& r.len() == 52 + n
            &&& r.subrange(0, 4) == le(0x0201_4b50, 4)
            &&& r.subrange(4, 6) == le(0x0314, 2)
            &&& r.subrange(6, 8) == le(20, 2)
            &&& r.subrange(8, 10) == le(0, 2)
            &&& r.subrange(12, 14) == le(0x2800, 2)
            &&& r.subrange(14, 16) == le(0x5D30, 2)
            &&& r.subrange(32, 34) == le(0, 2)
            &&& r.subrange(34, 36) == le(0, 2)
            &&& r.subrange(36, 38) == le(0, 2)
            &&& r.subrange(10, 12) == le(0, 2)
            &&& r.subrange(16, 20) == le(crc32(m.data) as nat, 4)
            &&& r.subrange(20, 24) == le(m.data.len(), 4)
            &&& r.subrange(24, 28) == le(m.data.len(), 4)
            &&& r.subrange(28, 30) == le(n as nat, 2)
            &&& r.subrange(30, 32) == le(6, 2)
            &&& r.subrange(38, 42) == le(m.mode as nat * 0x1_0000, 4)
            &&& r.subrange(42, 46) == le(offset, 4)
            &&& r.subrange(46, 46 + n) == encode_utf8(m.name)
            &&& r.subrange(50 + n, 52 + n) == le(m.mode as nat, 2)
        }),
{
    let r = central_record(m, offset);
    let n = encode_utf8(m.name).len() as int;
    let fields = common_fields(m);
    common_fields_at(m);
    assert(r.len() == 52 + n);
    assert(r.subrange(0, 4) =~= le(0x0201_4b50, 4));
    assert(r.subrange(6, 32) =~= fields);
    assert(r.subrange(4, 6) =~= le(0x0314, 2));
    assert(r.subrange(6, 8) =~= fields.subrange(0, 2));
    assert(r.subrange(8, 10) =~= fields.subrange(2, 4));
    assert(r.subrange(12, 14) =~= fields.subrange(6, 8));
    assert(r.subrange(14, 16) =~= fields.subrange(8, 10));
    assert(r.subrange(32, 34) =~= le(0, 2));
    assert(r.subrange(34, 36) =~= le(0, 2));
    assert(r.subrange(36, 38) =~= le(0, 2));
    assert(r.subrange(10, 12) =~= fields.subrange(4, 6));
    assert(r.subrange(16, 20) =~= fields.subrange(10, 14));
    assert(r.subrange(20, 24) =~= fields.subrange(14, 18));
    assert(r.subrange(24, 28) =~= fields.subrange(18, 22));
    assert(r.subrange(28, 30) =~= fields.subrange(22, 24));
    assert(r.subrange(30, 32) =~= fields.subrange(24, 26));
    assert(r.subrange(38, 42) =~= le(m.mode as nat * 0x1_0000, 4));
    assert(r.subrange(42, 46) =~= le(offset, 4));
    assert(r.subrange(46, 46 + n) =~= encode_utf8(m.name));
    assert(r.subrange(50 + n, 52 + n) =~= le(m.mode as nat, 2));
}

/// The last 22 bytes of an archive say how many members it has, how long the
/// central directory is and where it begins: behind the local records, up to those
/// 22 bytes. Numbers that their fields cannot hold are cut to their low bytes.
pub proof fn the_end_tells_where_the_directory_is(ms: Seq<Member>)
    ensures
        ({
            let bytes = archive(ms);
            let end = bytes.len() - 22;
            let begin = local_records(ms).len() as int;
            &&& 0 <= begin <= end
            &&& le_value(bytes.subrange(end, end + 4)) == 0x0605_4b50
            &&& bytes.subrange(end + 8, end + 10) == le(ms.len(), 2)
            &&& bytes.subrange(end + 10, end + 12) == le(ms.len(), 2)
            &&& bytes.subrange(end + 12, end + 16) == le((end - begin) as nat, 4)
            &&& bytes.subrange(end + 16, end + 20) == le(begin as nat, 4)
            &&& le_value(bytes.subrange(end + 20, end + 22)) == 0
        }),
{
    capacities();
    le_round_trip(0x0605_4b50, 4);
    le_round_trip(0, 2);
    let bytes = archive(ms);
    let begin = local_records(ms).len();
    let length = central_directory(ms).len();
    let e = end_record(ms.len(), length, begin);
    let end = bytes.len() - 22;
    assert(e.len() == 22);
    assert(bytes.subrange(end, end + 22) =~= e);
    assert(bytes.subrange(end, end + 4) =~= le(0x0605_4b50, 4));
    assert(bytes.subrange(end + 8, end + 10) =~= le(ms.len(), 2));
    assert(bytes.subrange(end + 10, end + 12) =~= le(ms.len(), 2));
    assert(bytes.subrange(end + 12, end + 16) =~= le(length, 4));
    assert(bytes.subrange(end + 16, end + 20) =~= le(begin, 4));
    assert(bytes.subrange(end + 20, end + 22) =~= le(0, 2));
}

} // verus!
