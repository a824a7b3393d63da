//! The `newc` cpio archive format: a 110-byte ASCII header per entry, the
//! NUL-terminated name, padding to four bytes, the payload, padding to four
//! bytes; a `TRAILER!!!` entry ends the archive.
use vstd::prelude::*;
use vstd::arithmetic::div_mod::lemma_mod_breakdown;

verus! {

/// Largest value that a header field can hold.
pub const FIELD_MAX: u64 = 0xffff_ffff;

/// The six magic bytes `070701` that open each header.
pub open spec fn magic() -> Seq<u8> {
    seq![48u8, 55u8, 48u8, 55u8, 48u8, 49u8]
}

/// The reserved name `TRAILER!!!` of the entry that ends an archive.
pub open spec fn trailer_name() -> Seq<u8> {
    seq![84u8, 82u8, 65u8, 73u8, 76u8, 69u8, 82u8, 33u8, 33u8, 33u8]
}

/// Lower-case ASCII hex digit of a value below 16.
pub open spec fn hex_digit(d: nat) -> u8 {
    if d < 10 {
        (48 + d) as u8
    } else {
        (87 + d) as u8
    }
}

/// Value of one lower-case hex digit.
pub open spec fn digit_value(c: u8) -> nat {
    if 48 <= c <= 57 {
        (c - 48) as nat
    } else if 97 <= c <= 102 {
        (c - 87) as nat
    } else {
        0
    }
}

/// The `k` least significant hex digits of `n`, most significant first.
pub open spec fn hex_field(n: nat, k: nat) -> Seq<u8>
    decreases k,
{
    if k == 0 {
        seq![]
    } else {
        hex_field(n / 16, (k - 1) as nat).push(hex_digit(n % 16))
    }
}

/// Value of a string of hex digits, most significant first.
pub open spec fn hex_value(s: Seq<u8>) -> nat
    decreases s.len(),
{
    if s.len() == 0 {
        0
    } else {
        hex_value(s.drop_last()) * 16 + digit_value(s.last())
    }
}

pub open spec fn pow16(k: nat) -> nat
    decreases k,
{
    if k == 0 {
        1
    } else {
        16 * pow16((k - 1) as nat)
    }
}

/// An eight-digit header field.
pub open spec fn hex8(n: nat) -> Seq<u8> {
    hex_field(n, 8)
}

/// Zero bytes that bring a length of `n` up to a multiple of four.
pub open spec fn pad_len(n: nat) -> nat {
    if n % 4 == 0 {
        0
    } else {
        (4 - n % 4) as nat
    }
}

pub open spec fn zeros(n: nat) -> Seq<u8> {
    Seq::new(n, |i: int| 0u8)
}

/// The header: magic, then inode, mode, uid, gid, nlink, mtime, file size,
/// device major and minor, rdev major and minor, name size (with its NUL)
/// and checksum.
#[verifier::opaque]
pub open spec fn header(mode: nat, dev_major: nat, dev_minor: nat, file_size: nat, name_size: nat) -> Seq<u8> {
    magic() + hex8(0) + hex8(mode) + hex8(0) + hex8(0) + hex8(1) + hex8(0) + hex8(file_size)
        + hex8(dev_major) + hex8(dev_minor) + hex8(0) + hex8(0) + hex8(name_size) + hex8(0)
}

/// Header, NUL-terminated name and its padding.
pub open spec fn entry_head(name: Seq<u8>, mode: nat, dev_major: nat, dev_minor: nat, file_size: nat) -> Seq<u8> {
    let h = header(mode, dev_major, dev_minor, file_size, name.len() + 1) + name + seq![0u8];
    h + zeros(pad_len(h.len()))
}

/// All bytes of one entry.
pub open spec fn entry_bytes(name: Seq<u8>, mode: nat, dev_major: nat, dev_minor: nat, payload: Seq<u8>) -> Seq<u8> {
    entry_head(name, mode, dev_major, dev_minor, payload.len()) + payload + zeros(pad_len(payload.len()))
}

/// The entry that ends an archive.
pub open spec fn trailer_bytes() -> Seq<u8> {
    entry_bytes(trailer_name(), 0, 0, 0, seq![])
}

fn hex_digit_exec(d: u32) -> (r: u8)
    requires
        d < 16,
    ensures
        r == hex_digit(d as nat),
{
    if d < 10 {
        (48 + d) as u8
    } else {
        (87 + d) as u8
    }
}

/// Appends the `k` least significant hex digits of `n`.
fn push_hex(out: &mut Vec<u8>, n: u32, k: u32)
    ensures
        final(out)@ == old(out)@ + hex_field(n as nat, k as nat),
    decreases k,
{
    if k > 0 {
        push_hex(out, n / 16, k - 1);
        out.push(hex_digit_exec(n % 16));
        assert(final(out)@ =~= old(out)@ + hex_field(n as nat, k as nat));
    }
}

pub(crate) fn push_bytes(out: &mut Vec<u8>, s: &[u8])
    ensures
        final(out)@ == old(out)@ + s@,
{
    let ghost start = out@;
    let mut i: usize = 0;
    while i < s.len()
        invariant
            i <= s@.len(),
            out@ == start + s@.take(i as int),
        decreases s@.len() - i,
    {
        out.push(s[i]);
        i = i + 1;
        assert(out@ =~= start + s@.take(i as int));
    }
    assert(s@.take(i as int) =~= s@);
}

fn push_zeros(out: &mut Vec<u8>, n: usize)
    ensures
        final(out)@ == old(out)@ + zeros(n as nat),
{
    let ghost start = out@;
    let mut i: usize = 0;
    while i < n
        invariant
            i <= n,
            out@ == start + zeros(i as nat),
        decreases n - i,
    {
        out.push(0u8);
        i = i + 1;
        assert(out@ =~= start + zeros(i as nat));
    }
}

fn pad_len_exec(n: usize) -> (r: usize)
    ensures
        r == pad_len(n as nat),
{
    if n % 4 == 0 {
        0
    } else {
        4 - n % 4
    }
}

/// Appends one entry with the given name bytes, mode, device numbers and
/// payload.
pub fn write_entry(out: &mut Vec<u8>, name: &[u8], mode: u32, dev_major: u32, dev_minor: u32, payload: &[u8])
    requires
        name@.len() + 1 <= FIELD_MAX,
        payload@.len() <= FIELD_MAX,
    ensures
        final(out)@ == old(out)@ + entry_bytes(name@, mode as nat, dev_major as nat, dev_minor as nat, payload@),
{
    let ghost start = out@;
    let mut head: Vec<u8> = Vec::new();
    head.push(48u8);
    head.push(55u8);
    head.push(48u8);
    head.push(55u8);
    head.push(48u8);
    head.push(49u8);
    let file_size = payload.len() as u32;
    let name_size = (name.len() + 1) as u32;
    push_hex(&mut head, 0, 8);
    push_hex(&mut head, mode, 8);
    push_hex(&mut head, 0, 8);
    push_hex(&mut head, 0, 8);
    push_hex(&mut head, 1, 8);
    push_hex(&mut head, 0, 8);
    push_hex(&mut head, file_size, 8);
    push_hex(&mut head, dev_major, 8);
    push_hex(&mut head, dev_minor, 8);
    push_hex(&mut head, 0, 8);
    push_hex(&mut head, 0, 8);
    push_hex(&mut head, name_size, 8);
    push_hex(&mut head, 0, 8);
    reveal(header);
    assert(head@ =~= header(mode as nat, dev_major as nat, dev_minor as nat, payload@.len(), name@.len() + 1));
    push_bytes(&mut head, name);
    head.push(0u8);
    let head_pad = pad_len_exec(head.len());
    push_zeros(&mut head, head_pad);
    assert(head@ =~= entry_head(name@, mode as nat, dev_major as nat, dev_minor as nat, payload@.len()));
    push_bytes(out, head.as_slice());
    push_bytes(out, payload);
    let data_pad = pad_len_exec(payload.len());
    push_zeros(out, data_pad);
    assert(out@ =~= start + entry_bytes(name@, mode as nat, dev_major as nat, dev_minor as nat, payload@));
}

/// A decoded entry: name bytes, mode, payload.
pub type Record = (Seq<u8>, nat, Seq<u8>);

/// Reads the entries of an archive that starts at the beginning of `b`, up
/// to the trailer, which must end `b`. `None` for bytes that are not such an
/// archive.
pub open spec fn read_archive(b: Seq<u8>) -> Option<Seq<Record>>
    decreases b.len(),
{
    if b.len() < 110 || b.subrange(0, 6) != magic() {
        None
    } else {
        let mode = hex_value(b.subrange(14, 22));
        let size = hex_value(b.subrange(54, 62));
        let name_size = hex_value(b.subrange(94, 102));
        let data_start = 110 + name_size + pad_len(110 + name_size);
        let next = data_start + size + pad_len(size);
        if name_size == 0 || next > b.len() {
            None
        } else {
            let name = b.subrange(110, 110 + name_size - 1);
            if name == trailer_name() {
                if next == b.len() {
                    Some(seq![])
                } else {
                    None
                }
            } else {
                match read_archive(b.subrange(next as int, b.len() as int)) {
                    Some(rest) => Some(seq![(name, mode, b.subrange(data_start as int, (data_start + size) as int))] + rest),
                    None => None,
                }
            }
        }
    }
}

proof fn lemma_hex_field(n: nat, k: nat)
    ensures
        hex_field(n, k).len() == k,
        hex_value(hex_field(n, k)) == n % pow16(k),
        pow16(k) > 0,
    decreases k,
{
    if k > 0 {
        lemma_hex_field(n / 16, (k - 1) as nat);
        let s = hex_field(n, k);
        assert(s.drop_last() =~= hex_field(n / 16, (k - 1) as nat));
        assert(digit_value(hex_digit(n % 16)) == n % 16);
        lemma_mod_breakdown(n as int, 16, pow16((k - 1) as nat) as int);
    }
}

/// A header field holds back any value below 2^32.
pub proof fn lemma_hex8_value(n: nat)
    requires
        n <= FIELD_MAX,
    ensures
        hex8(n).len() == 8,
        hex_value(hex8(n)) == n,
{
    lemma_hex_field(n, 8);
    reveal_with_fuel(pow16, 9);
    assert(pow16(8) == 0x1_0000_0000);
}

proof fn lemma_pad(n: nat)
    ensures
        (n + pad_len(n)) % 4 == 0,
        pad_len(n) < 4,
{
}

/// Each entry takes a multiple of four bytes, its header 110 of them.
pub proof fn lemma_entry_len(name: Seq<u8>, mode: nat, dev_major: nat, dev_minor: nat, payload: Seq<u8>)
    requires
        mode <= FIELD_MAX,
        dev_major <= FIELD_MAX,
        dev_minor <= FIELD_MAX,
        name.len() + 1 <= FIELD_MAX,
        payload.len() <= FIELD_MAX,
    ensures
        header(mode, dev_major, dev_minor, payload.len(), name.len() + 1).len() == 110,
        entry_head(name, mode, dev_major, dev_minor, payload.len()).len() == 110 + name.len() + 1 + pad_len(
            110 + name.len() + 1,
        ),
        entry_bytes(name, mode, dev_major, dev_minor, payload).len() % 4 == 0,
{
    lemma_hex8_value(0);
    lemma_hex8_value(1);
    lemma_hex8_value(mode);
    lemma_hex8_value(dev_major);
    lemma_hex8_value(dev_minor);
    lemma_hex8_value(payload.len());
    lemma_hex8_value(name.len() + 1);
    lemma_pad(110 + name.len() + 1);
    lemma_pad(payload.len());
    reveal(header);
}

proof fn lemma_sub_prefix(a: Seq<u8>, c: Seq<u8>, x: int, y: int)
    requires
        0 <= x <= y <= a.len(),
    ensures
        (a + c).subrange(x, y) == a.subrange(x, y),
{
    assert((a + c).subrange(x, y) =~= a.subrange(x, y));
}

proof fn lemma_sub_suffix(a: Seq<u8>, c: Seq<u8>, x: int, y: int)
    requires
        0 <= x <= y <= c.len(),
    ensures
        (a + c).subrange(a.len() + x, a.len() + y) == c.subrange(x, y),
{
    assert((a + c).subrange(a.len() + x, a.len() + y) =~= c.subrange(x, y));
}

proof fn lemma_header_fields(mode: nat, dev_major: nat, dev_minor: nat, file_size: nat, name_size: nat)
    requires
        mode <= FIELD_MAX,
        dev_major <= FIELD_MAX,
        dev_minor <= FIELD_MAX,
        file_size <= FIELD_MAX,
        name_size <= FIELD_MAX,
    ensures
        ({
            let h = header(mode, dev_major, dev_minor, file_size, name_size);
            &&& h.len() == 110
            &&& h.subrange(0, 6) == magic()
            &&& h.subrange(14, 22) == hex8(mode)
            &&& h.subrange(54, 62) == hex8(file_size)
            &&& h.subrange(94, 102) == hex8(name_size)
        }),
{
    lemma_hex8_value(0);
    lemma_hex8_value(1);
    lemma_hex8_value(mode);
    lemma_hex8_value(dev_major);
    lemma_hex8_value(dev_minor);
    lemma_hex8_value(file_size);
    lemma_hex8_value(name_size);
    reveal(header);
    let h = header(mode, dev_major, dev_minor, file_size, name_size);
    assert(h.subrange(0, 6) =~= magic());
    assert(h.subrange(14, 22) =~= hex8(mode));
    assert(h.subrange(54, 62) =~= hex8(file_size));
    assert(h.subrange(94, 102) =~= hex8(name_size));
}

/// Reading an entry followed by `rest` gives the entry's record, then what
/// `rest` reads as.
pub proof fn lemma_read_entry(name: Seq<u8>, mode: nat, dev_major: nat, dev_minor: nat, payload: Seq<u8>, rest: Seq<u8>)
    requires
        mode <= FIELD_MAX,
        dev_major <= FIELD_MAX,
        dev_minor <= FIELD_MAX,
        name.len() + 1 <= FIELD_MAX,
        payload.len() <= FIELD_MAX,
    ensures
        name != trailer_name() ==> read_archive(entry_bytes(name, mode, dev_major, dev_minor, payload) + rest) == match read_archive(rest) {
            Some(r) => Some(seq![(name, mode, payload)] + r),
            None => None::<Seq<Record>>,
        },
        name == trailer_name() ==> (read_archive(entry_bytes(name, mode, dev_major, dev_minor, payload) + rest) == Some(Seq::<Record>::empty())
            <==> rest.len() == 0),
{
    lemma_entry_len(name, mode, dev_major, dev_minor, payload);
    lemma_header_fields(mode, dev_major, dev_minor, payload.len(), name.len() + 1);
    lemma_hex8_value(mode);
    lemma_hex8_value(payload.len());
    lemma_hex8_value(name.len() + 1);
    let h = header(mode, dev_major, dev_minor, payload.len(), name.len() + 1);
    let hn = h + name;
    let hn0 = hn + seq![0u8];
    let head = entry_head(name, mode, dev_major, dev_minor, payload.len());
    let p1 = zeros(pad_len(hn0.len()));
    assert(head == hn0 + p1);
    let hp = head + payload;
    let e = entry_bytes(name, mode, dev_major, dev_minor, payload);
    let p2 = zeros(pad_len(payload.len()));
    assert(e == hp + p2);
    let b = e + rest;
    assert forall|x: int, y: int| 0 <= x <= y <= 110 implies #[trigger] b.subrange(x, y) == h.subrange(x, y) by {
        lemma_sub_prefix(e, rest, x, y);
        lemma_sub_prefix(hp, p2, x, y);
        lemma_sub_prefix(head, payload, x, y);
        lemma_sub_prefix(hn0, p1, x, y);
        lemma_sub_prefix(hn, seq![0u8], x, y);
        lemma_sub_prefix(h, name, x, y);
    }
    assert(b.subrange(0, 6) == h.subrange(0, 6));
    assert(b.subrange(14, 22) == h.subrange(14, 22));
    assert(b.subrange(54, 62) == h.subrange(54, 62));
    assert(b.subrange(94, 102) == h.subrange(94, 102));
    let data_start: int = (110 + name.len() + 1 + pad_len(110 + name.len() + 1)) as int;
    let next: int = data_start + payload.len() + pad_len(payload.len()) as int;
    let nl: int = name.len() as int;
    assert(e.len() == next);
    lemma_sub_prefix(e, rest, 110, 110 + nl);
    lemma_sub_prefix(hp, p2, 110, 110 + nl);
    lemma_sub_prefix(head, payload, 110, 110 + nl);
    lemma_sub_prefix(hn0, p1, 110, 110 + nl);
    lemma_sub_prefix(hn, seq![0u8], 110, 110 + nl);
    lemma_sub_suffix(h, name, 0, name.len() as int);
    assert(name.subrange(0, name.len() as int) =~= name);
    assert(b.subrange(110, 110 + name.len() as int) == name);
    lemma_sub_prefix(e, rest, data_start, data_start + payload.len());
    lemma_sub_prefix(hp, p2, data_start, data_start + payload.len());
    lemma_sub_suffix(head, payload, 0, payload.len() as int);
    assert(payload.subrange(0, payload.len() as int) =~= payload);
    assert(b.subrange(data_start, data_start + payload.len()) == payload);
    lemma_sub_suffix(e, rest, 0, rest.len() as int);
    assert(rest.subrange(0, rest.len() as int) =~= rest);
    assert(b.subrange(next, b.len() as int) == rest);
}

/// The trailer alone reads as an archive with no entries.
pub proof fn lemma_read_trailer()
    ensures
        read_archive(trailer_bytes()) == Some(Seq::<Record>::empty()),
{
    lemma_read_entry(trailer_name(), 0, 0, 0, seq![], seq![]);
    assert(trailer_bytes() + Seq::<u8>::empty() =~= trailer_bytes());
}

} // verus!
