//! Deterministic unsigned APK assembly: stored, four-byte aligned ZIP entries.
use vstd::prelude::*;
use vstd::slice::slice_subrange;
use vstd::string::StringSliceAdditionalSpecFns;
use vstd::utf8::is_ascii_chars;
use crate::encoding::{ByteWriter, le16, le32, zeros};

verus! {

/// A ZIP format failure.
#[derive(Debug, PartialEq, Eq)]
pub struct ZipError(pub &'static str);

/// Little-endian `u16` stored at `o`.
pub open spec fn le16_at(b: Seq<u8>, o: int) -> u16 {
    (b[o] + 256 * b[o + 1]) as u16
}

/// Little-endian `u32` stored at `o`.
pub open spec fn le32_at(b: Seq<u8>, o: int) -> u32 {
    (b[o] + 256 * b[o + 1] + 65536 * b[o + 2] + 16777216 * b[o + 3]) as u32
}

/// An end-of-central-directory record at `at` whose comment reaches the end of `b`.
pub open spec fn eocd_at(b: Seq<u8>, at: int) -> bool {
    &&& 0 <= at
    &&& at + 22 <= b.len()
    &&& le32_at(b, at) == 0x0605_4b50
    &&& at + 22 + le16_at(b, at + 20) == b.len()
}

/// `at` is the last end record of `b`.
pub open spec fn last_eocd(b: Seq<u8>, at: int) -> bool {
    eocd_at(b, at) && forall|a: int| at < a ==> !#[trigger] eocd_at(b, a)
}

/// Entry count of an archive whose end record closes it without a comment.
pub open spec fn entry_count(b: Seq<u8>) -> u16 {
    le16_at(b, b.len() - 12)
}

/// An archive without a comment: its last end record takes its last 22 bytes.
pub open spec fn closed_zip(b: Seq<u8>) -> bool {
    b.len() >= 22 && last_eocd(b, b.len() - 22)
}

/// The empty archive: a bare end record.
pub open spec fn empty_zip() -> Seq<u8> {
    seq![0x50u8, 0x4b, 0x05, 0x06] + zeros(18)
}

pub proof fn le16_roundtrip(v: u16)
    ensures
        le16_at(le16(v), 0) == v,
{
    assert(le16(v)[0] + 256 * le16(v)[1] == v);
}

pub proof fn le32_roundtrip(v: u32)
    ensures
        le32_at(le32(v), 0) == v,
{
    let b = le32(v);
    assert(b[0] + 256 * b[1] + 65536 * b[2] + 16777216 * b[3] == v) by (nonlinear_arith)
        requires
            b[0] == v % 256,
            b[1] == (v / 256) % 256,
            b[2] == (v / 65536) % 256,
            b[3] == v / 16777216,
    ;
}

/// Reads a little-endian `u16`.
pub fn u16_at(bytes: &[u8], offset: usize) -> (r: Result<u16, ZipError>)
    ensures
        offset + 2 <= bytes@.len() ==> r == Ok::<u16, ZipError>(le16_at(bytes@, offset as int)),
        offset + 2 > bytes@.len() ==> r == Err::<u16, ZipError>(ZipError("Truncated ZIP")),
{
    if offset > bytes.len() || bytes.len() - offset < 2 {
        return Err(ZipError("Truncated ZIP"));
    }
    Ok((bytes[offset] as u16) + 256 * (bytes[offset + 1] as u16))
}

/// Reads a little-endian `u32`.
pub fn u32_at(bytes: &[u8], offset: usize) -> (r: Result<u32, ZipError>)
    ensures
        offset + 4 <= bytes@.len() ==> r == Ok::<u32, ZipError>(le32_at(bytes@, offset as int)),
        offset + 4 > bytes@.len() ==> r == Err::<u32, ZipError>(ZipError("Truncated ZIP")),
{
    if offset > bytes.len() || bytes.len() - offset < 4 {
        return Err(ZipError("Truncated ZIP"));
    }
    Ok((bytes[offset] as u32) + 256 * (bytes[offset + 1] as u32) + 65536 * (bytes[offset + 2] as u32)
        + 16777216 * (bytes[offset + 3] as u32))
}

/// One bit step of the reflected CRC-32 (polynomial `0xEDB88320`).
pub open spec fn crc_step(c: u32) -> u32 {
    (c >> 1u32) ^ (0xedb8_8320u32 & 0u32.wrapping_sub(c & 1u32))
}

/// `k` bit steps.
pub open spec fn crc_steps(c: u32, k: nat) -> u32
    decreases k,
{
    if k == 0 {
        c
    } else {
        crc_step(crc_steps(c, (k - 1) as nat))
    }
}

/// The CRC register after feeding `s`.
pub open spec fn crc_update(c: u32, s: Seq<u8>) -> u32
    decreases s.len(),
{
    if s.len() == 0 {
        c
    } else {
        crc_steps(crc_update(c, s.drop_last()) ^ (s.last() as u32), 8)
    }
}

/// The ZIP CRC-32 of a byte sequence.
pub open spec fn spec_crc32(s: Seq<u8>) -> u32 {
    !crc_update(0xffff_ffffu32, s)
}

/// The ZIP CRC-32 of a byte slice.
pub fn crc32(data: &[u8]) -> (r: u32)
    ensures
        r == spec_crc32(data@),
{
    let mut crc: u32 = 0xffff_ffff;
    let mut i: usize = 0;
    while i < data.len()
        invariant
            i <= data@.len(),
            crc == crc_update(0xffff_ffffu32, data@.take(i as int)),
        decreases data@.len() - i,
    {
        assert(data@.take(i + 1).drop_last() =~= data@.take(i as int));
        let start = crc ^ (data[i] as u32);
        crc = start;
        let mut k: u32 = 0;
        while k < 8
            invariant
                k <= 8,
                crc == crc_steps(start, k as nat),
            decreases 8 - k,
        {
            crc = (crc >> 1u32) ^ (0xedb8_8320u32 & 0u32.wrapping_sub(crc & 1u32));
            k = k + 1;
        }
        i = i + 1;
    }
    assert(data@.take(i as int) =~= data@);
    !crc
}

/// Whether an end record starts at `at`.
fn is_eocd(base: &[u8], at: usize) -> (r: bool)
    requires
        at + 22 <= base@.len(),
    ensures
        r == eocd_at(base@, at as int),
{
    let len = base.len();
    let sig = u32_at(base, at);
    let n = u16_at(base, at + 20);
    match (sig, n) {
        (Ok(s), Ok(n)) => s == 0x0605_4b50 && (n as usize) == len - 22 - at,
        _ => false,
    }
}

/// Finds the last end record.
fn find_eocd(base: &[u8]) -> (r: Option<usize>)
    ensures
        r matches Some(at) ==> last_eocd(base@, at as int),
        r is None ==> forall|a: int| !#[trigger] eocd_at(base@, a),
{
    let len = base.len();
    if len < 22 {
        return None;
    }
    let lo: usize = if len > 65557 { len - 65557 } else { 0 };
    let mut at: usize = len - 21;
    while at > lo
        invariant
            lo <= at <= len - 21,
            len == base@.len(),
            lo == (if len > 65557 { len - 65557 } else { 0 }),
            forall|a: int| at <= a ==> !#[trigger] eocd_at(base@, a),
        decreases at,
    {
        at = at - 1;
        if is_eocd(base, at) {
            return Some(at);
        }
    }
    proof {
        assert forall|a: int| !#[trigger] eocd_at(base@, a) by {
            if eocd_at(base@, a) && a < at {
                assert(le16_at(base@, a + 20) <= 65535);
            }
        }
    }
    None
}

/// End of the central directory entry at `c`.
pub open spec fn entry_end(b: Seq<u8>, c: int) -> int {
    c + 46 + le16_at(b, c + 28) + le16_at(b, c + 30) + le16_at(b, c + 32)
}

/// Name of the central directory entry at `c`.
pub open spec fn entry_name(b: Seq<u8>, c: int) -> Seq<u8> {
    b.subrange(c + 46, c + 46 + le16_at(b, c + 28))
}

/// Start of the `k`-th central directory entry when the directory starts at `co`.
pub open spec fn entry_start(b: Seq<u8>, co: int, k: nat) -> int
    decreases k,
{
    if k == 0 {
        co
    } else {
        entry_end(b, entry_start(b, co, (k - 1) as nat))
    }
}

/// `out` is `base` with a stored entry `nm` holding `d` appended: earlier entries keep
/// their bytes, the new data starts on a four-byte boundary, and the archive stays closed.
pub open spec fn injected(base: Seq<u8>, nm: Seq<u8>, d: Seq<u8>, out: Seq<u8>) -> bool {
    exists|at: int| #![trigger last_eocd(base, at)] last_eocd(base, at) && {
        let entries = le16_at(base, at + 10);
        let co = le32_at(base, at + 16) as int;
        let start = co + 30 + nm.len() + le16_at(out, co + 28);
        &&& entries + 1 < 65535
        &&& co + le32_at(base, at + 12) == at
        &&& entry_start(base, co, entries as nat) == at
        &&& forall|k: nat| k < entries ==> entry_name(base, #[trigger] entry_start(base, co, k)) != nm
        &&& out.take(co) == base.take(co)
        &&& out.subrange(co, co + 4) == le32(0x0403_4b50)
        &&& out.subrange(co + 14, co + 18) == le32(spec_crc32(d))
        &&& out.subrange(co + 26, co + 28) == le16(nm.len() as u16)
        &&& out.subrange(co + 30, co + 30 + nm.len()) == nm
        &&& start % 4 == 0
        &&& out.subrange(start, start + d.len()) == d
        &&& closed_zip(out)
        &&& entry_count(out) == entries + 1
    }
}

proof fn last_eocd_unique(b: Seq<u8>, x: int, y: int)
    requires
        last_eocd(b, x),
        last_eocd(b, y),
    ensures
        x == y,
{
    if x < y {
        assert(!eocd_at(b, y));
    } else if y < x {
        assert(!eocd_at(b, x));
    }
}

/// The local header, name, alignment field and data of a stored entry.
#[verifier::rlimit(40)]
#[verifier::spinoff_prover]
fn local_entry(name: &[u8], data: &[u8], crc: u32, size: u32, name_len: u16, at: u64) -> (r: ByteWriter)
    requires
        name@.len() == name_len,
        data@.len() == size,
    ensures
        r@.subrange(0, 4) == le32(0x0403_4b50),
        r@.subrange(14, 18) == le32(crc),
        r@.subrange(26, 28) == le16(name_len),
        r@.subrange(30, 30 + name@.len() as int) == name@,
        (at + 30 + name@.len() + le16_at(r@, 28)) % 4 == 0,
        r@.len() == 30 + name@.len() + le16_at(r@, 28) + data@.len(),
        r@.skip(30 + name@.len() + le16_at(r@, 28)) == data@,
        le16_at(r@, 28) == align_extra(at as int, name_len as int),
{
    let pad = ((4 - (at % 4 + 30 % 4 + (name_len as u64) % 4) % 4) % 4) as u16;
    let extra: u16 = if pad == 0 { 0 } else { pad + 4 };
    let mut r = ByteWriter::new();
    r.write_u32(0x0403_4b50);
    r.write_u16(20);
    r.write_u16(0);
    r.write_u16(0);
    r.write_u16(0);
    r.write_u16(0x21);
    r.write_u32(crc);
    r.write_u32(size);
    r.write_u32(size);
    r.write_u16(name_len);
    r.write_u16(extra);
    let ghost fixed = r@;
    proof {
        le16_roundtrip(extra);
        assert(fixed.subrange(28, 30) =~= le16(extra));
    }
    r.write_bytes(name);
    if extra != 0 {
        r.write_u16(0xa1c0);
        r.write_u16(pad);
        let mut k: u16 = 0;
        while k < pad
            invariant
                k <= pad,
                r@.len() == 30 + name@.len() + 4 + k,
                r@.take(30 + name@.len() as int) == fixed + name@,
            decreases pad - k,
        {
            r.write_u8(0);
            assert(r@.take(30 + name@.len() as int) =~= fixed + name@);
            k = k + 1;
        }
    }
    let ghost head = r@;
    assert(head.take(30 + name@.len() as int) =~= fixed + name@);
    assert((fixed + name@).subrange(30, 30 + name@.len() as int) =~= name@);
    assert(head.subrange(30, 30 + name@.len() as int) =~= name@);
    assert(head.take(30) =~= fixed);
    assert(le16_at(head, 28) == le16_at(fixed, 28));
    r.write_bytes(data);
    assert(r@.take(head.len() as int) =~= head);
    assert(r@.subrange(0, 4) =~= fixed.subrange(0, 4));
    assert(r@.subrange(14, 18) =~= fixed.subrange(14, 18));
    assert(r@.subrange(26, 28) =~= fixed.subrange(26, 28));
    assert(r@.subrange(30, 30 + name@.len() as int) =~= name@);
    assert(r@.skip(head.len() as int) =~= data@);
    assert(fixed.subrange(0, 4) =~= le32(0x0403_4b50));
    assert(fixed.subrange(14, 18) =~= le32(crc));
    assert(fixed.subrange(26, 28) =~= le16(name_len));
    r
}

/// The central directory entry of a stored entry at `local`.
fn central_entry(name: &[u8], crc: u32, size: u32, name_len: u16, local: u32) -> (r: ByteWriter)
    requires
        name@.len() == name_len,
    ensures
        r@.len() == 46 + name@.len(),
        le32_at(r@, 0) == 0x0201_4b50,
        le16_at(r@, 28) == name_len,
        le16_at(r@, 30) == 0,
        le16_at(r@, 32) == 0,
        r@.subrange(46, 46 + name@.len() as int) == name@,
{
    let mut r = ByteWriter::new();
    r.write_u32(0x0201_4b50);
    r.write_u16(20);
    r.write_u16(20);
    r.write_u16(0);
    r.write_u16(0);
    r.write_u16(0);
    r.write_u16(0x21);
    r.write_u32(crc);
    r.write_u32(size);
    r.write_u32(size);
    r.write_u16(name_len);
    r.write_u16(0);
    r.write_u16(0);
    r.write_u16(0);
    r.write_u16(0);
    r.write_u32(0);
    r.write_u32(local);
    let ghost fixed = r@;
    r.write_bytes(name);
    proof {
        le32_roundtrip(0x0201_4b50);
        le16_roundtrip(name_len);
        le16_roundtrip(0);
        assert(r@.take(46) =~= fixed);
        assert(fixed.subrange(0, 4) =~= le32(0x0201_4b50));
        assert(fixed.subrange(28, 30) =~= le16(name_len));
        assert(fixed.subrange(30, 32) =~= le16(0));
        assert(fixed.subrange(32, 34) =~= le16(0));
        assert(le32_at(r@, 0) == le32_at(fixed.subrange(0, 4), 0));
        assert(le16_at(r@, 28) == le16_at(fixed.subrange(28, 30), 0));
        assert(le16_at(r@, 30) == le16_at(fixed.subrange(30, 32), 0));
        assert(le16_at(r@, 32) == le16_at(fixed.subrange(32, 34), 0));
        assert(r@.subrange(46, 46 + name@.len() as int) =~= name@);
    }
    r
}

/// The end record of an archive with `count` entries.
fn end_record(count: u16, size: u32, offset: u32) -> (r: ByteWriter)
    ensures
        r@.len() == 22,
        eocd_at(r@, 0),
        le16_at(r@, 10) == count,
        le16_at(r@, 4) == 0,
        le16_at(r@, 6) == 0,
        le16_at(r@, 8) == count,
        le32_at(r@, 12) == size,
        le32_at(r@, 16) == offset,
{
    let mut r = ByteWriter::new();
    r.write_u32(0x0605_4b50);
    r.write_u32(0);
    r.write_u16(count);
    r.write_u16(count);
    r.write_u32(size);
    r.write_u32(offset);
    r.write_u16(0);
    proof {
        le32_roundtrip(0x0605_4b50);
        le16_roundtrip(count);
        le16_roundtrip(0);
        le32_roundtrip(0);
        le32_roundtrip(size);
        le32_roundtrip(offset);
        assert(r@.subrange(0, 4) =~= le32(0x0605_4b50));
        assert(r@.subrange(10, 12) =~= le16(count));
        assert(r@.subrange(20, 22) =~= le16(0));
        assert(le32_at(r@, 0) == le32_at(r@.subrange(0, 4), 0));
        assert(le16_at(r@, 10) == le16_at(r@.subrange(10, 12), 0));
        assert(le16_at(r@, 20) == le16_at(r@.subrange(20, 22), 0));
        assert(r@.subrange(4, 8) =~= le32(0));
        assert(le16_at(r@, 4) == 0 && le16_at(r@, 6) == 0);
        assert(r@.subrange(8, 10) =~= le16(count));
        assert(le16_at(r@, 8) == le16_at(r@.subrange(8, 10), 0));
        assert(r@.subrange(12, 16) =~= le32(size));
        assert(le32_at(r@, 12) == le32_at(r@.subrange(12, 16), 0));
        assert(r@.subrange(16, 20) =~= le32(offset));
        assert(le32_at(r@, 16) == le32_at(r@.subrange(16, 20), 0));
    }
    r
}

/// The central directory from `co` holds `entries` well-formed entries that end exactly at
/// the end record `eocd`, none of them named `nm`.
pub open spec fn directory_ok(base: Seq<u8>, co: int, eocd: int, entries: u16, nm: Seq<u8>) -> bool {
    &&& entry_start(base, co, entries as nat) == eocd
    &&& forall|k: nat| k < entries ==> entry_start(base, co, k) <= entry_end(base, entry_start(base, co, k)) <= eocd
        && entry_name(base, #[trigger] entry_start(base, co, k)) != nm && le32_at(base, entry_start(base, co, k))
        == 0x0201_4b50
}

/// The extra-field length that puts a stored entry's data, after its local header at `co`
/// and a name of `nlen` bytes, on a four-byte boundary.
pub open spec fn align_extra(co: int, nlen: int) -> int {
    let pad = (4 - (co % 4 + 2 + nlen % 4) % 4) % 4;
    if pad == 0 { 0 } else { pad + 4 }
}

/// With its last end record at `at`, `base` takes a stored entry named `nm` of `dlen` bytes:
/// a single-disk archive with room for one more entry, a central directory that ends at the
/// end record and does not hold `nm`, and offsets that stay within 32 bits.
#[verifier::opaque]
pub open spec fn accepts_at(base: Seq<u8>, nm: Seq<u8>, dlen: int, at: int) -> bool {
    let entries = le16_at(base, at + 10);
    let co = le32_at(base, at + 16) as int;
    &&& entries < 65534
    &&& le16_at(base, at + 4) == 0
    &&& le16_at(base, at + 6) == 0
    &&& le16_at(base, at + 8) == entries
    &&& co <= at
    &&& at - co == le32_at(base, at + 12)
    &&& directory_ok(base, co, at, entries, nm)
    &&& dlen <= 0xffff_ffff
    &&& nm.len() <= 0xffff
    &&& at + 30 + nm.len() + align_extra(co, nm.len() as int) + dlen + 46 + nm.len() <= 0xffff_ffff
}

/// `base` takes a stored entry named `nm` of `dlen` bytes.
pub open spec fn accepts(base: Seq<u8>, nm: Seq<u8>, dlen: int) -> bool {
    exists|at: int| #![trigger last_eocd(base, at)] last_eocd(base, at) && accepts_at(base, nm, dlen, at)
}

proof fn accepts_by_last(base: Seq<u8>, nm: Seq<u8>, dlen: int, at: int)
    requires
        last_eocd(base, at),
    ensures
        accepts(base, nm, dlen) == accepts_at(base, nm, dlen, at),
{
    if accepts(base, nm, dlen) {
        let w = choose|w: int| #![trigger last_eocd(base, w)] last_eocd(base, w) && accepts_at(base, nm, dlen, w);
        last_eocd_unique(base, w, at);
    }
}

/// Walks the central directory from `co`, refusing an entry named `name`.
fn check_directory(base: &[u8], co: usize, eocd: usize, entries: u16, name: &[u8]) -> (r: Result<(), ZipError>)
    requires
        co <= eocd,
        eocd + 22 <= base@.len(),
    ensures
        r is Ok <==> directory_ok(base@, co as int, eocd as int, entries, name@),
{
    let mut cursor = co;
    let mut k: u16 = 0;
    while k < entries
        invariant
            k <= entries,
            co <= cursor <= eocd,
            eocd + 22 <= base@.len(),
            cursor == entry_start(base@, co as int, k as nat),
            forall|j: nat| j < k ==> entry_start(base@, co as int, j) <= entry_end(base@, entry_start(base@, co as int, j))
                <= eocd && entry_name(base@, #[trigger] entry_start(base@, co as int, j)) != name@ && le32_at(
                base@,
                entry_start(base@, co as int, j),
            ) == 0x0201_4b50,
        decreases entries - k,
    {
        if u32_at(base, cursor)? != 0x0201_4b50 {
            return Err(ZipError("Invalid ZIP entry"));
        }
        if cursor > usize::MAX - 34 {
            return Err(ZipError("Truncated ZIP"));
        }
        let len = u16_at(base, cursor + 28)? as usize;
        let extra = u16_at(base, cursor + 30)? as usize;
        let comment = u16_at(base, cursor + 32)? as usize;
        if cursor > usize::MAX - (46 + len + extra + comment) {
            return Err(ZipError("ZIP overflow"));
        }
        let end = cursor + 46 + len + extra + comment;
        if end > eocd {
            return Err(ZipError("Truncated ZIP entry"));
        }
        let stored = slice_subrange(base, cursor + 46, cursor + 46 + len);
        if bytes_equal(stored, name) {
            return Err(ZipError("Duplicate ZIP entry"));
        }
        cursor = end;
        k = k + 1;
    }
    if cursor != eocd {
        return Err(ZipError("ZIP entry count mismatch"));
    }
    Ok(())
}

fn bytes_equal(a: &[u8], b: &[u8]) -> (r: bool)
    ensures
        r == (a@ == b@),
{
    if a.len() != b.len() {
        return false;
    }
    let mut i: usize = 0;
    while i < a.len()
        invariant
            a@.len() == b@.len(),
            i <= a@.len(),
            a@.take(i as int) == b@.take(i as int),
        decreases a@.len() - i,
    {
        if a[i] != b[i] {
            return false;
        }
        assert(a@.take(i + 1) =~= a@.take(i as int).push(a@[i as int]));
        assert(b@.take(i + 1) =~= b@.take(i as int).push(b@[i as int]));
        i = i + 1;
    }
    assert(a@.take(i as int) =~= a@);
    assert(b@.take(i as int) =~= b@);
    true
}

/// The names of the `n` central directory entries from `co`, in order.
pub open spec fn directory_names(b: Seq<u8>, co: int, n: nat) -> Seq<Seq<u8>> {
    Seq::new(n, |k: int| entry_name(b, entry_start(b, co, k as nat)))
}

/// `b` is an archive as this library writes them: closed by a single-disk end record whose
/// central directory walks entry by entry up to that record.
pub open spec fn simple_zip(b: Seq<u8>) -> bool {
    let at = b.len() - 22;
    let n = le16_at(b, at + 10);
    let co = le32_at(b, at + 16) as int;
    &&& closed_zip(b)
    &&& le16_at(b, at + 4) == 0
    &&& le16_at(b, at + 6) == 0
    &&& le16_at(b, at + 8) == n
    &&& co <= at
    &&& at - co == le32_at(b, at + 12)
    &&& entry_start(b, co, n as nat) == at
    &&& forall|k: nat| k < n ==> entry_start(b, co, k) <= entry_end(b, entry_start(b, co, k)) <= at && le32_at(
        b,
        #[trigger] entry_start(b, co, k),
    ) == 0x0201_4b50
}

/// The entry names of an archive as this library writes them, in order.
pub open spec fn zip_names(b: Seq<u8>) -> Seq<Seq<u8>> {
    directory_names(b, le32_at(b, b.len() - 22 + 16) as int, le16_at(b, b.len() - 22 + 10) as nat)
}

/// The walk of a directory moved by `shift` bytes finds the same entries, moved.
proof fn moved_walk(base: Seq<u8>, out: Seq<u8>, co: int, at: int, shift: int, n: nat, k: nat)
    requires
        0 <= co <= at <= base.len(),
        0 <= shift,
        at + shift <= out.len(),
        k <= n,
        forall|x: int| co <= x < at ==> out[x + shift] == #[trigger] base[x],
        forall|j: nat| j < n ==> entry_start(base, co, j) <= entry_end(base, entry_start(base, co, j)) <= at
            && le32_at(base, #[trigger] entry_start(base, co, j)) == 0x0201_4b50,
        entry_start(base, co, n) == at,
    ensures
        entry_start(out, co + shift, k) == entry_start(base, co, k) + shift,
        k < n ==> entry_end(out, entry_start(out, co + shift, k)) == entry_end(base, entry_start(base, co, k)) + shift,
        k < n ==> le32_at(out, entry_start(out, co + shift, k)) == 0x0201_4b50,
        k < n ==> entry_name(out, entry_start(out, co + shift, k)) == entry_name(base, entry_start(base, co, k)),
        co <= entry_start(base, co, k),
    decreases k,
{
    if k > 0 {
        moved_walk(base, out, co, at, shift, n, (k - 1) as nat);
        let p = entry_start(base, co, (k - 1) as nat);
        assert(p + 46 <= entry_end(base, p));
        assert(out[p + shift + 28] == base[p + 28]);
        assert(out[p + shift + 29] == base[p + 29]);
        assert(out[p + shift + 30] == base[p + 30]);
        assert(out[p + shift + 31] == base[p + 31]);
        assert(out[p + shift + 32] == base[p + 32]);
        assert(out[p + shift + 33] == base[p + 33]);
    }
    if k < n {
        let p = entry_start(base, co, k);
        let q = p + shift;
        assert(entry_end(base, p) <= at);
        assert(p + 46 <= entry_end(base, p));
        assert(out[q] == base[p] && out[q + 1] == base[p + 1] && out[q + 2] == base[p + 2] && out[q + 3] == base[p + 3]);
        assert(out[q + 28] == base[p + 28] && out[q + 29] == base[p + 29]);
        assert(out[q + 30] == base[p + 30] && out[q + 31] == base[p + 31]);
        assert(out[q + 32] == base[p + 32] && out[q + 33] == base[p + 33]);
        let len = le16_at(base, p + 28) as int;
        assert(p + 46 + len <= at);
        assert forall|j: int| 0 <= j < len implies #[trigger] out[q + 46 + j] == base[p + 46 + j] by {
            assert(co <= p + 46 + j < at);
            assert(out[(p + 46 + j) + shift] == base[p + 46 + j]);
        }
        assert(le16_at(out, q + 28) == le16_at(base, p + 28));
        let a = entry_name(out, q);
        let b = entry_name(base, p);
        assert(a.len() == len && b.len() == len);
        assert forall|j: int| 0 <= j < len implies a[j] == b[j] by {
            assert(a[j] == out[q + 46 + j]);
            assert(b[j] == base[p + 46 + j]);
        }
        assert(a =~= b);
    }
}

/// The archive built from the part of `base` before its directory, the new local entry, the
/// old directory, the new directory entry and the new end record holds the new entry, its
/// data four-byte aligned, and stays closed.
#[verifier::rlimit(40)]
proof fn assembled(base: Seq<u8>, at: int, nm: Seq<u8>, d: Seq<u8>, entry: Seq<u8>, central: Seq<u8>, tail: Seq<u8>,
    out: Seq<u8>)
    requires
        last_eocd(base, at),
        le16_at(base, at + 10) + 1 < 65535,
        le32_at(base, at + 16) <= at,
        at - le32_at(base, at + 16) == le32_at(base, at + 12),
        directory_ok(base, le32_at(base, at + 16) as int, at, le16_at(base, at + 10), nm),
        entry.subrange(0, 4) == le32(0x0403_4b50),
        entry.subrange(14, 18) == le32(spec_crc32(d)),
        entry.subrange(26, 28) == le16(nm.len() as u16),
        entry.subrange(30, 30 + nm.len() as int) == nm,
        (le32_at(base, at + 16) + 30 + nm.len() + le16_at(entry, 28)) % 4 == 0,
        entry.len() == 30 + nm.len() + le16_at(entry, 28) + d.len(),
        entry.skip(30 + nm.len() + le16_at(entry, 28)) == d,
        le16_at(entry, 28) <= 7,
        central.len() == 46 + nm.len(),
        le32_at(central, 0) == 0x0201_4b50,
        le16_at(central, 28) == nm.len(),
        le16_at(central, 30) == 0,
        le16_at(central, 32) == 0,
        central.subrange(46, 46 + nm.len() as int) == nm,
        tail.len() == 22,
        eocd_at(tail, 0),
        le16_at(tail, 10) == le16_at(base, at + 10) + 1,
        le16_at(tail, 4) == 0,
        le16_at(tail, 6) == 0,
        le16_at(tail, 8) == le16_at(base, at + 10) + 1,
        le32_at(tail, 12) == (at - le32_at(base, at + 16)) + central.len(),
        le32_at(tail, 16) == le32_at(base, at + 16) + entry.len(),
        out == base.take(le32_at(base, at + 16) as int) + entry + base.subrange(le32_at(base, at + 16) as int, at)
            + central + tail,
    ensures
        injected(base, nm, d, out),
        closed_zip(out),
        entry_count(out) == le16_at(base, at + 10) + 1,
        out.len() <= base.len() + 2 * nm.len() + d.len() + 83,
{
    let co = le32_at(base, at + 16) as int;
    let n = le16_at(base, at + 10);
    let prefix = base.take(co);
    let with_entry = prefix + entry;
    let dir = base.subrange(co, at);
    let co2 = co + entry.len();
    let at2 = co2 + dir.len() + central.len();
    assert(out.len() == at2 + 22);
    assert(out.take(with_entry.len() as int) =~= with_entry);
    assert(out.take(co) =~= base.take(co));
    assert(out.subrange(co, co + 4) =~= entry.subrange(0, 4));
    assert(out.subrange(co + 14, co + 18) =~= entry.subrange(14, 18));
    assert(out.subrange(co + 26, co + 28) =~= entry.subrange(26, 28));
    assert(out.subrange(co + 30, co + 30 + nm.len()) =~= entry.subrange(30, 30 + nm.len() as int));
    assert(le16_at(out, co + 28) == le16_at(entry, 28));
    let start = co + 30 + nm.len() + le16_at(out, co + 28);
    assert(out.subrange(start, start + d.len()) =~= entry.skip(30 + nm.len() + le16_at(entry, 28)));
    assert(out.skip(at2) =~= tail);
    assert(le32_at(out, at2) == le32_at(tail, 0));
    assert(le16_at(out, at2 + 20) == le16_at(tail, 20));
    assert(le16_at(out, at2 + 10) == le16_at(tail, 10));
    assert(eocd_at(out, at2));
    assert forall|a: int| at2 < a implies !#[trigger] eocd_at(out, a) by {}
    assert(closed_zip(out));
    assert(entry_count(out) == n + 1);
}

/// That archive is again one as this library writes them.
#[verifier::rlimit(60)]
#[verifier::spinoff_prover]
proof fn assembled_directory(base: Seq<u8>, at: int, nm: Seq<u8>, d: Seq<u8>, entry: Seq<u8>, central: Seq<u8>,
    tail: Seq<u8>, out: Seq<u8>)
    requires
        last_eocd(base, at),
        le16_at(base, at + 10) + 1 < 65535,
        le32_at(base, at + 16) <= at,
        at - le32_at(base, at + 16) == le32_at(base, at + 12),
        directory_ok(base, le32_at(base, at + 16) as int, at, le16_at(base, at + 10), nm),
        entry.subrange(0, 4) == le32(0x0403_4b50),
        entry.subrange(14, 18) == le32(spec_crc32(d)),
        entry.subrange(26, 28) == le16(nm.len() as u16),
        entry.subrange(30, 30 + nm.len() as int) == nm,
        (le32_at(base, at + 16) + 30 + nm.len() + le16_at(entry, 28)) % 4 == 0,
        entry.len() == 30 + nm.len() + le16_at(entry, 28) + d.len(),
        entry.skip(30 + nm.len() + le16_at(entry, 28)) == d,
        le16_at(entry, 28) <= 7,
        central.len() == 46 + nm.len(),
        le32_at(central, 0) == 0x0201_4b50,
        le16_at(central, 28) == nm.len(),
        le16_at(central, 30) == 0,
        le16_at(central, 32) == 0,
        central.subrange(46, 46 + nm.len() as int) == nm,
        tail.len() == 22,
        eocd_at(tail, 0),
        le16_at(tail, 10) == le16_at(base, at + 10) + 1,
        le16_at(tail, 4) == 0,
        le16_at(tail, 6) == 0,
        le16_at(tail, 8) == le16_at(base, at + 10) + 1,
        le32_at(tail, 12) == (at - le32_at(base, at + 16)) + central.len(),
        le32_at(tail, 16) == le32_at(base, at + 16) + entry.len(),
        out == base.take(le32_at(base, at + 16) as int) + entry + base.subrange(le32_at(base, at + 16) as int, at)
            + central + tail,
    ensures
        simple_zip(out),
{
    assembled(base, at, nm, d, entry, central, tail, out);
    let co = le32_at(base, at + 16) as int;
    let n = le16_at(base, at + 10);
    let dir = base.subrange(co, at);
    let co2 = co + entry.len();
    let at2 = co2 + dir.len() + central.len();
    assert(out.len() == at2 + 22);
    assert(out.skip(at2) =~= tail);
    assert(le16_at(out, at2 + 10) == le16_at(tail, 10));
    assert(le32_at(out, at2 + 16) == le32_at(tail, 16));
    assert forall|x: int| co <= x < at implies out[x + entry.len()] == #[trigger] base[x] by {
        assert(out[x + entry.len()] == dir[x - co]);
    }
    moved_walk(base, out, co, at, entry.len() as int, n as nat, n as nat);
    let p = co2 + dir.len();
    assert(entry_start(out, co2, n as nat) == p);
    assert(out.subrange(p, p + central.len()) =~= central);
    assert(le32_at(out, p) == le32_at(central, 0));
    assert(le16_at(out, p + 28) == le16_at(central, 28));
    assert(le16_at(out, p + 30) == le16_at(central, 30));
    assert(le16_at(out, p + 32) == le16_at(central, 32));
    assert(le16_at(out, at2 + 4) == le16_at(tail, 4));
    assert(le16_at(out, at2 + 6) == le16_at(tail, 6));
    assert(le16_at(out, at2 + 8) == le16_at(tail, 8));
    assert(le32_at(out, at2 + 12) == le32_at(tail, 12));
    assert(entry_start(out, co2, (n + 1) as nat) == at2);
    assert forall|k: nat| k < n + 1 implies entry_start(out, co2, k) <= entry_end(out, entry_start(out, co2, k)) <= at2
        && le32_at(out, #[trigger] entry_start(out, co2, k)) == 0x0201_4b50 by {
        if k < n {
            moved_walk(base, out, co, at, entry.len() as int, n as nat, k);
            assert(entry_end(base, entry_start(base, co, k)) <= at);
        }
    }
}

/// Its entry names are those of `base` followed by the new one.
#[verifier::rlimit(60)]
#[verifier::spinoff_prover]
proof fn assembled_names(base: Seq<u8>, at: int, nm: Seq<u8>, d: Seq<u8>, entry: Seq<u8>, central: Seq<u8>,
    tail: Seq<u8>, out: Seq<u8>)
    requires
        last_eocd(base, at),
        le16_at(base, at + 10) + 1 < 65535,
        le32_at(base, at + 16) <= at,
        at - le32_at(base, at + 16) == le32_at(base, at + 12),
        directory_ok(base, le32_at(base, at + 16) as int, at, le16_at(base, at + 10), nm),
        entry.subrange(0, 4) == le32(0x0403_4b50),
        entry.subrange(14, 18) == le32(spec_crc32(d)),
        entry.subrange(26, 28) == le16(nm.len() as u16),
        entry.subrange(30, 30 + nm.len() as int) == nm,
        (le32_at(base, at + 16) + 30 + nm.len() + le16_at(entry, 28)) % 4 == 0,
        entry.len() == 30 + nm.len() + le16_at(entry, 28) + d.len(),
        entry.skip(30 + nm.len() + le16_at(entry, 28)) == d,
        le16_at(entry, 28) <= 7,
        central.len() == 46 + nm.len(),
        le32_at(central, 0) == 0x0201_4b50,
        le16_at(central, 28) == nm.len(),
        le16_at(central, 30) == 0,
        le16_at(central, 32) == 0,
        central.subrange(46, 46 + nm.len() as int) == nm,
        tail.len() == 22,
        eocd_at(tail, 0),
        le16_at(tail, 10) == le16_at(base, at + 10) + 1,
        le16_at(tail, 4) == 0,
        le16_at(tail, 6) == 0,
        le16_at(tail, 8) == le16_at(base, at + 10) + 1,
        le32_at(tail, 12) == (at - le32_at(base, at + 16)) + central.len(),
        le32_at(tail, 16) == le32_at(base, at + 16) + entry.len(),
        out == base.take(le32_at(base, at + 16) as int) + entry + base.subrange(le32_at(base, at + 16) as int, at)
            + central + tail,
    ensures
        zip_names(out) == directory_names(base, le32_at(base, at + 16) as int, le16_at(base, at + 10) as nat).push(nm),
{
    assembled(base, at, nm, d, entry, central, tail, out);
    let co = le32_at(base, at + 16) as int;
    let n = le16_at(base, at + 10);
    let dir = base.subrange(co, at);
    let co2 = co + entry.len();
    let at2 = co2 + dir.len() + central.len();
    assert(out.len() == at2 + 22);
    assert(out.skip(at2) =~= tail);
    assert(le16_at(out, at2 + 10) == le16_at(tail, 10));
    assert(le32_at(out, at2 + 16) == le32_at(tail, 16));
    assert forall|x: int| co <= x < at implies out[x + entry.len()] == #[trigger] base[x] by {
        assert(out[x + entry.len()] == dir[x - co]);
    }
    moved_walk(base, out, co, at, entry.len() as int, n as nat, n as nat);
    let p = co2 + dir.len();
    assert(entry_start(out, co2, n as nat) == p);
    assert(out.subrange(p, p + central.len()) =~= central);
    assert(le32_at(out, p) == le32_at(central, 0));
    assert(le16_at(out, p + 28) == le16_at(central, 28));
    assert(le16_at(out, p + 30) == le16_at(central, 30));
    assert(le16_at(out, p + 32) == le16_at(central, 32));
    assert(entry_name(out, p) =~= nm);
    assert forall|k: int| 0 <= k < n + 1 implies #[trigger] zip_names(out)[k] == directory_names(base, co, n as nat).push(
        nm,
    )[k] by {
        if k < n {
            moved_walk(base, out, co, at, entry.len() as int, n as nat, k as nat);
        }
    }
    assert(zip_names(out) =~= directory_names(base, co, n as nat).push(nm));
}

/// An archive as this library writes them takes a new entry of a name it does not hold yet,
/// while it has room for one and the result stays within 32-bit offsets.
pub proof fn simple_accepts(b: Seq<u8>, nm: Seq<u8>, dlen: int)
    requires
        simple_zip(b),
        !zip_names(b).contains(nm),
        le16_at(b, b.len() - 22 + 10) < 65534,
        0 <= dlen <= 0xffff_ffff,
        nm.len() <= 0xffff,
        b.len() + 2 * nm.len() + dlen + 61 <= u32::MAX,
    ensures
        accepts(b, nm, dlen),
{
    let at = b.len() - 22;
    let co = le32_at(b, at + 16) as int;
    let n = le16_at(b, at + 10);
    assert forall|k: nat| k < n implies entry_name(b, #[trigger] entry_start(b, co, k)) != nm by {
        assert(zip_names(b)[k as int] == entry_name(b, entry_start(b, co, k)));
    }
    assert(directory_ok(b, co, at, n, nm));
    assert(align_extra(co, nm.len() as int) <= 7);
    assert(accepts_at(b, nm, dlen, at)) by {
        reveal(accepts_at);
    }
}

/// The empty archive is one as this library writes them, with no entries.
pub proof fn empty_simple()
    ensures
        simple_zip(empty_zip()),
        zip_names(empty_zip()) == Seq::<Seq<u8>>::empty(),
{
    let b = empty_zip();
    assert(b[0] == 0x50 && b[1] == 0x4b && b[2] == 0x05 && b[3] == 0x06);
    assert forall|k: int| 4 <= k < 22 implies b[k] == 0 by {}
    assert(eocd_at(b, 0));
    assert forall|a: int| 0 < a implies !#[trigger] eocd_at(b, a) by {}
    assert(zip_names(b) =~= Seq::<Seq<u8>>::empty());
}

/// Adds a stored entry whose data starts on a four-byte boundary to an unsigned archive.
/// Refuses a malformed, multi-disk or full archive, a name already present, and sizes
/// beyond the ZIP format's limits.
#[verifier::rlimit(60)]
#[verifier::spinoff_prover]
pub fn inject_stored_zip(base: &[u8], name: &str, data: &[u8]) -> (r: Result<Vec<u8>, ZipError>)
    ensures
        (forall|a: int| !#[trigger] eocd_at(base@, a)) ==> r == Err::<Vec<u8>, ZipError>(
            ZipError("Missing ZIP end record"),
        ),
        r matches Ok(out) ==> injected(base@, name.spec_bytes(), data@, out@),
        r matches Ok(out) ==> closed_zip(out@),
        closed_zip(base@) ==> (r matches Ok(out) ==> entry_count(out@) == entry_count(base@) + 1),
        r is Ok <==> accepts(base@, name.spec_bytes(), data@.len() as int),
        r matches Ok(out) ==> simple_zip(out@),
        r matches Ok(out) ==> out@.len() <= base@.len() + 2 * name.spec_bytes().len() + data@.len() + 83,
        closed_zip(base@) ==> (r matches Ok(out) ==> zip_names(out@) == zip_names(base@).push(name.spec_bytes())),
{
    let blen = base.len();
    let eocd = match find_eocd(base) {
        Some(at) => at,
        None => return Err(ZipError("Missing ZIP end record")),
    };
    assert(eocd + 22 <= blen);
    proof {
        accepts_by_last(base@, name.spec_bytes(), data@.len() as int, eocd as int);
    }
    let entries = u16_at(base, eocd + 10)?;
    if entries >= 65534 {
        assert(!accepts_at(base@, name.spec_bytes(), data@.len() as int, eocd as int)) by {
            reveal(accepts_at);
        }
        return Err(ZipError("ZIP entry limit exceeded"));
    }
    let count = entries + 1;
    if u16_at(base, eocd + 4)? != 0 || u16_at(base, eocd + 6)? != 0 || u16_at(base, eocd + 8)? != entries {
        assert(!accepts_at(base@, name.spec_bytes(), data@.len() as int, eocd as int)) by {
            reveal(accepts_at);
        }
        return Err(ZipError("Multi-disk ZIP is unsupported"));
    }
    let central_size = u32_at(base, eocd + 12)? as usize;
    let central_offset = u32_at(base, eocd + 16)? as usize;
    if central_offset > eocd || eocd - central_offset != central_size {
        assert(!accepts_at(base@, name.spec_bytes(), data@.len() as int, eocd as int)) by {
            reveal(accepts_at);
        }
        return Err(ZipError("Invalid ZIP central directory"));
    }
    let name_bytes = name.as_bytes();
    match check_directory(base, central_offset, eocd, entries, name_bytes) {
        Ok(()) => {},
        Err(e) => {
            assert(!accepts_at(base@, name.spec_bytes(), data@.len() as int, eocd as int)) by {
                reveal(accepts_at);
            }
            return Err(e);
        },
    }
    let crc = crc32(data);
    if data.len() > 0xffff_ffff {
        assert(!accepts_at(base@, name.spec_bytes(), data@.len() as int, eocd as int)) by {
            reveal(accepts_at);
        }
        return Err(ZipError("ZIP size limit exceeded"));
    }
    let size = data.len() as u32;
    if name_bytes.len() > 0xffff {
        assert(!accepts_at(base@, name.spec_bytes(), data@.len() as int, eocd as int)) by {
            reveal(accepts_at);
        }
        return Err(ZipError("ZIP size limit exceeded"));
    }
    let name_len = name_bytes.len() as u16;
    let local = central_offset as u32;
    let entry = local_entry(name_bytes, data, crc, size, name_len, central_offset as u64);
    let central = central_entry(name_bytes, crc, size, name_len, local);
    let mut w = ByteWriter::new();
    w.write_bytes(slice_subrange(base, 0, central_offset));
    let ghost prefix = w@;
    w.write_bytes(entry.bytes());
    let ghost with_entry = w@;
    if w.position() > 0xffff_ffff {
        assert(!accepts_at(base@, name.spec_bytes(), data@.len() as int, eocd as int)) by {
            reveal(accepts_at);
        }
        return Err(ZipError("ZIP size limit exceeded"));
    }
    let new_central = w.position() as u32;
    w.write_bytes(slice_subrange(base, central_offset, eocd));
    w.write_bytes(central.bytes());
    if w.position() > 0xffff_ffff {
        assert(!accepts_at(base@, name.spec_bytes(), data@.len() as int, eocd as int)) by {
            reveal(accepts_at);
        }
        return Err(ZipError("ZIP size limit exceeded"));
    }
    assert(accepts_at(base@, name.spec_bytes(), data@.len() as int, eocd as int)) by {
        reveal(accepts_at);
    }
    let new_size = (w.position() as u32) - new_central;
    let tail = end_record(count, new_size, new_central);
    let ghost body = w@;
    w.write_bytes(tail.bytes());
    let ghost out = w@;
    proof {
        let co = central_offset as int;
        assert(prefix =~= base@.take(co));
        assert(out =~= base@.take(co) + entry@ + base@.subrange(co, eocd as int) + central@ + tail@);
        assembled(base@, eocd as int, name.spec_bytes(), data@, entry@, central@, tail@, out);
        assembled_directory(base@, eocd as int, name.spec_bytes(), data@, entry@, central@, tail@, out);
        assembled_names(base@, eocd as int, name.spec_bytes(), data@, entry@, central@, tail@, out);
        if closed_zip(base@) {
            last_eocd_unique(base@, eocd as int, base@.len() - 22);
        }
    }
    Ok(w.into_bytes())
}

/// The empty archive, a bare end record.
fn empty_archive() -> (r: Vec<u8>)
    ensures
        r@ == empty_zip(),
        closed_zip(r@),
        entry_count(r@) == 0,
{
    let mut r: Vec<u8> = Vec::new();
    r.push(0x50);
    r.push(0x4b);
    r.push(0x05);
    r.push(0x06);
    let mut k: usize = 0;
    while k < 18
        invariant
            k <= 18,
            r@ == seq![0x50u8, 0x4b, 0x05, 0x06] + zeros(k as nat),
        decreases 18 - k,
    {
        r.push(0);
        k = k + 1;
        assert(r@ =~= seq![0x50u8, 0x4b, 0x05, 0x06] + zeros(k as nat));
    }
    proof {
        assert(le32_at(r@, 0) == 0x0605_4b50);
        assert(eocd_at(r@, 0));
        assert forall|a: int| 0 < a implies !#[trigger] eocd_at(r@, a) by {}
    }
    r
}

/// The bytes of a name made of ASCII characters.
pub open spec fn ascii_bytes(s: Seq<char>) -> Seq<u8> {
    Seq::new(s.len(), |i: int| s[i] as u8)
}

/// `out` is `base` with the files added one after another, each as `injected` states, through
/// the archives `mids` in between.
pub open spec fn injected_files(base: Seq<u8>, files: Seq<(String, Vec<u8>)>, mids: Seq<Seq<u8>>, out: Seq<u8>) -> bool {
    &&& mids.len() == files.len() + 1
    &&& mids[0] == base
    &&& mids[files.len() as int] == out
    &&& forall|i: int|
        #![trigger files[i]]
        0 <= i < files.len() ==> placed(mids[i], vstd::utf8::encode_utf8(files[i].0@), files[i].1@, mids[i + 1])
}

/// `out` is `base` with a stored entry named `nm` holding `d` added, as `injected` states.
#[verifier::opaque]
pub open spec fn placed(base: Seq<u8>, nm: Seq<u8>, d: Seq<u8>, out: Seq<u8>) -> bool {
    injected(base, nm, d, out)
}

/// The entry names of a list of files, in order.
pub open spec fn file_names(fs: Seq<(String, Vec<u8>)>) -> Seq<Seq<u8>> {
    fs.map_values(|f: (String, Vec<u8>)| ascii_bytes(f.0@))
}

/// How much an archive grows at most by taking the files: two copies of each name, the
/// data, the headers and the alignment padding.
pub open spec fn files_growth(fs: Seq<(String, Vec<u8>)>) -> int
    decreases fs.len(),
{
    if fs.len() == 0 {
        0
    } else {
        files_growth(fs.drop_last()) + 2 * fs.last().0@.len() + fs.last().1@.len() + 83
    }
}

/// A resource file's entry name: a valid relative path under `res/`.
pub open spec fn resource_name(s: Seq<char>) -> bool {
    valid_entry_name(s) && s.len() >= 4 && s.take(4) == seq!['r', 'e', 's', '/']
}

/// Names an archive can take after those in `taken`: ASCII names no longer than the format
/// allows, pairwise distinct, and none already taken.
pub open spec fn fresh_ascii_names(fs: Seq<(String, Vec<u8>)>, taken: Seq<Seq<u8>>) -> bool {
    &&& forall|i: int| 0 <= i < fs.len() ==> is_ascii_chars((#[trigger] fs[i]).0@) && fs[i].0@.len() <= 0xffff
    &&& forall|i: int, j: int| 0 <= i < j < fs.len() ==> ascii_bytes((#[trigger] fs[i]).0@) != ascii_bytes(
        (#[trigger] fs[j]).0@,
    )
    &&& forall|i: int| 0 <= i < fs.len() ==> !taken.contains(ascii_bytes((#[trigger] fs[i]).0@))
}

proof fn manifest_name()
    ensures
        is_ascii_chars("AndroidManifest.xml"@),
        "AndroidManifest.xml".spec_bytes() == ascii_bytes("AndroidManifest.xml"@),
        "AndroidManifest.xml"@.len() == 19,
{
    reveal_strlit("AndroidManifest.xml");
    vstd::string::is_ascii_spec_bytes("AndroidManifest.xml");
    assert(ascii_bytes("AndroidManifest.xml"@) =~= "AndroidManifest.xml".spec_bytes());
}

proof fn growth_nonneg(fs: Seq<(String, Vec<u8>)>)
    ensures
        files_growth(fs) >= 0,
    decreases fs.len(),
{
    if fs.len() > 0 {
        growth_nonneg(fs.drop_last());
    }
}

proof fn growth_step(fs: Seq<(String, Vec<u8>)>, i: int)
    requires
        0 <= i < fs.len(),
    ensures
        files_growth(fs.take(i + 1)) == files_growth(fs.take(i)) + 2 * fs[i].0@.len() + fs[i].1@.len() + 83,
        files_growth(fs.take(i + 1)) <= files_growth(fs),
    decreases fs.len() - i,
{
    assert(fs.take(i + 1).drop_last() =~= fs.take(i));
    if i + 1 < fs.len() {
        growth_step(fs, i + 1);
    } else {
        assert(fs.take(i + 1) =~= fs);
    }
}

/// A fresh name is not among those an archive already holds.
proof fn fresh_name(names: Seq<Seq<u8>>, taken: Seq<Seq<u8>>, files: Seq<(String, Vec<u8>)>, i: int)
    requires
        0 <= i < files.len(),
        fresh_ascii_names(files, taken),
        names == taken + file_names(files.take(i)),
    ensures
        !names.contains(ascii_bytes(files[i].0@)),
{
    let nm = ascii_bytes(files[i].0@);
    if names.contains(nm) {
        let k = choose|k: int| 0 <= k < names.len() && names[k] == nm;
        if k < taken.len() {
            assert(taken.contains(nm));
        } else {
            let j = k - taken.len();
            assert(file_names(files.take(i))[j] == ascii_bytes(files[j].0@));
        }
    }
}

/// One more file added extends the chain of archives by one.
proof fn chain_step(start: Seq<u8>, files: Seq<(String, Vec<u8>)>, i: int, mids: Seq<Seq<u8>>, prev: Seq<u8>,
    next: Seq<u8>)
    requires
        0 <= i < files.len(),
        injected_files(start, files.take(i), mids, prev),
        placed(prev, vstd::utf8::encode_utf8(files[i].0@), files[i].1@, next),
    ensures
        injected_files(start, files.take(i + 1), mids.push(next), next),
{
    let ft = files.take(i + 1);
    let nm = mids.push(next);
    assert forall|j: int| #![trigger ft[j]] 0 <= j < ft.len() implies placed(
        nm[j],
        vstd::utf8::encode_utf8(ft[j].0@),
        ft[j].1@,
        nm[j + 1],
    ) by {
        if j < i {
            assert(ft[j] == files.take(i)[j]);
        }
    }
}

/// Adds one stored entry to an archive as this library writes them.
fn add_one(apk: &Vec<u8>, name: &str, data: &[u8]) -> (r: Result<Vec<u8>, ZipError>)
    requires
        simple_zip(apk@),
    ensures
        r matches Ok(out) ==> simple_zip(out@) && closed_zip(out@) && entry_count(out@) == entry_count(apk@) + 1
            && out@.len() <= apk@.len() + 2 * name.spec_bytes().len() + data@.len() + 83 && zip_names(out@)
            == zip_names(apk@).push(name.spec_bytes()),
        accepts(apk@, name.spec_bytes(), data@.len() as int) ==> r is Ok,
        r matches Ok(out) ==> placed(apk@, name.spec_bytes(), data@, out@),
{
    let r = inject_stored_zip(apk.as_slice(), name, data);
    proof {
        reveal(placed);
    }
    r
}

/// Takes the files into an archive as this library writes them, in order.
#[verifier::spinoff_prover]
#[verifier::rlimit(80)]
fn add_files(base: Vec<u8>, files: &[(String, Vec<u8>)], resources: bool) -> (r: Result<Vec<u8>, ZipError>)
    requires
        simple_zip(base@),
    ensures
        resources && (exists|i: int| 0 <= i < files@.len() && !resource_name((#[trigger] files@[i]).0@)) ==> r is Err,
        r matches Ok(out) ==> closed_zip(out@) && simple_zip(out@) && entry_count(out@) == entry_count(base@)
            + files@.len(),
        (forall|i: int| 0 <= i < files@.len() ==> is_ascii_chars((#[trigger] files@[i]).0@)) ==> (r matches Ok(out)
            ==> zip_names(out@) == zip_names(base@) + file_names(files@) && out@.len() <= base@.len() + files_growth(
            files@,
        )),
        fresh_ascii_names(files@, zip_names(base@)) && entry_count(base@) + files@.len() < 65534 && base@.len()
            + files_growth(files@) <= u32::MAX && (resources ==> forall|i: int| 0 <= i < files@.len()
            ==> resource_name((#[trigger] files@[i]).0@)) ==> r is Ok,
        r matches Ok(out) ==> exists|mids: Seq<Seq<u8>>| injected_files(base@, files@, mids, out@),
{
    let mut apk = base;
    let ghost start = apk@;
    let ghost mut mids: Seq<Seq<u8>> = seq![apk@];
    let ghost names0 = zip_names(apk@);
    let ghost ascii = forall|i: int| 0 <= i < files@.len() ==> is_ascii_chars((#[trigger] files@[i]).0@);
    let ghost fits = fresh_ascii_names(files@, names0) && entry_count(start) + files@.len() < 65534 && start.len()
        + files_growth(files@) <= u32::MAX && (resources ==> forall|i: int| 0 <= i < files@.len()
        ==> resource_name((#[trigger] files@[i]).0@));
    let mut i: usize = 0;
    assert(files@.take(0) =~= Seq::<(String, Vec<u8>)>::empty());
    assert(names0 + file_names(files@.take(0)) =~= names0);
    while i < files.len()
        invariant
            i <= files@.len(),
            start == base@,
            names0 == zip_names(start),
            simple_zip(apk@),
            closed_zip(apk@),
            entry_count(apk@) == entry_count(start) + i,
            ascii ==> apk@.len() <= start.len() + files_growth(files@.take(i as int)),
            ascii == (forall|j: int| 0 <= j < files@.len() ==> is_ascii_chars((#[trigger] files@[j]).0@)),
            fits ==> ascii,
            ascii ==> zip_names(apk@) == names0 + file_names(files@.take(i as int)),
            fits == (fresh_ascii_names(files@, names0) && entry_count(start) + files@.len() < 65534 && start.len()
                + files_growth(files@) <= u32::MAX && (resources ==> forall|i: int| 0 <= i < files@.len()
                ==> resource_name((#[trigger] files@[i]).0@))),
            resources ==> forall|j: int| 0 <= j < i ==> resource_name((#[trigger] files@[j]).0@),
            injected_files(start, files@.take(i as int), mids, apk@),
        decreases files@.len() - i,
    {
        let name = files[i].0.as_str();
        let data = files[i].1.as_slice();
        if resources && (!valid_apk_entry(name) || !under_res(name)) {
            return Err(ZipError("Invalid resource ZIP entry name"));
        }
        proof {
            growth_step(files@, i as int);
            assert(files@.take(i + 1).drop_last() =~= files@.take(i as int));
            if ascii {
                vstd::string::is_ascii_spec_bytes(name);
                assert(is_ascii_chars(files@[i as int].0@));
                assert(name.spec_bytes() =~= ascii_bytes(name@));
                assert(name.spec_bytes().len() == files@[i as int].0@.len());
            }
            if fits {
                assert(entry_count(apk@) == le16_at(apk@, apk@.len() - 22 + 10));
                assert(files_growth(files@.take(i + 1)) <= files_growth(files@));
                fresh_name(zip_names(apk@), names0, files@, i as int);
                simple_accepts(apk@, name.spec_bytes(), data@.len() as int);
            }
        }
        let ghost prev = apk@;
        apk = match add_one(&apk, name, data) {
            Ok(next) => next,
            Err(e) => {
                return Err(e);
            },
        };
        proof {
            assert(name.spec_bytes() == vstd::utf8::encode_utf8(files@[i as int].0@));
            chain_step(start, files@, i as int, mids, prev, apk@);
            mids = mids.push(apk@);
        }
        proof {
            if ascii {
                assert(file_names(files@.take(i + 1)) =~= file_names(files@.take(i as int)).push(ascii_bytes(
                    files@[i as int].0@,
                )));
                assert(zip_names(apk@) =~= names0 + file_names(files@.take(i + 1)));
            }
        }
        i = i + 1;
    }
    assert(files@.take(i as int) =~= files@);
    proof {
        assert(injected_files(base@, files@, mids, apk@));
        assert(exists|m: Seq<Seq<u8>>| injected_files(base@, files@, m, apk@));
        if resources {
            assert forall|j: int| 0 <= j < files@.len() implies resource_name((#[trigger] files@[j]).0@) by {}
        }
    }
    Ok(apk)
}

/// The entry name of the manifest.
pub open spec fn manifest_entry() -> Seq<u8> {
    ascii_bytes("AndroidManifest.xml"@)
}

/// An archive as this library writes them holding only the manifest.
fn manifest_archive(manifest: &[u8]) -> (r: Result<Vec<u8>, ZipError>)
    ensures
        r matches Ok(apk) ==> simple_zip(apk@) && closed_zip(apk@) && entry_count(apk@) == 1 && zip_names(apk@)
            == seq![manifest_entry()] && apk@.len() <= manifest@.len() + 143,
        manifest@.len() + 143 <= u32::MAX ==> r is Ok,
        r matches Ok(apk) ==> placed(empty_zip(), manifest_entry(), manifest@, apk@),
{
    let empty = empty_archive();
    proof {
        empty_simple();
        manifest_name();
        if manifest@.len() + 143 <= u32::MAX {
            simple_accepts(empty@, "AndroidManifest.xml".spec_bytes(), manifest@.len() as int);
        }
        assert(Seq::<Seq<u8>>::empty().push(manifest_entry()) =~= seq![manifest_entry()]);
    }
    add_one(&empty, "AndroidManifest.xml", manifest)
}

/// Assembles an APK holding the manifest and one `classes.dex`.
pub fn assemble_apk(manifest: &[u8], dex: &[u8]) -> (r: Result<Vec<u8>, ZipError>)
    ensures
        r matches Ok(apk) ==> closed_zip(apk@) && entry_count(apk@) == 2,
        r matches Ok(apk) ==> zip_names(apk@) == seq![manifest_entry(), ascii_bytes("classes.dex"@)],
        manifest@.len() + dex@.len() + 248 <= u32::MAX ==> r is Ok,
        r matches Ok(apk) ==> exists|m: Seq<u8>|
            placed(empty_zip(), manifest_entry(), manifest@, m) && #[trigger] placed(
                m,
                ascii_bytes("classes.dex"@),
                dex@,
                apk@,
            ),
{
    let mut files: Vec<(String, Vec<u8>)> = Vec::new();
    files.push((crate::text::owned("classes.dex"), vstd::slice::slice_to_vec(dex)));
    proof {
        reveal_strlit("classes.dex");
        manifest_name();
        let f = files@;
        assert(f.len() == 1 && f[0].0@ == "classes.dex"@ && f[0].1@ == dex@);
        assert(is_ascii_chars("classes.dex"@));
        assert(ascii_bytes("classes.dex"@).len() != manifest_entry().len());
        assert(!seq![manifest_entry()].contains(ascii_bytes(f[0].0@))) by {
            if seq![manifest_entry()].contains(ascii_bytes(f[0].0@)) {
                assert(seq![manifest_entry()][0] == ascii_bytes(f[0].0@));
            }
        }
        assert(fresh_ascii_names(f, seq![manifest_entry()]));
        assert(f.drop_last() =~= Seq::<(String, Vec<u8>)>::empty());
        assert(files_growth(f.drop_last()) == 0);
        assert("classes.dex"@.len() == 11);
        assert(files_growth(f) == 22 + dex@.len() + 83);
        assert(file_names(f) =~= seq![ascii_bytes("classes.dex"@)]);
        assert(seq![manifest_entry()] + seq![ascii_bytes("classes.dex"@)] =~= seq![manifest_entry(), ascii_bytes(
            "classes.dex"@,
        )]);
        vstd::string::is_ascii_spec_bytes("classes.dex");
        assert("classes.dex".spec_bytes() =~= ascii_bytes("classes.dex"@));
    }
    let r = assemble_apk_files(manifest, files.as_slice());
    proof {
        if r is Ok {
            let apk = r->Ok_0;
            let (m, mids) = choose|m: Seq<u8>, mids: Seq<Seq<u8>>|
                placed(empty_zip(), manifest_entry(), manifest@, m) && #[trigger] injected_files(m, files@, mids, apk@);
            assert(files@[0].0@ == "classes.dex"@);
            assert(placed(mids[0], vstd::utf8::encode_utf8(files@[0].0@), files@[0].1@, mids[1]));
            assert(placed(m, ascii_bytes("classes.dex"@), dex@, apk@));
        }
    }
    r
}

/// Assembles an APK holding the manifest and the DEX files, in that order.
pub fn assemble_apk_files(manifest: &[u8], dex_files: &[(String, Vec<u8>)]) -> (r: Result<Vec<u8>, ZipError>)
    ensures
        r matches Ok(apk) ==> closed_zip(apk@) && entry_count(apk@) == dex_files@.len() + 1,
        (forall|i: int| 0 <= i < dex_files@.len() ==> is_ascii_chars((#[trigger] dex_files@[i]).0@)) ==> (
        r matches Ok(apk) ==> zip_names(apk@) == seq![manifest_entry()] + file_names(dex_files@)),
        fresh_ascii_names(dex_files@, seq![manifest_entry()]) && dex_files@.len() < 65533 && manifest@.len()
            + files_growth(dex_files@) + 143 <= u32::MAX ==> r is Ok,
        r matches Ok(apk) ==> exists|m: Seq<u8>, mids: Seq<Seq<u8>>|
            placed(empty_zip(), manifest_entry(), manifest@, m) && #[trigger] injected_files(m, dex_files@, mids, apk@),
{
    proof {
        growth_nonneg(dex_files@);
    }
    let apk = manifest_archive(manifest)?;
    let ghost m = apk@;
    let r = add_files(apk, dex_files, false);
    proof {
        if r is Ok {
            let mids = choose|mids: Seq<Seq<u8>>| injected_files(m, dex_files@, mids, r->Ok_0@);
            assert(placed(empty_zip(), manifest_entry(), manifest@, m) && injected_files(m, dex_files@, mids, r->Ok_0@));
        }
    }
    r
}

/// Position `i` of `s` begins a `/`-separated segment.
pub open spec fn segment_start(s: Seq<char>, i: int) -> bool {
    i == 0 || s[i - 1] == '/'
}

/// A relative ASCII archive path without backslashes or empty, `.` or `..` segments.
pub open spec fn valid_entry_name(s: Seq<char>) -> bool {
    &&& s.len() > 0
    &&& s.last() != '/'
    &&& forall|i: int| #![trigger s[i]] 0 <= i < s.len() ==> {
        &&& (s[i] as u32) < 128
        &&& s[i] != '\\'
        &&& segment_start(s, i) ==> s[i] != '/'
        &&& segment_start(s, i) && s[i] == '.' ==> i + 1 < s.len() && s[i + 1] != '/' && !(s[i + 1] == '.'
            && (i + 2 == s.len() || s[i + 2] == '/'))
    }
}

/// Whether `name` may name an archive entry.
pub fn valid_apk_entry(name: &str) -> (r: bool)
    ensures
        r == valid_entry_name(name@),
{
    let cs = crate::encoding::chars_of(name);
    let n = cs.len();
    if n == 0 || cs[n - 1] == '/' {
        return false;
    }
    let mut i: usize = 0;
    while i < n
        invariant
            cs@ == name@,
            n == cs@.len(),
            n > 0,
            cs@.last() != '/',
            i <= n,
            forall|j: int| #![trigger cs@[j]] 0 <= j < i ==> {
                &&& (cs@[j] as u32) < 128
                &&& cs@[j] != '\\'
                &&& segment_start(cs@, j) ==> cs@[j] != '/'
                &&& segment_start(cs@, j) && cs@[j] == '.' ==> j + 1 < n && cs@[j + 1] != '/' && !(cs@[j + 1]
                    == '.' && (j + 2 == n || cs@[j + 2] == '/'))
            },
        decreases n - i,
    {
        let c = cs[i];
        if (c as u32) >= 128 || c == '\\' {
            return false;
        }
        let start = i == 0 || cs[i - 1] == '/';
        if start && c == '/' {
            return false;
        }
        if start && c == '.' {
            if i + 1 >= n || cs[i + 1] == '/' {
                return false;
            }
            if cs[i + 1] == '.' && (i + 2 == n || cs[i + 2] == '/') {
                return false;
            }
        }
        i = i + 1;
    }
    true
}

/// Whether `name` lies under `res/`.
fn under_res(name: &str) -> (r: bool)
    ensures
        r == (name@.len() >= 4 && name@.take(4) == seq!['r', 'e', 's', '/']),
{
    let cs = crate::encoding::chars_of(name);
    if cs.len() < 4 {
        return false;
    }
    let r = cs[0] == 'r' && cs[1] == 'e' && cs[2] == 's' && cs[3] == '/';
    assert(r ==> cs@.take(4) =~= seq!['r', 'e', 's', '/']);
    assert(cs@.take(4) == seq!['r', 'e', 's', '/'] ==> cs@.take(4)[0] == 'r' && cs@.take(4)[3] == '/');
    r
}

/// The entry name of the resource table.
pub open spec fn table_entry() -> Seq<u8> {
    ascii_bytes("resources.arsc"@)
}

/// The entry names before the resource files: the manifest, and the resource table when
/// there is one.
pub open spec fn leading_entries(has_table: bool) -> Seq<Seq<u8>> {
    if has_table { seq![manifest_entry(), table_entry()] } else { seq![manifest_entry()] }
}

/// Assembles an APK holding the manifest, the resource table when there is one, the
/// resource files under `res/`, and the DEX files, in that order.
#[verifier::spinoff_prover]
pub fn assemble_apk_resources(manifest: &[u8], resources: &[u8], resource_entries: &[(String, Vec<u8>)],
    dex_files: &[(String, Vec<u8>)]) -> (r: Result<Vec<u8>, ZipError>)
    ensures
        r matches Ok(apk) ==> closed_zip(apk@) && entry_count(apk@) == 1 + (if resources@.len() > 0 { 1int } else {
            0
        }) + resource_entries@.len() + dex_files@.len(),
        (exists|i: int| 0 <= i < resource_entries@.len() && !resource_name((#[trigger] resource_entries@[i]).0@))
            ==> r is Err,
        (forall|i: int| 0 <= i < resource_entries@.len() ==> is_ascii_chars((#[trigger] resource_entries@[i]).0@)) && (
        forall|i: int| 0 <= i < dex_files@.len() ==> is_ascii_chars((#[trigger] dex_files@[i]).0@)) ==> (
        r matches Ok(apk) ==> zip_names(apk@) == leading_entries(resources@.len() > 0) + file_names(resource_entries@)
            + file_names(dex_files@)),
        (forall|i: int| 0 <= i < resource_entries@.len() ==> resource_name((#[trigger] resource_entries@[i]).0@))
            && fresh_ascii_names(resource_entries@, leading_entries(resources@.len() > 0)) && fresh_ascii_names(
            dex_files@,
            leading_entries(resources@.len() > 0) + file_names(resource_entries@),
        ) && resource_entries@.len() + dex_files@.len() < 65532 && manifest@.len() + resources@.len()
            + files_growth(resource_entries@) + files_growth(dex_files@) + 254 <= u32::MAX ==> r is Ok,
        r matches Ok(apk) ==> exists|m: Seq<u8>, t: Seq<u8>, ma: Seq<Seq<u8>>, mb: Seq<Seq<u8>>|
            #![trigger placed(empty_zip(), manifest_entry(), manifest@, m), injected_files(t, resource_entries@, ma, ma[resource_entries@.len() as int]), injected_files(ma[resource_entries@.len() as int], dex_files@, mb, apk@)]
            placed(empty_zip(), manifest_entry(), manifest@, m) && (if resources@.len() > 0 {
                placed(m, table_entry(), resources@, t)
            } else {
                t == m
            }) && injected_files(t, resource_entries@, ma, ma[resource_entries@.len() as int]) && injected_files(
                ma[resource_entries@.len() as int],
                dex_files@,
                mb,
                apk@,
            ),
{
    proof {
        growth_nonneg(resource_entries@);
        growth_nonneg(dex_files@);
    }
    let mut apk = manifest_archive(manifest)?;
    let ghost m = apk@;
    if resources.len() > 0 {
        proof {
            reveal_strlit("resources.arsc");
            manifest_name();
            vstd::string::is_ascii_spec_bytes("resources.arsc");
            assert("resources.arsc".spec_bytes() =~= table_entry());
            assert(table_entry().len() != manifest_entry().len());
            assert(!seq![manifest_entry()].contains(table_entry())) by {
                if seq![manifest_entry()].contains(table_entry()) {
                    assert(seq![manifest_entry()][0] == table_entry());
                }
            }
            if manifest@.len() + resources@.len() + 254 <= u32::MAX {
                simple_accepts(apk@, "resources.arsc".spec_bytes(), resources@.len() as int);
            }
            assert(seq![manifest_entry()].push(table_entry()) =~= seq![manifest_entry(), table_entry()]);
        }
        apk = add_one(&apk, "resources.arsc", resources)?;
    }
    let ghost lead = zip_names(apk@);
    assert(lead == leading_entries(resources@.len() > 0));
    let ghost t = apk@;
    let apk = add_files(apk, resource_entries, true)?;
    let ghost u = apk@;
    let ghost ma = choose|ma: Seq<Seq<u8>>| injected_files(t, resource_entries@, ma, u);
    let r = add_files(apk, dex_files, false);
    proof {
        if r is Ok {
            let mb = choose|mb: Seq<Seq<u8>>| injected_files(u, dex_files@, mb, r->Ok_0@);
            assert(ma[resource_entries@.len() as int] == u);
            assert(placed(empty_zip(), manifest_entry(), manifest@, m));
            assert(injected_files(t, resource_entries@, ma, ma[resource_entries@.len() as int]));
            assert(injected_files(ma[resource_entries@.len() as int], dex_files@, mb, r->Ok_0@));
        }
    }
    r
}

} // verus!
