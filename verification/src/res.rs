//! Android binary XML and resource table encoding: chunks, string pools and ids.
use vstd::prelude::*;
use crate::encoding::{zeros, padding, le16, le32, utf16, utf16_units};
use crate::text::owned;

pub mod ids;
pub mod manifest;
pub mod table;

verus! {

/// A resource or manifest encoding failure.
#[derive(Debug, PartialEq, Eq)]
pub struct ResourceError(pub &'static str);

/// The error for a value beyond a binary format's size fields.
pub fn size_limit() -> (e: ResourceError)
    ensures
        e == ResourceError("Manifest size limit exceeded"),
{
    ResourceError("Manifest size limit exceeded")
}

/// Appends a little-endian `u32`.
pub fn word(out: &mut Vec<u8>, n: u32)
    ensures
        final(out)@ == old(out)@ + le32(n),
{
    out.push((n % 256) as u8);
    out.push(((n / 256) % 256) as u8);
    out.push(((n / 65536) % 256) as u8);
    out.push((n / 16777216) as u8);
    assert(out@ =~= old(out)@ + le32(n));
}

/// Appends a little-endian `u16`.
pub fn short(out: &mut Vec<u8>, n: u16)
    ensures
        final(out)@ == old(out)@ + le16(n),
{
    out.push((n % 256) as u8);
    out.push((n / 256) as u8);
    assert(out@ =~= old(out)@ + le16(n));
}

/// Appends bytes.
pub fn extend(out: &mut Vec<u8>, v: &[u8])
    ensures
        final(out)@ == old(out)@ + v@,
{
    let mut i: usize = 0;
    while i < v.len()
        invariant
            i <= v@.len(),
            out@ == old(out)@ + v@.take(i as int),
        decreases v@.len() - i,
    {
        out.push(v[i]);
        i = i + 1;
        assert(out@ =~= old(out)@ + v@.take(i as int));
    }
    assert(v@.take(i as int) =~= v@);
}

/// Size of a chunk carrying `payload` bytes after its eight-byte header.
pub fn chunk_size(payload: usize) -> (r: Result<u32, ResourceError>)
    ensures
        payload + 8 <= u32::MAX ==> r == Ok::<u32, ResourceError>((payload + 8) as u32),
        payload + 8 > usize::MAX ==> r == Err::<u32, ResourceError>(ResourceError("Manifest size overflow")),
        usize::MAX >= payload + 8 > u32::MAX ==> r == Err::<u32, ResourceError>(ResourceError("Manifest size limit exceeded")),
{
    if payload > usize::MAX - 8 {
        return Err(ResourceError("Manifest size overflow"));
    }
    let total = payload + 8;
    if total > 0xffff_ffff {
        return Err(size_limit());
    }
    Ok(total as u32)
}

/// A chunk: its type, header size and total size, then `body`.
pub open spec fn chunk_bytes(kind: u16, header: u16, body: Seq<u8>) -> Seq<u8> {
    le16(kind) + le16(header) + le32((body.len() + 8) as u32) + body
}

/// Wraps `body` in a chunk header.
pub fn chunk(kind: u16, header: u16, body: Vec<u8>) -> (r: Result<Vec<u8>, ResourceError>)
    ensures
        body@.len() + 8 <= u32::MAX ==> r == Ok::<Vec<u8>, ResourceError>(r->Ok_0) && r->Ok_0@ == chunk_bytes(
            kind,
            header,
            body@,
        ),
        body@.len() + 8 > u32::MAX ==> r is Err,
{
    let size = chunk_size(body.len())?;
    let mut out: Vec<u8> = Vec::new();
    short(&mut out, kind);
    short(&mut out, header);
    word(&mut out, size);
    extend(&mut out, body.as_slice());
    Ok(out)
}

/// Index of the first string equal to `s`.
pub open spec fn position(v: Seq<String>, s: Seq<char>) -> Option<int>
    decreases v.len(),
{
    if v.len() == 0 {
        None
    } else {
        match position(v.drop_last(), s) {
            Some(i) => Some(i),
            None => if v.last()@ == s { Some(v.len() - 1) } else { None },
        }
    }
}

pub proof fn position_bounds(v: Seq<String>, s: Seq<char>)
    ensures
        position(v, s) matches Some(i) ==> 0 <= i < v.len() && v[i]@ == s,
        position(v, s) is None ==> forall|j: int| 0 <= j < v.len() ==> (#[trigger] v[j])@ != s,
    decreases v.len(),
{
    if v.len() > 0 {
        position_bounds(v.drop_last(), s);
        if position(v.drop_last(), s) is None {
            assert forall|j: int| 0 <= j < v.len() - 1 implies (#[trigger] v[j])@ != s by {
                assert(v.drop_last()[j] == v[j]);
            }
        }
    }
}

proof fn position_prefix(v: Seq<String>, i: int, s: Seq<char>)
    requires
        0 <= i <= v.len(),
        position(v.take(i), s) is Some,
    ensures
        position(v, s) == position(v.take(i), s),
    decreases v.len() - i,
{
    if i < v.len() {
        assert(v.take(i + 1).drop_last() =~= v.take(i));
        position_prefix(v, i + 1, s);
    } else {
        assert(v.take(i) =~= v);
    }
}

/// A string found in a pool is found in every pool that extends it.
pub proof fn position_extends(p: Seq<String>, q: Seq<String>, s: Seq<char>)
    requires
        q.len() >= p.len(),
        q.take(p.len() as int) == p,
        position(p, s) is Some,
    ensures
        position(q, s) is Some,
    decreases q.len(),
{
    if q.len() == p.len() {
        assert(q =~= q.take(p.len() as int));
    } else {
        assert(q.drop_last().take(p.len() as int) =~= q.take(p.len() as int));
        position_extends(p, q.drop_last(), s);
    }
}

/// Extending a pool that extends `p` still extends `p`.
pub proof fn extends_trans(p: Seq<String>, q: Seq<String>, r: Seq<String>)
    requires
        q.len() >= p.len(),
        q.take(p.len() as int) == p,
        r.len() >= q.len(),
        r.take(q.len() as int) == q,
    ensures
        r.take(p.len() as int) == p,
{
    assert forall|k: int| 0 <= k < p.len() implies r[k] == p[k] by {
        assert(r.take(q.len() as int)[k] == r[k]);
        assert(q.take(p.len() as int)[k] == q[k]);
    }
    assert(r.take(p.len() as int) =~= p);
}

/// The position of the first string equal to `s`.
pub fn find_string(v: &[String], s: &str) -> (r: Option<usize>)
    ensures
        r matches Some(i) ==> position(v@, s@) == Some(i as int),
        r is None ==> position(v@, s@) is None,
{
    let mut i: usize = 0;
    while i < v.len()
        invariant
            i <= v@.len(),
            position(v@.take(i as int), s@) is None,
        decreases v@.len() - i,
    {
        assert(v@.take(i + 1).drop_last() =~= v@.take(i as int));
        if crate::text::str_eq(v[i].as_str(), s) {
            proof {
                position_prefix(v@, i + 1, s@);
            }
            return Some(i);
        }
        i = i + 1;
    }
    assert(v@.take(i as int) =~= v@);
    None
}

/// Index of `s` in a string pool.
pub fn index(strings: &[String], s: &str) -> (r: Result<u32, ResourceError>)
    ensures
        (position(strings@, s@) matches Some(i) && i <= u32::MAX) ==> r == Ok::<u32, ResourceError>(
            position(strings@, s@)->0 as u32,
        ),
        position(strings@, s@) is None ==> r == Err::<u32, ResourceError>(ResourceError("Missing manifest string")),
        r matches Ok(i) ==> position(strings@, s@) == Some(i as int),
{
    match find_string(strings, s) {
        Some(i) => {
            if i > 0xffff_ffff {
                return Err(size_limit());
            }
            Ok(i as u32)
        },
        None => Err(ResourceError("Missing manifest string")),
    }
}

/// Adds `s` to a string pool unless it is already there.
pub fn intern(strings: &mut Vec<String>, s: &str) -> (r: Result<(), ResourceError>)
    ensures
        r is Ok ==> position(final(strings)@, s@) is Some,
        r is Ok ==> final(strings)@.len() >= old(strings)@.len(),
        position(old(strings)@, s@) is Some ==> r is Ok && final(strings)@ == old(strings)@,
        position(old(strings)@, s@) is None && old(strings)@.len() <= u32::MAX ==> r is Ok
            && final(strings)@.len() == old(strings)@.len() + 1 && final(strings)@.drop_last() == old(strings)@
            && final(strings)@.last()@ == s@,
        r is Err ==> final(strings)@ == old(strings)@,
        r is Err <==> position(old(strings)@, s@) is None && old(strings)@.len() > u32::MAX,
        final(strings)@.len() >= old(strings)@.len(),
        final(strings)@.take(old(strings)@.len() as int) == old(strings)@,
{
    match find_string(strings.as_slice(), s) {
        Some(_) => Ok(()),
        None => {
            if strings.len() > 0xffff_ffff {
                return Err(size_limit());
            }
            let ghost before = strings@;
            strings.push(owned(s));
            proof {
                assert(strings@.drop_last() =~= before);
                assert(strings@.take(before.len() as int) =~= before);
                assert(position(strings@.drop_last(), s@) is None);
            }
            Ok(())
        },
    }
}

/// The length prefix of a pooled UTF-16 string.
pub open spec fn pool_length(len: nat) -> Seq<u8> {
    if len > 0x7fff {
        le16((len / 65536 + 0x8000) as u16) + le16((len % 65536) as u16)
    } else {
        le16(len as u16)
    }
}

/// The UTF-16 code units of a string, little-endian.
pub open spec fn units_bytes(us: Seq<u16>) -> Seq<u8>
    decreases us.len(),
{
    if us.len() == 0 {
        Seq::empty()
    } else {
        units_bytes(us.drop_last()) + le16(us.last())
    }
}

/// A pooled string: length prefix, UTF-16 units and a zero terminator.
pub open spec fn pool_entry(s: Seq<char>) -> Seq<u8> {
    pool_length(utf16(s).len()) + units_bytes(utf16(s)) + le16(0)
}

/// Appends one pooled string.
fn pool_string(data: &mut Vec<u8>, s: &String) -> (r: Result<(), ResourceError>)
    ensures
        r is Ok ==> final(data)@ == old(data)@ + pool_entry(s@),
        r is Ok ==> utf16(s@).len() <= 0x7fff_ffff,
        utf16(s@).len() <= 0x7fff_ffff ==> r is Ok,
{
    let units = utf16_units(s.as_str());
    if units.len() > 0x7fff_ffff {
        return Err(ResourceError("Manifest string too long"));
    }
    let len = units.len() as u32;
    let ghost start = data@;
    if len > 0x7fff {
        short(data, ((len / 65536) + 0x8000) as u16);
        short(data, (len % 65536) as u16);
    } else {
        short(data, len as u16);
    }
    assert(data@ == start + pool_length(len as nat));
    let ghost mid = data@;
    let mut i: usize = 0;
    while i < units.len()
        invariant
            i <= units@.len(),
            data@ == mid + units_bytes(units@.take(i as int)),
        decreases units@.len() - i,
    {
        short(data, units[i]);
        assert(units@.take(i + 1).drop_last() =~= units@.take(i as int));
        i = i + 1;
    }
    assert(units@.take(i as int) =~= units@);
    short(data, 0);
    assert(data@ =~= start + pool_entry(s@));
    Ok(())
}

/// Pads with zeros to a multiple of four bytes.
pub fn pad4(data: &mut Vec<u8>) -> (r: Result<(), ResourceError>)
    ensures
        r is Ok ==> final(data)@.len() % 4 == 0 && final(data)@.take(old(data)@.len() as int) == old(data)@
            && final(data)@.len() < old(data)@.len() + 4,
        r is Ok ==> final(data)@ == old(data)@ + zeros(padding(old(data)@.len(), 4)),
        old(data)@.len() <= usize::MAX - 3 ==> r is Ok,
{
    let n = data.len();
    if n > usize::MAX - 3 {
        return Err(size_limit());
    }
    let pad = (4 - n % 4) % 4;
    let mut k: usize = 0;
    while k < pad
        invariant
            k <= pad,
            pad < 4,
            (n + pad) % 4 == 0,
            data@.len() == n + k,
            n == old(data)@.len(),
            data@.take(n as int) == old(data)@,
            data@ == old(data)@ + zeros(k as nat),
        decreases pad - k,
    {
        data.push(0);
        assert(data@.take(n as int) =~= old(data)@);
        k = k + 1;
        assert(data@ =~= old(data)@ + zeros(k as nat));
    }
    assert(pad == padding(n as nat, 4));
    Ok(())
}

/// The contents of a list of strings.
pub open spec fn texts(v: Seq<String>) -> Seq<Seq<char>> {
    v.map_values(|s: String| s@)
}

/// The pooled strings, in order.
pub open spec fn pool_entries(ss: Seq<Seq<char>>) -> Seq<u8>
    decreases ss.len(),
{
    if ss.len() == 0 {
        Seq::empty()
    } else {
        pool_entries(ss.drop_last()) + pool_entry(ss.last())
    }
}

/// The offset of each pooled string from the start of the string data, as little-endian words.
pub open spec fn pool_offsets(ss: Seq<Seq<char>>) -> Seq<u8>
    decreases ss.len(),
{
    if ss.len() == 0 {
        Seq::empty()
    } else {
        pool_offsets(ss.drop_last()) + le32(pool_entries(ss.drop_last()).len() as u32)
    }
}

/// The body of a string pool of UTF-16 strings: the string count, no styles, no flags, the
/// offset of the string data, no style data, the offsets, and the strings padded to four bytes.
#[verifier::opaque]
pub open spec fn pool_body_bytes(ss: Seq<Seq<char>>) -> Seq<u8> {
    let data = pool_entries(ss);
    le32(ss.len() as u32) + le32(0) + le32(0) + le32((28 + 4 * ss.len()) as u32) + le32(0) + pool_offsets(ss) + data
        + zeros(padding(data.len(), 4))
}

/// A string pool of `ss` fits the format: each string is short enough for its length prefix,
/// and the chunk's size fits in 32 bits.
#[verifier::opaque]
pub open spec fn pool_fits(ss: Seq<Seq<char>>) -> bool {
    &&& forall|i: int| 0 <= i < ss.len() ==> utf16(#[trigger] ss[i]).len() <= 0x7fff_ffff
    &&& pool_body_bytes(ss).len() + 8 <= u32::MAX
}

proof fn pool_lengths(ss: Seq<Seq<char>>)
    ensures
        pool_offsets(ss).len() == 4 * ss.len(),
        forall|k: int| 0 <= k <= ss.len() ==> pool_entries(#[trigger] ss.take(k)).len() <= pool_entries(ss).len(),
    decreases ss.len(),
{
    if ss.len() > 0 {
        pool_lengths(ss.drop_last());
        assert forall|k: int| 0 <= k <= ss.len() implies pool_entries(#[trigger] ss.take(k)).len() <= pool_entries(
            ss,
        ).len() by {
            if k < ss.len() {
                assert(ss.take(k) =~= ss.drop_last().take(k));
            } else {
                assert(ss.take(k) =~= ss);
            }
        }
    }
}

proof fn pool_body_len(ss: Seq<Seq<char>>)
    ensures
        pool_body_bytes(ss).len() == 20 + 4 * ss.len() + pool_entries(ss).len() + padding(pool_entries(ss).len(), 4),
{
    reveal(pool_body_bytes);
    pool_lengths(ss);
}

/// The body of a string pool: header fields, offsets, then the pooled strings padded to four bytes.
#[verifier::rlimit(60)]
#[verifier::spinoff_prover]
fn pool_body(strings: &[String]) -> (r: Result<Vec<u8>, ResourceError>)
    ensures
        r matches Ok(b) ==> b@.len() % 4 == 0 && b@.len() >= 20 && b@ == pool_body_bytes(texts(strings@)),
        r is Ok ==> forall|i: int| 0 <= i < strings@.len() ==> utf16((#[trigger] strings@[i])@).len() <= 0x7fff_ffff,
        pool_fits(texts(strings@)) ==> r is Ok,
{
    let ghost ss = texts(strings@);
    proof {
        pool_lengths(ss);
        pool_body_len(ss);
        reveal(pool_fits);
    }
    let mut offsets: Vec<u8> = Vec::new();
    let mut data: Vec<u8> = Vec::new();
    let mut i: usize = 0;
    assert(ss.take(0) =~= Seq::<Seq<char>>::empty());
    while i < strings.len()
        invariant
            ss == texts(strings@),
            i <= strings@.len(),
            offsets@ == pool_offsets(ss.take(i as int)),
            data@ == pool_entries(ss.take(i as int)),
            offsets@.len() == 4 * i,
            forall|k: int| 0 <= k < i ==> utf16((#[trigger] strings@[k])@).len() <= 0x7fff_ffff,
            pool_fits(ss) ==> pool_entries(ss).len() + 4 * ss.len() + 28 <= u32::MAX,
            pool_fits(ss) ==> forall|k: int| 0 <= k < ss.len() ==> utf16(#[trigger] ss[k]).len() <= 0x7fff_ffff,
            forall|k: int| 0 <= k <= ss.len() ==> pool_entries(#[trigger] ss.take(k)).len() <= pool_entries(ss).len(),
        decreases strings@.len() - i,
    {
        proof {
            assert(ss.take(i + 1).drop_last() =~= ss.take(i as int));
            assert(ss.take(i + 1).last() == strings@[i as int]@);
            assert(ss[i as int] == strings@[i as int]@);
        }
        if data.len() > 0xffff_ffff {
            return Err(size_limit());
        }
        let ghost before = offsets@;
        word(&mut offsets, data.len() as u32);
        match pool_string(&mut data, &strings[i]) {
            Ok(()) => {},
            Err(e) => {
                return Err(e);
            },
        }
        i = i + 1;
    }
    proof {
        assert(ss.take(i as int) =~= ss);
    }
    let ghost entries = data@;
    pad4(&mut data)?;
    if strings.len() > 0xffff_ffff {
        return Err(size_limit());
    }
    let mut body: Vec<u8> = Vec::new();
    word(&mut body, strings.len() as u32);
    word(&mut body, 0);
    word(&mut body, 0);
    if offsets.len() > 0xffff_ffff - 28 {
        return Err(size_limit());
    }
    word(&mut body, (28 + offsets.len()) as u32);
    word(&mut body, 0);
    extend(&mut body, offsets.as_slice());
    extend(&mut body, data.as_slice());
    proof {
        reveal(pool_body_bytes);
        assert(body@ =~= pool_body_bytes(ss));
    }
    Ok(body)
}

/// A string pool chunk of UTF-16 strings, in order.
pub fn string_pool(strings: &[String]) -> (r: Result<Vec<u8>, ResourceError>)
    ensures
        r matches Ok(b) ==> b@.len() % 4 == 0 && b@.len() >= 28 && b@.subrange(0, 2) == le16(1) && b@.subrange(4, 8)
            == le32(b@.len() as u32) && b@.len() <= u32::MAX && b@ == chunk_bytes(1, 28, b@.skip(8)),
        r matches Ok(b) ==> b@ == chunk_bytes(1, 28, pool_body_bytes(texts(strings@))),
        r is Ok <==> pool_fits(texts(strings@)),
{
    proof {
        reveal(pool_fits);
        pool_body_len(texts(strings@));
    }
    let body = pool_body(strings)?;
    let ghost bb = body@;
    let out = chunk(1, 28, body)?;
    assert(out@.subrange(0, 2) =~= le16(1));
    assert(out@.subrange(4, 8) =~= le32(out@.len() as u32));
    assert(out@.skip(8) =~= bb);
    Ok(out)
}

} // verus!
