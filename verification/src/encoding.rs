//! Little-endian byte emission, LEB128 and DEX modified UTF-8 encodings.
use vstd::prelude::*;

verus! {

/// Typed failures of the DEX encoders.
#[derive(Clone, Debug, PartialEq, Eq)]
pub enum DexError {
    ArithmeticOverflow,
    InvalidAlignment(usize),
    InvalidOffset { offset: usize, width: usize },
    InvalidInput(&'static str),
    IndexOverflow(&'static str),
}

/// The two little-endian bytes of a `u16`.
pub open spec fn le16(v: u16) -> Seq<u8> {
    seq![(v % 256) as u8, (v / 256) as u8]
}

/// The four little-endian bytes of a `u32`.
pub open spec fn le32(v: u32) -> Seq<u8> {
    seq![(v % 256) as u8, ((v / 256) % 256) as u8, ((v / 65536) % 256) as u8, (v / 16777216) as u8]
}

/// `n` zero bytes.
pub open spec fn zeros(n: nat) -> Seq<u8> {
    Seq::new(n, |i: int| 0u8)
}

/// `a` is a power of two.
pub open spec fn is_pow2(a: nat) -> bool
    decreases a,
{
    if a == 1 {
        true
    } else if a == 0 || a % 2 == 1 {
        false
    } else {
        is_pow2(a / 2)
    }
}

/// Number of zero bytes that bring `pos` up to a multiple of `a`.
pub open spec fn padding(pos: nat, a: nat) -> nat {
    if a == 0 || pos % a == 0 { 0 } else { (a - pos % a) as nat }
}

/// Append-only little-endian byte buffer.
#[derive(Clone, Debug)]
pub struct ByteWriter {
    pub(crate) bytes: Vec<u8>,
}

impl View for ByteWriter {
    type V = Seq<u8>;

    closed spec fn view(&self) -> Seq<u8> {
        self.bytes@
    }
}

/// Decides `is_pow2` for a machine word.
pub fn is_power_of_two(a: usize) -> (r: bool)
    ensures
        r == is_pow2(a as nat),
{
    let mut x = a;
    while x != 1
        invariant
            is_pow2(a as nat) == is_pow2(x as nat),
        decreases x,
    {
        if x == 0 || x % 2 == 1 {
            return false;
        }
        x = x / 2;
    }
    true
}

impl ByteWriter {
    pub fn new() -> (w: Self)
        ensures
            w@ == Seq::<u8>::empty(),
    {
        ByteWriter { bytes: Vec::new() }
    }

    pub fn position(&self) -> (r: usize)
        ensures
            r == self@.len(),
    {
        self.bytes.len()
    }

    pub fn bytes(&self) -> (r: &[u8])
        ensures
            r@ == self@,
    {
        self.bytes.as_slice()
    }

    pub fn into_bytes(self) -> (r: Vec<u8>)
        ensures
            r@ == self@,
    {
        self.bytes
    }

    pub fn write_u8(&mut self, value: u8)
        ensures
            final(self)@ == old(self)@.push(value),
    {
        self.bytes.push(value);
    }

    pub fn write_u16(&mut self, value: u16)
        ensures
            final(self)@ == old(self)@ + le16(value),
    {
        self.bytes.push((value % 256) as u8);
        self.bytes.push((value / 256) as u8);
        assert(self@ =~= old(self)@ + le16(value));
    }

    pub fn write_u32(&mut self, value: u32)
        ensures
            final(self)@ == old(self)@ + le32(value),
    {
        self.bytes.push((value % 256) as u8);
        self.bytes.push(((value / 256) % 256) as u8);
        self.bytes.push(((value / 65536) % 256) as u8);
        self.bytes.push((value / 16777216) as u8);
        assert(self@ =~= old(self)@ + le32(value));
    }

    pub fn write_bytes(&mut self, value: &[u8])
        ensures
            final(self)@ == old(self)@ + value@,
    {
        let mut i: usize = 0;
        while i < value.len()
            invariant
                i <= value@.len(),
                self@ == old(self)@ + value@.take(i as int),
            decreases value@.len() - i,
        {
            self.bytes.push(value[i]);
            i = i + 1;
            assert(self@ =~= old(self)@ + value@.take(i as int));
        }
        assert(value@.take(i as int) =~= value@);
    }

    /// Pads the output with zeroes up to the requested power-of-two alignment.
    pub fn align(&mut self, alignment: usize) -> (r: Result<(), DexError>)
        ensures
            !is_pow2(alignment as nat) ==> r == Err::<(), DexError>(DexError::InvalidAlignment(alignment)) && final(self)@ == old(self)@,
            is_pow2(alignment as nat) && old(self)@.len() + padding(old(self)@.len(), alignment as nat) > usize::MAX
                ==> r == Err::<(), DexError>(DexError::ArithmeticOverflow) && final(self)@ == old(self)@,
            is_pow2(alignment as nat) && old(self)@.len() + padding(old(self)@.len(), alignment as nat) <= usize::MAX
                ==> r is Ok && final(self)@ == old(self)@ + zeros(padding(old(self)@.len(), alignment as nat)),
    {
        if !is_power_of_two(alignment) {
            return Err(DexError::InvalidAlignment(alignment));
        }
        let pos = self.bytes.len();
        let pad = if pos % alignment == 0 { 0 } else { alignment - pos % alignment };
        if pos > usize::MAX - pad {
            return Err(DexError::ArithmeticOverflow);
        }
        let mut i: usize = 0;
        while i < pad
            invariant
                i <= pad,
                pos == old(self)@.len(),
                self@ == old(self)@ + zeros(i as nat),
            decreases pad - i,
        {
            self.bytes.push(0);
            i = i + 1;
            assert(self@ =~= old(self)@ + zeros(i as nat));
        }
        Ok(())
    }

    /// Replaces a previously written little-endian `u32`.
    pub fn patch_u32(&mut self, offset: usize, value: u32) -> (r: Result<(), DexError>)
        ensures
            offset + 4 > usize::MAX ==> r == Err::<(), DexError>(DexError::ArithmeticOverflow) && final(self)@ == old(self)@,
            offset + 4 <= usize::MAX && offset + 4 > old(self)@.len()
                ==> r == Err::<(), DexError>(DexError::InvalidOffset { offset, width: 4 }) && final(self)@ == old(self)@,
            offset + 4 <= old(self)@.len() ==> r is Ok && final(self)@ == old(self)@.take(offset as int) + le32(value)
                + old(self)@.skip(offset + 4),
    {
        let len = self.bytes.len();
        if offset > usize::MAX - 4 {
            return Err(DexError::ArithmeticOverflow);
        }
        let end = offset + 4;
        if end > len {
            return Err(DexError::InvalidOffset { offset, width: 4 });
        }
        self.bytes.set(offset, (value % 256) as u8);
        self.bytes.set(offset + 1, ((value / 256) % 256) as u8);
        self.bytes.set(offset + 2, ((value / 65536) % 256) as u8);
        self.bytes.set(offset + 3, (value / 16777216) as u8);
        assert(self@ =~= old(self)@.take(offset as int) + le32(value) + old(self)@.skip(offset + 4));
        Ok(())
    }

    /// Replaces previously written bytes at `offset` with `value`.
    pub fn patch_bytes(&mut self, offset: usize, value: &[u8]) -> (r: Result<(), DexError>)
        ensures
            offset + value@.len() > old(self)@.len() ==> r == Err::<(), DexError>(DexError::InvalidOffset {
                offset,
                width: value@.len() as usize,
            }) && final(self)@ == old(self)@,
            offset + value@.len() <= old(self)@.len() ==> r is Ok && final(self)@ == old(self)@.take(offset as int)
                + value@ + old(self)@.skip(offset + value@.len()),
    {
        let len = self.bytes.len();
        if offset > len || value.len() > len - offset {
            return Err(DexError::InvalidOffset { offset, width: value.len() });
        }
        let mut i: usize = 0;
        while i < value.len()
            invariant
                i <= value@.len(),
                len == old(self)@.len(),
                offset + value@.len() <= len,
                self@.len() == old(self)@.len(),
                forall|k: int| 0 <= k < self@.len() ==> #[trigger] self@[k] == if offset <= k < offset + i {
                    value@[k - offset]
                } else {
                    old(self)@[k]
                },
            decreases value@.len() - i,
        {
            self.bytes.set(offset + i, value[i]);
            i = i + 1;
        }
        assert(self@ =~= old(self)@.take(offset as int) + value@ + old(self)@.skip(offset + value@.len()));
        Ok(())
    }
}

/// Unsigned LEB128 bytes of `v`.
pub open spec fn uleb128(v: nat) -> Seq<u8>
    decreases v,
{
    if v < 128 {
        seq![v as u8]
    } else {
        seq![(v % 128 + 128) as u8] + uleb128(v / 128)
    }
}

/// Value read back from an unsigned LEB128 byte sequence.
pub open spec fn uleb128_value(s: Seq<u8>) -> nat
    decreases s.len(),
{
    if s.len() == 0 {
        0
    } else if s[0] < 128 {
        s[0] as nat
    } else {
        ((s[0] - 128) + 128 * uleb128_value(s.drop_first())) as nat
    }
}

pub fn encode_uleb128(value: u32) -> (r: Vec<u8>)
    ensures
        r@ == uleb128(value as nat),
{
    let mut result: Vec<u8> = Vec::new();
    let mut v = value;
    loop
        invariant
            result@ + uleb128(v as nat) == uleb128(value as nat),
        decreases v,
    {
        if v < 128 {
            result.push(v as u8);
            assert(result@ == uleb128(value as nat));
            return result;
        }
        let byte = (v % 128 + 128) as u8;
        let ghost before = result@;
        result.push(byte);
        v = v / 128;
        assert(result@ + uleb128(v as nat) =~= before + uleb128((v * 128 + byte - 128) as nat));
    }
}

/// Signed LEB128 bytes of `v`: seven-bit groups of the two's complement value,
/// least significant first, ending once the rest is pure sign extension.
pub open spec fn sleb128(v: int) -> Seq<u8>
    decreases (if v < 0 { -v } else { v }),
{
    let byte = v % 128;
    let rest = v / 128;
    if (rest == 0 && byte < 64) || (rest == -1 && byte >= 64) {
        seq![byte as u8]
    } else {
        seq![(byte + 128) as u8] + sleb128(rest)
    }
}

/// Two's complement value read back from a signed LEB128 byte sequence.
pub open spec fn sleb128_value(s: Seq<u8>) -> int
    decreases s.len(),
{
    if s.len() == 0 {
        0
    } else if s[0] < 128 {
        if s[0] < 64 { s[0] as int } else { s[0] - 128 }
    } else {
        (s[0] - 128) + 128 * sleb128_value(s.drop_first())
    }
}

pub fn encode_sleb128(value: i32) -> (r: Vec<u8>)
    ensures
        r@ == sleb128(value as int),
{
    let mut result: Vec<u8> = Vec::new();
    let mut v: i64 = value as i64;
    loop
        invariant
            i32::MIN <= v <= i32::MAX,
            result@ + sleb128(v as int) == sleb128(value as int),
        decreases (if v < 0 { -(v as int) } else { v as int }),
    {
        let rest: i64 = if v >= 0 { v / 128 } else { -((-(v + 1)) / 128) - 1 };
        let byte: i64 = v - 128 * rest;
        assert(rest == (v as int) / 128 && byte == (v as int) % 128);
        let done = (rest == 0 && byte < 64) || (rest == -1 && byte >= 64);
        let ghost before = result@;
        if done {
            result.push(byte as u8);
            assert(result@ == sleb128(value as int));
            return result;
        }
        result.push((byte + 128) as u8);
        v = rest;
        assert(result@ + sleb128(v as int) =~= before + sleb128((v * 128 + byte) as int));
    }
}

/// UTF-16 code units of one Unicode scalar value.
pub open spec fn utf16_char(c: char) -> Seq<u16> {
    let v = c as u32;
    if v < 0x10000 {
        seq![v as u16]
    } else {
        seq![(0xd800 + (v - 0x10000) / 1024) as u16, (0xdc00 + (v - 0x10000) % 1024) as u16]
    }
}

/// UTF-16 code units of a character sequence.
pub open spec fn utf16(s: Seq<char>) -> Seq<u16>
    decreases s.len(),
{
    if s.len() == 0 {
        Seq::empty()
    } else {
        utf16(s.drop_last()) + utf16_char(s.last())
    }
}

/// DEX modified UTF-8 bytes of one UTF-16 code unit.
pub open spec fn mutf8_unit(u: u16) -> Seq<u8> {
    if u == 0 {
        seq![0xc0u8, 0x80u8]
    } else if u < 0x80 {
        seq![u as u8]
    } else if u < 0x800 {
        seq![(0xc0 + u / 64) as u8, (0x80 + u % 64) as u8]
    } else {
        seq![(0xe0 + u / 4096) as u8, (0x80 + (u / 64) % 64) as u8, (0x80 + u % 64) as u8]
    }
}

/// Modified UTF-8 bytes of a UTF-16 code unit sequence, without terminator.
pub open spec fn mutf8_units(us: Seq<u16>) -> Seq<u8>
    decreases us.len(),
{
    if us.len() == 0 {
        Seq::empty()
    } else {
        mutf8_units(us.drop_last()) + mutf8_unit(us.last())
    }
}

/// Characters of a string slice, in order.
pub fn chars_of(s: &str) -> (r: Vec<char>)
    ensures
        r@ == s@,
{
    broadcast use vstd::string::axiom_spec_iter;
    let mut out: Vec<char> = Vec::new();
    for c in it: s.chars()
        invariant
            it.seq() == s@,
            out@ == it.seq().take(it.index() as int),
    {
        out.push(c);
        assert(out@ =~= it.seq().take(it.index() + 1));
    }
    assert(out@ =~= s@);
    out
}

/// UTF-16 code units of a character sequence.
pub fn utf16_of_chars(cs: &Vec<char>) -> (r: Vec<u16>)
    ensures
        r@ == utf16(cs@),
{
    let mut out: Vec<u16> = Vec::new();
    let mut i: usize = 0;
    while i < cs.len()
        invariant
            i <= cs@.len(),
            out@ == utf16(cs@.take(i as int)),
        decreases cs@.len() - i,
    {
        let c = cs[i];
        let v = c as u32;
        if v < 0x10000 {
            out.push(v as u16);
        } else {
            out.push((0xd800 + (v - 0x10000) / 1024) as u16);
            out.push((0xdc00 + (v - 0x10000) % 1024) as u16);
        }
        assert(cs@.take(i + 1).drop_last() =~= cs@.take(i as int));
        i = i + 1;
        assert(out@ =~= utf16(cs@.take(i as int)));
    }
    assert(cs@.take(i as int) =~= cs@);
    out
}

/// UTF-16 code units of a string slice.
pub fn utf16_units(s: &str) -> (r: Vec<u16>)
    ensures
        r@ == utf16(s@),
{
    let cs = chars_of(s);
    utf16_of_chars(&cs)
}

/// Encodes UTF-16 code units as DEX modified UTF-8, including the terminator.
pub fn encode_mutf8(value: &str) -> (r: Vec<u8>)
    ensures
        r@ == mutf8_units(utf16(value@)).push(0),
{
    let units = utf16_units(value);
    let mut result: Vec<u8> = Vec::new();
    let mut i: usize = 0;
    while i < units.len()
        invariant
            i <= units@.len(),
            result@ == mutf8_units(units@.take(i as int)),
        decreases units@.len() - i,
    {
        let unit = units[i];
        if unit == 0 {
            result.push(0xc0);
            result.push(0x80);
        } else if unit < 0x80 {
            result.push(unit as u8);
        } else if unit < 0x800 {
            result.push((0xc0 + unit / 64) as u8);
            result.push((0x80 + unit % 64) as u8);
        } else {
            result.push((0xe0 + unit / 4096) as u8);
            result.push((0x80 + (unit / 64) % 64) as u8);
            result.push((0x80 + unit % 64) as u8);
        }
        assert(units@.take(i + 1).drop_last() =~= units@.take(i as int));
        i = i + 1;
        assert(result@ =~= mutf8_units(units@.take(i as int)));
    }
    assert(units@.take(i as int) =~= units@);
    result.push(0);
    result
}

/// Reading back an unsigned LEB128 encoding yields the encoded value, and a
/// `u32` never takes more than five bytes.
pub proof fn uleb128_roundtrip(v: nat)
    ensures
        uleb128_value(uleb128(v)) == v,
        v <= u32::MAX ==> uleb128(v).len() <= 5,
        uleb128(v).len() >= 1,
    decreases v,
{
    if v >= 128 {
        uleb128_roundtrip(v / 128);
        let s = uleb128(v);
        assert(s.drop_first() =~= uleb128(v / 128));
        if v <= u32::MAX {
            uleb128_len_bound(v / 128);
        }
    }
}

/// The byte form of unsigned LEB128: seven value bits per byte, low group first; every byte
/// but the last has its high bit set and the last has it clear.
pub proof fn uleb128_form(v: nat)
    ensures
        uleb128(v).len() >= 1,
        uleb128(v).last() < 128,
        forall|i: int| 0 <= i < uleb128(v).len() - 1 ==> #[trigger] uleb128(v)[i] >= 128,
        uleb128(v)[0] == (if v < 128 { v } else { v % 128 + 128 }),
    decreases v,
{
    if v >= 128 {
        uleb128_form(v / 128);
        let s = uleb128(v);
        let t = uleb128(v / 128);
        assert(s == seq![(v % 128 + 128) as u8] + t);
        assert forall|i: int| 0 <= i < s.len() - 1 implies #[trigger] s[i] >= 128 by {
            if i > 0 {
                assert(s[i] == t[i - 1]);
            }
        }
        assert(s.last() == t.last());
    }
}

proof fn uleb128_len_bound(v: nat)
    requires
        v < 0x10000000,
    ensures
        uleb128(v).len() <= 4,
{
    if v >= 128 {
        uleb128_len_bound3(v / 128);
        assert(uleb128(v).len() == 1 + uleb128(v / 128).len());
    }
}

proof fn uleb128_len_bound3(v: nat)
    requires
        v < 0x200000,
    ensures
        uleb128(v).len() <= 3,
{
    if v >= 128 {
        let w = v / 128;
        assert(w < 16384);
        if w >= 128 {
            assert(w / 128 < 128);
            assert(uleb128(w / 128).len() == 1);
            assert(uleb128(w).len() == 2);
        }
        assert(uleb128(v).len() == 1 + uleb128(w).len());
    }
}

/// Reading back a signed LEB128 encoding yields the encoded value.
pub proof fn sleb128_roundtrip(v: int)
    ensures
        sleb128_value(sleb128(v)) == v,
    decreases (if v < 0 { -v } else { v }),
{
    let byte = v % 128;
    let rest = v / 128;
    if !((rest == 0 && byte < 64) || (rest == -1 && byte >= 64)) {
        sleb128_roundtrip(rest);
        assert(sleb128(v).drop_first() =~= sleb128(rest));
    }
}

/// After a successful `align`, the buffer length is a multiple of the
/// alignment and fewer than `alignment` zero bytes were added.
pub proof fn align_reaches_boundary(pos: nat, a: nat)
    requires
        a > 0,
    ensures
        (pos + padding(pos, a)) % a == 0,
        padding(pos, a) < a,
{
    assert(pos % a < a);
    let p = padding(pos, a);
    if pos % a != 0 {
        let q = pos / a;
        let r = pos % a;
        assert(pos == a * q + r) by (nonlinear_arith) requires a > 0, q == pos / a, r == pos % a;
        assert(pos + p == a * q + a);
        assert((a * q + a) % a == 0) by (nonlinear_arith) requires a > 0, q >= 0;
    }
}

} // verus!
