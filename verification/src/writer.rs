//! Writer for the minimal DEX file: one class with its public constructor.
use vstd::prelude::*;
use crate::encoding::{ByteWriter, DexError, encode_mutf8, encode_uleb128, utf16, utf16_char, utf16_units,
    uleb128, mutf8_units, mutf8_unit, le16, le32, zeros, padding, uleb128_roundtrip};
use crate::integrity::{adler32, sha1, spec_adler32, spec_sha1};
use crate::ir::MinimalClass;
use crate::text::owned;

verus! {

/// Lexicographic order of UTF-16 code unit sequences, the order of DEX string ids.
pub open spec fn units_lt(a: Seq<u16>, b: Seq<u16>) -> bool
    decreases a.len(),
{
    if a.len() == 0 {
        b.len() > 0
    } else if b.len() == 0 {
        false
    } else if a[0] != b[0] {
        a[0] < b[0]
    } else {
        units_lt(a.drop_first(), b.drop_first())
    }
}

/// Distinct unit sequences are ordered one way or the other.
proof fn units_lt_total(a: Seq<u16>, b: Seq<u16>)
    requires
        a != b,
    ensures
        units_lt(a, b) || units_lt(b, a),
    decreases a.len(),
{
    if a.len() > 0 && b.len() > 0 && a[0] == b[0] {
        if a.drop_first() == b.drop_first() {
            assert(a =~= seq![a[0]] + a.drop_first());
            assert(b =~= seq![b[0]] + b.drop_first());
        }
        units_lt_total(a.drop_first(), b.drop_first());
    } else if a.len() == 0 && b.len() == 0 {
        assert(a =~= b);
    }
}

/// Whether `a` orders before `b` by UTF-16 code units.
fn units_less(a: &Vec<u16>, b: &Vec<u16>) -> (r: bool)
    ensures
        r == units_lt(a@, b@),
{
    let mut i: usize = 0;
    assert(a@.skip(0) =~= a@);
    assert(b@.skip(0) =~= b@);
    while i < a.len() && i < b.len()
        invariant
            i <= a@.len(),
            i <= b@.len(),
            units_lt(a@, b@) == units_lt(a@.skip(i as int), b@.skip(i as int)),
        decreases a@.len() - i,
    {
        if a[i] != b[i] {
            return a[i] < b[i];
        }
        assert(a@.skip(i as int).drop_first() =~= a@.skip(i + 1));
        assert(b@.skip(i as int).drop_first() =~= b@.skip(i + 1));
        i = i + 1;
    }
    i == a.len() && i < b.len()
}

/// Equality of unit sequences.
fn units_equal(a: &Vec<u16>, b: &Vec<u16>) -> (r: bool)
    ensures
        r == (a@ == b@),
{
    if a.len() != b.len() {
        return false;
    }
    let mut i: usize = 0;
    while i < a.len()
        invariant
            a@.len() == b@.len(),
            i <= a@.len(),
            a@.take(i as int) == b@.take(i as int),
        decreases a@.len() - i,
    {
        if a[i] != b[i] {
            assert(a@[i as int] != b@[i as int]);
            return false;
        }
        assert(a@.take(i + 1) =~= a@.take(i as int).push(a@[i as int]));
        assert(b@.take(i + 1) =~= b@.take(i as int).push(b@[i as int]));
        i = i + 1;
    }
    assert(a@.take(i as int) =~= a@);
    assert(b@.take(i as int) =~= b@);
    true
}

/// The first UTF-16 unit of a string starting with a basic-plane character is that character.
proof fn utf16_first(s: Seq<char>)
    requires
        s.len() > 0,
        (s[0] as u32) < 0x10000,
    ensures
        utf16(s).len() > 0,
        utf16(s)[0] == (s[0] as u32) as u16,
    decreases s.len(),
{
    let init = s.drop_last();
    if s.len() > 1 {
        assert(init[0] == s[0]);
        utf16_first(init);
    } else {
        assert(init.len() == 0);
        assert(utf16(init) =~= Seq::<u16>::empty());
        assert(utf16(s) =~= utf16_char(s[0]));
    }
}

/// Length bound of UTF-16 units.
proof fn utf16_len(s: Seq<char>)
    ensures
        s.len() <= utf16(s).len() <= 2 * s.len(),
    decreases s.len(),
{
    if s.len() > 0 {
        utf16_len(s.drop_last());
    }
}

/// Length bound of modified UTF-8 bytes.
proof fn mutf8_len(us: Seq<u16>)
    ensures
        mutf8_units(us).len() <= 3 * us.len(),
    decreases us.len(),
{
    if us.len() > 0 {
        mutf8_len(us.drop_last());
    }
}

/// The descriptor of `java.lang.Object`.
pub open spec fn object_descriptor() -> Seq<char> {
    seq!['L', 'j', 'a', 'v', 'a', '/', 'l', 'a', 'n', 'g', '/', 'O', 'b', 'j', 'e', 'c', 't', ';']
}

/// Views of a list of strings.
pub open spec fn string_views(v: Seq<String>) -> Seq<Seq<char>> {
    v.map_values(|s: String| s@)
}

/// The string ids of the minimal class `d`, by UTF-16 order.
pub open spec fn minimal_strings(d: Seq<char>) -> Seq<Seq<char>> {
    if units_lt(utf16(d), utf16(object_descriptor())) {
        seq![seq!['<', 'i', 'n', 'i', 't', '>'], d, object_descriptor(), seq!['V']]
    } else {
        seq![seq!['<', 'i', 'n', 'i', 't', '>'], object_descriptor(), d, seq!['V']]
    }
}

/// String, type, proto and method indexes of the minimal class.
pub struct Indexes {
    pub strings: Vec<String>,
    pub types: Vec<u32>,
    pub class_type: u16,
    pub object_type: u16,
    pub void_type: u16,
    pub void_string: u32,
    pub init_name: u32,
    pub own_method: u32,
    pub object_method: u32,
}

impl Indexes {
    /// The exact index tables of the class described by `d`.
    pub open spec fn of(self, d: Seq<char>) -> bool {
        let lt = units_lt(utf16(d), utf16(object_descriptor()));
        &&& string_views(self.strings@) == minimal_strings(d)
        &&& self.types@ == seq![1u32, 2, 3]
        &&& self.class_type == (if lt { 0u16 } else { 1 })
        &&& self.object_type == (if lt { 1u16 } else { 0 })
        &&& self.void_type == 2
        &&& self.void_string == 3
        &&& self.init_name == 0
        &&& self.own_method == (if lt { 0u32 } else { 1 })
        &&& self.object_method == (if lt { 1u32 } else { 0 })
    }

    /// Builds the sorted, duplicate-free string and type tables of a minimal class;
    /// a class whose descriptor is that of `java.lang.Object` is refused.
    pub fn build(class: &MinimalClass) -> (r: Result<Self, DexError>)
        ensures
            utf16(class.spec_descriptor()) == utf16(object_descriptor()) ==> r == Err::<Self, DexError>(
                DexError::InvalidInput("the generated class cannot be java.lang.Object"),
            ),
            utf16(class.spec_descriptor()) != utf16(object_descriptor()) ==> (r matches Ok(ix) && ix.of(
                class.spec_descriptor(),
            )),
            r matches Ok(ix) ==> forall|i: int| 0 <= i < ix.strings@.len() - 1 ==> units_lt(
                utf16((#[trigger] ix.strings@[i])@),
                utf16(ix.strings@[i + 1]@),
            ),
            r matches Ok(ix) ==> forall|i: int| 0 <= i < ix.types@.len() - 1 ==> #[trigger] ix.types@[i]
                < ix.types@[i + 1],
    {
        let d = class.descriptor();
        let object = "Ljava/lang/Object;";
        proof {
            reveal_strlit("Ljava/lang/Object;");
            reveal_strlit("<init>");
            reveal_strlit("V");
            assert(object@ =~= object_descriptor());
        }
        let du = utf16_units(d);
        let ou = utf16_units(object);
        if units_equal(&du, &ou) {
            return Err(DexError::InvalidInput("the generated class cannot be java.lang.Object"));
        }
        let lt = units_less(&du, &ou);
        proof {
            units_lt_total(du@, ou@);
            utf16_first(d@);
            utf16_first(object@);
            utf16_first("<init>"@);
            utf16_first("V"@);
            assert(units_lt(utf16("<init>"@), du@));
            assert(units_lt(utf16("<init>"@), ou@));
            assert(units_lt(du@, utf16("V"@)));
            assert(units_lt(ou@, utf16("V"@)));
        }
        let mut strings: Vec<String> = Vec::new();
        strings.push(owned("<init>"));
        if lt {
            strings.push(owned(d));
            strings.push(owned(object));
        } else {
            strings.push(owned(object));
            strings.push(owned(d));
        }
        strings.push(owned("V"));
        let mut types: Vec<u32> = Vec::new();
        types.push(1);
        types.push(2);
        types.push(3);
        let ix = Indexes {
            strings,
            types,
            class_type: if lt { 0 } else { 1 },
            object_type: if lt { 1 } else { 0 },
            void_type: 2,
            void_string: 3,
            init_name: 0,
            own_method: if lt { 0 } else { 1 },
            object_method: if lt { 1 } else { 0 },
        };
        proof {
            let v = string_views(ix.strings@);
            assert(v.len() == 4);
            assert(v[0] =~= seq!['<', 'i', 'n', 'i', 't', '>']);
            assert(v[3] =~= seq!['V']);
            if lt {
                assert(v[1] == class.spec_descriptor());
                assert(v[2] == object_descriptor());
            } else {
                assert(v[2] == class.spec_descriptor());
                assert(v[1] == object_descriptor());
            }
            assert(v =~= minimal_strings(class.spec_descriptor()));
            assert(ix.types@ =~= seq![1u32, 2, 3]);
        }
        Ok(ix)
    }
}

/// Bytes a string takes in the string data section: its UTF-16 length, its
/// modified UTF-8 bytes and the terminator.
pub open spec fn string_data_len(s: Seq<char>) -> nat {
    uleb128(utf16(s).len()).len() + mutf8_units(utf16(s)).len() + 1
}

/// Bytes the string data section takes.
pub open spec fn strings_len(ss: Seq<Seq<char>>) -> nat
    decreases ss.len(),
{
    if ss.len() == 0 {
        0
    } else {
        strings_len(ss.drop_last()) + string_data_len(ss.last())
    }
}

/// `x` rounded up to a multiple of four.
pub open spec fn align4(x: nat) -> nat {
    x + padding(x, 4)
}

/// Bytes the class data item takes for a constructor at `method` whose code is at `code`.
pub open spec fn class_data_len(method: u32, code: u32) -> nat {
    4 + uleb128(method as nat).len() + uleb128(0x1_0001).len() + uleb128(code as nat).len()
}

/// Offsets of the sections of the minimal DEX file.
struct Layout {
    string_ids: u32,
    type_ids: u32,
    proto_ids: u32,
    method_ids: u32,
    class_defs: u32,
    data: u32,
    string_data: u32,
    code: u32,
    class_data: u32,
    map: u32,
    file_size: u32,
    string_offsets: Vec<u32>,
}

/// The layout places each section right after the previous one.
spec fn laid_out(l: Layout, ss: Seq<Seq<char>>, nt: nat, own: u32) -> bool {
    &&& l.string_ids == 0x70
    &&& l.type_ids == 0x70 + 4 * ss.len()
    &&& l.proto_ids == l.type_ids + 4 * nt
    &&& l.method_ids == l.proto_ids + 12
    &&& l.class_defs == l.method_ids + 16
    &&& l.data == l.class_defs + 32
    &&& l.string_data == l.data
    &&& l.string_offsets@.len() == ss.len()
    &&& forall|k: int| 0 <= k < ss.len() ==> #[trigger] l.string_offsets@[k] == l.string_data + strings_len(ss.take(k))
    &&& l.code == align4((l.string_data + strings_len(ss)) as nat)
    &&& l.class_data == l.code + 24
    &&& l.map == align4((l.class_data + class_data_len(own, l.code)) as nat)
    &&& l.file_size == l.map + 124
}

fn to_u32(value: usize) -> (r: Result<u32, DexError>)
    ensures
        value <= u32::MAX ==> r == Ok::<u32, DexError>(value as u32),
        value > u32::MAX ==> r == Err::<u32, DexError>(DexError::ArithmeticOverflow),
{
    if value > 0xffff_ffff {
        Err(DexError::ArithmeticOverflow)
    } else {
        Ok(value as u32)
    }
}

fn add_u32(a: u32, b: u32) -> (r: Result<u32, DexError>)
    ensures
        a + b <= u32::MAX ==> r == Ok::<u32, DexError>((a + b) as u32),
        a + b > u32::MAX ==> r == Err::<u32, DexError>(DexError::ArithmeticOverflow),
{
    match a.checked_add(b) {
        Some(v) => Ok(v),
        None => Err(DexError::ArithmeticOverflow),
    }
}

/// Rounds up to a multiple of four.
fn align_up4(x: u32) -> (r: Result<u32, DexError>)
    ensures
        x + 3 <= u32::MAX ==> r == Ok::<u32, DexError>(align4(x as nat) as u32),
        x + 3 > u32::MAX ==> r == Err::<u32, DexError>(DexError::ArithmeticOverflow),
{
    if x > 0xffff_fffc {
        return Err(DexError::ArithmeticOverflow);
    }
    let y: u32 = x + 3;
    let r: u32 = y & !3u32;
    assert(r == x + (if x % 4 == 0 { 0u32 } else { (4 - x % 4) as u32 })) by (bit_vector)
        requires
            x <= 0xffff_fffc,
            y == x + 3,
            r == y & !3u32,
    ;
    Ok(r)
}

/// Bytes one string takes in the string data section.
fn string_data_size(s: &String) -> (r: Result<u32, DexError>)
    ensures
        r matches Ok(v) ==> v == string_data_len(s@),
        string_data_len(s@) <= u32::MAX && utf16(s@).len() <= u32::MAX ==> r is Ok,
        r is Err ==> r == Err::<u32, DexError>(DexError::ArithmeticOverflow),
{
    let units = utf16_units(s.as_str());
    let n = to_u32(units.len())?;
    let a = to_u32(encode_uleb128(n).len())?;
    let b = to_u32(encode_mutf8(s.as_str()).len())?;
    add_u32(a, b)
}

proof fn string_data_len_bound(s: Seq<char>)
    requires
        s.len() <= 0x100_0000,
    ensures
        utf16(s).len() <= 0x200_0000,
        string_data_len(s) <= 6 * s.len() + 6,
{
    utf16_len(s);
    mutf8_len(utf16(s));
    uleb128_roundtrip(utf16(s).len());
}

proof fn strings_len_bound(ss: Seq<Seq<char>>)
    requires
        forall|i: int| 0 <= i < ss.len() ==> (#[trigger] ss[i]).len() <= 0x100_0000,
    ensures
        strings_len(ss) <= ss.len() * 0x600_0006,
    decreases ss.len(),
{
    if ss.len() > 0 {
        strings_len_bound(ss.drop_last());
        string_data_len_bound(ss.last());
    }
}

/// Computes the section offsets for the index tables `ix`.
#[verifier::rlimit(30)]
fn layout(ix: &Indexes) -> (r: Result<Layout, DexError>)
    ensures
        r matches Ok(l) ==> laid_out(l, string_views(ix.strings@), ix.types@.len(), ix.own_method),
        ix.strings@.len() <= 4 && ix.types@.len() <= 4 && (forall|i: int| 0 <= i < ix.strings@.len()
            ==> (#[trigger] ix.strings@[i])@.len() <= 0x100_0000) ==> (r matches Ok(l) && l.file_size <= 0x2000_0000),
{
    let ghost ss = string_views(ix.strings@);
    let ns = to_u32(ix.strings.len())?;
    let nt = to_u32(ix.types.len())?;
    if ns > 0x1000_0000 || nt > 0x1000_0000 {
        return Err(DexError::ArithmeticOverflow);
    }
    let string_ids: u32 = 0x70;
    let type_ids = add_u32(string_ids, ns * 4)?;
    let proto_ids = add_u32(type_ids, nt * 4)?;
    let method_ids = add_u32(proto_ids, 12)?;
    let class_defs = add_u32(method_ids, 16)?;
    let data = add_u32(class_defs, 32)?;
    let string_data = data;
    let mut cursor = string_data;
    let mut offsets: Vec<u32> = Vec::new();
    let mut i: usize = 0;
    proof {
        if ix.strings@.len() <= 4 && (forall|i: int| 0 <= i < ix.strings@.len()
            ==> (#[trigger] ix.strings@[i])@.len() <= 0x100_0000) {
            assert forall|i: int| 0 <= i < ss.len() implies (#[trigger] ss[i]).len() <= 0x100_0000 by {
                assert(ss[i] == ix.strings@[i]@);
            }
            strings_len_bound(ss);
        }
    }
    while i < ix.strings.len()
        invariant
            ss == string_views(ix.strings@),
            i <= ss.len(),
            offsets@.len() == i,
            forall|k: int| 0 <= k < i ==> #[trigger] offsets@[k] == string_data + strings_len(ss.take(k)),
            cursor == string_data + strings_len(ss.take(i as int)),
            ns == ss.len(),
            nt == ix.types@.len(),
            string_data == 0x70 + 4 * ns + 4 * nt + 60,
            ix.strings@.len() <= 4 && (forall|j: int| 0 <= j < ix.strings@.len()
                ==> (#[trigger] ix.strings@[j])@.len() <= 0x100_0000) ==> strings_len(ss) <= ss.len() * 0x600_0006,
        decreases ss.len() - i,
    {
        offsets.push(cursor);
        proof {
            assert(ss.take(i + 1).drop_last() =~= ss.take(i as int));
            assert(ss.take(i + 1).last() == ss[i as int]);
            assert(ss[i as int] == ix.strings@[i as int]@);
            if ix.strings@.len() <= 4 && (forall|j: int| 0 <= j < ix.strings@.len()
                ==> (#[trigger] ix.strings@[j])@.len() <= 0x100_0000) {
                string_data_len_bound(ss[i as int]);
                strings_len_prefix(ss, i + 1);
            }
        }
        let size = string_data_size(&ix.strings[i])?;
        cursor = add_u32(cursor, size)?;
        i = i + 1;
    }
    proof {
        assert(ss.take(i as int) =~= ss);
    }
    let code = align_up4(cursor)?;
    let class_data = add_u32(code, 24)?;
    proof {
        uleb128_roundtrip(ix.own_method as nat);
        uleb128_roundtrip(0x1_0001);
        uleb128_roundtrip(code as nat);
    }
    let own_len = to_u32(encode_uleb128(ix.own_method).len())?;
    let flags_len = to_u32(encode_uleb128(0x1_0001).len())?;
    let code_len = to_u32(encode_uleb128(code).len())?;
    let end = add_u32(add_u32(add_u32(add_u32(class_data, 4)?, own_len)?, flags_len)?, code_len)?;
    let map = align_up4(end)?;
    let file_size = add_u32(map, 124)?;
    Ok(Layout {
        string_ids,
        type_ids,
        proto_ids,
        method_ids,
        class_defs,
        data,
        string_data,
        code,
        class_data,
        map,
        file_size,
        string_offsets: offsets,
    })
}

/// The string data of a prefix takes no more than that of the whole.
proof fn strings_len_prefix(ss: Seq<Seq<char>>, n: int)
    requires
        0 <= n <= ss.len(),
    ensures
        strings_len(ss.take(n)) <= strings_len(ss),
    decreases ss.len() - n,
{
    if n < ss.len() {
        strings_len_prefix(ss, n + 1);
        assert(ss.take(n + 1).drop_last() =~= ss.take(n));
    } else {
        assert(ss.take(n) =~= ss);
    }
}

/// The DEX 035 file magic, `dex\n035\0`.
pub open spec fn dex_magic() -> Seq<u8> {
    seq![0x64u8, 0x65, 0x78, 0x0a, 0x30, 0x33, 0x35, 0x00]
}

/// What a DEX file states of itself in its header: magic, checksum, signature,
/// file size, header size, byte order tag, and a word-aligned map at the end.
pub open spec fn dex_header_ok(b: Seq<u8>) -> bool {
    &&& b.len() >= 0x70
    &&& b.take(8) == dex_magic()
    &&& b.subrange(8, 12) == le32(spec_adler32(b.skip(12)))
    &&& b.subrange(12, 32) == spec_sha1(b.skip(32))
    &&& b.len() <= u32::MAX
    &&& b.subrange(32, 36) == le32(b.len() as u32)
    &&& b.subrange(36, 40) == le32(0x70)
    &&& b.subrange(40, 44) == le32(0x1234_5678)
    &&& exists|m: u32| b.subrange(52, 56) == le32(m) && m % 4 == 0 && m + 124 == b.len()
}

proof fn padding_shift(x: nat)
    ensures
        padding(x + 0x70, 4) == padding(x, 4),
{
    assert((x + 0x70) % 4 == x % 4);
}

proof fn four_is_pow2()
    ensures
        crate::encoding::is_pow2(4),
{
    assert(crate::encoding::is_pow2(1));
    assert(crate::encoding::is_pow2(2));
}

/// Little-endian words, in order.
pub open spec fn le32s(v: Seq<u32>) -> Seq<u8>
    decreases v.len(),
{
    if v.len() == 0 {
        Seq::empty()
    } else {
        le32s(v.drop_last()) + le32(v.last())
    }
}

/// One string data item: the UTF-16 length and the terminated modified UTF-8 bytes.
pub open spec fn string_item(s: Seq<char>) -> Seq<u8> {
    uleb128(utf16(s).len()) + mutf8_units(utf16(s)).push(0)
}

/// The string data items, in order.
pub open spec fn string_items(ss: Seq<Seq<char>>) -> Seq<u8>
    decreases ss.len(),
{
    if ss.len() == 0 {
        Seq::empty()
    } else {
        string_items(ss.drop_last()) + string_item(ss.last())
    }
}

/// One map list entry.
pub open spec fn map_item(kind: u16, count: u32, offset: u32) -> Seq<u8> {
    le16(kind) + le16(0) + le32(count) + le32(offset)
}

/// Offset of the string data, right after the id tables and the class definition.
pub open spec fn string_data_offset() -> nat {
    0x70 + 16 + 12 + 12 + 16 + 32
}

/// Offset of the constructor's code item.
pub open spec fn code_offset(d: Seq<char>) -> nat {
    align4(string_data_offset() + strings_len(minimal_strings(d)))
}

/// Offset of the class data item.
pub open spec fn class_data_offset(d: Seq<char>) -> nat {
    code_offset(d) + 24
}

/// The class sorts before `java.lang.Object` and so takes type and method index 0.
pub open spec fn class_first(d: Seq<char>) -> bool {
    units_lt(utf16(d), utf16(object_descriptor()))
}

/// Method index of the class's constructor.
pub open spec fn own_method(d: Seq<char>) -> u32 {
    if class_first(d) { 0 } else { 1 }
}

/// Offset of the map list.
pub open spec fn map_offset(d: Seq<char>) -> nat {
    align4(class_data_offset(d) + class_data_len(own_method(d), code_offset(d) as u32))
}

/// Size of the whole file.
pub open spec fn dex_size(d: Seq<char>) -> nat {
    map_offset(d) + 124
}

/// Offsets of the string data items.
pub open spec fn string_offsets(d: Seq<char>) -> Seq<u32> {
    Seq::new(4, |k: int| (string_data_offset() + strings_len(minimal_strings(d).take(k))) as u32)
}

/// The constructor's code: it calls `Object.<init>` on `this` and returns.
pub open spec fn code_item(object_method: u16) -> Seq<u8> {
    le16(1) + le16(1) + le16(1) + le16(0) + le32(0) + le32(4) + le16(0x1070) + le16(object_method) + le16(0) + le16(
        0x000e,
    )
}

/// The class data: no fields, one direct method, the public constructor, and no virtual methods.
pub open spec fn class_data(own: u32, code: u32) -> Seq<u8> {
    seq![0u8, 0, 1, 0] + uleb128(own as nat) + uleb128(0x1_0001) + uleb128(code as nat)
}

/// Type index of the class.
pub open spec fn class_type(d: Seq<char>) -> u32 {
    if class_first(d) { 0 } else { 1 }
}

/// Type index of `java.lang.Object`.
pub open spec fn object_type(d: Seq<char>) -> u32 {
    if class_first(d) { 1 } else { 0 }
}

/// The id tables and the class definition: string ids, the three type ids, the `()V`
/// proto, the two constructors' method ids, and the public class extending `Object`.
pub open spec fn dex_ids(d: Seq<char>) -> Seq<u8> {
    le32s(string_offsets(d)) + le32s(seq![1u32, 2, 3]) + (le32(3) + le32(2) + le32(0)) + (le16(0) + le16(0) + le32(0)
        + le16(1) + le16(0) + le32(0)) + (le32(class_type(d)) + le32(0x0001) + le32(object_type(d)) + le32(0) + le32(
        0xffff_ffff,
    ) + le32(0) + le32(class_data_offset(d) as u32) + le32(0))
}

/// The map list of the ten sections, with the code, class data and map at the offsets given.
pub open spec fn map_list(code: u32, class_data: u32, map: u32) -> Seq<u8> {
    le32(10) + map_item(0x0000, 1, 0) + map_item(0x0001, 4, 0x70) + map_item(0x0002, 3, 0x80) + map_item(0x0003, 1, 0x8c)
        + map_item(0x0005, 2, 0x98) + map_item(0x0006, 1, 0xa8) + map_item(0x2002, 4, 0xc8) + map_item(0x2001, 1, code)
        + map_item(0x2000, 1, class_data) + map_item(0x1000, 1, map)
}

/// The map list of the minimal DEX file of the class `d`.
pub open spec fn dex_map(d: Seq<char>) -> Seq<u8> {
    map_list(code_offset(d) as u32, class_data_offset(d) as u32, map_offset(d) as u32)
}

/// Everything after the header of the minimal DEX file of the class `d`: the id tables and
/// class definition, string data, padding, code, class data, padding and map.
#[verifier::opaque]
pub open spec fn dex_body(d: Seq<char>) -> Seq<u8> {
    let ss = minimal_strings(d);
    let after_strings = string_data_offset() + strings_len(ss);
    let after_class_data = class_data_offset(d) + class_data_len(own_method(d), code_offset(d) as u32);
    dex_ids(d) + string_items(ss) + zeros(padding(after_strings, 4)) + code_item(object_type(d) as u16) + class_data(
        own_method(d),
        code_offset(d) as u32,
    ) + zeros(padding(after_class_data, 4)) + dex_map(d)
}

/// The header of the minimal DEX file of the class `d`, its checksum and signature zero.
#[verifier::opaque]
pub open spec fn dex_header(d: Seq<char>) -> Seq<u8> {
    dex_magic() + le32(0) + zeros(20) + le32(dex_size(d) as u32) + le32(0x70) + le32(0x1234_5678) + le32(0) + le32(0)
        + le32(map_offset(d) as u32) + le32(4) + le32(0x70) + le32(3) + le32(0x80) + le32(1) + le32(0x8c)
        + le32(0) + le32(0) + le32(2) + le32(0x98) + le32(1) + le32(0xa8) + le32(
        (dex_size(d) - string_data_offset()) as u32,
    ) + le32(string_data_offset() as u32)
}

/// `b` with its SHA-1 signature over bytes 32 on, then its Adler-32 checksum over bytes 12 on.
pub open spec fn sealed_bytes(b: Seq<u8>) -> Seq<u8> {
    let s = b.take(12) + spec_sha1(b.skip(32)) + b.skip(32);
    s.take(8) + le32(spec_adler32(s.skip(12))) + s.skip(12)
}

/// The minimal DEX file of the class `d`.
pub open spec fn minimal_dex(d: Seq<char>) -> Seq<u8> {
    sealed_bytes(dex_header(d) + dex_body(d))
}

/// Appends a section's size and offset.
fn write_size_offset(out: &mut ByteWriter, size: usize, offset: u32) -> (r: Result<(), DexError>)
    ensures
        size <= u32::MAX ==> r is Ok && final(out)@ == old(out)@ + le32(size as u32) + le32(offset),
        size > u32::MAX ==> r == Err::<(), DexError>(DexError::ArithmeticOverflow),
{
    out.write_u32(to_u32(size)?);
    out.write_u32(offset);
    Ok(())
}

/// Appends one map entry.
fn write_section(out: &mut ByteWriter, kind: u16, count: u32, offset: u32)
    ensures
        final(out)@ == old(out)@ + map_item(kind, count, offset),
{
    let ghost start = out@;
    out.write_u16(kind);
    out.write_u16(0);
    out.write_u32(count);
    out.write_u32(offset);
    assert(out@ =~= start + map_item(kind, count, offset));
}

proof fn le32s_len(v: Seq<u32>)
    ensures
        le32s(v).len() == 4 * v.len(),
    decreases v.len(),
{
    if v.len() > 0 {
        le32s_len(v.drop_last());
    }
}

/// The id tables and the class definition.
#[verifier::spinoff_prover]
fn write_ids(ix: &Indexes, l: &Layout, Ghost(d): Ghost<Seq<char>>) -> (w: ByteWriter)
    requires
        ix.of(d),
        laid_out(*l, string_views(ix.strings@), ix.types@.len(), ix.own_method),
    ensures
        w@ == dex_ids(d),
        w@.len() + 0x70 == l.string_data,
{
    let mut w = ByteWriter::new();
    let mut k: usize = 0;
    while k < l.string_offsets.len()
        invariant
            k <= l.string_offsets@.len(),
            w@ == le32s(l.string_offsets@.take(k as int)),
        decreases l.string_offsets@.len() - k,
    {
        w.write_u32(l.string_offsets[k]);
        assert(l.string_offsets@.take(k + 1).drop_last() =~= l.string_offsets@.take(k as int));
        k = k + 1;
    }
    assert(l.string_offsets@.take(k as int) =~= string_offsets(d));
    let ghost part = w@;
    let mut k: usize = 0;
    while k < ix.types.len()
        invariant
            k <= ix.types@.len(),
            w@ == part + le32s(ix.types@.take(k as int)),
        decreases ix.types@.len() - k,
    {
        w.write_u32(ix.types[k]);
        assert(ix.types@.take(k + 1).drop_last() =~= ix.types@.take(k as int));
        assert(w@ =~= part + le32s(ix.types@.take(k + 1)));
        k = k + 1;
    }
    assert(ix.types@.take(k as int) =~= seq![1u32, 2, 3]);
    let ghost tables = w@;
    w.write_u32(ix.void_string);
    w.write_u32(ix.void_type as u32);
    w.write_u32(0);
    let ghost part = w@;
    let (first, second) = if ix.class_type < ix.object_type {
        (ix.class_type, ix.object_type)
    } else {
        (ix.object_type, ix.class_type)
    };
    w.write_u16(first);
    w.write_u16(0);
    w.write_u32(ix.init_name);
    w.write_u16(second);
    w.write_u16(0);
    w.write_u32(ix.init_name);
    let ghost part2 = w@;
    w.write_u32(ix.class_type as u32);
    w.write_u32(0x0001);
    w.write_u32(ix.object_type as u32);
    w.write_u32(0);
    w.write_u32(0xffff_ffff);
    w.write_u32(0);
    w.write_u32(l.class_data);
    w.write_u32(0);
    proof {
        assert(part =~= tables + (le32(3) + le32(2) + le32(0)));
        assert(part2 =~= part + (le16(0) + le16(0) + le32(0) + le16(1) + le16(0) + le32(0)));
        assert(w@ =~= part2 + (le32(class_type(d)) + le32(0x0001) + le32(object_type(d)) + le32(0) + le32(0xffff_ffff)
            + le32(0) + le32(class_data_offset(d) as u32) + le32(0)));
        le32s_len(string_offsets(d));
        le32s_len(seq![1u32, 2, 3]);
    }
    w
}

/// The string data items and the padding after them.
#[verifier::spinoff_prover]
fn write_strings(w: &mut ByteWriter, ix: &Indexes, l: &Layout) -> (r: Result<(), DexError>)
    requires
        laid_out(*l, string_views(ix.strings@), ix.types@.len(), ix.own_method),
        old(w)@.len() + 0x70 == l.string_data,
    ensures
        r matches Ok(_) ==> final(w)@ == old(w)@ + string_items(string_views(ix.strings@)) + zeros(
            padding((l.string_data + strings_len(string_views(ix.strings@))) as nat, 4),
        ) && final(w)@.len() + 0x70 == l.code,
        r is Err ==> r == Err::<(), DexError>(DexError::ArithmeticOverflow),
        (forall|i: int| 0 <= i < ix.strings@.len() ==> (#[trigger] ix.strings@[i])@.len() <= 0x100_0000) ==> r is Ok,
{
    let ghost ss = string_views(ix.strings@);
    let ghost start = w@;
    proof {
        if forall|j: int| 0 <= j < ix.strings@.len() ==> (#[trigger] ix.strings@[j])@.len() <= 0x100_0000 {
            assert forall|j: int| 0 <= j < ss.len() implies (#[trigger] ss[j]).len() <= 0x100_0000 by {
                assert(ss[j] == ix.strings@[j]@);
            }
            strings_len_bound(ss);
        }
        assert(ss.take(0) =~= Seq::<Seq<char>>::empty());
        assert(start + string_items(ss.take(0)) =~= start);
    }
    let mut i: usize = 0;
    while i < ix.strings.len()
        invariant
            ss == string_views(ix.strings@),
            laid_out(*l, ss, ix.types@.len(), ix.own_method),
            i <= ss.len(),
            w@.len() + 0x70 == l.string_data + strings_len(ss.take(i as int)),
            w@ == start + string_items(ss.take(i as int)),
            (forall|j: int| 0 <= j < ix.strings@.len() ==> (#[trigger] ix.strings@[j])@.len() <= 0x100_0000)
                ==> strings_len(ss) <= ss.len() * 0x600_0006,
        decreases ss.len() - i,
    {
        let s = &ix.strings[i];
        proof {
            assert(ss.take(i + 1).drop_last() =~= ss.take(i as int));
            assert(ss.take(i + 1).last() == ss[i as int]);
            assert(ss[i as int] == s@);
            if forall|j: int| 0 <= j < ix.strings@.len() ==> (#[trigger] ix.strings@[j])@.len() <= 0x100_0000 {
                string_data_len_bound(s@);
            }
        }
        let n16 = to_u32(utf16_units(s.as_str()).len())?;
        w.write_bytes(encode_uleb128(n16).as_slice());
        w.write_bytes(encode_mutf8(s.as_str()).as_slice());
        assert(w@ =~= start + string_items(ss.take(i + 1)));
        i = i + 1;
    }
    proof {
        assert(ss.take(i as int) =~= ss);
        padding_shift(w@.len());
        four_is_pow2();
    }
    w.align(4)?;
    Ok(())
}

/// The constructor's code item, the class data and the padding after them.
#[verifier::spinoff_prover]
fn write_code(w: &mut ByteWriter, ix: &Indexes, l: &Layout, Ghost(d): Ghost<Seq<char>>) -> (r: Result<(), DexError>)
    requires
        ix.of(d),
        laid_out(*l, string_views(ix.strings@), ix.types@.len(), ix.own_method),
        old(w)@.len() + 0x70 == l.code,
    ensures
        r matches Ok(_) ==> final(w)@ == old(w)@ + code_item(object_type(d) as u16) + class_data(
            own_method(d),
            code_offset(d) as u32,
        ) + zeros(padding((l.class_data + class_data_len(ix.own_method, l.code)) as nat, 4)) && final(w)@.len() + 0x70
            == l.map,
        r is Err ==> r == Err::<(), DexError>(DexError::ArithmeticOverflow),
        old(w)@.len() + 0x70 <= 0x2000_0000 ==> r is Ok,
{
    let ghost start = w@;
    w.write_u16(1);
    w.write_u16(1);
    w.write_u16(1);
    w.write_u16(0);
    w.write_u32(0);
    w.write_u32(4);
    w.write_u16(0x1070);
    w.write_u16(ix.object_method as u16);
    w.write_u16(0);
    w.write_u16(0x000e);
    let ghost part = w@;
    w.write_u8(0);
    w.write_u8(0);
    w.write_u8(1);
    w.write_u8(0);
    proof {
        uleb128_roundtrip(ix.own_method as nat);
        uleb128_roundtrip(0x1_0001);
        uleb128_roundtrip(l.code as nat);
    }
    w.write_bytes(encode_uleb128(ix.own_method).as_slice());
    w.write_bytes(encode_uleb128(0x1_0001).as_slice());
    w.write_bytes(encode_uleb128(l.code).as_slice());
    proof {
        assert(part =~= start + code_item(object_type(d) as u16));
        assert(w@ =~= part + class_data(own_method(d), code_offset(d) as u32));
        padding_shift(w@.len());
        four_is_pow2();
    }
    w.align(4)?;
    Ok(())
}

/// The map list.
#[verifier::spinoff_prover]
fn write_map(w: &mut ByteWriter, ix: &Indexes, l: &Layout) -> (r: Result<(), DexError>)
    requires
        laid_out(*l, string_views(ix.strings@), ix.types@.len(), ix.own_method),
        ix.strings@.len() == 4,
        ix.types@.len() == 3,
    ensures
        r is Ok,
        final(w)@ == old(w)@ + map_list(l.code, l.class_data, l.map),
{
    let ghost start = w@;
    let ns = to_u32(ix.strings.len())?;
    let nt = to_u32(ix.types.len())?;
    w.write_u32(10);
    write_section(w, 0x0000, 1, 0);
    write_section(w, 0x0001, ns, l.string_ids);
    write_section(w, 0x0002, nt, l.type_ids);
    write_section(w, 0x0003, 1, l.proto_ids);
    write_section(w, 0x0005, 2, l.method_ids);
    write_section(w, 0x0006, 1, l.class_defs);
    write_section(w, 0x2002, ns, l.string_data);
    write_section(w, 0x2001, 1, l.code);
    write_section(w, 0x2000, 1, l.class_data);
    write_section(w, 0x1000, 1, l.map);
    assert(w@ =~= start + map_list(l.code, l.class_data, l.map));
    Ok(())
}

/// The offsets a layout of the minimal class's tables gives are those of the class.
proof fn layout_offsets(l: Layout, d: Seq<char>)
    requires
        laid_out(l, minimal_strings(d), 3, own_method(d)),
    ensures
        l.string_data == string_data_offset(),
        l.code == code_offset(d),
        l.class_data == class_data_offset(d),
        l.map == map_offset(d),
        l.file_size == dex_size(d),
{
}

/// Everything after the header: id tables, string data, code, class data and map.
#[verifier::spinoff_prover]
fn write_body(ix: &Indexes, l: &Layout, Ghost(d): Ghost<Seq<char>>) -> (r: Result<ByteWriter, DexError>)
    requires
        ix.of(d),
        laid_out(*l, string_views(ix.strings@), ix.types@.len(), ix.own_method),
    ensures
        r matches Ok(w) ==> w@.len() + 0x70 == l.file_size && w@ == dex_body(d),
        r is Err ==> r == Err::<ByteWriter, DexError>(DexError::ArithmeticOverflow),
        (forall|i: int| 0 <= i < ix.strings@.len() ==> (#[trigger] ix.strings@[i])@.len() <= 0x100_0000) ==> r is Ok,
{
    let mut w = write_ids(ix, l, Ghost(d));
    let ghost ids = w@;
    write_strings(&mut w, ix, l)?;
    let ghost strings = w@;
    proof {
        if forall|i: int| 0 <= i < ix.strings@.len() ==> (#[trigger] ix.strings@[i])@.len() <= 0x100_0000 {
            let ss = string_views(ix.strings@);
            assert forall|j: int| 0 <= j < ss.len() implies (#[trigger] ss[j]).len() <= 0x100_0000 by {
                assert(ss[j] == ix.strings@[j]@);
            }
            strings_len_bound(ss);
        }
    }
    write_code(&mut w, ix, l, Ghost(d))?;
    let ghost code = w@;
    proof {
        assert(string_views(ix.strings@) == minimal_strings(d));
        assert(string_views(ix.strings@).len() == ix.strings@.len());
        layout_offsets(*l, d);
    }
    write_map(&mut w, ix, l)?;
    proof {
        reveal(dex_body);
        assert(w@ =~= dex_body(d));
    }
    Ok(w)
}

/// The header before its checksum and signature are filled in.
#[verifier::rlimit(30)]
fn write_header(ix: &Indexes, l: &Layout, Ghost(d): Ghost<Seq<char>>) -> (r: Result<ByteWriter, DexError>)
    requires
        laid_out(*l, string_views(ix.strings@), ix.types@.len(), ix.own_method),
        ix.of(d),
    ensures
        r matches Ok(h) ==> h@ == dex_header(d),
        r matches Ok(h) ==> h@.len() == 0x70 && h@.take(8) == dex_magic() && h@.subrange(32, 36) == le32(l.file_size)
            && h@.subrange(36, 40) == le32(0x70) && h@.subrange(40, 44) == le32(0x1234_5678) && h@.subrange(52, 56)
            == le32(l.map),
        r is Err ==> r == Err::<ByteWriter, DexError>(DexError::ArithmeticOverflow),
        ix.strings@.len() <= u32::MAX && ix.types@.len() <= u32::MAX ==> r is Ok,
{
    let mut h = ByteWriter::new();
    h.write_u8(0x64);
    h.write_u8(0x65);
    h.write_u8(0x78);
    h.write_u8(0x0a);
    h.write_u8(0x30);
    h.write_u8(0x33);
    h.write_u8(0x35);
    h.write_u8(0x00);
    let ghost magic = h@;
    assert(magic =~= dex_magic());
    h.write_u32(0);
    let mut k: usize = 0;
    while k < 20
        invariant
            k <= 20,
            h@.len() == 12 + k,
            h@.take(8) == magic,
            h@ == magic + le32(0) + zeros(k as nat),
        decreases 20 - k,
    {
        h.write_u8(0);
        assert(h@.take(8) =~= magic);
        k = k + 1;
        assert(h@ =~= magic + le32(0) + zeros(k as nat));
    }
    let ghost before = h@;
    h.write_u32(l.file_size);
    h.write_u32(0x70);
    h.write_u32(0x1234_5678);
    h.write_u32(0);
    h.write_u32(0);
    h.write_u32(l.map);
    let ghost fixed = h@;
    assert(fixed.take(8) =~= magic);
    assert(fixed.subrange(32, 36) =~= le32(l.file_size));
    assert(fixed.subrange(36, 40) =~= le32(0x70));
    assert(fixed.subrange(40, 44) =~= le32(0x1234_5678));
    assert(fixed.subrange(52, 56) =~= le32(l.map));
    write_size_offset(&mut h, ix.strings.len(), l.string_ids)?;
    write_size_offset(&mut h, ix.types.len(), l.type_ids)?;
    write_size_offset(&mut h, 1, l.proto_ids)?;
    write_size_offset(&mut h, 0, 0)?;
    write_size_offset(&mut h, 2, l.method_ids)?;
    write_size_offset(&mut h, 1, l.class_defs)?;
    h.write_u32(l.file_size - l.data);
    h.write_u32(l.data);
    assert(h@.take(56) =~= fixed);
    assert(h@.take(8) =~= h@.take(56).take(8));
    assert(h@.subrange(32, 36) =~= h@.take(56).subrange(32, 36));
    assert(h@.subrange(36, 40) =~= h@.take(56).subrange(36, 40));
    assert(h@.subrange(40, 44) =~= h@.take(56).subrange(40, 44));
    assert(h@.subrange(52, 56) =~= h@.take(56).subrange(52, 56));
    proof {
        reveal(dex_header);
        assert(string_views(ix.strings@) == minimal_strings(d));
        layout_offsets(*l, d);
        assert(h@ =~= dex_header(d));
    }
    Ok(h)
}

/// Patching bytes 8 to 32 leaves the rest of a byte sequence as it was.
proof fn patch_keeps(b0: Seq<u8>, b1: Seq<u8>, b2: Seq<u8>, sig: Seq<u8>, sum: u32)
    requires
        b0.len() >= 0x70,
        sig.len() == 20,
        b1 == b0.take(12) + sig + b0.skip(32),
        b2 == b1.take(8) + le32(sum) + b1.skip(12),
    ensures
        b2.len() == b0.len(),
        b2.skip(32) == b0.skip(32),
        b2.skip(12) == b1.skip(12),
        b2.subrange(12, 32) == sig,
        b2.subrange(8, 12) == le32(sum),
        b2.take(8) == b0.take(8),
        b2.subrange(32, 56) == b0.subrange(32, 56),
{
    assert(b1.skip(32) =~= b0.skip(32));
    assert(b2.skip(12) =~= b1.skip(12));
    assert(b2.skip(32) =~= b0.skip(32));
    assert(b2.subrange(12, 32) =~= sig);
    assert(b2.subrange(8, 12) =~= le32(sum));
    assert(b2.take(8) =~= b0.take(8));
    assert(b2.subrange(32, 56) =~= b0.subrange(32, 56));
}

/// The header fields at 32 to 56 read back from that range.
proof fn header_fields(b: Seq<u8>, fixed: Seq<u8>)
    requires
        b.len() >= 56,
        b.subrange(32, 56) == fixed,
    ensures
        b.subrange(32, 36) == fixed.subrange(0, 4),
        b.subrange(36, 40) == fixed.subrange(4, 8),
        b.subrange(40, 44) == fixed.subrange(8, 12),
        b.subrange(52, 56) == fixed.subrange(20, 24),
{
    assert(b.subrange(32, 36) =~= fixed.subrange(0, 4));
    assert(b.subrange(36, 40) =~= fixed.subrange(4, 8));
    assert(b.subrange(40, 44) =~= fixed.subrange(8, 12));
    assert(b.subrange(52, 56) =~= fixed.subrange(20, 24));
}

/// Filling in the signature and then the checksum leaves a header that states them.
proof fn sealed(head: Seq<u8>, b0: Seq<u8>, b1: Seq<u8>, b2: Seq<u8>, sig: Seq<u8>, sum: u32, map: u32)
    requires
        head.len() == 0x70,
        head.take(8) == dex_magic(),
        head.subrange(32, 36) == le32(b0.len() as u32),
        head.subrange(36, 40) == le32(0x70),
        head.subrange(40, 44) == le32(0x1234_5678),
        head.subrange(52, 56) == le32(map),
        map % 4 == 0,
        map + 124 == b0.len(),
        b0.len() <= u32::MAX,
        b0.take(0x70) == head,
        sig.len() == 20,
        sig == spec_sha1(b0.skip(32)),
        b1 == b0.take(12) + sig + b0.skip(32),
        sum == spec_adler32(b1.skip(12)),
        b2 == b1.take(8) + le32(sum) + b1.skip(12),
    ensures
        dex_header_ok(b2),
{
    patch_keeps(b0, b1, b2, sig, sum);
    assert(b0.take(8) =~= head.take(8));
    let fixed = head.subrange(32, 56);
    assert(b0.subrange(32, 56) =~= fixed);
    header_fields(head, fixed);
    header_fields(b2, fixed);
    assert(b2.subrange(52, 56) == le32(map));
}

/// Emits a DEX 035 file that defines the class and its public constructor, with its
/// SHA-1 signature and Adler-32 checksum filled in; `java.lang.Object` itself is refused.
#[verifier::rlimit(100)]
#[verifier::spinoff_prover]
pub fn encode_minimal_dex(class: &MinimalClass) -> (r: Result<Vec<u8>, DexError>)
    ensures
        utf16(class.spec_descriptor()) == utf16(object_descriptor()) ==> r == Err::<Vec<u8>, DexError>(
            DexError::InvalidInput("the generated class cannot be java.lang.Object"),
        ),
        utf16(class.spec_descriptor()) != utf16(object_descriptor()) && class.spec_descriptor().len() <= 0x100_0000
            ==> r is Ok,
        r matches Ok(b) ==> dex_header_ok(b@),
        r matches Ok(b) ==> b@ == minimal_dex(class.spec_descriptor()),
{
    let ix = Indexes::build(class)?;
    proof {
        let d = class.spec_descriptor();
        reveal_strlit("<init>");
        assert forall|i: int| 0 <= i < ix.strings@.len() implies (#[trigger] ix.strings@[i])@.len() <= 0x100_0000
            || d.len() > 0x100_0000 by {
            assert(string_views(ix.strings@)[i] == ix.strings@[i]@);
            let m = minimal_strings(d);
            assert(m.len() == 4);
            assert(m[i] == d || m[i] == object_descriptor() || m[i] =~= seq!['<', 'i', 'n', 'i', 't', '>']
                || m[i] =~= seq!['V']);
        }
    }
    proof {
        assert(ix.strings@.len() == string_views(ix.strings@).len());
    }
    let l = layout(&ix)?;
    if l.file_size > 0xffff_ffff - 72 {
        return Err(DexError::ArithmeticOverflow);
    }
    let body = write_body(&ix, &l, Ghost(class.spec_descriptor()))?;
    let mut out = write_header(&ix, &l, Ghost(class.spec_descriptor()))?;
    let ghost head = out@;
    out.write_bytes(body.bytes());
    let ghost b0 = out@;
    assert(b0.take(0x70) =~= head);
    let len = out.position();
    let sig = sha1(vstd::slice::slice_subrange(out.bytes(), 32, len));
    out.patch_bytes(12, sig.as_slice())?;
    let ghost b1 = out@;
    let sum = adler32(vstd::slice::slice_subrange(out.bytes(), 12, len));
    out.patch_u32(8, sum)?;
    let ghost b2 = out@;
    proof {
        sealed(head, b0, b1, b2, sig@, sum, l.map);
        assert(b0 == dex_header(class.spec_descriptor()) + dex_body(class.spec_descriptor()));
        assert(b2 == sealed_bytes(b0));
    }
    Ok(out.into_bytes())
}

} // verus!
