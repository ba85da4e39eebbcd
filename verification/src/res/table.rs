//! The application resource table (`resources.arsc`) and its packaged files.
use vstd::prelude::*;
use crate::encoding::{le16, le32, utf16_units};
use crate::res::{ResourceError, word, short, extend, index, intern, string_pool, size_limit, position};
use crate::res::ids::{ResourceIds, has_duplicate, name_set, assigned};
use crate::text::{owned, concat, str_lt, str_eq, seq_char_lt};

verus! {

/// A string resource value, for the default configuration or one locale.
#[derive(Clone, Debug, PartialEq, Eq)]
pub struct StringValue {
    pub name: String,
    pub locale: Option<String>,
    pub value: String,
}

/// An image resource file.
#[derive(Clone, Debug, PartialEq, Eq)]
pub struct FileResource {
    pub name: String,
    pub extension: String,
    pub bytes: Vec<u8>,
    pub launcher: bool,
}

/// The resource table, the packaged resource files and the ids assigned.
#[derive(Clone, Debug, PartialEq, Eq)]
pub struct ResourcePackage {
    pub table: Vec<u8>,
    pub entries: Vec<(String, Vec<u8>)>,
    pub ids: ResourceIds,
}

struct TableEntry {
    name: String,
    data_type: u8,
    data: u32,
}

/// The value type of a color: `#AARRGGBB` when opaque as `0x1c`, else `0x1d`.
pub open spec fn color_type(color: u32) -> u8 {
    if color >> 24u32 == 0xff { 0x1c } else { 0x1d }
}

fn color_data_type(color: u32) -> (r: u8)
    ensures
        r == color_type(color),
{
    if color >> 24u32 == 0xff {
        0x1c
    } else {
        0x1d
    }
}

/// The default configuration: its size, then zeros.
pub open spec fn default_config() -> Seq<u8> {
    le32(64) + Seq::new(60, |i: int| 0u8)
}

/// The type spec chunk of the style type: one public entry.
pub open spec fn style_spec_chunk() -> Seq<u8> {
    le16(0x0202) + le16(16) + le32(20) + seq![5u8, 0, 0, 0] + le32(1) + le32(0x4000_0000)
}

/// The theme's map entry: parent `Theme.Material.Light`, then `colorPrimary` and
/// `colorAccent` as colors.
pub open spec fn style_entry(key: u32, primary: u32, accent: u32) -> Seq<u8> {
    le16(16) + le16(1) + le32(key) + le32(0x0103_0224) + le32(2) + le32(0x0101_0433) + le16(8) + seq![0u8, 1]
        + le32(primary) + le32(0x0101_0435) + le16(8) + seq![0u8, 1] + le32(accent)
}

/// The type chunk of the style type in the default configuration, holding the theme.
pub open spec fn style_type_chunk(key: u32, primary: u32, accent: u32) -> Seq<u8> {
    le16(0x0201) + le16(84) + le32((88 + style_entry(key, primary, accent).len()) as u32) + seq![5u8, 0, 0, 0] + le32(1) + le32(88) + default_config() + le32(0)
        + style_entry(key, primary, accent)
}

/// `n` entry flags, each marking a public entry.
pub open spec fn public_flags(n: nat) -> Seq<u8>
    decreases n,
{
    if n == 0 {
        Seq::empty()
    } else {
        public_flags((n - 1) as nat) + le32(0x4000_0000)
    }
}

proof fn lemma_public_flags_len(n: nat)
    ensures
        public_flags(n).len() == 4 * n,
    decreases n,
{
    if n > 0 {
        lemma_public_flags_len((n - 1) as nat);
    }
}

/// The type spec chunk of type `type_id` with `n` entries, all public.
pub open spec fn type_spec_chunk(type_id: u8, n: nat) -> Seq<u8> {
    le16(0x0202) + le16(16) + le32((16 + 4 * n) as u32) + seq![type_id, 0u8] + le16(0) + le32(n as u32)
        + public_flags(n)
}

/// The bytes are all between `lo` and `hi`.
pub open spec fn bytes_in(p: Seq<u8>, lo: u8, hi: u8) -> bool {
    forall|i: int| 0 <= i < p.len() ==> lo <= #[trigger] p[i] <= hi
}

/// An ASCII letter.
pub open spec fn ascii_letter(b: u8) -> bool {
    (0x41 <= b && b <= 0x5a) || (0x61 <= b && b <= 0x7a)
}

/// All bytes are ASCII letters.
pub open spec fn alphabetic(p: Seq<u8>) -> bool {
    forall|i: int| 0 <= i < p.len() ==> ascii_letter(#[trigger] p[i])
}

/// `c` with `v` written from `at` on.
pub open spec fn written(c: Seq<u8>, at: int, v: Seq<u8>) -> Seq<u8> {
    c.take(at) + v + c.skip(at + v.len())
}

/// Where and what one `-`-separated locale part writes into a configuration: a language
/// (two letters, or three packed), a region (two capitals, or three digits packed), or a
/// four-letter script.
pub open spec fn locale_write(part: Seq<u8>, first: bool) -> Option<(int, Seq<u8>)> {
    if first {
        if part.len() == 2 {
            Some((8, part))
        } else if part.len() == 3 && bytes_in(part, 0x61, 0x7a) {
            Some((8, packed_part(part, 0x61)))
        } else {
            None
        }
    } else if part.len() == 2 && bytes_in(part, 0x41, 0x5a) {
        Some((10, part))
    } else if part.len() == 3 && bytes_in(part, 0x30, 0x39) {
        Some((10, packed_part(part, 0x30)))
    } else if part.len() == 4 && alphabetic(part) {
        Some((36, part))
    } else {
        None
    }
}

/// Every name that has an entry is among the keys.
spec fn entries_keyed(names: Seq<String>, keys: Seq<String>, entries: Seq<TableEntry>) -> bool {
    forall|i: int| 0 <= i < names.len() && (#[trigger] last_named_entry(entries, names[i]@)) is Some
        ==> position(keys, names[i]@) is Some
}

proof fn lemma_position_bound(v: Seq<String>, s: Seq<char>)
    ensures
        position(v, s) matches Some(i) ==> 0 <= i < v.len(),
    decreases v.len(),
{
    if v.len() > 0 {
        lemma_position_bound(v.drop_last(), s);
    }
}

/// Whether a group's configuration is the locale `l` (none being the default).
spec fn same_locale(a: Option<String>, l: Option<String>) -> bool {
    match (a, l) {
        (None, None) => true,
        (Some(x), Some(y)) => x@ == y@,
        _ => false,
    }
}

/// Whether a group of configuration `a` comes after locale `l`: every locale comes after
/// the default, and locales come in name order.
spec fn comes_after(a: Option<String>, l: Option<String>) -> bool {
    match (a, l) {
        (_, None) => true,
        (None, Some(_)) => false,
        (Some(x), Some(y)) => seq_char_lt(y@, x@),
    }
}

/// Where an entry of locale `l` goes among the groups: the index of the group of that
/// locale (`true`), or the index where a new group is inserted (`false`).
spec fn group_place(g: Seq<(Option<String>, Vec<TableEntry>)>, l: Option<String>) -> (int, bool)
    decreases g.len(),
{
    if g.len() == 0 {
        (0, false)
    } else if same_locale(g[0].0, l) {
        (0, true)
    } else if comes_after(g[0].0, l) {
        (0, false)
    } else {
        (group_place(g.drop_first(), l).0 + 1, group_place(g.drop_first(), l).1)
    }
}

/// Index of the last entry named `name`.
spec fn last_named_entry(entries: Seq<TableEntry>, name: Seq<char>) -> Option<int>
    decreases entries.len(),
{
    if entries.len() == 0 {
        None
    } else if entries.last().name@ == name {
        Some(entries.len() - 1)
    } else {
        last_named_entry(entries.drop_last(), name)
    }
}

/// The first position in `names` whose name is not below `name`.
pub open spec fn place(names: Seq<String>, name: Seq<char>) -> int
    decreases names.len(),
{
    if names.len() == 0 {
        0
    } else if seq_char_lt(names[0]@, name) {
        1 + place(names.drop_first(), name)
    } else {
        0
    }
}

proof fn place_is(names: Seq<String>, name: Seq<char>, j: int)
    requires
        0 <= j <= names.len(),
        forall|k: int| 0 <= k < j ==> seq_char_lt((#[trigger] names[k])@, name),
        j < names.len() ==> !seq_char_lt(names[j]@, name),
    ensures
        place(names, name) == j,
    decreases j,
{
    if j > 0 {
        let rest = names.drop_first();
        assert forall|k: int| 0 <= k < j - 1 implies seq_char_lt((#[trigger] rest[k])@, name) by {
            assert(rest[k] == names[k + 1]);
        }
        if j < names.len() {
            assert(rest[j - 1] == names[j]);
        }
        place_is(rest, name, j - 1);
    }
}

/// The two packed bytes of a three-letter locale code part relative to `base`.
pub open spec fn packed_part(b: Seq<u8>, base: u8) -> Seq<u8> {
    let first = (b[0] - base) as u8;
    let second = (b[1] - base) as u8;
    let third = (b[2] - base) as u8;
    seq![(0x80u8 | (third << 2u8) | (second >> 3u8)) as u8, ((second << 5u8) | first) as u8]
}

/// A two-letter part as is, or a three-letter part of letters `base..base + 25` packed.
fn pack_locale_part(part: &[u8], base: u8) -> (r: Result<[u8; 2], ResourceError>)
    requires
        base <= 230,
    ensures
        part@.len() == 2 ==> (r matches Ok(p) && p@ == part@),
        part@.len() != 2 ==> (r matches Ok(p) ==> part@.len() == 3 && p@ == packed_part(part@, base)),
        part@.len() != 2 && part@.len() != 3 ==> r == Err::<[u8; 2], ResourceError>(
            ResourceError("Unsupported Android locale qualifier"),
        ),
        part@.len() == 3 ==> (r is Ok <==> bytes_in(part@, base, (base + 25) as u8)),
        r is Err ==> r == Err::<[u8; 2], ResourceError>(ResourceError("Unsupported Android locale qualifier")),
{
    if part.len() == 2 {
        let p = [part[0], part[1]];
        assert(p@ =~= part@);
        return Ok(p);
    }
    if part.len() != 3 {
        return Err(ResourceError("Unsupported Android locale qualifier"));
    }
    let mut i: usize = 0;
    while i < 3
        invariant
            i <= 3,
            base <= 230,
            part@.len() == 3,
            forall|j: int| 0 <= j < i ==> base <= #[trigger] part@[j] <= base + 25,
        decreases 3 - i,
    {
        if part[i] < base || part[i] > base + 25 {
            return Err(ResourceError("Unsupported Android locale qualifier"));
        }
        i = i + 1;
    }
    let first = part[0] - base;
    let second = part[1] - base;
    let third = part[2] - base;
    let p = [0x80u8 | (third << 2u8) | (second >> 3u8), (second << 5u8) | first];
    assert(p@ =~= packed_part(part@, base));
    Ok(p)
}

fn all_bytes_in(p: &[u8], lo: u8, hi: u8) -> (r: bool)
    ensures
        r == forall|i: int| 0 <= i < p@.len() ==> lo <= #[trigger] p@[i] <= hi,
{
    let mut i: usize = 0;
    while i < p.len()
        invariant
            i <= p@.len(),
            forall|j: int| 0 <= j < i ==> lo <= #[trigger] p@[j] <= hi,
        decreases p@.len() - i,
    {
        if p[i] < lo || p[i] > hi {
            return false;
        }
        i = i + 1;
    }
    true
}

fn all_alphabetic(p: &[u8]) -> (r: bool)
    ensures
        r == alphabetic(p@),
{
    let mut i: usize = 0;
    while i < p.len()
        invariant
            i <= p@.len(),
            forall|j: int| 0 <= j < i ==> ascii_letter(#[trigger] p@[j]),
        decreases p@.len() - i,
    {
        let b = p[i];
        if !((0x41 <= b && b <= 0x5a) || (0x61 <= b && b <= 0x7a)) {
            assert(!ascii_letter(p@[i as int]));
            return false;
        }
        i = i + 1;
    }
    true
}

fn set_bytes(config: &mut Vec<u8>, at: usize, v: &[u8])
    requires
        at + v@.len() <= old(config)@.len(),
    ensures
        final(config)@.len() == old(config)@.len(),
        at >= 8 ==> final(config)@.subrange(0, 8) == old(config)@.subrange(0, 8),
        final(config)@ == written(old(config)@, at as int, v@),
{
    let n = config.len();
    let mut i: usize = 0;
    while i < v.len()
        invariant
            i <= v@.len(),
            n == config@.len(),
            at + v@.len() <= n,
            config@.len() == old(config)@.len(),
            at >= 8 ==> config@.subrange(0, 8) == old(config)@.subrange(0, 8),
            config@ == written(old(config)@, at as int, v@.take(i as int)),
        decreases v@.len() - i,
    {
        config.set(at + i, v[i]);
        assert(at >= 8 ==> config@.subrange(0, 8) =~= old(config)@.subrange(0, 8));
        i = i + 1;
        assert(config@ =~= written(old(config)@, at as int, v@.take(i as int)));
    }
    assert(v@.take(i as int) =~= v@);
}

/// Writes one `-`-separated part of a locale into a configuration.
fn locale_part(config: &mut Vec<u8>, part: &[u8], first: bool) -> (r: Result<(), ResourceError>)
    requires
        old(config)@.len() == 64,
    ensures
        final(config)@.len() == 64,
        final(config)@.subrange(0, 8) == old(config)@.subrange(0, 8),
        match locale_write(part@, first) {
            Some((at, v)) => r is Ok && final(config)@ == written(old(config)@, at, v),
            None => r == Err::<(), ResourceError>(ResourceError("Unsupported Android locale qualifier"))
                && final(config)@ == old(config)@,
        },
{
    if first {
        let packed = pack_locale_part(part, 0x61)?;
        set_bytes(config, 8, packed.as_slice());
    } else if part.len() == 2 && all_bytes_in(part, 0x41, 0x5a) {
        set_bytes(config, 10, part);
    } else if part.len() == 3 && all_bytes_in(part, 0x30, 0x39) {
        let packed = pack_locale_part(part, 0x30)?;
        set_bytes(config, 10, packed.as_slice());
    } else if part.len() == 4 && all_alphabetic(part) {
        set_bytes(config, 36, part);
    } else {
        return Err(ResourceError("Unsupported Android locale qualifier"));
    }
    Ok(())
}

/// The 64-byte configuration of a resource type chunk: the default configuration,
/// or the language, region or numeric area and script of a BCP 47 locale.
fn resource_config(locale: Option<&str>) -> (r: Result<Vec<u8>, ResourceError>)
    ensures
        r matches Ok(c) ==> c@.len() == 64 && c@.subrange(0, 4) == le32(64),
        locale is None ==> (r matches Ok(c) && c@ == default_config()),
{
    let mut config: Vec<u8> = Vec::new();
    word(&mut config, 64);
    let mut k: usize = 4;
    while k < 64
        invariant
            4 <= k <= 64,
            config@.len() == k,
            config@.subrange(0, 4) == le32(64),
            config@ == le32(64) + Seq::new((k - 4) as nat, |i: int| 0u8),
        decreases 64 - k,
    {
        config.push(0);
        assert(config@.subrange(0, 4) =~= le32(64));
        k = k + 1;
        assert(config@ =~= le32(64) + Seq::new((k - 4) as nat, |i: int| 0u8));
    }
    let ghost dflt = config@;
    let ghost head = config@.subrange(0, 8);
    match locale {
        None => {},
        Some(l) => {
            let b = l.as_bytes();
            let mut start: usize = 0;
            let mut first = true;
            let mut i: usize = 0;
            while i < b.len()
                invariant
                    locale is Some,
                    start <= i <= b@.len(),
                    config@.len() == 64,
                    config@.subrange(0, 8) == head,
                decreases b@.len() - i,
            {
                if b[i] == 0x2d {
                    locale_part(&mut config, vstd::slice::slice_subrange(b, start, i), first)?;
                    first = false;
                    start = i + 1;
                }
                i = i + 1;
            }
            locale_part(&mut config, vstd::slice::slice_subrange(b, start, b.len()), first)?;
        },
    }
    assert(config@.subrange(0, 4) =~= head.subrange(0, 4));
    assert(locale is None ==> config@ == dflt);
    Ok(config)
}

/// The last entry named `name`.
fn last_entry(entries: &Vec<TableEntry>, name: &str) -> (r: Option<usize>)
    ensures
        r matches Some(k) ==> k < entries@.len(),
        match last_named_entry(entries@, name@) {
            Some(k) => r == Some(k as usize),
            None => r is None,
        },
{
    let mut found: Option<usize> = None;
    let mut j: usize = 0;
    while j < entries.len()
        invariant
            j <= entries@.len(),
            found matches Some(k) ==> k < entries@.len(),
            match last_named_entry(entries@.take(j as int), name@) {
                Some(k) => found == Some(k as usize),
                None => found is None,
            },
        decreases entries@.len() - j,
    {
        assert(entries@.take(j + 1).drop_last() =~= entries@.take(j as int));
        if str_eq(entries[j].name.as_str(), name) {
            found = Some(j);
        }
        j = j + 1;
    }
    assert(entries@.take(j as int) =~= entries@);
    found
}

/// The entry data of one configuration and each name's offset into it, or `0xffff_ffff`.
fn type_entries(names: &Vec<String>, keys: &[String], entries: &Vec<TableEntry>)
    -> (r: Result<(Vec<u8>, Vec<u32>), ResourceError>)
    ensures
        r matches Ok((data, offsets)) ==> offsets@.len() == names@.len() && data@.len() % 4 == 0,
        r matches Ok((data, offsets)) ==> data@.len() <= 16 * names@.len(),
        names@.len() <= 0x1000_0000 && keys@.len() <= u32::MAX && entries_keyed(names@, keys@, entries@) ==> r is Ok,
{
    let n = names.len();
    let mut data: Vec<u8> = Vec::new();
    let mut offsets: Vec<u32> = Vec::new();
    let mut i: usize = 0;
    while i < n
        invariant
            i <= n,
            n == names@.len(),
            offsets@.len() == i,
            data@.len() % 4 == 0,
            data@.len() <= 16 * i,
        decreases n - i,
    {
        match last_entry(entries, names[i].as_str()) {
            Some(k) => {
                proof {
                    if names@.len() <= 0x1000_0000 && keys@.len() <= u32::MAX && entries_keyed(names@, keys@, entries@) {
                        assert(last_named_entry(entries@, names@[i as int]@) is Some);
                        lemma_position_bound(keys@, names@[i as int]@);
                    }
                }
                if data.len() > 0xffff_ffff {
                    return Err(size_limit());
                }
                offsets.push(data.len() as u32);
                short(&mut data, 8);
                short(&mut data, 0);
                word(&mut data, index(keys, names[i].as_str())?);
                short(&mut data, 8);
                data.push(0);
                data.push(entries[k].data_type);
                word(&mut data, entries[k].data);
            },
            None => offsets.push(0xffff_ffff),
        }
        i = i + 1;
    }
    Ok((data, offsets))
}

/// One configuration's entries of a resource type, `names` being all of the type's entries.
#[verifier::rlimit(40)]
fn type_chunk(type_id: u8, names: &Vec<String>, keys: &[String], locale: Option<&str>, entries: &Vec<TableEntry>)
    -> (r: Result<Vec<u8>, ResourceError>)
    ensures
        locale is None && names@.len() <= 0x0800_0000 && keys@.len() <= u32::MAX && entries_keyed(
            names@,
            keys@,
            entries@,
        ) ==> r is Ok,
        r matches Ok(b) ==> b@.len() >= 8 && b@.len() <= u32::MAX && b@.subrange(0, 2) == le16(0x0201) && b@.subrange(
            4,
            8,
        ) == le32(b@.len() as u32),
{
    let n = names.len();
    if n > 0x1000_0000 {
        return Err(size_limit());
    }
    let (data, offsets) = type_entries(names, keys, entries)?;
    let mut out: Vec<u8> = Vec::new();
    short(&mut out, 0x0201);
    short(&mut out, 84);
    word(&mut out, 0);
    out.push(type_id);
    out.push(0);
    short(&mut out, 0);
    word(&mut out, n as u32);
    word(&mut out, (84 + 4 * n) as u32);
    let config = resource_config(locale)?;
    extend(&mut out, config.as_slice());
    let ghost head = out@;
    assert(head.subrange(0, 2) =~= le16(0x0201));
    let mut i: usize = 0;
    while i < n
        invariant
            i <= n,
            offsets@.len() == n,
            out@.len() == 84 + 4 * i,
            head.len() == 84,
            out@.take(84) == head,
        decreases n - i,
    {
        word(&mut out, offsets[i]);
        assert(out@.take(84) =~= head);
        i = i + 1;
    }
    extend(&mut out, data.as_slice());
    assert(out@.take(84) =~= head);
    assert(out@.subrange(0, 2) =~= head.subrange(0, 2));
    let r = finish_size(out)?;
    Ok(r)
}

/// Fills in the size field of a chunk at bytes 4 to 8.
fn finish_size(out: Vec<u8>) -> (r: Result<Vec<u8>, ResourceError>)
    requires
        out@.len() >= 8,
    ensures
        r matches Ok(b) ==> b@.len() == out@.len() && b@.len() <= u32::MAX && b@.subrange(0, 4) == out@.subrange(0, 4)
            && b@.subrange(4, 8) == le32(b@.len() as u32) && b@.skip(8) == out@.skip(8),
        out@.len() <= u32::MAX ==> r is Ok,
{
    if out.len() > 0xffff_ffff {
        return Err(size_limit());
    }
    let size = out.len() as u32;
    let mut out = out;
    let ghost before = out@;
    out.set(4, (size % 256) as u8);
    out.set(5, ((size / 256) % 256) as u8);
    out.set(6, ((size / 65536) % 256) as u8);
    out.set(7, (size / 16777216) as u8);
    assert(out@.subrange(0, 4) =~= before.subrange(0, 4));
    assert(out@.subrange(4, 8) =~= le32(size));
    assert(out@.skip(8) =~= before.skip(8));
    Ok(out)
}

/// Inserts `name` into a sorted list of distinct names.
fn insert_name(names: &mut Vec<String>, name: &String)
    ensures
        final(names)@.len() >= old(names)@.len(),
        final(names)@ == (if place(old(names)@, name@) < old(names)@.len() && old(names)@[place(old(names)@, name@)]@
            == name@ {
            old(names)@
        } else {
            old(names)@.insert(place(old(names)@, name@), *name)
        }),
{
    let mut j: usize = 0;
    while j < names.len() && str_lt(names[j].as_str(), name.as_str())
        invariant
            j <= names@.len(),
            forall|k: int| 0 <= k < j ==> seq_char_lt((#[trigger] names@[k])@, name@),
        decreases names@.len() - j,
    {
        j = j + 1;
    }
    proof {
        place_is(names@, name@, j as int);
    }
    if j < names.len() && str_eq(names[j].as_str(), name.as_str()) {
        return;
    }
    names.insert(j, name.clone());
}

/// `c` stands in `b` from offset `o` on.
#[verifier::opaque]
pub open spec fn chunk_at(b: Seq<u8>, o: int, c: Seq<u8>) -> bool {
    0 <= o && o + c.len() <= b.len() && b.subrange(o, o + c.len()) == c
}

/// `b` continues `a`.
pub open spec fn bytes_grow(a: Seq<u8>, b: Seq<u8>) -> bool {
    a.len() <= b.len() && b.take(a.len() as int) == a
}

/// A table `b` files its drawables and launcher icons by type: the type spec chunk of the
/// drawable type (3) with one entry per drawable, and after it the one of the mipmap type
/// (4) with one entry per launcher icon; a type without files has no chunk.
pub open spec fn files_by_type(b: Seq<u8>, drawables: nat, mipmaps: nat) -> bool {
    exists|o3: int, o4: int| #[trigger] types_placed(b, drawables, mipmaps, o3, o4)
}

/// The drawable type's spec chunk stands at `o3` and the mipmap type's at `o4`, the first
/// before the second, each where its type has files.
pub open spec fn types_placed(b: Seq<u8>, drawables: nat, mipmaps: nat, o3: int, o4: int) -> bool {
    &&& drawables > 0 ==> chunk_at(b, o3, type_spec_chunk(3, drawables))
    &&& mipmaps > 0 ==> chunk_at(b, o4, type_spec_chunk(4, mipmaps))
    &&& drawables > 0 && mipmaps > 0 ==> o3 < o4
}

proof fn chunk_grows(a: Seq<u8>, b: Seq<u8>, o: int, c: Seq<u8>)
    requires
        chunk_at(a, o, c),
        bytes_grow(a, b),
    ensures
        chunk_at(b, o, c),
{
    reveal(chunk_at);
    assert(b.subrange(o, o + c.len()) =~= a.subrange(o, o + c.len())) by {
        assert forall|k: int| 0 <= k < c.len() implies #[trigger] b.subrange(o, o + c.len())[k] == a.subrange(
            o,
            o + c.len(),
        )[k] by {
            assert(b.take(a.len() as int)[o + k] == b[o + k]);
        }
    }
}

proof fn chunk_shifts(h: Seq<u8>, a: Seq<u8>, o: int, c: Seq<u8>)
    requires
        chunk_at(a, o, c),
    ensures
        chunk_at(h + a, h.len() + o, c),
        o >= 0,
{
    reveal(chunk_at);
    assert((h + a).subrange(h.len() + o, h.len() + o + c.len()) =~= a.subrange(o, o + c.len()));
}

proof fn chunk_past_size(a: Seq<u8>, b: Seq<u8>, o: int, c: Seq<u8>)
    requires
        chunk_at(a, o, c),
        o >= 8,
        a.len() == b.len(),
        b.skip(8) == a.skip(8),
    ensures
        chunk_at(b, o, c),
{
    reveal(chunk_at);
    assert forall|k: int| 8 <= k < a.len() implies b[k] == a[k] by {
        assert(b.skip(8)[k - 8] == a.skip(8)[k - 8]);
    }
    assert(b.subrange(o, o + c.len()) =~= a.subrange(o, o + c.len()));
}

proof fn grow_appended(a: Seq<u8>, x: Seq<u8>)
    ensures
        bytes_grow(a, a + x),
{
    assert((a + x).take(a.len() as int) =~= a);
}

proof fn grow_trans(a: Seq<u8>, b: Seq<u8>, c: Seq<u8>)
    requires
        bytes_grow(a, b),
        bytes_grow(b, c),
    ensures
        bytes_grow(a, c),
{
    assert forall|k: int| 0 <= k < a.len() implies c.take(a.len() as int)[k] == a[k] by {
        assert(c.take(b.len() as int)[k] == c[k]);
        assert(b.take(a.len() as int)[k] == b[k]);
    }
    assert(c.take(a.len() as int) =~= a);
}

proof fn grow_from_prefix(a: Seq<u8>, b: Seq<u8>, x: Seq<u8>)
    requires
        b.len() >= (a.len() + x.len()) as int,
        b.take((a.len() + x.len()) as int) == a + x,
    ensures
        bytes_grow(a, b),
        chunk_at(b, a.len() as int, x),
{
    reveal(chunk_at);
    assert forall|k: int| 0 <= k < a.len() implies b.take(a.len() as int)[k] == a[k] by {
        assert(b.take((a.len() + x.len()) as int)[k] == (a + x)[k]);
    }
    assert(b.take(a.len() as int) =~= a);
    assert forall|k: int| 0 <= k < x.len() implies #[trigger] b.subrange(a.len() as int, (a.len() + x.len()) as int)[k] == x[k] by {
        assert(b.take((a.len() + x.len()) as int)[a.len() + k] == (a + x)[a.len() + k]);
        assert((a + x)[a.len() + k] == x[k]);
        assert(b.take((a.len() + x.len()) as int)[a.len() + k] == b[a.len() + k]);
        assert(b.subrange(a.len() as int, (a.len() + x.len()) as int)[k] == b[a.len() + k]);
    }
    assert(b.subrange(a.len() as int, (a.len() + x.len()) as int) =~= x);
}

/// Appends a type spec chunk and one type chunk per configuration; nothing for a type without entries.
#[verifier::loop_isolation(false)]
fn emit_type_group(out: &mut Vec<u8>, type_id: u8, entry_count: usize, keys: &[String],
    configurations: &Vec<(Option<String>, Vec<TableEntry>)>) -> (r: Result<(), ResourceError>)
    ensures
        entry_count == 0 ==> r is Ok && final(out)@ == old(out)@,
        entry_count > 0x1000_0000 ==> r == Err::<(), ResourceError>(ResourceError("Manifest size limit exceeded"))
            && final(out)@ == old(out)@,
        0 < entry_count <= 0x1000_0000 ==> final(out)@.len() >= old(out)@.len() + 16 + 4 * entry_count
            && final(out)@.take(old(out)@.len() + 16 + 4 * entry_count) == old(out)@ + type_spec_chunk(
            type_id,
            entry_count as nat,
        ),
{
    if entry_count == 0 {
        return Ok(());
    }
    if entry_count > 0x1000_0000 {
        return Err(size_limit());
    }
    let mut spec: Vec<u8> = Vec::new();
    short(&mut spec, 0x0202);
    short(&mut spec, 16);
    word(&mut spec, (16 + entry_count * 4) as u32);
    spec.push(type_id);
    spec.push(0);
    short(&mut spec, 0);
    word(&mut spec, entry_count as u32);
    let ghost head = spec@;
    assert(head + public_flags(0) =~= head);
    let mut k: usize = 0;
    while k < entry_count
        invariant
            k <= entry_count,
            spec@ == head + public_flags(k as nat),
        decreases entry_count - k,
    {
        word(&mut spec, 0x4000_0000);
        k = k + 1;
        assert(spec@ =~= head + public_flags(k as nat));
    }
    assert(spec@ =~= type_spec_chunk(type_id, entry_count as nat));
    proof {
        lemma_public_flags_len(entry_count as nat);
    }
    let ghost start = out@;
    extend(out, spec.as_slice());
    let mut names: Vec<String> = Vec::new();
    let mut c: usize = 0;
    while c < configurations.len()
        invariant
            c <= configurations@.len(),
        decreases configurations@.len() - c,
    {
        let entries = &configurations[c].1;
        let mut e: usize = 0;
        while e < entries.len()
            invariant
                e <= entries@.len(),
            decreases entries@.len() - e,
        {
            insert_name(&mut names, &entries[e].name);
            e = e + 1;
        }
        c = c + 1;
    }
    if names.len() != entry_count {
        return Err(ResourceError("Resource type entry count mismatch"));
    }
    let ghost pre = start + type_spec_chunk(type_id, entry_count as nat);
    assert(out@.take(pre.len() as int) =~= pre);
    let mut c: usize = 0;
    while c < configurations.len()
        invariant
            c <= configurations@.len(),
            out@.len() >= pre.len(),
            out@.take(pre.len() as int) == pre,
        decreases configurations@.len() - c,
    {
        let locale = match &configurations[c].0 {
            Some(l) => Some(l.as_str()),
            None => None,
        };
        let chunk = type_chunk(type_id, &names, keys, locale, &configurations[c].1)?;
        let ghost before = out@;
        extend(out, chunk.as_slice());
        assert(out@.take(pre.len() as int) =~= before.take(pre.len() as int));
        c = c + 1;
    }
    Ok(())
}

/// Appends the style type: the application theme with its primary and accent colors.
fn emit_style_type(out: &mut Vec<u8>, name: &str, primary: u32, accent: u32, keys: &[String])
    -> (r: Result<(), ResourceError>)
    ensures
        r is Ok <==> (position(keys@, name@) matches Some(i) && i <= u32::MAX),
        r is Ok ==> final(out)@ == old(out)@ + style_spec_chunk() + style_type_chunk(
            position(keys@, name@)->0 as u32,
            primary,
            accent,
        ),
        r is Err ==> final(out)@ == old(out)@ + style_spec_chunk(),
{
    let mut spec: Vec<u8> = Vec::new();
    short(&mut spec, 0x0202);
    short(&mut spec, 16);
    word(&mut spec, 20);
    spec.push(5);
    spec.push(0);
    spec.push(0);
    spec.push(0);
    word(&mut spec, 1);
    word(&mut spec, 0x4000_0000);
    assert(spec@ =~= style_spec_chunk());
    extend(out, spec.as_slice());
    let mut entry: Vec<u8> = Vec::new();
    short(&mut entry, 16);
    short(&mut entry, 1);
    word(&mut entry, index(keys, name)?);
    word(&mut entry, 0x0103_0224);
    word(&mut entry, 2);
    word(&mut entry, 0x0101_0433);
    short(&mut entry, 8);
    entry.push(0);
    entry.push(1);
    word(&mut entry, primary);
    word(&mut entry, 0x0101_0435);
    short(&mut entry, 8);
    entry.push(0);
    entry.push(1);
    word(&mut entry, accent);
    assert(entry@ =~= style_entry(position(keys@, name@)->0 as u32, primary, accent));
    let mut chunk: Vec<u8> = Vec::new();
    short(&mut chunk, 0x0201);
    short(&mut chunk, 84);
    word(&mut chunk, (88 + entry.len()) as u32);
    chunk.push(5);
    chunk.push(0);
    chunk.push(0);
    chunk.push(0);
    word(&mut chunk, 1);
    word(&mut chunk, 88);
    let config = resource_config(None)?;
    extend(&mut chunk, config.as_slice());
    word(&mut chunk, 0);
    extend(&mut chunk, entry.as_slice());
    assert(chunk@ =~= style_type_chunk(position(keys@, name@)->0 as u32, primary, accent));
    extend(out, chunk.as_slice());
    Ok(())
}

/// The packaged path of a resource file.
fn file_path(file: &FileResource) -> (r: String)
    ensures
        r@ == (if file.launcher { "res/mipmap/"@ } else { "res/drawable/"@ }) + file.name@ + "."@ + file.extension@,
{
    let dir = if file.launcher { "res/mipmap/" } else { "res/drawable/" };
    concat(concat(concat(dir, file.name.as_str()).as_str(), ".").as_str(), file.extension.as_str())
}

/// Adds `entry` to a configuration group, keeping groups ordered: default first, then by locale.
fn add_to_group(groups: &mut Vec<(Option<String>, Vec<TableEntry>)>, locale: &Option<String>, entry: TableEntry)
    ensures
        ({
            let (j, found) = group_place(old(groups)@, *locale);
            if found {
                &&& final(groups)@.len() == old(groups)@.len()
                &&& forall|k: int| 0 <= k < old(groups)@.len() && k != j ==> #[trigger] final(groups)@[k] == old(groups)@[k]
                &&& final(groups)@[j].0 == old(groups)@[j].0
                &&& final(groups)@[j].1@ == old(groups)@[j].1@.push(entry)
            } else {
                &&& final(groups)@.len() == old(groups)@.len() + 1
                &&& forall|k: int| 0 <= k < j ==> #[trigger] final(groups)@[k] == old(groups)@[k]
                &&& forall|k: int| j < k < final(groups)@.len() ==> #[trigger] final(groups)@[k] == old(groups)@[k - 1]
                &&& final(groups)@[j].0 == *locale
                &&& final(groups)@[j].1@ == seq![entry]
            }
        }),
{
    let ghost g0 = groups@;
    let mut j: usize = 0;
    let mut found = false;
    assert(g0.skip(0) =~= g0);
    proof {
        if g0.len() == 0 {
            assert(g0.skip(0) =~= Seq::<(Option<String>, Vec<TableEntry>)>::empty());
        }
    }
    while j < groups.len()
        invariant_except_break
            !found,
        invariant
            j <= groups@.len(),
            groups@ == g0,
            group_place(g0, *locale) == (group_place(g0.skip(j as int), *locale).0 + j, group_place(
                g0.skip(j as int),
                *locale,
            ).1),
            j == g0.len() ==> group_place(g0.skip(j as int), *locale) == (0int, false),
        ensures
            j <= groups@.len(),
            groups@ == g0,
            group_place(g0, *locale) == (j as int, found),
            found ==> j < groups@.len(),
        decreases groups@.len() - j,
    {
        let same = match (&groups[j].0, locale) {
            (None, None) => true,
            (Some(a), Some(b)) => str_eq(a.as_str(), b.as_str()),
            _ => false,
        };
        proof {
            let s = g0.skip(j as int);
            assert(s[0] == g0[j as int]);
            assert(s.drop_first() =~= g0.skip(j + 1));
        }
        if same {
            assert(same_locale(g0[j as int].0, *locale));
            assert(group_place(g0.skip(j as int), *locale) == (0int, true));
            found = true;
            break;
        }
        assert(!same_locale(g0[j as int].0, *locale));
        let after = match (&groups[j].0, locale) {
            (_, None) => true,
            (None, Some(_)) => false,
            (Some(a), Some(b)) => str_lt(b.as_str(), a.as_str()),
        };
        if after {
            assert(comes_after(g0[j as int].0, *locale));
            break;
        }
        assert(!comes_after(g0[j as int].0, *locale));
        j = j + 1;
        proof {
            if j == g0.len() {
                assert(g0.skip(j as int) =~= Seq::<(Option<String>, Vec<TableEntry>)>::empty());
            }
        }
    }
    if found {
        let mut g = groups.remove(j);
        let ghost before = g;
        g.1.push(entry);
        groups.insert(j, g);
        proof {
            assert(before == g0[j as int]);
            assert(groups@ =~= g0.update(j as int, g));
        }
    } else {
        let mut entries: Vec<TableEntry> = Vec::new();
        entries.push(entry);
        let key = match locale {
            Some(l) => Some(l.clone()),
            None => None,
        };
        assert(key == *locale);
        groups.insert(j, (key, entries));
        assert(groups@[j as int].1@ =~= seq![entry]);
    }
}

/// The package chunk header with the package name in 128 UTF-16 units.
fn package_header(package_name: &str, type_pool_len: usize, key_count: usize) -> (r: Result<Vec<u8>, ResourceError>)
    ensures
        r matches Ok(b) ==> b@.len() == 288 && b@.subrange(0, 2) == le16(0x0200),
        r is Ok <==> type_pool_len <= 0xffff_ffff - 288 && key_count <= 0xffff_ffff,
        r matches Ok(b) ==> b@.skip(268) == le32(288) + le32(5) + le32((288 + type_pool_len) as u32) + le32(
            key_count as u32,
        ) + le32(0),
{
    let mut package: Vec<u8> = Vec::new();
    short(&mut package, 0x0200);
    short(&mut package, 288);
    word(&mut package, 0);
    word(&mut package, 0x7f);
    let units = utf16_units(package_name);
    let mut k: usize = 0;
    while k < 128
        invariant
            k <= 128,
            package@.len() == 12 + 2 * k,
            package@.subrange(0, 2) == le16(0x0200),
        decreases 128 - k,
    {
        let unit = if k < units.len() { units[k] } else { 0 };
        short(&mut package, unit);
        assert(package@.subrange(0, 2) =~= le16(0x0200)) by {
            assert(package@.subrange(0, 2) == package@.take(12).subrange(0, 2));
        }
        k = k + 1;
    }
    let ghost head = package@;
    if type_pool_len > 0xffff_ffff - 288 || key_count > 0xffff_ffff {
        return Err(size_limit());
    }
    word(&mut package, 288);
    word(&mut package, 5);
    word(&mut package, (288 + type_pool_len) as u32);
    word(&mut package, key_count as u32);
    word(&mut package, 0);
    assert(package@.subrange(0, 2) =~= head.subrange(0, 2));
    Ok(package)
}

/// Appends the type of the drawable files (type 3) or of the launcher icons (type 4): one
/// entry per such file, each pointing at its packaged path in the value pool.
fn emit_file_type(out: &mut Vec<u8>, files: &[FileResource], launcher: bool, values: &Vec<String>, keys: &Vec<String>)
    -> (r: Result<(), ResourceError>)
    ensures
        r is Ok ==> bytes_grow(old(out)@, final(out)@),
        r is Ok && file_names(files@, launcher).len() > 0 ==> chunk_at(
            final(out)@,
            old(out)@.len() as int,
            type_spec_chunk(if launcher { 4 } else { 3 }, file_names(files@, launcher).len()),
        ),
        r is Ok && file_names(files@, launcher).len() > 0 ==> final(out)@.len() > old(out)@.len(),
{
    let mut entries: Vec<TableEntry> = Vec::new();
    let mut i: usize = 0;
    assert(files@.take(0) =~= Seq::<FileResource>::empty());
    while i < files.len()
        invariant
            i <= files@.len(),
            entries@.len() == file_names(files@.take(i as int), launcher).len(),
        decreases files@.len() - i,
    {
        assert(files@.take(i + 1).drop_last() =~= files@.take(i as int));
        if files[i].launcher == launcher {
            let data = index(values.as_slice(), file_path(&files[i]).as_str())?;
            entries.push(TableEntry { name: files[i].name.clone(), data_type: 0x03, data });
        }
        i = i + 1;
    }
    assert(files@.take(i as int) =~= files@);
    let count = entries.len();
    let mut file_groups: Vec<(Option<String>, Vec<TableEntry>)> = Vec::new();
    file_groups.push((None, entries));
    let mut body: Vec<u8> = Vec::new();
    emit_type_group(&mut body, if launcher { 4 } else { 3 }, count, keys.as_slice(), &file_groups)?;
    let ghost start = out@;
    proof {
        lemma_public_flags_len(count as nat);
        if count > 0 {
            assert(Seq::<u8>::empty() + type_spec_chunk(if launcher { 4u8 } else { 3u8 }, count as nat)
                =~= type_spec_chunk(if launcher { 4u8 } else { 3u8 }, count as nat));
            grow_from_prefix(Seq::<u8>::empty(), body@, type_spec_chunk(if launcher { 4u8 } else { 3u8 }, count as nat));
            chunk_shifts(start, body@, 0, type_spec_chunk(if launcher { 4u8 } else { 3u8 }, count as nat));
        }
        grow_appended(start, body@);
    }
    extend(out, body.as_slice());
    Ok(())
}

/// What stands in one table stands in another, moved by `shift`, so its files stay filed by
/// type.
proof fn by_type_moves(a: Seq<u8>, b: Seq<u8>, shift: int, d: nat, m: nat)
    requires
        files_by_type(a, d, m),
        forall|o: int, c: Seq<u8>| #[trigger] chunk_at(a, o, c) ==> chunk_at(b, shift + o, c),
    ensures
        files_by_type(b, d, m),
{
    let (o3, o4) = choose|o3: int, o4: int| #[trigger] types_placed(a, d, m, o3, o4);
    if d > 0 {
        assert(chunk_at(a, o3, type_spec_chunk(3, d)));
    }
    if m > 0 {
        assert(chunk_at(a, o4, type_spec_chunk(4, m)));
    }
    assert(types_placed(b, d, m, shift + o3, shift + o4));
}

/// Appends the drawable type, the mipmap type and, with a theme, the style type; the files
/// come out filed by type.
fn emit_files_and_style(body: &mut Vec<u8>, files: &[FileResource], values: &Vec<String>, keys: &Vec<String>,
    theme: Option<(&str, u32, u32)>) -> (r: Result<(), ResourceError>)
    ensures
        r is Ok ==> files_by_type(final(body)@, file_names(files@, false).len(), file_names(files@, true).len()),
{
    let ghost drawables = file_names(files@, false).len();
    let ghost mipmaps = file_names(files@, true).len();
    let ghost b0 = body@;
    emit_file_type(body, files, false, values, keys)?;
    let ghost b1 = body@;
    emit_file_type(body, files, true, values, keys)?;
    let ghost o3: int = b0.len() as int;
    let ghost o4: int = b1.len() as int;
    proof {
        if drawables > 0 {
            chunk_grows(b1, body@, o3, type_spec_chunk(3, drawables));
        }
    }
    let ghost settled = body@;
    match theme {
        Some((name, primary, accent)) => {
            emit_style_type(body, name, primary, accent, keys.as_slice())?;
            proof {
                let x = body@.skip(settled.len() as int);
                assert(settled + x =~= body@);
                grow_appended(settled, x);
            }
        },
        None => {
            proof {
                assert(settled.take(settled.len() as int) =~= settled);
            }
        },
    }
    proof {
        if drawables > 0 {
            chunk_grows(settled, body@, o3, type_spec_chunk(3, drawables));
        }
        if mipmaps > 0 {
            chunk_grows(settled, body@, o4, type_spec_chunk(4, mipmaps));
        }
        assert(types_placed(body@, drawables, mipmaps, o3, o4));
    }
    Ok(())
}

/// The table around a package body: the table header, the global value pool, then the
/// package header and `body`, with both sizes filled in; what stands in `body` stands in the
/// table, moved by the two headers and the pool.
fn table_bytes(package_name: &str, type_pool_len: usize, key_count: usize, global_pool: &Vec<u8>, body: &Vec<u8>)
    -> (r: Result<Vec<u8>, ResourceError>)
    ensures
        r matches Ok(b) ==> b@.len() >= 8 && b@.subrange(0, 2) == le16(2) && b@.subrange(4, 8) == le32(b@.len() as u32),
        r matches Ok(b) ==> forall|o: int, c: Seq<u8>| #[trigger] chunk_at(body@, o, c) ==> chunk_at(
            b@,
            12 + global_pool@.len() + 288 + o,
            c,
        ),
{
    let mut package = package_header(package_name, type_pool_len, key_count)?;
    let ghost ph = package@;
    extend(&mut package, body.as_slice());
    let ghost pk = package@;
    assert(package@ == ph + body@);
    let package = finish_size(package)?;

    let mut out: Vec<u8> = Vec::new();
    short(&mut out, 0x0002);
    short(&mut out, 12);
    word(&mut out, 0);
    word(&mut out, 1);
    let ghost head = out@;
    extend(&mut out, global_pool.as_slice());
    let ghost hg = out@;
    extend(&mut out, package.as_slice());
    let ghost whole = out@;
    let ghost shift = hg.len() + 288;
    assert(whole == hg + package@);
    assert(out@.subrange(0, 2) =~= head.subrange(0, 2));
    assert(head.subrange(0, 2) =~= le16(2));
    let out = finish_size(out)?;
    proof {
        assert forall|o: int, c: Seq<u8>| #[trigger] chunk_at(body@, o, c) implies chunk_at(out@, shift + o, c) by {
            chunk_shifts(ph, body@, o, c);
            chunk_past_size(pk, package@, 288 + o, c);
            chunk_shifts(hg, package@, 288 + o, c);
            chunk_past_size(whole, out@, shift + o, c);
        }
    }
    Ok(out)
}

/// The resource table: global value pool, then one package with its type and key pools
/// and the string, color, drawable, mipmap and style types.
#[verifier::spinoff_prover]
fn resource_table(package_name: &str, strings: &[StringValue], colors: &[(String, u32)], files: &[FileResource],
    theme: Option<(&str, u32, u32)>, ids: &ResourceIds) -> (r: Result<Vec<u8>, ResourceError>)
    ensures
        r matches Ok(b) ==> b@.len() >= 8 && b@.subrange(0, 2) == le16(2) && b@.subrange(4, 8) == le32(b@.len() as u32),
        r matches Ok(b) ==> files_by_type(b@, file_names(files@, false).len(), file_names(files@, true).len()),
{
    let mut values: Vec<String> = Vec::new();
    let mut i: usize = 0;
    while i < strings.len()
        invariant
            i <= strings@.len(),
        decreases strings@.len() - i,
    {
        intern(&mut values, strings[i].value.as_str())?;
        i = i + 1;
    }
    let mut i: usize = 0;
    while i < files.len()
        invariant
            i <= files@.len(),
        decreases files@.len() - i,
    {
        intern(&mut values, file_path(&files[i]).as_str())?;
        i = i + 1;
    }
    let global_pool = string_pool(values.as_slice())?;
    let mut type_names: Vec<String> = Vec::new();
    type_names.push(owned("string"));
    type_names.push(owned("color"));
    type_names.push(owned("drawable"));
    type_names.push(owned("mipmap"));
    type_names.push(owned("style"));
    let type_pool = string_pool(type_names.as_slice())?;
    let mut keys: Vec<String> = Vec::new();
    let mut i: usize = 0;
    while i < strings.len()
        invariant
            i <= strings@.len(),
        decreases strings@.len() - i,
    {
        insert_name(&mut keys, &strings[i].name);
        i = i + 1;
    }
    let mut i: usize = 0;
    while i < colors.len()
        invariant
            i <= colors@.len(),
        decreases colors@.len() - i,
    {
        insert_name(&mut keys, &colors[i].0);
        i = i + 1;
    }
    let mut i: usize = 0;
    while i < files.len()
        invariant
            i <= files@.len(),
        decreases files@.len() - i,
    {
        insert_name(&mut keys, &files[i].name);
        i = i + 1;
    }
    match theme {
        Some((name, _, _)) => insert_name(&mut keys, &owned(name)),
        None => {},
    }
    let key_pool = string_pool(keys.as_slice())?;
    let mut body: Vec<u8> = Vec::new();
    extend(&mut body, type_pool.as_slice());
    extend(&mut body, key_pool.as_slice());
    let mut groups: Vec<(Option<String>, Vec<TableEntry>)> = Vec::new();
    let mut i: usize = 0;
    while i < strings.len()
        invariant
            i <= strings@.len(),
        decreases strings@.len() - i,
    {
        let v = &strings[i];
        let data = index(values.as_slice(), v.value.as_str())?;
        add_to_group(&mut groups, &v.locale, TableEntry { name: v.name.clone(), data_type: 0x03, data });
        i = i + 1;
    }
    emit_type_group(&mut body, 1, ids.string_count(), keys.as_slice(), &groups)?;
    let mut color_entries: Vec<TableEntry> = Vec::new();
    let mut i: usize = 0;
    while i < colors.len()
        invariant
            i <= colors@.len(),
        decreases colors@.len() - i,
    {
        color_entries.push(TableEntry { name: colors[i].0.clone(), data_type: color_data_type(colors[i].1), data: colors[i].1 });
        i = i + 1;
    }
    let mut color_groups: Vec<(Option<String>, Vec<TableEntry>)> = Vec::new();
    color_groups.push((None, color_entries));
    emit_type_group(&mut body, 2, ids.color_count(), keys.as_slice(), &color_groups)?;
    emit_files_and_style(&mut body, files, &values, &keys, theme)?;
    let out = table_bytes(package_name, type_pool.len(), keys.len(), &global_pool, &body)?;
    proof {
        by_type_moves(body@, out@, (12 + global_pool@.len() + 288) as int, file_names(files@, false).len(), file_names(
            files@,
            true,
        ).len());
    }
    Ok(out)
}

/// The packaged path of a resource file: `res/mipmap/` for launcher icons, `res/drawable/`
/// for the others, then the name, a dot and the extension.
pub open spec fn resource_path(f: FileResource) -> Seq<char> {
    (if f.launcher { "res/mipmap/"@ } else { "res/drawable/"@ }) + f.name@ + "."@ + f.extension@
}

/// No two files share a packaged path.
pub open spec fn distinct_paths(files: Seq<FileResource>) -> bool {
    forall|a: int, b: int| 0 <= a < b < files.len() ==> resource_path(#[trigger] files[a]) != resource_path(#[trigger] files[b])
}

/// The entries are sorted by path, strictly.
pub open spec fn sorted_paths(v: Seq<(String, Vec<u8>)>) -> bool {
    forall|i: int, j: int| 0 <= i < j < v.len() ==> seq_char_lt((#[trigger] v[i]).0@, (#[trigger] v[j]).0@)
}

/// The entry holds the file: its path and its bytes.
pub open spec fn holds(e: (String, Vec<u8>), f: FileResource) -> bool {
    e.0@ == resource_path(f) && e.1@ == f.bytes@
}

/// Every file has an entry.
pub open spec fn covers(v: Seq<(String, Vec<u8>)>, files: Seq<FileResource>) -> bool {
    forall|i: int| 0 <= i < files.len() ==> exists|k: int| 0 <= k < v.len() && holds(v[k], #[trigger] files[i])
}

/// Every entry is some file's.
pub open spec fn from_files(v: Seq<(String, Vec<u8>)>, files: Seq<FileResource>) -> bool {
    forall|k: int| 0 <= k < v.len() ==> exists|i: int| 0 <= i < files.len() && holds(#[trigger] v[k], files[i])
}

/// `v` packs the files: one entry per file, its path and its bytes, sorted by path.
pub open spec fn packs(v: Seq<(String, Vec<u8>)>, files: Seq<FileResource>) -> bool {
    &&& v.len() == files.len()
    &&& sorted_paths(v)
    &&& covers(v, files)
    &&& from_files(v, files)
}

/// `out` is `before` with the entry of `f` inserted at `j`.
pub open spec fn inserted_at(before: Seq<(String, Vec<u8>)>, out: Seq<(String, Vec<u8>)>, j: int, f: FileResource) -> bool {
    &&& 0 <= j <= before.len()
    &&& out.len() == before.len() + 1
    &&& forall|k: int| 0 <= k < j ==> out[k] == before[k]
    &&& forall|k: int| j < k < out.len() ==> out[k] == before[k - 1]
    &&& holds(out[j], f)
}

proof fn inserted_sorted(before: Seq<(String, Vec<u8>)>, out: Seq<(String, Vec<u8>)>, j: int, f: FileResource)
    requires
        sorted_paths(before),
        inserted_at(before, out, j, f),
        forall|k: int| 0 <= k < j ==> seq_char_lt((#[trigger] before[k]).0@, resource_path(f)),
        forall|k: int| j <= k < before.len() ==> seq_char_lt(resource_path(f), (#[trigger] before[k]).0@),
    ensures
        sorted_paths(out),
{
    let path = resource_path(f);
    assert forall|a: int, b: int| 0 <= a < b < out.len() implies seq_char_lt((#[trigger] out[a]).0@, (#[trigger] out[b]).0@) by {
        if a < j && b > j {
            assert(out[a] == before[a] && out[b] == before[b - 1]);
            crate::text::lt_transitive(out[a].0@, path, out[b].0@);
        } else if a < j && b < j {
            assert(out[a] == before[a] && out[b] == before[b]);
        } else if a > j {
            assert(out[a] == before[a - 1] && out[b] == before[b - 1]);
        } else if a == j {
            assert(out[b] == before[b - 1]);
        } else {
            assert(out[a] == before[a]);
        }
    }
}

proof fn inserted_covers(before: Seq<(String, Vec<u8>)>, done: Seq<FileResource>, out: Seq<(String, Vec<u8>)>, j: int,
    f: FileResource)
    requires
        covers(before, done),
        inserted_at(before, out, j, f),
    ensures
        covers(out, done.push(f)),
{
    let next = done.push(f);
    assert forall|x: int| 0 <= x < next.len() implies exists|k: int| 0 <= k < out.len() && holds(out[k], #[trigger] next[x]) by {
        if x == done.len() {
            assert(holds(out[j], next[x]));
        } else {
            assert(next[x] == done[x]);
            let k = choose|k: int| 0 <= k < before.len() && holds(before[k], done[x]);
            if k < j {
                assert(out[k] == before[k]);
                assert(holds(out[k], next[x]));
            } else {
                assert(out[k + 1] == before[k]);
                assert(holds(out[k + 1], next[x]));
            }
        }
    }
}

proof fn inserted_from_files(before: Seq<(String, Vec<u8>)>, done: Seq<FileResource>, out: Seq<(String, Vec<u8>)>,
    j: int, f: FileResource)
    requires
        from_files(before, done),
        inserted_at(before, out, j, f),
    ensures
        from_files(out, done.push(f)),
{
    let next = done.push(f);
    assert forall|k: int| 0 <= k < out.len() implies exists|x: int| 0 <= x < next.len() && holds(#[trigger] out[k], next[x]) by {
        if k == j {
            assert(holds(out[k], next[done.len() as int]));
        } else {
            let m = if k < j { k } else { k - 1 };
            assert(out[k] == before[m]);
            let x = choose|x: int| 0 <= x < done.len() && holds(before[m], done[x]);
            assert(next[x] == done[x]);
            assert(holds(out[k], next[x]));
        }
    }
}

proof fn inserted_distinct(before: Seq<(String, Vec<u8>)>, done: Seq<FileResource>, j: int, f: FileResource)
    requires
        covers(before, done),
        distinct_paths(done),
        0 <= j <= before.len(),
        forall|k: int| 0 <= k < j ==> seq_char_lt((#[trigger] before[k]).0@, resource_path(f)),
        forall|k: int| j <= k < before.len() ==> seq_char_lt(resource_path(f), (#[trigger] before[k]).0@),
    ensures
        distinct_paths(done.push(f)),
{
    let next = done.push(f);
    let path = resource_path(f);
    assert forall|a: int, b: int| 0 <= a < b < next.len() implies resource_path(#[trigger] next[a]) != resource_path(#[trigger] next[b]) by {
        if b == done.len() {
            assert(next[a] == done[a]);
            let k = choose|k: int| 0 <= k < before.len() && holds(before[k], done[a]);
            crate::text::lt_irreflexive(path);
            if k < j {
                assert(seq_char_lt(before[k].0@, path));
            } else {
                assert(seq_char_lt(path, before[k].0@));
            }
        } else {
            assert(next[a] == done[a] && next[b] == done[b]);
        }
    }
}

/// An entry of the files before `i` with the path of file `i` shows two files sharing a path.
proof fn duplicate_path(before: Seq<(String, Vec<u8>)>, files: Seq<FileResource>, i: int, j: int)
    requires
        0 <= i < files.len(),
        0 <= j < before.len(),
        from_files(before, files.take(i)),
        before[j].0@ == resource_path(files[i]),
    ensures
        !distinct_paths(files),
{
    let done = files.take(i);
    let x = choose|x: int| 0 <= x < done.len() && holds(before[j], done[x]);
    assert(files[x] == done[x]);
    assert(resource_path(files[x]) == resource_path(files[i]));
}

/// Sorted, duplicate-free packaged resource files.
#[verifier::spinoff_prover]
#[verifier::rlimit(60)]
fn packaged_entries(files: &[FileResource]) -> (r: Result<Vec<(String, Vec<u8>)>, ResourceError>)
    ensures
        r is Ok <==> distinct_paths(files@),
        r matches Ok(v) ==> packs(v@, files@),
        r matches Err(e) ==> e == ResourceError("Duplicate packaged resource path"),
{
    let mut out: Vec<(String, Vec<u8>)> = Vec::new();
    let mut i: usize = 0;
    assert(files@.take(0) =~= Seq::<FileResource>::empty());
    while i < files.len()
        invariant
            i <= files@.len(),
            distinct_paths(files@.take(i as int)),
            packs(out@, files@.take(i as int)),
        decreases files@.len() - i,
    {
        let path = file_path(&files[i]);
        assert(path@ == resource_path(files@[i as int]));
        let ghost before = out@;
        let ghost done = files@.take(i as int);
        let mut j: usize = 0;
        while j < out.len() && str_lt(out[j].0.as_str(), path.as_str())
            invariant
                j <= out@.len(),
                out@ == before,
                forall|k: int| 0 <= k < j ==> seq_char_lt((#[trigger] out@[k]).0@, path@),
            decreases out@.len() - j,
        {
            j = j + 1;
        }
        if j < out.len() && str_eq(out[j].0.as_str(), path.as_str()) {
            proof {
                duplicate_path(before, files@, i as int, j as int);
            }
            return Err(ResourceError("Duplicate packaged resource path"));
        }
        proof {
            if j < before.len() {
                crate::text::lt_total(before[j as int].0@, path@);
            }
            assert forall|k: int| j <= k < before.len() implies seq_char_lt(path@, (#[trigger] before[k]).0@) by {
                if k > j {
                    crate::text::lt_transitive(path@, before[j as int].0@, before[k].0@);
                }
            }
        }
        out.insert(j, (path, vstd::slice::slice_to_vec(files[i].bytes.as_slice())));
        proof {
            let f = files@[i as int];
            assert(files@.take(i + 1) =~= done.push(f));
            assert(inserted_at(before, out@, j as int, f));
            inserted_sorted(before, out@, j as int, f);
            inserted_covers(before, done, out@, j as int, f);
            inserted_from_files(before, done, out@, j as int, f);
            inserted_distinct(before, done, j as int, f);
        }
        i = i + 1;
    }
    assert(files@.take(i as int) =~= files@);
    Ok(out)
}

/// Default-configuration string names, in order.
pub open spec fn default_string_names(strings: Seq<StringValue>) -> Seq<Seq<char>>
    decreases strings.len(),
{
    if strings.len() == 0 {
        Seq::empty()
    } else {
        default_string_names(strings.drop_last()) + if strings.last().locale is None {
            seq![strings.last().name@]
        } else {
            Seq::empty()
        }
    }
}

/// Names of the files that are (or are not) launcher icons, in order.
pub open spec fn file_names(files: Seq<FileResource>, launcher: bool) -> Seq<Seq<char>>
    decreases files.len(),
{
    if files.len() == 0 {
        Seq::empty()
    } else {
        file_names(files.drop_last(), launcher) + if files.last().launcher == launcher {
            seq![files.last().name@]
        } else {
            Seq::empty()
        }
    }
}

fn default_names(strings: &[StringValue]) -> (r: Vec<&str>)
    ensures
        crate::res::ids::str_views(r@) == default_string_names(strings@),
{
    let mut out: Vec<&str> = Vec::new();
    let mut i: usize = 0;
    while i < strings.len()
        invariant
            i <= strings@.len(),
            crate::res::ids::str_views(out@) == default_string_names(strings@.take(i as int)),
        decreases strings@.len() - i,
    {
        assert(strings@.take(i + 1).drop_last() =~= strings@.take(i as int));
        if strings[i].locale.is_none() {
            out.push(strings[i].name.as_str());
        }
        i = i + 1;
        assert(crate::res::ids::str_views(out@) =~= default_string_names(strings@.take(i as int)));
    }
    assert(strings@.take(i as int) =~= strings@);
    out
}

fn names_of_files(files: &[FileResource], launcher: bool) -> (r: Vec<&str>)
    ensures
        crate::res::ids::str_views(r@) == file_names(files@, launcher),
{
    let mut out: Vec<&str> = Vec::new();
    let mut i: usize = 0;
    while i < files.len()
        invariant
            i <= files@.len(),
            crate::res::ids::str_views(out@) == file_names(files@.take(i as int), launcher),
        decreases files@.len() - i,
    {
        assert(files@.take(i + 1).drop_last() =~= files@.take(i as int));
        if files[i].launcher == launcher {
            out.push(files[i].name.as_str());
        }
        i = i + 1;
        assert(crate::res::ids::str_views(out@) =~= file_names(files@.take(i as int), launcher));
    }
    assert(files@.take(i as int) =~= files@);
    out
}

/// The color names, in order.
pub open spec fn color_names(colors: Seq<(String, u32)>) -> Seq<Seq<char>> {
    colors.map_values(|c: (String, u32)| c.0@)
}

/// The style names: the theme's, if there is one.
pub open spec fn style_names(theme: Option<(&str, &str, &str)>) -> Seq<Seq<char>> {
    match theme {
        Some((name, _, _)) => seq![name@],
        None => Seq::empty(),
    }
}

/// The theme's primary color is not among the colors.
pub open spec fn primary_unknown(colors: Seq<(String, u32)>, theme: Option<(&str, &str, &str)>) -> bool {
    match theme {
        Some((_, primary, _)) => !color_names(colors).contains(primary@),
        None => false,
    }
}

/// The theme's primary color is among the colors and its accent color is not.
pub open spec fn accent_unknown(colors: Seq<(String, u32)>, theme: Option<(&str, &str, &str)>) -> bool {
    match theme {
        Some((_, primary, accent)) => color_names(colors).contains(primary@) && !color_names(colors).contains(accent@),
        None => false,
    }
}

/// No strings, colors, files or theme.
pub open spec fn no_resources(strings: Seq<StringValue>, colors: Seq<(String, u32)>, files: Seq<FileResource>,
    theme: Option<(&str, &str, &str)>) -> bool {
    strings.len() == 0 && colors.len() == 0 && files.len() == 0 && theme is None
}

/// Names that get ids without a duplicate in any type, and few enough of each.
pub open spec fn ids_assignable(strings: Seq<StringValue>, colors: Seq<(String, u32)>, files: Seq<FileResource>,
    theme: Option<(&str, &str, &str)>) -> bool {
    &&& !has_duplicate(default_string_names(strings)) && default_string_names(strings).len() <= 0x1_0000
    &&& !has_duplicate(color_names(colors)) && color_names(colors).len() <= 0x1_0000
    &&& !has_duplicate(file_names(files, false)) && file_names(files, false).len() <= 0x1_0000
    &&& !has_duplicate(file_names(files, true)) && file_names(files, true).len() <= 0x1_0000
    &&& !has_duplicate(style_names(theme)) && style_names(theme).len() <= 0x1_0000
}

/// A name of a table assigned from `names` is found in it exactly when it is one of them.
proof fn known_color(v: Seq<(String, u32)>, names: Seq<Seq<char>>, n: Seq<char>)
    requires
        assigned(v, names, 2),
    ensures
        (crate::ir::check::key_index(v, n) is Some) <==> names.contains(n),
{
    crate::ir::check::key_index_bounds(v, n);
    let tn = crate::res::ids::table_names(v);
    if names.contains(n) {
        assert(name_set(names).contains(n));
        assert(tn.to_set().contains(n));
        let k = choose|k: int| 0 <= k < tn.len() && tn[k] == n;
        assert(v[k].0@ == n);
    }
    if crate::ir::check::key_index(v, n) is Some {
        let i = crate::ir::check::key_index(v, n)->Some_0;
        assert(tn[i] == n);
        assert(tn.to_set().contains(n));
        assert(name_set(names).contains(n));
    }
}

/// Assigns resource ids and emits the resource table and the packaged files: the default
/// string names, color names, drawable and mipmap file names and the theme name each get
/// ids in sorted order; nothing is emitted when there are no resources at all.
pub fn package_resources(package_name: &str, strings: &[StringValue], colors: &[(String, u32)], files: &[FileResource],
    theme: Option<(&str, &str, &str)>) -> (r: Result<ResourcePackage, ResourceError>)
    ensures
        r matches Ok(p) ==> assigned(p.ids.string_table(), default_string_names(strings@), 1) && assigned(
            p.ids.color_table(),
            color_names(colors@),
            2,
        ) && assigned(p.ids.drawable_table(), file_names(files@, false), 3) && assigned(
            p.ids.mipmap_table(),
            file_names(files@, true),
            4,
        ) && assigned(p.ids.style_table(), style_names(theme), 5),
        r matches Ok(p) ==> (if no_resources(strings@, colors@, files@, theme) {
            p.table@.len() == 0 && p.entries@.len() == 0
        } else {
            packs(p.entries@, files@) && p.table@.len() >= 8 && p.table@.subrange(0, 2) == le16(2)
                && p.table@.subrange(4, 8) == le32(p.table@.len() as u32)
        }),
        r matches Ok(p) ==> (!no_resources(strings@, colors@, files@, theme) ==> files_by_type(
            p.table@,
            file_names(files@, false).len(),
            file_names(files@, true).len(),
        )),
        ids_assignable(strings@, colors@, files@, theme) && no_resources(strings@, colors@, files@, theme) ==> r is Ok,
        ids_assignable(strings@, colors@, files@, theme) && !no_resources(strings@, colors@, files@, theme)
            && !distinct_paths(files@) ==> r == Err::<ResourcePackage, ResourceError>(
            ResourceError("Duplicate packaged resource path"),
        ),
        ids_assignable(strings@, colors@, files@, theme) && !no_resources(strings@, colors@, files@, theme)
            && distinct_paths(files@) && primary_unknown(colors@, theme) ==> r == Err::<ResourcePackage, ResourceError>(
            ResourceError("Unknown primary theme color"),
        ),
        ids_assignable(strings@, colors@, files@, theme) && !no_resources(strings@, colors@, files@, theme)
            && distinct_paths(files@) && accent_unknown(colors@, theme) ==> r == Err::<ResourcePackage, ResourceError>(
            ResourceError("Unknown accent theme color"),
        ),
{
    let default_strings = default_names(strings);
    let drawables = names_of_files(files, false);
    let mipmaps = names_of_files(files, true);
    let mut color_list: Vec<&str> = Vec::new();
    let mut i: usize = 0;
    while i < colors.len()
        invariant
            i <= colors@.len(),
            color_list@.len() == i,
            forall|k: int| 0 <= k < i ==> (#[trigger] color_list@[k])@ == colors@[k].0@,
        decreases colors@.len() - i,
    {
        color_list.push(colors[i].0.as_str());
        i = i + 1;
    }
    assert(crate::res::ids::str_views(color_list@) =~= color_names(colors@));
    let mut styles: Vec<&str> = Vec::new();
    match theme {
        Some((name, _, _)) => styles.push(name),
        None => {},
    }
    assert(crate::res::ids::str_views(styles@) =~= style_names(theme));
    let ids = ResourceIds::all(default_strings.as_slice(), color_list.as_slice(), drawables.as_slice(),
        mipmaps.as_slice(), styles.as_slice())?;
    if strings.len() == 0 && colors.len() == 0 && files.len() == 0 && theme.is_none() {
        return Ok(ResourcePackage { table: Vec::new(), entries: Vec::new(), ids });
    }
    let entries = packaged_entries(files)?;
    let resolved = match theme {
        Some((name, primary, accent)) => {
            proof {
                known_color(ids.color_table(), color_names(colors@), primary@);
                known_color(ids.color_table(), color_names(colors@), accent@);
            }
            let p = match ids.color(primary) {
                Some(p) => p,
                None => return Err(ResourceError("Unknown primary theme color")),
            };
            let a = match ids.color(accent) {
                Some(a) => a,
                None => return Err(ResourceError("Unknown accent theme color")),
            };
            Some((name, p, a))
        },
        None => None,
    };
    let table = resource_table(package_name, strings, colors, files, resolved, &ids)?;
    Ok(ResourcePackage { table, entries, ids })
}

} // verus!
