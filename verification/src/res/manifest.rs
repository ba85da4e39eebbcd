//! The compiler-owned Android manifest: its XML text and its binary XML encoding.
use vstd::prelude::*;
use crate::apk::le32_at;
use crate::encoding::{le16, le32, chars_of};
use crate::res::{ResourceError, word, short, extend, chunk, chunk_bytes, index, intern, string_pool, position, position_extends, extends_trans, position_bounds};
use crate::text::{owned, concat, string_of_chars};

verus! {

/// `android.R.attr` ids of the attributes the manifest uses, in id order.
pub open spec fn attribute_ids() -> Seq<u32> {
    seq![16_842_752u32, 16_842_753, 16_842_754, 16_842_755, 16_842_768, 16_843_276, 16_843_376]
}

/// The Android namespace URI.
/// The Android namespace URI, as characters.
pub open spec fn android_uri_spec() -> Seq<char> {
    "http://schemas.android.com/apk/res/android"@
}

fn android_uri() -> (r: &'static str)
    ensures
        r@ == "http://schemas.android.com/apk/res/android"@,
{
    "http://schemas.android.com/apk/res/android"
}

/// The attributes the manifest uses with their `android.R.attr` ids.
pub open spec fn attribute_entries() -> Seq<(&'static str, u32)> {
    seq![
        ("theme", 16_842_752u32),
        ("label", 16_842_753u32),
        ("icon", 16_842_754u32),
        ("name", 16_842_755u32),
        ("exported", 16_842_768u32),
        ("minSdkVersion", 16_843_276u32),
        ("targetSdkVersion", 16_843_376u32),
    ]
}

/// The id of the first attribute named `n`, or 0 for a name outside the table.
pub open spec fn attribute_lookup(t: Seq<(&'static str, u32)>, n: Seq<char>) -> u32
    decreases t.len(),
{
    if t.len() == 0 {
        0
    } else if t[0].0@ == n {
        t[0].1
    } else {
        attribute_lookup(t.drop_first(), n)
    }
}

/// The attribute names and their `android.R.attr` ids.
fn attribute_table() -> (r: Vec<(&'static str, u32)>)
    ensures
        r@ == attribute_entries(),
        r@.len() == 7,
        forall|i: int| 0 <= i < 7 ==> (#[trigger] r@[i]).1 == attribute_ids()[i],
{
    let mut v: Vec<(&'static str, u32)> = Vec::new();
    v.push(("theme", 16_842_752));
    v.push(("label", 16_842_753));
    v.push(("icon", 16_842_754));
    v.push(("name", 16_842_755));
    v.push(("exported", 16_842_768));
    v.push(("minSdkVersion", 16_843_276));
    v.push(("targetSdkVersion", 16_843_376));
    assert(v@ =~= attribute_entries());
    v
}

/// The id of an attribute name, or 0 for one outside the android namespace.
fn attribute_id(name: &str) -> (r: u32)
    ensures
        r == attribute_lookup(attribute_entries(), name@),
{
    let t = attribute_table();
    let mut i: usize = 0;
    assert(t@.skip(0) =~= t@);
    while i < t.len()
        invariant
            i <= t@.len(),
            t@ == attribute_entries(),
            attribute_lookup(t@, name@) == attribute_lookup(t@.skip(i as int), name@),
        decreases t@.len() - i,
    {
        proof {
            let s = t@.skip(i as int);
            assert(s.drop_first() =~= t@.skip(i + 1));
            assert(s[0] == t@[i as int]);
        }
        if crate::text::str_eq(t[i].0, name) {
            return t[i].1;
        }
        i = i + 1;
    }
    assert(t@.skip(i as int) =~= Seq::<(&'static str, u32)>::empty());
    0
}

#[derive(Clone)]
struct Attribute {
    name: &'static str,
    value: String,
    kind: u8,
    data: u32,
    android: bool,
}

struct Element {
    name: &'static str,
    attrs: Vec<Attribute>,
    children: Vec<Element>,
}

fn attr(name: &'static str, value: &str, kind: u8, data: u32) -> (r: Attribute)
    ensures
        r.name == name,
        r.value@ == value@,
        r.kind == kind,
        r.data == data,
        r.android == (name@ != "package"@),
{
    let android = !crate::text::str_eq(name, "package");
    Attribute { name, value: owned(value), kind, data, android }
}

fn element(name: &'static str, attrs: Vec<Attribute>, children: Vec<Element>) -> (r: Element)
    ensures
        r.name == name,
        r.attrs == attrs,
        r.children == children,
{
    Element { name, attrs, children }
}

/// A character that XML 1.0 allows in attribute values.
pub open spec fn xml_char(c: char) -> bool {
    let v = c as u32;
    v == 0x9 || v == 0xa || v == 0xd || (0x20 <= v && v <= 0xd7ff) || (0xe000 <= v && v <= 0xfffd) || (0x10000
        <= v && v <= 0x10ffff)
}

fn all_xml_chars(s: &str) -> (r: bool)
    ensures
        r == forall|i: int| 0 <= i < s@.len() ==> xml_char(#[trigger] s@[i]),
{
    let cs = chars_of(s);
    let mut i: usize = 0;
    while i < cs.len()
        invariant
            cs@ == s@,
            i <= cs@.len(),
            forall|j: int| 0 <= j < i ==> xml_char(#[trigger] cs@[j]),
        decreases cs@.len() - i,
    {
        let v = cs[i] as u32;
        if !(v == 0x9 || v == 0xa || v == 0xd || (0x20 <= v && v <= 0xd7ff) || (0xe000 <= v && v <= 0xfffd) || (
        0x10000 <= v && v <= 0x10ffff)) {
            assert(!xml_char(cs@[i as int]));
            return false;
        }
        i = i + 1;
    }
    true
}

/// The characters are all allowed in XML 1.0.
spec fn xml_text(s: Seq<char>) -> bool {
    forall|j: int| 0 <= j < s.len() ==> xml_char(#[trigger] s[j])
}

/// Every attribute value in the tree is XML text.
spec fn values_ok(e: Element) -> bool
    decreases e,
{
    &&& forall|i: int| 0 <= i < e.attrs@.len() ==> xml_text(#[trigger] e.attrs@[i].value@)
    &&& forall|i: int| 0 <= i < e.children@.len() ==> values_ok(#[trigger] e.children@[i])
}

/// The pool holds the attribute's name, and its value where that is a string.
spec fn attr_pooled(a: Attribute, p: Seq<String>) -> bool {
    &&& position(p, a.name@) is Some
    &&& a.kind == 3 ==> position(p, a.value@) is Some
}

/// The pool holds every name of the tree and its string values.
spec fn pooled(e: Element, p: Seq<String>) -> bool
    decreases e,
{
    &&& position(p, e.name@) is Some
    &&& forall|i: int| 0 <= i < e.attrs@.len() ==> attr_pooled(#[trigger] e.attrs@[i], p)
    &&& forall|i: int| 0 <= i < e.children@.len() ==> pooled(#[trigger] e.children@[i], p)
}

/// A pool that extends `p` holds what `p` holds.
proof fn pooled_extends(e: Element, p: Seq<String>, q: Seq<String>)
    requires
        pooled(e, p),
        q.len() >= p.len(),
        q.take(p.len() as int) == p,
    ensures
        pooled(e, q),
    decreases e,
{
    position_extends(p, q, e.name@);
    assert forall|i: int| 0 <= i < e.attrs@.len() implies attr_pooled(#[trigger] e.attrs@[i], q) by {
        position_extends(p, q, e.attrs@[i].name@);
        if e.attrs@[i].kind == 3 {
            position_extends(p, q, e.attrs@[i].value@);
        }
    }
    assert forall|i: int| 0 <= i < e.children@.len() implies pooled(#[trigger] e.children@[i], q) by {
        vstd::std_specs::vec::axiom_vec_index_decreases(e.children, i);
        pooled_extends(e.children@[i], p, q);
    }
}

/// Adds the element's name, attribute names and string values to the pool.
fn collect(e: &Element, strings: &mut Vec<String>) -> (r: Result<(), ResourceError>)
    ensures
        final(strings)@.len() >= old(strings)@.len(),
        final(strings)@.take(old(strings)@.len() as int) == old(strings)@,
        r is Ok ==> pooled(*e, final(strings)@) && values_ok(*e),
        r is Err ==> !values_ok(*e) || final(strings)@.len() > u32::MAX,
    decreases e,
{
    let ghost o = strings@;
    assert(o.take(o.len() as int) =~= o);
    intern(strings, e.name)?;
    let ghost p0 = strings@;
    let mut res: Result<(), ResourceError> = Ok(());
    let mut i: usize = 0;
    while i < e.attrs.len()
        invariant_except_break
            res is Ok,
            forall|k: int| 0 <= k < i ==> attr_pooled(#[trigger] e.attrs@[k], strings@),
            forall|k: int| 0 <= k < i ==> xml_text(#[trigger] e.attrs@[k].value@),
        invariant
            i <= e.attrs@.len(),
            strings@.len() >= p0.len(),
            strings@.take(p0.len() as int) == p0,
            p0.len() >= o.len(),
            p0.take(o.len() as int) == o,
            position(p0, e.name@) is Some,
        ensures
            strings@.len() >= p0.len(),
            strings@.take(p0.len() as int) == p0,
            res is Ok ==> forall|k: int| 0 <= k < e.attrs@.len() ==> attr_pooled(#[trigger] e.attrs@[k], strings@),
            res is Ok ==> forall|k: int| 0 <= k < e.attrs@.len() ==> xml_text(#[trigger] e.attrs@[k].value@),
            res is Err ==> !values_ok(*e) || strings@.len() > u32::MAX,
        decreases e.attrs@.len() - i,
    {
        let a = &e.attrs[i];
        if !all_xml_chars(a.value.as_str()) {
            assert(!xml_text(e.attrs@[i as int].value@));
            res = Err(ResourceError("Manifest value contains a character forbidden by XML 1.0"));
            break;
        }
        let ghost s1 = strings@;
        let r1 = intern(strings, a.name);
        if r1.is_err() {
            res = r1;
            break;
        }
        let ghost s2 = strings@;
        assert(s2.take(s2.len() as int) =~= s2);
        if a.kind == 3 {
            let r2 = intern(strings, a.value.as_str());
            if r2.is_err() {
                proof {
                    extends_trans(p0, s1, s2);
                }
                res = r2;
                break;
            }
        }
        proof {
            extends_trans(s1, s2, strings@);
            extends_trans(p0, s1, strings@);
            position_extends(s2, strings@, a.name@);
            assert forall|k: int| 0 <= k < i + 1 implies attr_pooled(#[trigger] e.attrs@[k], strings@) by {
                if k < i {
                    position_extends(s1, strings@, e.attrs@[k].name@);
                    if e.attrs@[k].kind == 3 {
                        position_extends(s1, strings@, e.attrs@[k].value@);
                    }
                }
            }
        }
        i = i + 1;
    }
    proof {
        extends_trans(o, p0, strings@);
    }
    if res.is_err() {
        return res;
    }
    proof {
        position_extends(p0, strings@, e.name@);
    }
    let ghost p1 = strings@;
    let mut i: usize = 0;
    while i < e.children.len()
        invariant_except_break
            res is Ok,
            forall|k: int| 0 <= k < i ==> pooled(#[trigger] e.children@[k], strings@),
            forall|k: int| 0 <= k < i ==> values_ok(#[trigger] e.children@[k]),
        invariant
            i <= e.children@.len(),
            strings@.len() >= p1.len(),
            strings@.take(p1.len() as int) == p1,
            p1.len() >= o.len(),
            p1.take(o.len() as int) == o,
        ensures
            strings@.len() >= p1.len(),
            strings@.take(p1.len() as int) == p1,
            res is Ok ==> forall|k: int| 0 <= k < e.children@.len() ==> pooled(#[trigger] e.children@[k], strings@),
            res is Ok ==> forall|k: int| 0 <= k < e.children@.len() ==> values_ok(#[trigger] e.children@[k]),
            res is Err ==> !values_ok(*e) || strings@.len() > u32::MAX,
        decreases e.children@.len() - i,
    {
        proof {
            vstd::std_specs::vec::axiom_vec_index_decreases(e.children, i as int);
        }
        let ghost s1 = strings@;
        let r1 = collect(&e.children[i], strings);
        proof {
            extends_trans(p1, s1, strings@);
        }
        if r1.is_err() {
            res = r1;
            break;
        }
        proof {
            assert forall|k: int| 0 <= k < i + 1 implies pooled(#[trigger] e.children@[k], strings@) by {
                if k < i {
                    pooled_extends(e.children@[k], s1, strings@);
                }
            }
        }
        i = i + 1;
    }
    proof {
        extends_trans(o, p1, strings@);
    }
    if res.is_err() {
        return res;
    }
    proof {
        position_extends(p1, strings@, e.name@);
        assert forall|k: int| 0 <= k < e.attrs@.len() implies attr_pooled(#[trigger] e.attrs@[k], strings@) by {
            position_extends(p1, strings@, e.attrs@[k].name@);
            if e.attrs@[k].kind == 3 {
                position_extends(p1, strings@, e.attrs@[k].value@);
            }
        }
    }
    Ok(())
}

/// A sequence of whole chunks, each at least a header long and a multiple of four bytes.
pub open spec fn chunked(b: Seq<u8>) -> bool
    decreases b.len(),
{
    if b.len() == 0 {
        true
    } else {
        let size = le32_at(b, 4) as int;
        &&& b.len() >= 8
        &&& size >= 8
        &&& size % 4 == 0
        &&& size <= b.len()
        &&& chunked(b.skip(size))
    }
}

/// A chunk whose body is a multiple of four bytes is a whole chunk.
proof fn chunk_is_chunked(kind: u16, header: u16, body: Seq<u8>)
    requires
        body.len() % 4 == 0,
        body.len() + 8 <= u32::MAX,
    ensures
        chunked(chunk_bytes(kind, header, body)),
{
    let b = chunk_bytes(kind, header, body);
    let size = (body.len() + 8) as u32;
    crate::apk::le32_roundtrip(size);
    assert(b.subrange(4, 8) =~= le32(size));
    assert(le32_at(b, 4) == le32_at(b.subrange(4, 8), 0));
    assert(b.skip(size as int) =~= Seq::<u8>::empty());
    assert(chunked(b.skip(size as int)));
}

/// Chunk sequences concatenate.
proof fn chunked_concat(a: Seq<u8>, b: Seq<u8>)
    requires
        chunked(a),
        chunked(b),
    ensures
        chunked(a + b),
    decreases a.len(),
{
    if a.len() == 0 {
        assert(a + b =~= b);
    } else {
        let size = le32_at(a, 4) as int;
        chunked_concat(a.skip(size), b);
        assert((a + b).skip(size) =~= a.skip(size) + b);
        assert(le32_at(a + b, 4) == le32_at(a, 4));
    }
}

/// Appends a whole chunk.
fn push_chunk(out: &mut Vec<u8>, kind: u16, header: u16, body: Vec<u8>) -> (r: Result<(), ResourceError>)
    requires
        body@.len() % 4 == 0,
    ensures
        r is Ok <==> body@.len() + 8 <= u32::MAX,
        r is Err ==> final(out)@ == old(out)@,
        r is Ok ==> final(out)@ == old(out)@ + chunk_bytes(kind, header, body@),
        r is Ok ==> (chunked(old(out)@) ==> chunked(final(out)@)),
{
    let c = chunk(kind, header, body)?;
    proof {
        chunk_is_chunked(kind, header, body@);
        if chunked(out@) {
            chunked_concat(out@, c@);
        }
    }
    extend(out, c.as_slice());
    Ok(())
}

fn node() -> (r: Vec<u8>)
    ensures
        r@.len() == 8,
        r@ == le32(1) + le32(0xffff_ffff),
{
    let mut out: Vec<u8> = Vec::new();
    word(&mut out, 1);
    word(&mut out, 0xffff_ffff);
    assert(out@ =~= le32(1) + le32(0xffff_ffff));
    out
}

/// A namespace start or end chunk body.
fn namespace(kind: u16, strings: &[String]) -> (r: Result<Vec<u8>, ResourceError>)
    ensures
        r matches Ok(b) ==> b@.len() == 24 && chunked(b@),
        r is Ok <==> position(strings@, "android"@) is Some && position(strings@, android_uri_spec()) is Some
            && position(strings@, "android"@)->0 <= u32::MAX && position(strings@, android_uri_spec())->0 <= u32::MAX,
        r matches Ok(b) ==> b@ == chunk_bytes(
            kind,
            16,
            le32(1) + le32(0xffff_ffff) + le32(position(strings@, "android"@)->0 as u32) + le32(
                position(strings@, android_uri_spec())->0 as u32,
            ),
        ),
{
    let mut out = node();
    word(&mut out, index(strings, "android")?);
    word(&mut out, index(strings, android_uri())?);
    let c = chunk(kind, 16, out)?;
    proof {
        chunk_is_chunked(kind, 16, c@.skip(8));
        assert(c@ =~= chunk_bytes(kind, 16, c@.skip(8)));
    }
    Ok(c)
}

/// The `android.R.attr` id that orders attribute `i` of `attrs`.
spec fn attr_key(attrs: Seq<Attribute>, i: int) -> u32 {
    attribute_lookup(attribute_entries(), attrs[i].name@)
}

/// Attribute `a` comes before attribute `b`: a smaller id, or the same id and an earlier place.
spec fn attr_before(attrs: Seq<Attribute>, a: int, b: int) -> bool {
    attr_key(attrs, a) < attr_key(attrs, b) || (attr_key(attrs, a) == attr_key(attrs, b) && a < b)
}

/// Attribute order of the binary encoding: by `android.R.attr` id, stable.
fn attribute_order(attrs: &Vec<Attribute>) -> (r: Vec<usize>)
    ensures
        forall|i: int| 0 <= i < r@.len() ==> (#[trigger] r@[i]) < attrs@.len(),
        r@.len() == attrs@.len(),
        forall|i: int, j: int| 0 <= i < j < r@.len() ==> attr_before(attrs@, #[trigger] r@[i] as int, #[trigger] r@[j] as int),
{
    let mut keys: Vec<u32> = Vec::new();
    let mut order: Vec<usize> = Vec::new();
    let mut i: usize = 0;
    while i < attrs.len()
        invariant
            i <= attrs@.len(),
            order@.len() == keys@.len(),
            order@.len() == i,
            forall|k: int| 0 <= k < order@.len() ==> (#[trigger] order@[k]) < i,
            forall|k: int| 0 <= k < order@.len() ==> #[trigger] keys@[k] == attr_key(attrs@, order@[k] as int),
            forall|a: int, b: int| 0 <= a < b < order@.len() ==> attr_before(attrs@, #[trigger] order@[a] as int, #[trigger] order@[b] as int),
        decreases attrs@.len() - i,
    {
        let key = attribute_id(attrs[i].name);
        let mut j: usize = order.len();
        while j > 0 && keys[j - 1] > key
            invariant
                j <= keys@.len(),
                order@.len() == keys@.len(),
                forall|m: int| j <= m < keys@.len() ==> #[trigger] keys@[m] > key,
            decreases j,
        {
            j = j - 1;
        }
        let ghost ko = keys@;
        let ghost oo = order@;
        proof {
            assert forall|m: int| 0 <= m < j implies #[trigger] ko[m] <= key by {
                if m < j - 1 {
                    assert(attr_before(attrs@, oo[m] as int, oo[j - 1] as int));
                }
            }
        }
        keys.insert(j, key);
        order.insert(j, i);
        proof {
            assert forall|k: int| 0 <= k < order@.len() implies #[trigger] keys@[k] == attr_key(attrs@, order@[k] as int) by {
                if k < j {
                    assert(keys@[k] == ko[k] && order@[k] == oo[k]);
                } else if k > j {
                    assert(keys@[k] == ko[k - 1] && order@[k] == oo[k - 1]);
                }
            }
            assert forall|a: int, b: int| 0 <= a < b < order@.len() implies attr_before(attrs@, #[trigger] order@[a] as int, #[trigger] order@[b] as int) by {
                if a < j && b < j {
                    assert(order@[a] == oo[a] && order@[b] == oo[b]);
                } else if a > j {
                    assert(order@[a] == oo[a - 1] && order@[b] == oo[b - 1]);
                } else if a == j {
                    assert(order@[b] == oo[b - 1]);
                    assert(ko[b - 1] > key);
                } else if b == j {
                    assert(order@[a] == oo[a]);
                    assert(ko[a] <= key);
                } else {
                    assert(order@[a] == oo[a] && order@[b] == oo[b - 1]);
                    assert(ko[a] <= key && ko[b - 1] > key);
                }
            }
            assert forall|k: int| 0 <= k < order@.len() implies (#[trigger] order@[k]) < i + 1 by {
                if k < j {
                    assert(order@[k] == oo[k]);
                } else if k > j {
                    assert(order@[k] == oo[k - 1]);
                }
            }
        }
        i = i + 1;
    }
    order
}

/// The pool holds what the binary form of the tree refers to: each element's name, its
/// attribute names and string values, and the android namespace where an attribute is in
/// it; and no element has more than `0xffff` attributes.
spec fn binary_ready(e: Element, p: Seq<String>) -> bool
    decreases e,
{
    &&& position(p, e.name@) is Some
    &&& e.attrs@.len() <= 0xffff
    &&& forall|i: int| 0 <= i < e.attrs@.len() ==> attr_pooled(#[trigger] e.attrs@[i], p)
    &&& forall|i: int| 0 <= i < e.attrs@.len() ==> (#[trigger] e.attrs@[i]).android ==> position(p, android_uri_spec()) is Some
    &&& forall|i: int| 0 <= i < e.children@.len() ==> binary_ready(#[trigger] e.children@[i], p)
}

/// Appends the start chunk, the children and the end chunk of an element.
fn emit_binary(e: &Element, strings: &[String], out: &mut Vec<u8>) -> (r: Result<(), ResourceError>)
    ensures
        r is Ok ==> (chunked(old(out)@) ==> chunked(final(out)@)),
        binary_ready(*e, strings@) && strings@.len() <= u32::MAX ==> r is Ok,
    decreases e,
{
    let ghost ready = binary_ready(*e, strings@) && strings@.len() <= u32::MAX;
    proof {
        position_bounds(strings@, e.name@);
    }
    let mut body = node();
    word(&mut body, 0xffff_ffff);
    word(&mut body, index(strings, e.name)?);
    short(&mut body, 20);
    short(&mut body, 20);
    if e.attrs.len() > 0xffff {
        return Err(crate::res::size_limit());
    }
    short(&mut body, e.attrs.len() as u16);
    short(&mut body, 0);
    short(&mut body, 0);
    short(&mut body, 0);
    let order = attribute_order(&e.attrs);
    let mut k: usize = 0;
    while k < order.len()
        invariant
            k <= order@.len(),
            order@.len() == e.attrs@.len(),
            e.attrs@.len() <= 0xffff,
            forall|i: int| 0 <= i < order@.len() ==> (#[trigger] order@[i]) < e.attrs@.len(),
            body@.len() == 28 + 20 * k,
            ready == (binary_ready(*e, strings@) && strings@.len() <= u32::MAX),
        decreases order@.len() - k,
    {
        let a = &e.attrs[order[k]];
        proof {
            position_bounds(strings@, a.name@);
            position_bounds(strings@, a.value@);
            position_bounds(strings@, android_uri_spec());
        }
        if a.android {
            word(&mut body, index(strings, android_uri())?);
        } else {
            word(&mut body, 0xffff_ffff);
        }
        word(&mut body, index(strings, a.name)?);
        let data = if a.kind == 3 { index(strings, a.value.as_str())? } else { a.data };
        word(&mut body, if a.kind == 3 { data } else { 0xffff_ffff });
        short(&mut body, 8);
        body.push(0);
        body.push(a.kind);
        word(&mut body, data);
        k = k + 1;
    }
    push_chunk(out, 0x102, 16, body)?;
    let mut i: usize = 0;
    while i < e.children.len()
        invariant
            i <= e.children@.len(),
            chunked(old(out)@) ==> chunked(out@),
            ready == (binary_ready(*e, strings@) && strings@.len() <= u32::MAX),
        decreases e.children@.len() - i,
    {
        proof {
            vstd::std_specs::vec::axiom_vec_index_decreases(e.children, i as int);
        }
        emit_binary(&e.children[i], strings, out)?;
        i = i + 1;
    }
    let mut end = node();
    word(&mut end, 0xffff_ffff);
    word(&mut end, index(strings, e.name)?);
    push_chunk(out, 0x103, 16, end)?;
    Ok(())
}

/// Compiler-owned manifest model: it is built from values, never from arbitrary XML.
pub struct Manifest {
    root: Element,
}

/// The escaped form of one character in an XML attribute value.
pub open spec fn escape_char(c: char) -> Seq<char> {
    if c == '&' {
        seq!['&', 'a', 'm', 'p', ';']
    } else if c == '"' {
        seq!['&', 'q', 'u', 'o', 't', ';']
    } else if c == '<' {
        seq!['&', 'l', 't', ';']
    } else if c == '>' {
        seq!['&', 'g', 't', ';']
    } else if c == '\r' {
        seq!['&', '#', '1', '3', ';']
    } else if c == '\n' {
        seq!['&', '#', '1', '0', ';']
    } else if c == '\t' {
        seq!['&', '#', '9', ';']
    } else {
        seq![c]
    }
}

/// The escaped form of an attribute value.
pub open spec fn escape_text(s: Seq<char>) -> Seq<char>
    decreases s.len(),
{
    if s.len() == 0 {
        Seq::empty()
    } else {
        escape_text(s.drop_last()) + escape_char(s.last())
    }
}

fn push_chars(out: &mut Vec<char>, s: &str)
    ensures
        final(out)@ == old(out)@ + s@,
{
    let cs = chars_of(s);
    let mut i: usize = 0;
    while i < cs.len()
        invariant
            cs@ == s@,
            i <= cs@.len(),
            out@ == old(out)@ + cs@.take(i as int),
        decreases cs@.len() - i,
    {
        out.push(cs[i]);
        i = i + 1;
        assert(out@ =~= old(out)@ + cs@.take(i as int));
    }
    assert(cs@.take(i as int) =~= cs@);
}

/// Appends the escaped form of an attribute value.
fn escape_into(out: &mut Vec<char>, s: &str)
    ensures
        final(out)@ == old(out)@ + escape_text(s@),
{
    let cs = chars_of(s);
    let mut i: usize = 0;
    while i < cs.len()
        invariant
            cs@ == s@,
            i <= cs@.len(),
            out@ == old(out)@ + escape_text(cs@.take(i as int)),
        decreases cs@.len() - i,
    {
        let c = cs[i];
        proof {
            reveal_strlit("&amp;");
            reveal_strlit("&quot;");
            reveal_strlit("&lt;");
            reveal_strlit("&gt;");
            reveal_strlit("&#13;");
            reveal_strlit("&#10;");
            reveal_strlit("&#9;");
        }
        if c == '&' {
            push_chars(out, "&amp;");
        } else if c == '"' {
            push_chars(out, "&quot;");
        } else if c == '<' {
            push_chars(out, "&lt;");
        } else if c == '>' {
            push_chars(out, "&gt;");
        } else if c == '\r' {
            push_chars(out, "&#13;");
        } else if c == '\n' {
            push_chars(out, "&#10;");
        } else if c == '\t' {
            push_chars(out, "&#9;");
        } else {
            out.push(c);
        }
        assert(cs@.take(i + 1).drop_last() =~= cs@.take(i as int));
        i = i + 1;
        assert(out@ =~= old(out)@ + escape_text(cs@.take(i as int)));
    }
    assert(cs@.take(i as int) =~= cs@);
}

/// Two spaces for each level of nesting.
pub open spec fn indent(depth: nat) -> Seq<char>
    decreases depth,
{
    if depth == 0 { Seq::empty() } else { indent((depth - 1) as nat) + "  "@ }
}

/// One attribute as XML text: a space, the `android:` prefix where it has one, the name,
/// and the escaped value in double quotes.
pub open spec fn attr_text(android: bool, name: Seq<char>, value: Seq<char>) -> Seq<char> {
    seq![' '] + (if android { "android:"@ } else { Seq::empty() }) + name + "=\""@ + escape_text(value) + seq!['"']
}

/// An attribute in the android namespace.
pub open spec fn android_attr(name: Seq<char>, value: Seq<char>) -> Seq<char> {
    attr_text(true, name, value)
}

/// An element as XML text: its opening tag at `depth` with the namespace declaration on the
/// root, its attributes, and either ` />` or its children and closing tag.
pub open spec fn xml_node(depth: nat, name: Seq<char>, attrs: Seq<char>, inner: Option<Seq<char>>) -> Seq<char> {
    indent(depth) + "<"@ + name + (if depth == 0 {
        " xmlns:android=\""@ + "http://schemas.android.com/apk/res/android"@ + seq!['"']
    } else {
        Seq::empty()
    }) + attrs + match inner {
        None => " />\n"@,
        Some(body) => ">\n"@ + body + indent(depth) + "</"@ + name + ">\n"@,
    }
}

spec fn attrs_text(a: Seq<Attribute>) -> Seq<char>
    decreases a.len(),
{
    if a.len() == 0 {
        Seq::empty()
    } else {
        attrs_text(a.drop_last()) + attr_text(a.last().android, a.last().name@, a.last().value@)
    }
}

spec fn element_text(e: Element, depth: nat) -> Seq<char>
    decreases e, 0int,
{
    xml_node(
        depth,
        e.name@,
        attrs_text(e.attrs@),
        if e.children@.len() == 0 {
            None
        } else {
            Some(if depth + 1 < 1000 { children_text(e.children@, depth + 1) } else { Seq::empty() })
        },
    )
}

spec fn children_text(cs: Seq<Element>, depth: nat) -> Seq<char>
    decreases cs, 1int,
{
    if cs.len() == 0 {
        Seq::empty()
    } else {
        children_text(cs.drop_last(), depth) + element_text(cs[cs.len() - 1], depth)
    }
}

/// The XML declaration that opens the manifest text.
pub open spec fn xml_header() -> Seq<char> {
    "<?xml version=\"1.0\" encoding=\"utf-8\"?>\n"@
}

/// One activity element; the first is exported and carries the launcher intent filter.
pub open spec fn activity_node(name: Seq<char>, launcher: bool) -> Seq<char> {
    xml_node(
        2,
        "activity"@,
        android_attr("name"@, "."@ + name) + android_attr("exported"@, if launcher { "true"@ } else { "false"@ }),
        if launcher {
            Some(
                xml_node(
                    3,
                    "intent-filter"@,
                    Seq::empty(),
                    Some(
                        xml_node(4, "action"@, android_attr("name"@, "android.intent.action.MAIN"@), None) + xml_node(
                            4,
                            "category"@,
                            android_attr("name"@, "android.intent.category.LAUNCHER"@),
                            None,
                        ),
                    ),
                ),
            )
        } else {
            None
        },
    )
}

/// The activity elements, in order; the first is the launcher.
pub open spec fn activity_nodes(names: Seq<Seq<char>>) -> Seq<char>
    decreases names.len(),
{
    if names.len() == 0 {
        Seq::empty()
    } else {
        activity_nodes(names.drop_last()) + activity_node(names.last(), names.len() == 1)
    }
}

/// The application's theme attribute: the app style, or the platform's Material Light theme.
pub open spec fn theme_attr(theme: Option<u32>) -> Seq<char> {
    match theme {
        Some(_) => android_attr("theme"@, "@style/app"@),
        None => android_attr("theme"@, "@android:style/Theme.Material.Light.NoActionBar"@),
    }
}

/// The application's icon attribute, where it has an icon.
pub open spec fn icon_attr(icon: Option<u32>) -> Seq<char> {
    match icon {
        Some(_) => android_attr("icon"@, "@mipmap/launcher"@),
        None => Seq::empty(),
    }
}

/// The XML text of the manifest of `package` with `label`, its activities in order, and the
/// optional theme and icon resources.
pub open spec fn manifest_text(package: Seq<char>, label: Seq<char>, activities: Seq<Seq<char>>, theme: Option<u32>,
    icon: Option<u32>) -> Seq<char> {
    xml_header() + xml_node(
        0,
        "manifest"@,
        attr_text(false, "package"@, package),
        Some(
            xml_node(
                1,
                "uses-sdk"@,
                android_attr("minSdkVersion"@, "23"@) + android_attr("targetSdkVersion"@, "35"@),
                None,
            ) + xml_node(
                1,
                "application"@,
                android_attr("label"@, label) + theme_attr(theme) + icon_attr(icon),
                if activities.len() == 0 { None } else { Some(activity_nodes(activities)) },
            ),
        ),
    )
}

/// Appends an element's XML text at nesting depth `depth`.
#[verifier::spinoff_prover]
#[verifier::rlimit(50)]
fn emit_text(e: &Element, depth: usize, out: &mut Vec<char>)
    requires
        depth < 1000,
    ensures
        final(out)@ == old(out)@ + element_text(*e, depth as nat),
    decreases e,
{
    let ghost start = out@;
    let mut k: usize = 0;
    while k < depth
        invariant
            k <= depth,
            out@ == start + indent(k as nat),
        decreases depth - k,
    {
        push_chars(out, "  ");
        k = k + 1;
        assert(out@ =~= start + indent(k as nat));
    }
    push_chars(out, "<");
    push_chars(out, e.name);
    if depth == 0 {
        push_chars(out, " xmlns:android=\"");
        push_chars(out, android_uri());
        out.push('"');
    }
    let ghost opened = out@;
    assert(opened =~= start + indent(depth as nat) + "<"@ + e.name@ + (if depth == 0 {
        " xmlns:android=\""@ + "http://schemas.android.com/apk/res/android"@ + seq!['"']
    } else {
        Seq::empty()
    }));
    let mut i: usize = 0;
    while i < e.attrs.len()
        invariant
            i <= e.attrs@.len(),
            out@ == opened + attrs_text(e.attrs@.take(i as int)),
        decreases e.attrs@.len() - i,
    {
        let a = &e.attrs[i];
        let ghost before = out@;
        out.push(' ');
        if a.android {
            push_chars(out, "android:");
        }
        push_chars(out, a.name);
        push_chars(out, "=\"");
        escape_into(out, a.value.as_str());
        out.push('"');
        proof {
            assert(out@ =~= before + attr_text(a.android, a.name@, a.value@));
            assert(e.attrs@.take(i + 1).drop_last() =~= e.attrs@.take(i as int));
        }
        i = i + 1;
    }
    assert(e.attrs@.take(i as int) =~= e.attrs@);
    let ghost tagged = out@;
    if e.children.len() == 0 {
        push_chars(out, " />\n");
    } else {
        push_chars(out, ">\n");
        let ghost inner_start = out@;
        let mut i: usize = 0;
        while i < e.children.len()
            invariant
                i <= e.children@.len(),
                depth < 1000,
                out@ == inner_start + (if depth + 1 < 1000 {
                    children_text(e.children@.take(i as int), depth as nat + 1)
                } else {
                    Seq::empty()
                }),
            decreases e.children@.len() - i,
        {
            proof {
                vstd::std_specs::vec::axiom_vec_index_decreases(e.children, i as int);
                assert(e.children@.take(i + 1).drop_last() =~= e.children@.take(i as int));
                assert(e.children@.take(i + 1)[i as int] == e.children@[i as int]);
            }
            if depth + 1 < 1000 {
                emit_text(&e.children[i], depth + 1, out);
            }
            i = i + 1;
        }
        assert(e.children@.take(i as int) =~= e.children@);
        let ghost body = out@;
        let mut k: usize = 0;
        while k < depth
            invariant
                k <= depth,
                out@ == body + indent(k as nat),
            decreases depth - k,
        {
            push_chars(out, "  ");
            k = k + 1;
            assert(out@ =~= body + indent(k as nat));
        }
        push_chars(out, "</");
        push_chars(out, e.name);
        push_chars(out, ">\n");
    }
    assert(out@ =~= start + element_text(*e, depth as nat));
}

proof fn attrs_text_one(a: Seq<Attribute>)
    requires
        a.len() == 1,
    ensures
        attrs_text(a) == attr_text(a[0].android, a[0].name@, a[0].value@),
{
    assert(a.drop_last() =~= Seq::<Attribute>::empty());
    assert(attrs_text(a.drop_last()) == Seq::<char>::empty());
    assert(a.last() == a[0]);
    let x = attr_text(a[0].android, a[0].name@, a[0].value@);
    assert(Seq::<char>::empty() + x =~= x);
}

proof fn attrs_text_pair(a: Seq<Attribute>)
    requires
        a.len() == 2,
    ensures
        attrs_text(a) == attr_text(a[0].android, a[0].name@, a[0].value@) + attr_text(a[1].android, a[1].name@, a[1].value@),
{
    attrs_text_one(a.drop_last());
}

proof fn children_text_one(c: Seq<Element>, depth: nat)
    requires
        c.len() == 1,
    ensures
        children_text(c, depth) == element_text(c[0], depth),
{
    assert(c.drop_last() =~= Seq::<Element>::empty());
    assert(children_text(c.drop_last(), depth) == Seq::<char>::empty());
    let x = element_text(c[0], depth);
    assert(Seq::<char>::empty() + x =~= x);
}

proof fn children_text_pair(c: Seq<Element>, depth: nat)
    requires
        c.len() == 2,
    ensures
        children_text(c, depth) == element_text(c[0], depth) + element_text(c[1], depth),
{
    children_text_one(c.drop_last(), depth);
}

impl Manifest {
    /// The manifest's XML text.
    pub closed spec fn text_spec(&self) -> Seq<char> {
        xml_header() + element_text(self.root, 0)
    }

    /// A manifest with one launcher activity.
    pub fn new(package: &str, label: &str, activity: &str) -> (r: Self)
        ensures
            r.text_spec() == manifest_text(package@, label@, seq![activity@], None, None),
    {
        let mut activities: Vec<String> = Vec::new();
        activities.push(owned(activity));
        assert(activities@.map_values(|s: String| s@) =~= seq![activity@]);
        Self::new_multi(package, label, &activities)
    }

    /// A manifest whose first activity is the launcher.
    pub fn new_multi(package: &str, label: &str, activities: &[String]) -> (r: Self)
        ensures
            r.text_spec() == manifest_text(package@, label@, activities@.map_values(|s: String| s@), None, None),
    {
        Self::new_multi_resources(package, label, activities, None, None)
    }

    /// A manifest whose application uses the given theme and launcher icon resources.
    #[verifier::spinoff_prover]
    pub fn new_multi_resources(package: &str, label: &str, activities: &[String], theme: Option<u32>,
        icon: Option<u32>) -> (r: Self)
        ensures
            r.text_spec() == manifest_text(package@, label@, activities@.map_values(|s: String| s@), theme, icon),
    {
        proof {
            reveal_strlit("package");
            reveal_strlit("name");
            reveal_strlit("exported");
            reveal_strlit("label");
            reveal_strlit("theme");
            reveal_strlit("icon");
            reveal_strlit("minSdkVersion");
            reveal_strlit("targetSdkVersion");
        }
        let ghost names = activities@.map_values(|s: String| s@);
        let mut nodes: Vec<Element> = Vec::new();
        let mut i: usize = 0;
        while i < activities.len()
            invariant
                i <= activities@.len(),
                names == activities@.map_values(|s: String| s@),
                nodes@.len() == i,
                children_text(nodes@, 2) == activity_nodes(names.take(i as int)),
            decreases activities@.len() - i,
        {
            proof {
                reveal_strlit("package");
                reveal_strlit("name");
                reveal_strlit("exported");
            }
            let mut attrs: Vec<Attribute> = Vec::new();
            attrs.push(attr("name", concat(".", activities[i].as_str()).as_str(), 3, 0));
            attrs.push(attr("exported", if i == 0 { "true" } else { "false" }, 0x12, 0xffff_ffff));
            let mut children: Vec<Element> = Vec::new();
            if i == 0 {
                let mut action_attrs: Vec<Attribute> = Vec::new();
                action_attrs.push(attr("name", "android.intent.action.MAIN", 3, 0));
                let mut category_attrs: Vec<Attribute> = Vec::new();
                category_attrs.push(attr("name", "android.intent.category.LAUNCHER", 3, 0));
                let action = element("action", action_attrs, Vec::new());
                let category = element("category", category_attrs, Vec::new());
                proof {
                    attrs_text_one(action_attrs@);
                    attrs_text_one(category_attrs@);
                    assert(element_text(action, 4) == xml_node(4, "action"@, android_attr("name"@,
                        "android.intent.action.MAIN"@), None));
                    assert(element_text(category, 4) == xml_node(4, "category"@, android_attr("name"@,
                        "android.intent.category.LAUNCHER"@), None));
                }
                let mut filter: Vec<Element> = Vec::new();
                filter.push(action);
                filter.push(category);
                proof {
                    children_text_pair(filter@, 4);
                }
                let intent = element("intent-filter", Vec::new(), filter);
                proof {
                    assert(attrs_text(intent.attrs@) == Seq::<char>::empty());
                    assert(element_text(intent, 3) == xml_node(3, "intent-filter"@, Seq::empty(), Some(
                        element_text(action, 4) + element_text(category, 4),
                    )));
                }
                children.push(intent);
                proof {
                    children_text_one(children@, 3);
                }
            }
            let ghost before = nodes@;
            let a = element("activity", attrs, children);
            proof {
                attrs_text_pair(attrs@);
                assert(names[i as int] == activities@[i as int]@);
                assert(element_text(a, 2) == activity_node(names[i as int], i == 0));
            }
            nodes.push(a);
            proof {
                assert(nodes@.drop_last() =~= before);
                assert(names.take(i + 1).drop_last() =~= names.take(i as int));
            }
            i = i + 1;
        }
        assert(names.take(i as int) =~= names);
        let mut app_attrs: Vec<Attribute> = Vec::new();
        app_attrs.push(attr("label", label, 3, 0));
        match theme {
            Some(t) => app_attrs.push(attr("theme", "@style/app", 1, t)),
            None => app_attrs.push(attr("theme", "@android:style/Theme.Material.Light.NoActionBar", 1, 16_974_401)),
        }
        proof {
            attrs_text_pair(app_attrs@);
        }
        let ghost two = app_attrs@;
        match icon {
            Some(id) => app_attrs.push(attr("icon", "@mipmap/launcher", 1, id)),
            None => {},
        }
        proof {
            if icon is Some {
                assert(app_attrs@.drop_last() =~= two);
            }
            assert(attrs_text(app_attrs@) == android_attr("label"@, label@) + theme_attr(theme) + icon_attr(icon));
        }
        let mut sdk_attrs: Vec<Attribute> = Vec::new();
        sdk_attrs.push(attr("minSdkVersion", "23", 0x10, 23));
        sdk_attrs.push(attr("targetSdkVersion", "35", 0x10, 35));
        proof {
            attrs_text_pair(sdk_attrs@);
        }
        let mut root_attrs: Vec<Attribute> = Vec::new();
        root_attrs.push(attr("package", package, 3, 0));
        proof {
            attrs_text_one(root_attrs@);
        }
        let mut children: Vec<Element> = Vec::new();
        children.push(element("uses-sdk", sdk_attrs, Vec::new()));
        children.push(element("application", app_attrs, nodes));
        proof {
            children_text_pair(children@, 1);
        }
        let r = Manifest { root: element("manifest", root_attrs, children) };
        assert(r.text_spec() == manifest_text(package@, label@, names, theme, icon));
        r
    }

    /// The manifest as XML text.
    pub fn text(&self) -> (r: String)
        ensures
            r@ == self.text_spec(),
    {
        let mut out: Vec<char> = Vec::new();
        push_chars(&mut out, "<?xml version=\"1.0\" encoding=\"utf-8\"?>\n");
        emit_text(&self.root, 0, &mut out);
        string_of_chars(out.as_slice())
    }

    /// Every attribute value in the manifest is made of characters that XML 1.0 allows.
    pub closed spec fn values_are_xml(&self) -> bool {
        values_ok(self.root)
    }

    /// The manifest as Android binary XML: one document chunk holding the string pool,
    /// the attribute id map, and the namespace and element chunks.
    #[verifier::spinoff_prover]
    pub fn binary(&self) -> (r: Result<Vec<u8>, ResourceError>)
        ensures
            r matches Ok(b) ==> b@.len() >= 8 && b@.subrange(0, 2) == le16(3) && b@.subrange(4, 8) == le32(
                b@.len() as u32,
            ) && chunked(b@.skip(8)),
            r is Ok ==> self.values_are_xml(),
    {
        let t = attribute_table();
        let mut strings: Vec<String> = Vec::new();
        let mut i: usize = 0;
        while i < t.len()
            invariant
                i <= t@.len(),
            decreases t@.len() - i,
        {
            strings.push(owned(t[i].0));
            i = i + 1;
        }
        intern(&mut strings, "android")?;
        intern(&mut strings, android_uri())?;
        collect(&self.root, &mut strings)?;
        let mut body = string_pool(strings.as_slice())?;
        proof {
            chunk_is_chunked(1, 28, body@.skip(8));
            assert(body@ =~= chunk_bytes(1, 28, body@.skip(8)));
        }
        let mut map: Vec<u8> = Vec::new();
        let mut i: usize = 0;
        while i < t.len()
            invariant
                i <= t@.len(),
                map@.len() == 4 * i,
            decreases t@.len() - i,
        {
            word(&mut map, t[i].1);
            i = i + 1;
        }
        push_chunk(&mut body, 0x180, 8, map)?;
        let ns = namespace(0x100, strings.as_slice())?;
        proof {
            chunked_concat(body@, ns@);
        }
        extend(&mut body, ns.as_slice());
        emit_binary(&self.root, strings.as_slice(), &mut body)?;
        let ne = namespace(0x101, strings.as_slice())?;
        proof {
            chunked_concat(body@, ne@);
        }
        extend(&mut body, ne.as_slice());
        let out = chunk(3, 8, body)?;
        proof {
            assert(out@.subrange(0, 2) =~= le16(3));
            assert(out@.subrange(4, 8) =~= le32(out@.len() as u32));
            assert(out@.skip(8) =~= body@);
        }
        Ok(out)
    }
}

} // verus!
