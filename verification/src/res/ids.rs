//! Application resource ids, assigned by sorted resource name.
use vstd::prelude::*;
use crate::res::ResourceError;
use crate::text::{seq_char_lt, str_lt, str_eq, owned, strictly_sorted, lt_irreflexive, lt_transitive, lt_total,
    lt_asymmetric};
use crate::ir::check::key_index;

verus! {

/// The character sequences of string slices.
pub open spec fn str_views(names: Seq<&str>) -> Seq<Seq<char>> {
    names.map_values(|s: &str| s@)
}

/// The names of `names`, as a set.
pub open spec fn name_set(names: Seq<Seq<char>>) -> Set<Seq<char>> {
    names.to_set()
}

/// Some name occurs twice.
pub open spec fn has_duplicate(names: Seq<Seq<char>>) -> bool {
    exists|i: int, j: int| 0 <= i < j < names.len() && #[trigger] names[i] == #[trigger] names[j]
}

/// The names of an id table.
pub open spec fn table_names(v: Seq<(String, u32)>) -> Seq<Seq<char>> {
    v.map_values(|e: (String, u32)| e.0@)
}

/// Entry `i` of a table of resource type `type_id` has id `0x7f00_0000 | type_id << 16 | i`.
pub open spec fn numbered(v: Seq<(String, u32)>, type_id: u32) -> bool {
    forall|i: int| 0 <= i < v.len() ==> (#[trigger] v[i]).1 == 0x7f00_0000 + type_id * 0x1_0000 + i
}

/// A table assigning ids of type `type_id` to exactly the names of `names`, in sorted order.
pub open spec fn assigned(v: Seq<(String, u32)>, names: Seq<Seq<char>>, type_id: u32) -> bool {
    &&& strictly_sorted(table_names(v))
    &&& table_names(v).to_set() == name_set(names)
    &&& numbered(v, type_id)
}

/// The sorted distinct names of `names`, or `None` at the first duplicate.
fn sorted_names(names: &[&str]) -> (r: Option<Vec<String>>)
    ensures
        r is None <==> has_duplicate(str_views(names@)),
        r matches Some(v) ==> strictly_sorted(v@.map_values(|s: String| s@)) && v@.map_values(|s: String| s@).to_set()
            == name_set(str_views(names@)) && v@.len() == names@.len(),
{
    let ghost all = str_views(names@);
    let mut v: Vec<String> = Vec::new();
    let mut i: usize = 0;
    while i < names.len()
        invariant
            all == str_views(names@),
            i <= names@.len(),
            v@.len() == i,
            strictly_sorted(v@.map_values(|s: String| s@)),
            v@.map_values(|s: String| s@).to_set() == name_set(all.take(i as int)),
            !has_duplicate(all.take(i as int)),
        decreases names@.len() - i,
    {
        let ghost sv = v@.map_values(|s: String| s@);
        let ghost pre = all.take(i as int);
        let name = names[i];
        assert(all[i as int] == name@);
        let mut j: usize = 0;
        while j < v.len() && str_lt(v[j].as_str(), name)
            invariant
                j <= v@.len(),
                sv == v@.map_values(|s: String| s@),
                forall|k: int| 0 <= k < j ==> seq_char_lt(#[trigger] sv[k], name@),
            decreases v@.len() - j,
        {
            j = j + 1;
        }
        if j < v.len() && str_eq(v[j].as_str(), name) {
            proof {
                assert(sv[j as int] == name@);
                assert(sv.to_set().contains(name@));
                assert(pre.to_set().contains(name@));
                let k = choose|k: int| 0 <= k < pre.len() && pre[k] == name@;
                assert(all[k] == pre[k]);
                assert(all[k] == all[i as int]);
            }
            return None;
        }
        proof {
            if j < v@.len() {
                lt_total(sv[j as int], name@);
            }
            assert forall|k: int| j <= k < sv.len() implies seq_char_lt(name@, #[trigger] sv[k]) by {
                if k > j {
                    lt_transitive(name@, sv[j as int], sv[k]);
                }
            }
            assert forall|k: int| 0 <= k < i implies #[trigger] pre[k] != name@ by {
                let s = pre[k];
                assert(pre.to_set().contains(s));
                assert(sv.to_set().contains(s));
                let t = choose|t: int| 0 <= t < sv.len() && sv[t] == s;
                lt_irreflexive(name@);
            }
        }
        v.insert(j, owned(name));
        proof {
            let nv = v@.map_values(|s: String| s@);
            let post = all.take(i + 1);
            assert(nv =~= sv.insert(j as int, name@));
            assert forall|a: int, b: int| 0 <= a < b < nv.len() implies seq_char_lt(#[trigger] nv[a], #[trigger] nv[b]) by {
                if a < j && b > j {
                    lt_transitive(nv[a], name@, nv[b]);
                }
            }
            assert(post =~= pre.push(name@));
            assert forall|s: Seq<char>| nv.to_set().contains(s) <==> post.to_set().contains(s) by {
                if nv.to_set().contains(s) {
                    let t = choose|t: int| 0 <= t < nv.len() && nv[t] == s;
                    if t == j {
                        assert(post[i as int] == s);
                    } else if t < j {
                        assert(sv.to_set().contains(sv[t]));
                        let k = choose|k: int| 0 <= k < pre.len() && pre[k] == s;
                        assert(post[k] == s);
                    } else {
                        assert(sv.to_set().contains(sv[t - 1]));
                        let k = choose|k: int| 0 <= k < pre.len() && pre[k] == s;
                        assert(post[k] == s);
                    }
                }
                if post.to_set().contains(s) {
                    let k = choose|k: int| 0 <= k < post.len() && post[k] == s;
                    if k == i {
                        assert(nv[j as int] == s);
                    } else {
                        assert(pre[k] == s);
                        assert(pre.to_set().contains(s));
                        assert(sv.to_set().contains(s));
                        let t = choose|t: int| 0 <= t < sv.len() && sv[t] == s;
                        if t < j {
                            assert(nv[t] == s);
                        } else {
                            assert(nv[t + 1] == s);
                        }
                    }
                }
            }
            assert(nv.to_set() =~= post.to_set());
            assert(!has_duplicate(post)) by {
                if has_duplicate(post) {
                    let (a, b) = choose|a: int, b: int| 0 <= a < b < post.len() && #[trigger] post[a] == #[trigger] post[b];
                    if b < i {
                        assert(pre[a] == post[a] && pre[b] == post[b]);
                    } else {
                        assert(pre[a] == post[a]);
                    }
                }
            }
        }
        i = i + 1;
    }
    proof {
        assert(all.take(i as int) =~= all);
    }
    Some(v)
}

/// Two strictly sorted sequences holding the same names are the same sequence.
pub proof fn sorted_unique(x: Seq<Seq<char>>, y: Seq<Seq<char>>)
    requires
        strictly_sorted(x),
        strictly_sorted(y),
        x.to_set() == y.to_set(),
    ensures
        x == y,
    decreases x.len(),
{
    if x.len() == 0 {
        if y.len() > 0 {
            assert(y.to_set().contains(y[0]));
        }
        assert(x =~= y);
    } else {
        assert(x.to_set().contains(x[0]));
        assert(y.to_set().contains(x[0]));
        let j = choose|j: int| 0 <= j < y.len() && y[j] == x[0];
        assert(y.to_set().contains(y[0]));
        let k = choose|k: int| 0 <= k < x.len() && x[k] == y[0];
        if j > 0 {
            if k > 0 {
                lt_asymmetric(y[0], y[j]);
            } else {
                lt_irreflexive(y[0]);
            }
        }
        let xs = x.drop_first();
        let ys = y.drop_first();
        assert forall|s: Seq<char>| xs.to_set().contains(s) <==> ys.to_set().contains(s) by {
            if xs.to_set().contains(s) {
                let t = choose|t: int| 0 <= t < xs.len() && xs[t] == s;
                assert(x[t + 1] == s);
                assert(x.to_set().contains(s));
                let u = choose|u: int| 0 <= u < y.len() && y[u] == s;
                if u == 0 {
                    lt_irreflexive(s);
                }
                assert(ys[u - 1] == s);
            }
            if ys.to_set().contains(s) {
                let t = choose|t: int| 0 <= t < ys.len() && ys[t] == s;
                assert(y[t + 1] == s);
                assert(y.to_set().contains(s));
                let u = choose|u: int| 0 <= u < x.len() && x[u] == s;
                if u == 0 {
                    lt_irreflexive(s);
                }
                assert(xs[u - 1] == s);
            }
        }
        assert(xs.to_set() =~= ys.to_set());
        sorted_unique(xs, ys);
        assert(x =~= seq![x[0]] + xs);
        assert(y =~= seq![y[0]] + ys);
    }
}

/// Resource ids do not depend on the order in which names are given: tables assigned to
/// the same set of names are the same.
pub proof fn ids_order_independent(a: Seq<(String, u32)>, na: Seq<Seq<char>>, b: Seq<(String, u32)>, nb: Seq<Seq<char>>,
    type_id: u32)
    requires
        assigned(a, na, type_id),
        assigned(b, nb, type_id),
        name_set(na) == name_set(nb),
    ensures
        table_names(a) == table_names(b),
        forall|i: int| 0 <= i < a.len() ==> (#[trigger] a[i]).1 == b[i].1,
{
    sorted_unique(table_names(a), table_names(b));
    assert(a.len() == table_names(a).len());
    assert(b.len() == table_names(b).len());
}

/// Assigns ids of type `type_id` to the sorted distinct names.
fn assign(names: &[&str], type_id: u32, duplicate: &'static str, limit: &'static str)
    -> (r: Result<Vec<(String, u32)>, ResourceError>)
    requires
        1 <= type_id <= 5,
    ensures
        has_duplicate(str_views(names@)) ==> r == Err::<Vec<(String, u32)>, ResourceError>(ResourceError(duplicate)),
        !has_duplicate(str_views(names@)) && names@.len() > 0x1_0000 ==> r == Err::<Vec<(String, u32)>, ResourceError>(
            ResourceError(limit),
        ),
        !has_duplicate(str_views(names@)) && names@.len() <= 0x1_0000 ==> (r matches Ok(v) && assigned(v@, str_views(names@), type_id)),
{
    let sorted = match sorted_names(names) {
        Some(v) => v,
        None => return Err(ResourceError(duplicate)),
    };
    if sorted.len() > 0x1_0000 {
        return Err(ResourceError(limit));
    }
    let ghost sv = sorted@.map_values(|s: String| s@);
    let base: u32 = 0x7f00_0000 + type_id * 0x1_0000;
    let mut out: Vec<(String, u32)> = Vec::new();
    let mut i: usize = 0;
    while i < sorted.len()
        invariant
            i <= sorted@.len() <= 0x1_0000,
            sv == sorted@.map_values(|s: String| s@),
            base == 0x7f00_0000 + type_id * 0x1_0000,
            1 <= type_id <= 5,
            out@.len() == i,
            forall|k: int| 0 <= k < i ==> (#[trigger] out@[k]).0@ == sv[k] && out@[k].1 == base + k,
        decreases sorted@.len() - i,
    {
        out.push((sorted[i].clone(), base + i as u32));
        i = i + 1;
    }
    proof {
        assert(table_names(out@) =~= sv);
    }
    Ok(out)
}

/// The id table entry named `name`.
fn lookup(v: &Vec<(String, u32)>, name: &str) -> (r: Option<u32>)
    ensures
        r == (match key_index(v@, name@) {
            Some(i) => Some(v@[i].1),
            None => None,
        }),
{
    proof {
        crate::ir::check::key_index_bounds(v@, name@);
    }
    match crate::ir::check::find_key(v, name) {
        Some(i) => Some(v[i].1),
        None => None,
    }
}

/// Compiler-owned ids for the application package: package `0x7f`, with strings,
/// colors, drawables, mipmaps and styles as resource types 1 to 5.
#[derive(Clone, Debug, PartialEq, Eq)]
pub struct ResourceIds {
    strings: Vec<(String, u32)>,
    colors: Vec<(String, u32)>,
    drawables: Vec<(String, u32)>,
    mipmaps: Vec<(String, u32)>,
    styles: Vec<(String, u32)>,
}

/// Why a list of names of one type gets no ids: a repeated name, or more names than a type
/// holds.
pub open spec fn list_fault(names: Seq<Seq<char>>) -> Option<&'static str> {
    if has_duplicate(names) {
        Some("Duplicate resource name")
    } else if names.len() > 0x1_0000 {
        Some("Resource entry limit exceeded")
    } else {
        None
    }
}

/// The first list, in type order, that gets no ids, and why.
pub open spec fn ids_fault(
    strings: Seq<Seq<char>>,
    colors: Seq<Seq<char>>,
    drawables: Seq<Seq<char>>,
    mipmaps: Seq<Seq<char>>,
    styles: Seq<Seq<char>>,
) -> Option<&'static str> {
    if list_fault(strings) is Some {
        list_fault(strings)
    } else if list_fault(colors) is Some {
        list_fault(colors)
    } else if list_fault(drawables) is Some {
        list_fault(drawables)
    } else if list_fault(mipmaps) is Some {
        list_fault(mipmaps)
    } else {
        list_fault(styles)
    }
}

impl ResourceIds {
    /// The string id table, sorted by name.
    pub closed spec fn string_table(&self) -> Seq<(String, u32)> {
        self.strings@
    }

    pub closed spec fn color_table(&self) -> Seq<(String, u32)> {
        self.colors@
    }

    pub closed spec fn drawable_table(&self) -> Seq<(String, u32)> {
        self.drawables@
    }

    pub closed spec fn mipmap_table(&self) -> Seq<(String, u32)> {
        self.mipmaps@
    }

    pub closed spec fn style_table(&self) -> Seq<(String, u32)> {
        self.styles@
    }

    /// Assigns string ids by unique name, independent of the order the names come in.
    pub fn strings(names: &[&str]) -> (r: Result<Self, ResourceError>)
        ensures
            has_duplicate(str_views(names@)) ==> r == Err::<Self, ResourceError>(ResourceError("Duplicate string resource name")),
            !has_duplicate(str_views(names@)) && names@.len() <= 0x1_0000 ==> (r matches Ok(ids) && assigned(
                ids.string_table(),
                str_views(names@),
                1,
            ) && ids.color_table().len() == 0 && ids.drawable_table().len() == 0 && ids.mipmap_table().len() == 0
                && ids.style_table().len() == 0),
            r matches Ok(ids) ==> assigned(ids.string_table(), str_views(names@), 1),
    {
        let strings = assign(names, 1, "Duplicate string resource name", "String resource entry limit exceeded")?;
        Ok(ResourceIds {
            strings,
            colors: Vec::new(),
            drawables: Vec::new(),
            mipmaps: Vec::new(),
            styles: Vec::new(),
        })
    }

    /// Assigns ids for every resource type from its names.
    pub fn all(strings: &[&str], colors: &[&str], drawables: &[&str], mipmaps: &[&str], styles: &[&str])
        -> (r: Result<Self, ResourceError>)
        ensures
            r matches Ok(ids) ==> assigned(ids.string_table(), str_views(strings@), 1) && assigned(
                ids.color_table(),
                str_views(colors@),
                2,
            ) && assigned(ids.drawable_table(), str_views(drawables@), 3) && assigned(
                ids.mipmap_table(),
                str_views(mipmaps@),
                4,
            ) && assigned(ids.style_table(), str_views(styles@), 5),
            has_duplicate(str_views(strings@)) ==> r == Err::<Self, ResourceError>(ResourceError("Duplicate resource name")),
            match ids_fault(str_views(strings@), str_views(colors@), str_views(drawables@), str_views(mipmaps@), str_views(styles@)) {
                Some(m) => r == Err::<Self, ResourceError>(ResourceError(m)),
                None => r is Ok,
            },
            (!has_duplicate(str_views(strings@)) && strings@.len() <= 0x1_0000 && !has_duplicate(str_views(colors@)) && colors@.len()
                <= 0x1_0000 && !has_duplicate(str_views(drawables@)) && drawables@.len() <= 0x1_0000 && !has_duplicate(
                str_views(mipmaps@),
            ) && mipmaps@.len() <= 0x1_0000 && !has_duplicate(str_views(styles@)) && styles@.len() <= 0x1_0000) ==> r is Ok,
    {
        let s = match assign(strings, 1, "Duplicate resource name", "Resource entry limit exceeded") {
            Ok(v) => v,
            Err(e) => return Err(e),
        };
        let c = match assign(colors, 2, "Duplicate resource name", "Resource entry limit exceeded") {
            Ok(v) => v,
            Err(e) => return Err(e),
        };
        let d = match assign(drawables, 3, "Duplicate resource name", "Resource entry limit exceeded") {
            Ok(v) => v,
            Err(e) => return Err(e),
        };
        let m = match assign(mipmaps, 4, "Duplicate resource name", "Resource entry limit exceeded") {
            Ok(v) => v,
            Err(e) => return Err(e),
        };
        let t = match assign(styles, 5, "Duplicate resource name", "Resource entry limit exceeded") {
            Ok(v) => v,
            Err(e) => return Err(e),
        };
        Ok(ResourceIds { strings: s, colors: c, drawables: d, mipmaps: m, styles: t })
    }

    /// The id of string resource `name`.
    pub fn string(&self, name: &str) -> (r: Option<u32>)
        ensures
            r == (match key_index(self.string_table(), name@) {
                Some(i) => Some(self.string_table()[i].1),
                None => None,
            }),
    {
        lookup(&self.strings, name)
    }

    /// The id of color resource `name`.
    pub fn color(&self, name: &str) -> (r: Option<u32>)
        ensures
            r == (match key_index(self.color_table(), name@) {
                Some(i) => Some(self.color_table()[i].1),
                None => None,
            }),
    {
        lookup(&self.colors, name)
    }

    /// The id of drawable resource `name`.
    pub fn drawable(&self, name: &str) -> (r: Option<u32>)
        ensures
            r == (match key_index(self.drawable_table(), name@) {
                Some(i) => Some(self.drawable_table()[i].1),
                None => None,
            }),
    {
        lookup(&self.drawables, name)
    }

    /// The id of mipmap resource `name`.
    pub fn mipmap(&self, name: &str) -> (r: Option<u32>)
        ensures
            r == (match key_index(self.mipmap_table(), name@) {
                Some(i) => Some(self.mipmap_table()[i].1),
                None => None,
            }),
    {
        lookup(&self.mipmaps, name)
    }

    /// The id of style resource `name`.
    pub fn style(&self, name: &str) -> (r: Option<u32>)
        ensures
            r == (match key_index(self.style_table(), name@) {
                Some(i) => Some(self.style_table()[i].1),
                None => None,
            }),
    {
        lookup(&self.styles, name)
    }

    /// The string ids, sorted by name.
    pub fn iter_strings(&self) -> (r: Vec<(&str, u32)>)
        ensures
            r@.len() == self.string_table().len(),
            forall|i: int| 0 <= i < r@.len() ==> (#[trigger] r@[i]).0@ == self.string_table()[i].0@ && r@[i].1
                == self.string_table()[i].1,
    {
        let mut out: Vec<(&str, u32)> = Vec::new();
        let mut i: usize = 0;
        while i < self.strings.len()
            invariant
                i <= self.strings@.len(),
                out@.len() == i,
                forall|k: int| 0 <= k < i ==> (#[trigger] out@[k]).0@ == self.strings@[k].0@ && out@[k].1
                    == self.strings@[k].1,
            decreases self.strings@.len() - i,
        {
            out.push((self.strings[i].0.as_str(), self.strings[i].1));
            i = i + 1;
        }
        out
    }

    /// Number of string ids.
    pub fn string_count(&self) -> (r: usize)
        ensures
            r == self.string_table().len(),
    {
        self.strings.len()
    }

    /// Number of color ids.
    pub fn color_count(&self) -> (r: usize)
        ensures
            r == self.color_table().len(),
    {
        self.colors.len()
    }
}

} // verus!
