//! String helpers shared by the front end and the encoders.
use vstd::prelude::*;

verus! {

/// Equality of two string slices, character by character.
pub fn str_eq(a: &str, b: &str) -> (r: bool)
    ensures
        r == (a@ == b@),
{
    let x = crate::encoding::chars_of(a);
    let y = crate::encoding::chars_of(b);
    if x.len() != y.len() {
        return false;
    }
    let mut i: usize = 0;
    while i < x.len()
        invariant
            x@ == a@,
            y@ == b@,
            x@.len() == y@.len(),
            i <= x@.len(),
            forall|k: int| 0 <= k < i ==> x@[k] == y@[k],
        decreases x@.len() - i,
    {
        if x[i] != y[i] {
            return false;
        }
        i = i + 1;
    }
    assert(a@ =~= b@);
    true
}

/// A string holding exactly the given characters.
#[verifier::external_body]
pub fn string_of_chars(cs: &[char]) -> (r: String)
    ensures
        r@ == cs@,
{
    cs.iter().collect()
}

/// Owned copy of a string slice.
pub fn owned(s: &str) -> (r: String)
    ensures
        r@ == s@,
{
    String::from_str(s)
}

/// Concatenation of two strings.
pub fn concat(a: &str, b: &str) -> (r: String)
    ensures
        r@ == a@ + b@,
{
    let mut r = String::from_str(a);
    r.append(b);
    r
}

/// Lexicographic order of character sequences (code point order).
pub open spec fn seq_char_lt(a: Seq<char>, b: Seq<char>) -> bool
    decreases a.len(),
{
    if b.len() == 0 {
        false
    } else if a.len() == 0 {
        true
    } else if a[0] != b[0] {
        (a[0] as u32) < (b[0] as u32)
    } else {
        seq_char_lt(a.drop_first(), b.drop_first())
    }
}

/// Decides `seq_char_lt` for two strings.
pub fn str_lt(a: &str, b: &str) -> (r: bool)
    ensures
        r == seq_char_lt(a@, b@),
{
    let x = crate::encoding::chars_of(a);
    let y = crate::encoding::chars_of(b);
    let mut i: usize = 0;
    assert(x@.skip(0) =~= x@);
    assert(y@.skip(0) =~= y@);
    while i < x.len() && i < y.len() && x[i] == y[i]
        invariant
            i <= x@.len(),
            i <= y@.len(),
            seq_char_lt(a@, b@) == seq_char_lt(x@.skip(i as int), y@.skip(i as int)),
        decreases x@.len() - i,
    {
        assert(x@.skip(i as int).drop_first() =~= x@.skip(i + 1));
        assert(y@.skip(i as int).drop_first() =~= y@.skip(i + 1));
        i = i + 1;
    }
    if i == y.len() {
        return false;
    }
    if i == x.len() {
        return true;
    }
    (x[i] as u32) < (y[i] as u32)
}

/// Decimal text of an integer, with a leading `-` for negatives.
pub open spec fn decimal_digits(v: nat) -> Seq<char>
    decreases v,
{
    if v < 10 {
        seq![(('0' as u32) + v) as char]
    } else {
        decimal_digits(v / 10) + seq![(('0' as u32) + v % 10) as char]
    }
}

pub open spec fn decimal(v: int) -> Seq<char> {
    if v < 0 { seq!['-'] + decimal_digits((-v) as nat) } else { decimal_digits(v as nat) }
}

/// Decimal text of an `i32`, as `i32::to_string` gives it.
pub fn i32_to_string(v: i32) -> (r: String)
    ensures
        r@ == decimal(v as int),
{
    let mut digits: Vec<char> = Vec::new();
    let mut n: u64 = if v < 0 { (-(v as i64)) as u64 } else { v as u64 };
    let ghost total = n as nat;
    while n >= 10
        invariant
            n <= total,
            decimal_digits(total) == decimal_digits(n as nat) + digits@,
        decreases n,
    {
        let c = char_of_digit((n % 10) as u32);
        let ghost before = digits@;
        digits.insert(0, c);
        assert(digits@ =~= seq![c] + before);
        assert(decimal_digits(n as nat) == decimal_digits((n / 10) as nat) + seq![c]);
        n = n / 10;
        assert(decimal_digits(total) =~= decimal_digits(n as nat) + digits@);
    }
    let c = char_of_digit(n as u32);
    let ghost before = digits@;
    digits.insert(0, c);
    assert(digits@ =~= seq![c] + before);
    assert(digits@ =~= decimal_digits(total));
    if v < 0 {
        digits.insert(0, '-');
    }
    assert(digits@ =~= decimal(v as int));
    string_of_chars(digits.as_slice())
}

/// The character of a decimal digit.
pub fn char_of_digit(d: u32) -> (c: char)
    requires
        d < 10,
    ensures
        c == (('0' as u32) + d) as char,
{
    if d == 0 { '0' } else if d == 1 { '1' } else if d == 2 { '2' } else if d == 3 { '3' }
    else if d == 4 { '4' } else if d == 5 { '5' } else if d == 6 { '6' } else if d == 7 { '7' }
    else if d == 8 { '8' } else { '9' }
}

pub proof fn lt_irreflexive(a: Seq<char>)
    ensures
        !seq_char_lt(a, a),
    decreases a.len(),
{
    if a.len() > 0 {
        lt_irreflexive(a.drop_first());
    }
}

pub proof fn lt_transitive(a: Seq<char>, b: Seq<char>, c: Seq<char>)
    requires
        seq_char_lt(a, b),
        seq_char_lt(b, c),
    ensures
        seq_char_lt(a, c),
    decreases a.len(),
{
    if a.len() > 0 && b.len() > 0 && c.len() > 0 && a[0] == b[0] && b[0] == c[0] {
        lt_transitive(a.drop_first(), b.drop_first(), c.drop_first());
    }
}

pub proof fn lt_total(a: Seq<char>, b: Seq<char>)
    requires
        a != b,
    ensures
        seq_char_lt(a, b) || seq_char_lt(b, a),
    decreases a.len(),
{
    if a.len() > 0 && b.len() > 0 && a[0] == b[0] {
        if a.drop_first() == b.drop_first() {
            assert(a =~= seq![a[0]] + a.drop_first());
            assert(b =~= seq![b[0]] + b.drop_first());
        }
        lt_total(a.drop_first(), b.drop_first());
    } else if a.len() == 0 && b.len() == 0 {
        assert(a =~= b);
    } else if a.len() > 0 && b.len() > 0 {
        vstd::utf8::char_u32_cast(a[0], a[0] as u32);
        vstd::utf8::char_u32_cast(b[0], b[0] as u32);
        assert((a[0] as u32) != (b[0] as u32));
    }
}

pub proof fn lt_asymmetric(a: Seq<char>, b: Seq<char>)
    requires
        seq_char_lt(a, b),
    ensures
        !seq_char_lt(b, a),
{
    if seq_char_lt(b, a) {
        lt_transitive(a, b, a);
        lt_irreflexive(a);
    }
}

/// Names strictly increasing in code point order.
pub open spec fn strictly_sorted(v: Seq<Seq<char>>) -> bool {
    forall|i: int, j: int| 0 <= i < j < v.len() ==> seq_char_lt(#[trigger] v[i], #[trigger] v[j])
}

/// Inserts `name` into a strictly sorted list of names unless it is there already.
pub fn insert_sorted(names: &mut Vec<String>, name: &String)
    requires
        strictly_sorted(old(names)@.map_values(|s: String| s@)),
    ensures
        strictly_sorted(final(names)@.map_values(|s: String| s@)),
        final(names)@.map_values(|s: String| s@).to_set() == old(names)@.map_values(|s: String| s@).to_set().insert(name@),
{
    let ghost sv = names@.map_values(|s: String| s@);
    let mut j: usize = 0;
    while j < names.len() && str_lt(names[j].as_str(), name.as_str())
        invariant
            j <= names@.len(),
            sv == names@.map_values(|s: String| s@),
            forall|k: int| 0 <= k < j ==> seq_char_lt(#[trigger] sv[k], name@),
        decreases names@.len() - j,
    {
        j = j + 1;
    }
    if j < names.len() && str_eq(names[j].as_str(), name.as_str()) {
        proof {
            assert(sv[j as int] == name@);
            assert(sv.to_set().insert(name@) =~= sv.to_set());
        }
        return;
    }
    proof {
        if j < sv.len() {
            lt_total(sv[j as int], name@);
        }
        assert forall|k: int| j <= k < sv.len() implies seq_char_lt(name@, #[trigger] sv[k]) by {
            if k > j {
                lt_transitive(name@, sv[j as int], sv[k]);
            }
        }
    }
    names.insert(j, name.clone());
    proof {
        let nv = names@.map_values(|s: String| s@);
        assert(nv =~= sv.insert(j as int, name@));
        assert forall|a: int, b: int| 0 <= a < b < nv.len() implies seq_char_lt(#[trigger] nv[a], #[trigger] nv[b]) by {
            if a < j && b > j {
                lt_transitive(nv[a], name@, nv[b]);
            }
        }
        assert forall|s: Seq<char>| nv.to_set().contains(s) <==> sv.to_set().insert(name@).contains(s) by {
            if nv.to_set().contains(s) {
                let t = choose|t: int| 0 <= t < nv.len() && nv[t] == s;
                if t < j {
                    assert(sv[t] == s);
                } else if t > j {
                    assert(sv[t - 1] == s);
                }
            }
            if sv.to_set().contains(s) {
                let t = choose|t: int| 0 <= t < sv.len() && sv[t] == s;
                if t < j {
                    assert(nv[t] == s);
                } else {
                    assert(nv[t + 1] == s);
                }
            }
            if s == name@ {
                assert(nv[j as int] == s);
            }
        }
        assert(nv.to_set() =~= sv.to_set().insert(name@));
    }
}

} // verus!
