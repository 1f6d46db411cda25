//! Reading a manifest from its JSON form.
//!
//! Every check a manifest goes through is stated here as a spec function
//! that gives, for each input, the error message or the value read; the
//! readers are proved to follow them. Errors are reported in the order the
//! checks run, so the first problem in a document is the one reported.

use vstd::prelude::*;
use vstd::string::{StrSliceExecFns, StringExecFns, StringSliceAdditionalSpecFns};
use vstd::utf8::encode_utf8;

use crate::checkpoint::{json_compact, json_compact_text};
use crate::conformance::{Event, EventKind, HostProfile, Manifest, MemorySegment, StopRule};
use crate::json::{get, join2, keys_of, lemma_lookup_contains, lemma_text_lt_order, lookup, text_eq, text_less, text_lt, Json};
use crate::state::{field_name_list, field_names, sorted_field_name_list, sorted_field_names, zero_state, CpuState};
use crate::text::{append_decimal, append_padded_upper_hex, decimal, padded_upper_hex};

verus! {

/// How `Debug` prints a string: quoted, with escapes.
pub uninterp spec fn debug_text(s: Seq<char>) -> Seq<char>;

/// The `Debug` text of a string: std's `<str as Debug>::fmt` through
/// `format!`. The contract only names the result (`debug_text`, a function
/// of the characters alone); how std quotes and escapes is not stated.
#[verifier::external_body]
fn debug_quoted(s: &str) -> (r: String)
    ensures
        r@ == debug_text(s@),
{
    format!("{:?}", s)
}

/// `items` joined with `sep` between them.
pub open spec fn join(items: Seq<Seq<char>>, sep: Seq<char>) -> Seq<char>
    decreases items.len(),
{
    if items.len() == 0 {
        Seq::empty()
    } else if items.len() == 1 {
        items[0]
    } else {
        join(items.drop_last(), sep) + sep + items.last()
    }
}

/// A list of strings as `Debug` prints it: `["a", "b"]`.
pub open spec fn debug_list(items: Seq<Seq<char>>) -> Seq<char> {
    "["@ + join(items.map_values(|s: Seq<char>| debug_text(s)), ", "@) + "]"@
}

/// An optional string as `Debug` prints it.
pub open spec fn debug_option(v: Option<Seq<char>>) -> Seq<char> {
    match v {
        Some(s) => "Some("@ + debug_text(s) + ")"@,
        None => "None"@,
    }
}

/// `name` followed by `suffix`.
pub fn named(name: &str, suffix: &str) -> (r: String)
    ensures
        r@ == name@ + suffix@,
{
    join2(name, suffix)
}

pub open spec fn not_object(name: Seq<char>) -> Seq<char> {
    name + " must be an object with string keys"@
}

pub open spec fn not_list(name: Seq<char>) -> Seq<char> {
    name + " must be a list"@
}

pub open spec fn not_bool(name: Seq<char>) -> Seq<char> {
    name + " must be a bool"@
}

/// The width the range message prints its bounds with: two hex digits for
/// a byte's range, four otherwise.
pub open spec fn range_width(maximum: u64) -> nat {
    if maximum == 0xFF {
        2
    } else {
        4
    }
}

/// The message for a value that is not an integer up to `maximum`.
pub open spec fn not_in_range(name: Seq<char>, maximum: u64) -> Seq<char> {
    name + " must be an integer in range 0x"@ + padded_upper_hex(0, range_width(maximum)) + "..0x"@
        + padded_upper_hex(maximum as nat, range_width(maximum))
}

/// The members of `value`, which must be an object.
pub fn object<'a>(value: &'a Json, name: &str) -> (r: Result<&'a Vec<(String, Json)>, String>)
    ensures
        match *value {
            Json::Object(e) => r matches Ok(x) && *x == e,
            _ => r matches Err(m) && m@ == not_object(name@),
        },
{
    match value {
        Json::Object(e) => Ok(e),
        _ => Err(named(name, " must be an object with string keys")),
    }
}

/// The items of `value`, which must be a list.
pub fn list<'a>(value: &'a Json, name: &str) -> (r: Result<&'a Vec<Json>, String>)
    ensures
        match *value {
            Json::Array(v) => r matches Ok(x) && *x == v,
            _ => r matches Err(m) && m@ == not_list(name@),
        },
{
    match value {
        Json::Array(v) => Ok(v),
        _ => Err(named(name, " must be a list")),
    }
}

pub open spec fn int_spec(value: Json, name: Seq<char>, maximum: u64) -> Result<u64, Seq<char>> {
    match value.unsigned() {
        Some(n) => if n <= maximum {
            Ok(n)
        } else {
            Err(not_in_range(name, maximum))
        },
        None => Err(not_in_range(name, maximum)),
    }
}

/// `r` is what the spec result `s` describes, the error as its text.
pub open spec fn res_is<T>(r: Result<T, String>, s: Result<T, Seq<char>>) -> bool {
    match s {
        Ok(v) => r == Ok::<T, String>(v),
        Err(m) => r matches Err(x) && x@ == m,
    }
}

/// The integer `value` holds, which must be at most `maximum`.
pub fn int_in_range(value: &Json, name: &str, maximum: u64) -> (r: Result<u64, String>)
    ensures
        res_is(r, int_spec(*value, name@, maximum)),
{
    match value.as_u64() {
        Some(number) => {
            if number <= maximum {
                return Ok(number);
            }
        },
        None => {},
    }
    let width: usize = if maximum == 0xFF {
        2
    } else {
        4
    };
    let mut m = named(name, " must be an integer in range 0x");
    append_padded_upper_hex(&mut m, 0, width);
    proof {
        reveal_strlit("..0x");
    }
    m.append("..0x");
    append_padded_upper_hex(&mut m, maximum, width);
    Err(m)
}

pub open spec fn bool_spec(value: Json, name: Seq<char>) -> Result<bool, Seq<char>> {
    match value {
        Json::Bool(b) => Ok(b),
        _ => Err(not_bool(name)),
    }
}

/// The boolean `value` holds.
pub fn boolean(value: &Json, name: &str) -> (r: Result<bool, String>)
    ensures
        res_is(r, bool_spec(*value, name@)),
{
    match value.as_bool() {
        Some(b) => Ok(b),
        None => Err(named(name, " must be a bool")),
    }
}

/// The keys of `entries` that are not among `keys`, in string order.
pub open spec fn unknown_keys(entries: Seq<(String, Json)>, keys: Seq<Seq<char>>) -> Seq<Seq<char>> {
    sorted_texts(keys_of(entries).filter(|k: Seq<char>| !keys.contains(k)))
}

/// The names in `required` that `entries` lacks, sorted.
pub open spec fn missing_keys(entries: Seq<(String, Json)>, required: Seq<Seq<char>>) -> Seq<Seq<char>> {
    sorted_texts(required.filter(|k: Seq<char>| !keys_of(entries).contains(k)))
}

/// `s` is in string order: no string comes before one earlier in the list.
pub open spec fn texts_sorted(s: Seq<Seq<char>>) -> bool {
    forall|i: int, j: int| 0 <= i < j < s.len() ==> !text_lt(#[trigger] s[j], #[trigger] s[i])
}

/// `s` in string order: the list in string order that holds the same
/// strings as `s`, each as many times.
pub open spec fn sorted_texts(s: Seq<Seq<char>>) -> Seq<Seq<char>> {
    choose|t: Seq<Seq<char>>| texts_sorted(t) && t.to_multiset() == s.to_multiset()
}

/// Two lists in string order that hold the same strings are equal, so
/// `sorted_texts` names one list.
pub proof fn lemma_sorted_unique(t1: Seq<Seq<char>>, t2: Seq<Seq<char>>)
    requires
        texts_sorted(t1),
        texts_sorted(t2),
        t1.to_multiset() == t2.to_multiset(),
    ensures
        t1 == t2,
    decreases t1.len(),
{
    broadcast use vstd::seq_lib::group_to_multiset_ensures;

    t1.to_multiset_ensures();
    t2.to_multiset_ensures();
    if t1.len() == 0 {
        assert(t2.len() == 0);
        assert(t1 =~= t2);
    } else {
        let a = t1[0];
        let b = t2[0];
        assert(t2.to_multiset().count(b) > 0);
        assert(t1.contains(b));
        let j = choose|j: int| 0 <= j < t1.len() && t1[j] == b;
        assert(t1.to_multiset().count(a) > 0);
        assert(t2.contains(a));
        let i = choose|i: int| 0 <= i < t2.len() && t2[i] == a;
        if j > 0 {
            assert(!text_lt(t1[j], t1[0]));
        }
        if i > 0 {
            assert(!text_lt(t2[i], t2[0]));
        }
        lemma_text_lt_order(a, b, a);
        assert(a == b);
        let r1 = t1.remove(0);
        let r2 = t2.remove(0);
        vstd::seq_lib::to_multiset_remove(t1, 0);
        vstd::seq_lib::to_multiset_remove(t2, 0);
        assert forall|p: int, q: int| 0 <= p < q < r1.len() implies !text_lt(#[trigger] r1[q], #[trigger] r1[p]) by {
            assert(r1[q] == t1[q + 1] && r1[p] == t1[p + 1]);
        }
        assert forall|p: int, q: int| 0 <= p < q < r2.len() implies !text_lt(#[trigger] r2[q], #[trigger] r2[p]) by {
            assert(r2[q] == t2[q + 1] && r2[p] == t2[p + 1]);
        }
        lemma_sorted_unique(r1, r2);
        assert(t1 =~= seq![a] + r1);
        assert(t2 =~= seq![b] + r2);
    }
}

/// Inserting `x` into a list in string order, after the strings that come
/// before it and before the rest, keeps the list in order.
proof fn lemma_insert_keeps_sorted(s: Seq<Seq<char>>, x: Seq<char>, i: int)
    requires
        texts_sorted(s),
        0 <= i <= s.len(),
        forall|k: int| 0 <= k < i ==> text_lt(#[trigger] s[k], x),
        i < s.len() ==> !text_lt(s[i], x),
    ensures
        texts_sorted(s.insert(i, x)),
{
    let n = s.insert(i, x);
    assert forall|p: int, q: int| 0 <= p < q < n.len() implies !text_lt(#[trigger] n[q], #[trigger] n[p]) by {
        if q < i {
            assert(n[q] == s[q] && n[p] == s[p]);
        } else if q == i {
            assert(n[q] == x && n[p] == s[p]);
            lemma_text_lt_order(s[p], x, x);
        } else if p == i {
            assert(n[p] == x && n[q] == s[q - 1]);
            lemma_text_lt_order(s[i], s[q - 1], x);
        } else if p < i {
            assert(n[p] == s[p] && n[q] == s[q - 1]);
            lemma_text_lt_order(s[p], x, s[q - 1]);
            if p < q - 1 {
                assert(!text_lt(s[q - 1], s[p]));
            }
        } else {
            assert(n[p] == s[p - 1] && n[q] == s[q - 1]);
        }
    }
}

/// Where `x` goes in a list in string order: after every string that
/// comes before it.
proof fn lemma_insert_point(t: Seq<Seq<char>>, x: Seq<char>) -> (i: int)
    ensures
        0 <= i <= t.len(),
        forall|k: int| 0 <= k < i ==> text_lt(#[trigger] t[k], x),
        i < t.len() ==> !text_lt(t[i], x),
    decreases t.len(),
{
    if t.len() > 0 && text_lt(t[0], x) {
        let j = lemma_insert_point(t.drop_first(), x);
        assert forall|k: int| 0 <= k < j + 1 implies text_lt(#[trigger] t[k], x) by {
            if k > 0 {
                assert(t[k] == t.drop_first()[k - 1]);
            }
        }
        j + 1
    } else {
        0
    }
}

/// Every list has a sorted form: `sorted_texts(s)` is in string order and
/// holds the strings of `s`, so it is as long as `s`.
pub proof fn lemma_sorted_exists(s: Seq<Seq<char>>)
    ensures
        texts_sorted(sorted_texts(s)),
        sorted_texts(s).to_multiset() == s.to_multiset(),
        sorted_texts(s).len() == s.len(),
    decreases s.len(),
{
    broadcast use vstd::seq_lib::group_to_multiset_ensures;

    if s.len() == 0 {
        let e = Seq::<Seq<char>>::empty();
        assert(s =~= e);
        assert(texts_sorted(e) && e.to_multiset() == s.to_multiset());
    } else {
        let d = s.drop_last();
        let x = s.last();
        lemma_sorted_exists(d);
        let t = sorted_texts(d);
        let i = lemma_insert_point(t, x);
        lemma_insert_keeps_sorted(t, x, i);
        vstd::seq_lib::to_multiset_insert(t, i, x);
        assert(s =~= d.push(x));
        vstd::seq_lib::to_multiset_build(d, x);
        assert(texts_sorted(t.insert(i, x)) && t.insert(i, x).to_multiset() == s.to_multiset());
    }
    let r = sorted_texts(s);
    assert(r.to_multiset().len() == s.to_multiset().len());
}

/// The empty list sorted is empty.
pub proof fn lemma_sorted_empty()
    ensures
        sorted_texts(Seq::empty()) == Seq::<Seq<char>>::empty(),
{
    broadcast use vstd::seq_lib::group_to_multiset_ensures;

    let e = Seq::<Seq<char>>::empty();
    assert(texts_sorted(e) && e.to_multiset() == e.to_multiset());
    let t = sorted_texts(e);
    lemma_sorted_unique(t, e);
}

/// The texts of a list of strings.
pub open spec fn texts(v: Seq<String>) -> Seq<Seq<char>> {
    v.map_values(|s: String| s@)
}

/// Insert `x` into the list `out`, which is in string order, before the
/// first string that does not come before it.
fn insert_sorted(out: &mut Vec<String>, x: String)
    requires
        texts_sorted(texts(old(out)@)),
    ensures
        texts_sorted(texts(final(out)@)),
        texts(final(out)@).to_multiset() == texts(old(out)@).to_multiset().insert(x@),
{
    let ghost s = texts(out@);
    let mut i: usize = 0;
    let mut go = i < out.len() && text_less(out[i].as_str(), x.as_str());
    while go
        invariant
            s == texts(out@),
            texts_sorted(s),
            i <= out.len(),
            go ==> i < out.len() && text_lt(s[i as int], x@),
            !go ==> i == out.len() || !text_lt(s[i as int], x@),
            forall|k: int| 0 <= k < i ==> text_lt(#[trigger] s[k], x@),
        decreases out.len() - i,
    {
        i += 1;
        go = i < out.len() && text_less(out[i].as_str(), x.as_str());
    }
    let ghost xv = x@;
    out.insert(i, x);
    proof {
        let n = s.insert(i as int, xv);
        assert(texts(out@) =~= n);
        vstd::seq_lib::to_multiset_insert(s, i as int, xv);
        lemma_insert_keeps_sorted(s, xv, i as int);
    }
}

/// Sort a list of strings in string order.
fn sort_texts(v: Vec<String>) -> (r: Vec<String>)
    ensures
        texts(r@) == sorted_texts(texts(v@)),
{
    broadcast use vstd::seq_lib::group_to_multiset_ensures;

    let ghost s = texts(v@);
    let mut out: Vec<String> = Vec::new();
    let mut i: usize = 0;
    assert(s.take(0) =~= Seq::<Seq<char>>::empty());
    assert(texts(out@) =~= Seq::<Seq<char>>::empty());
    while i < v.len()
        invariant
            s == texts(v@),
            i <= v.len(),
            texts_sorted(texts(out@)),
            texts(out@).to_multiset() == s.take(i as int).to_multiset(),
        decreases v.len() - i,
    {
        let x = v[i].clone();
        proof {
            let t = s.take(i + 1);
            assert(t =~= s.take(i as int).push(x@));
            vstd::seq_lib::to_multiset_build(s.take(i as int), x@);
        }
        insert_sorted(&mut out, x);
        i += 1;
    }
    assert(s.take(v.len() as int) =~= s);
    proof {
        let t = sorted_texts(s);
        assert(texts_sorted(texts(out@)) && texts(out@).to_multiset() == s.to_multiset());
        lemma_sorted_unique(texts(out@), t);
    }
    out
}

/// The parenthesised details of a schema mismatch.
pub open spec fn schema_details(missing: Seq<Seq<char>>, unknown: Seq<Seq<char>>) -> Seq<char> {
    if missing.len() > 0 && unknown.len() > 0 {
        "missing="@ + debug_list(missing) + ", unknown="@ + debug_list(unknown)
    } else if missing.len() > 0 {
        "missing="@ + debug_list(missing)
    } else {
        "unknown="@ + debug_list(unknown)
    }
}

/// An object may hold only `keys` and must hold all of `required`.
///
/// Both lists in the message are sorted in string order.
pub open spec fn allowed_spec(
    entries: Seq<(String, Json)>,
    name: Seq<char>,
    keys: Seq<Seq<char>>,
    required: Seq<Seq<char>>,
) -> Result<(), Seq<char>> {
    let unknown = unknown_keys(entries, keys);
    let missing = missing_keys(entries, required);
    if unknown.len() == 0 && missing.len() == 0 {
        Ok(())
    } else {
        Err(name + " fields do not match schema ("@ + schema_details(missing, unknown) + ")"@)
    }
}

/// The views of a list of string slices.
pub open spec fn views(v: Seq<&str>) -> Seq<Seq<char>> {
    v.map_values(|t: &str| t@)
}

/// Whether `key` is one of `names`.
fn among(names: &Vec<&str>, key: &str) -> (r: bool)
    ensures
        r == views(names@).contains(key@),
{
    let mut i: usize = 0;
    while i < names.len()
        invariant
            i <= names.len(),
            forall|j: int| 0 <= j < i ==> names@[j]@ != key@,
        decreases names.len() - i,
    {
        if text_eq(names[i], key) {
            assert(views(names@)[i as int] == key@);
            return true;
        }
        i += 1;
    }
    false
}

/// Whether `entries` has a member named `key`.
fn has_key(entries: &Vec<(String, Json)>, key: &str) -> (r: bool)
    ensures
        r == keys_of(entries@).contains(key@),
{
    proof {
        lemma_lookup_contains(entries@, key@);
    }
    get(entries, key).is_some()
}

/// Append `items` as `Debug` prints a list of strings.
fn append_debug_list(out: &mut String, items: &Vec<String>)
    ensures
        final(out)@ == old(out)@ + debug_list(items@.map_values(|s: String| s@)),
{
    let ghost all = items@.map_values(|s: String| s@);
    let ghost quoted = all.map_values(|s: Seq<char>| debug_text(s));
    let ghost start = out@;
    out.append("[");
    let mut i: usize = 0;
    assert(quoted.take(0) =~= Seq::<Seq<char>>::empty());
    while i < items.len()
        invariant
            i <= items.len(),
            all == items@.map_values(|s: String| s@),
            quoted == all.map_values(|s: Seq<char>| debug_text(s)),
            out@ == start + "["@ + join(quoted.take(i as int), ", "@),
        decreases items.len() - i,
    {
        if i > 0 {
            out.append(", ");
        }
        let q = debug_quoted(items[i].as_str());
        out.append(q.as_str());
        proof {
            let t = quoted.take(i + 1);
            assert(t.drop_last() =~= quoted.take(i as int));
            assert(t.last() == debug_text(items@[i as int]@));
            assert(out@ =~= start + "["@ + join(t, ", "@));
        }
        i += 1;
    }
    out.append("]");
    assert(quoted.take(items.len() as int) =~= quoted);
    assert(out@ =~= start + debug_list(all));
}

/// Check an object's members against a schema.
pub fn allowed(entries: &Vec<(String, Json)>, name: &str, keys: &Vec<&str>, required: &Vec<&str>) -> (r: Result<(), String>)
    ensures
        res_is(r, allowed_spec(entries@, name@, views(keys@), views(required@))),
{
    let ghost ks = views(keys@);
    let ghost rs = views(required@);
    let ghost ek = keys_of(entries@);
    let mut unknown: Vec<String> = Vec::new();
    let mut i: usize = 0;
    assert(ek.take(0) =~= Seq::<Seq<char>>::empty());
    assert(ek.take(0).filter(|k: Seq<char>| !ks.contains(k)) =~= Seq::<Seq<char>>::empty()) by {
        reveal(Seq::filter);
    }
    while i < entries.len()
        invariant
            i <= entries.len(),
            ek == keys_of(entries@),
            ks == views(keys@),
            unknown@.map_values(|s: String| s@) == ek.take(i as int).filter(|k: Seq<char>| !ks.contains(k)),
        decreases entries.len() - i,
    {
        let key = &entries[i].0;
        proof {
            assert(ek.take(i + 1) =~= ek.take(i as int).push(key@));
            ek.take(i as int).lemma_filter_push(key@, |k: Seq<char>| !ks.contains(k));
        }
        if !among(keys, key.as_str()) {
            unknown.push(key.clone());
            assert(unknown@.map_values(|s: String| s@) =~= ek.take(i as int).filter(|k: Seq<char>| !ks.contains(k)).push(key@));
        }
        i += 1;
    }
    assert(ek.take(entries.len() as int) =~= ek);
    let mut missing: Vec<String> = Vec::new();
    let mut j: usize = 0;
    assert(rs.take(0) =~= Seq::<Seq<char>>::empty());
    assert(rs.take(0).filter(|k: Seq<char>| !ek.contains(k)) =~= Seq::<Seq<char>>::empty()) by {
        reveal(Seq::filter);
    }
    while j < required.len()
        invariant
            j <= required.len(),
            ek == keys_of(entries@),
            rs == views(required@),
            missing@.map_values(|s: String| s@) == rs.take(j as int).filter(|k: Seq<char>| !ek.contains(k)),
        decreases required.len() - j,
    {
        let want = required[j];
        proof {
            assert(rs.take(j + 1) =~= rs.take(j as int).push(want@));
            rs.take(j as int).lemma_filter_push(want@, |k: Seq<char>| !ek.contains(k));
        }
        if !has_key(entries, want) {
            missing.push(String::from_str(want));
            assert(missing@.map_values(|s: String| s@) =~= rs.take(j as int).filter(|k: Seq<char>| !ek.contains(k)).push(want@));
        }
        j += 1;
    }
    assert(rs.take(required.len() as int) =~= rs);
    let ghost unk = unknown_keys(entries@, ks);
    let ghost mis = missing_keys(entries@, rs);
    assert(texts(unknown@) == ek.filter(|k: Seq<char>| !ks.contains(k)));
    assert(texts(missing@) == rs.filter(|k: Seq<char>| !ek.contains(k)));
    let unknown = sort_texts(unknown);
    let missing = sort_texts(missing);
    assert(unknown@.map_values(|s: String| s@) == unk);
    assert(missing@.map_values(|s: String| s@) == mis);
    assert(unknown@.len() == unk.len());
    assert(missing@.len() == mis.len());
    if unknown.len() == 0 && missing.len() == 0 {
        return Ok(());
    }
    let ghost head = name@ + " fields do not match schema ("@;
    let mut message = named(name, " fields do not match schema (");
    if missing.len() > 0 {
        message.append("missing=");
        append_debug_list(&mut message, &missing);
        if unknown.len() > 0 {
            message.append(", unknown=");
            append_debug_list(&mut message, &unknown);
            assert(message@ =~= head + schema_details(mis, unk));
        } else {
            assert(message@ =~= head + schema_details(mis, unk));
        }
    } else {
        message.append("unknown=");
        append_debug_list(&mut message, &unknown);
        assert(message@ =~= head + schema_details(mis, unk));
    }
    message.append(")");
    Err(message)
}

pub open spec fn is_byte_field(key: Seq<char>) -> bool {
    key == "a"@ || key == "f"@ || key == "b"@ || key == "c"@ || key == "d"@ || key == "e"@ || key == "h"@ || key == "l"@ || key == "i"@ || key == "r"@ || key == "q"@
}

pub open spec fn is_word_field(key: Seq<char>) -> bool {
    key == "ix"@ || key == "iy"@ || key == "sp"@ || key == "pc"@ || key == "wz"@ || key == "af_alt"@ || key == "bc_alt"@ || key == "de_alt"@ || key == "hl_alt"@
}

pub open spec fn is_flag_field(key: Seq<char>) -> bool {
    key == "iff1"@ || key == "iff2"@ || key == "halted"@ || key == "reset_pending"@ || key == "non_maskable_interrupt_pending"@
}

/// `st` with the 8-bit field `key` set to `v`.
pub open spec fn with_byte(st: CpuState, key: Seq<char>, v: u8) -> CpuState {
    if key == "a"@ {
        CpuState { a: v, ..st }
    } else if key == "f"@ {
        CpuState { f: v, ..st }
    } else if key == "b"@ {
        CpuState { b: v, ..st }
    } else if key == "c"@ {
        CpuState { c: v, ..st }
    } else if key == "d"@ {
        CpuState { d: v, ..st }
    } else if key == "e"@ {
        CpuState { e: v, ..st }
    } else if key == "h"@ {
        CpuState { h: v, ..st }
    } else if key == "l"@ {
        CpuState { l: v, ..st }
    } else if key == "i"@ {
        CpuState { i: v, ..st }
    } else if key == "r"@ {
        CpuState { r: v, ..st }
    } else {
        CpuState { q: v, ..st }
    }
}

/// `st` with the 16-bit field `key` set to `v`.
pub open spec fn with_word(st: CpuState, key: Seq<char>, v: u16) -> CpuState {
    if key == "ix"@ {
        CpuState { ix: v, ..st }
    } else if key == "iy"@ {
        CpuState { iy: v, ..st }
    } else if key == "sp"@ {
        CpuState { sp: v, ..st }
    } else if key == "pc"@ {
        CpuState { pc: v, ..st }
    } else if key == "wz"@ {
        CpuState { wz: v, ..st }
    } else if key == "af_alt"@ {
        CpuState { af_alt: v, ..st }
    } else if key == "bc_alt"@ {
        CpuState { bc_alt: v, ..st }
    } else if key == "de_alt"@ {
        CpuState { de_alt: v, ..st }
    } else {
        CpuState { hl_alt: v, ..st }
    }
}

/// `st` with the boolean field `key` set to `v`.
pub open spec fn with_flag(st: CpuState, key: Seq<char>, v: bool) -> CpuState {
    if key == "iff1"@ {
        CpuState { iff1: v, ..st }
    } else if key == "iff2"@ {
        CpuState { iff2: v, ..st }
    } else if key == "halted"@ {
        CpuState { halted: v, ..st }
    } else if key == "reset_pending"@ {
        CpuState { reset_pending: v, ..st }
    } else {
        CpuState { non_maskable_interrupt_pending: v, ..st }
    }
}

fn is_byte_key(key: &str) -> (r: bool)
    ensures
        r == is_byte_field(key@),
{
    text_eq(key, "a") || text_eq(key, "f") || text_eq(key, "b") || text_eq(key, "c") || text_eq(key, "d") || text_eq(key, "e") || text_eq(key, "h") || text_eq(key, "l") || text_eq(key, "i") || text_eq(key, "r") || text_eq(key, "q")
}

fn is_word_key(key: &str) -> (r: bool)
    ensures
        r == is_word_field(key@),
{
    text_eq(key, "ix") || text_eq(key, "iy") || text_eq(key, "sp") || text_eq(key, "pc") || text_eq(key, "wz") || text_eq(key, "af_alt") || text_eq(key, "bc_alt") || text_eq(key, "de_alt") || text_eq(key, "hl_alt")
}

fn is_flag_key(key: &str) -> (r: bool)
    ensures
        r == is_flag_field(key@),
{
    text_eq(key, "iff1") || text_eq(key, "iff2") || text_eq(key, "halted") || text_eq(key, "reset_pending") || text_eq(key, "non_maskable_interrupt_pending")
}

fn set_byte(st: &mut CpuState, key: &str, v: u8)
    requires
        is_byte_field(key@),
    ensures
        *final(st) == with_byte(*old(st), key@, v),
{
    if text_eq(key, "a") {
        st.a = v;
    } else if text_eq(key, "f") {
        st.f = v;
    } else if text_eq(key, "b") {
        st.b = v;
    } else if text_eq(key, "c") {
        st.c = v;
    } else if text_eq(key, "d") {
        st.d = v;
    } else if text_eq(key, "e") {
        st.e = v;
    } else if text_eq(key, "h") {
        st.h = v;
    } else if text_eq(key, "l") {
        st.l = v;
    } else if text_eq(key, "i") {
        st.i = v;
    } else if text_eq(key, "r") {
        st.r = v;
    } else {
        st.q = v;
    }
}

fn set_word(st: &mut CpuState, key: &str, v: u16)
    requires
        is_word_field(key@),
    ensures
        *final(st) == with_word(*old(st), key@, v),
{
    if text_eq(key, "ix") {
        st.ix = v;
    } else if text_eq(key, "iy") {
        st.iy = v;
    } else if text_eq(key, "sp") {
        st.sp = v;
    } else if text_eq(key, "pc") {
        st.pc = v;
    } else if text_eq(key, "wz") {
        st.wz = v;
    } else if text_eq(key, "af_alt") {
        st.af_alt = v;
    } else if text_eq(key, "bc_alt") {
        st.bc_alt = v;
    } else if text_eq(key, "de_alt") {
        st.de_alt = v;
    } else {
        st.hl_alt = v;
    }
}

fn set_flag(st: &mut CpuState, key: &str, v: bool)
    requires
        is_flag_field(key@),
    ensures
        *final(st) == with_flag(*old(st), key@, v),
{
    if text_eq(key, "iff1") {
        st.iff1 = v;
    } else if text_eq(key, "iff2") {
        st.iff2 = v;
    } else if text_eq(key, "halted") {
        st.halted = v;
    } else if text_eq(key, "reset_pending") {
        st.reset_pending = v;
    } else {
        st.non_maskable_interrupt_pending = v;
    }
}

/// What member `key` with value `item` does to the state being read; the
/// member's name for messages is `field`.
pub open spec fn set_field(st: CpuState, key: Seq<char>, item: Json, field: Seq<char>) -> Result<CpuState, Seq<char>> {
    if is_byte_field(key) {
        match int_spec(item, field, 0xFF) {
            Ok(n) => Ok(with_byte(st, key, n as u8)),
            Err(m) => Err(m),
        }
    } else if is_word_field(key) {
        match int_spec(item, field, 0xFFFF) {
            Ok(n) => Ok(with_word(st, key, n as u16)),
            Err(m) => Err(m),
        }
    } else if is_flag_field(key) {
        match bool_spec(item, field) {
            Ok(b) => Ok(with_flag(st, key, b)),
            Err(m) => Err(m),
        }
    } else if key == "im"@ {
        match item.unsigned() {
            Some(mode) => if mode <= 2 {
                Ok(CpuState { im: mode as u8, ..st })
            } else {
                Err("im must be 0, 1, or 2"@)
            },
            None => Err("im must be 0, 1, or 2"@),
        }
    } else if key == "ei_delay"@ {
        match item.unsigned() {
            Some(delay) => if delay <= 1 {
                Ok(CpuState { ei_delay: delay as u8, ..st })
            } else {
                Err("ei_delay must be 0 or 1"@)
            },
            None => Err("ei_delay must be 0 or 1"@),
        }
    } else if key == "maskable_interrupt_vector"@ {
        if item is Null {
            Ok(CpuState { maskable_interrupt_vector: None, ..st })
        } else {
            match int_spec(item, field, 0xFF) {
                Ok(n) => Ok(CpuState { maskable_interrupt_vector: Some(n as u8), ..st }),
                Err(m) => Err(m),
            }
        }
    } else {
        Ok(st)
    }
}

/// The state read from the first `n` members, starting from all zeros.
pub open spec fn fill_state(entries: Seq<(String, Json)>, name: Seq<char>, n: int) -> Result<CpuState, Seq<char>>
    decreases n,
{
    if n <= 0 {
        Ok(zero_state())
    } else {
        match fill_state(entries, name, n - 1) {
            Err(m) => Err(m),
            Ok(st) => set_field(st, entries[n - 1].0@, entries[n - 1].1, name + "."@ + entries[n - 1].0@),
        }
    }
}

/// A state read from a JSON object holding any subset of its fields
/// (`partial`), or exactly all 28 of them; absent fields are zero.
pub open spec fn state_spec(value: Json, name: Seq<char>, partial: bool) -> Result<CpuState, Seq<char>> {
    match value {
        Json::Object(e) => match allowed_spec(
            e@,
            name,
            field_names(),
            if partial {
                Seq::empty()
            } else {
                sorted_field_names()
            },
        ) {
            Err(m) => Err(m),
            Ok(_) => fill_state(e@, name, e@.len() as int),
        },
        _ => Err(not_object(name)),
    }
}

/// Once a member fails, reading more members gives the same error.
proof fn lemma_fill_err(entries: Seq<(String, Json)>, name: Seq<char>, n: int, k: int)
    requires
        fill_state(entries, name, n) is Err,
        n <= k,
    ensures
        fill_state(entries, name, k) == fill_state(entries, name, n),
    decreases k - n,
{
    if n < k {
        lemma_fill_err(entries, name, n, k - 1);
    }
}

/// Apply one member to the state being read.
fn read_field(st: &mut CpuState, key: &str, item: &Json, field: &str) -> (r: Result<(), String>)
    ensures
        match set_field(*old(st), key@, *item, field@) {
            Ok(s) => r is Ok && *final(st) == s,
            Err(m) => r matches Err(x) && x@ == m,
        },
{
    if is_byte_key(key) {
        let n = int_in_range(item, field, 0xFF)?;
        set_byte(st, key, n as u8);
    } else if is_word_key(key) {
        let n = int_in_range(item, field, 0xFFFF)?;
        set_word(st, key, n as u16);
    } else if is_flag_key(key) {
        let b = boolean(item, field)?;
        set_flag(st, key, b);
    } else if text_eq(key, "im") {
        match item.as_u64() {
            Some(mode) => {
                if mode <= 2 {
                    st.im = mode as u8;
                } else {
                    return Err(String::from_str("im must be 0, 1, or 2"));
                }
            },
            None => {
                return Err(String::from_str("im must be 0, 1, or 2"));
            },
        }
    } else if text_eq(key, "ei_delay") {
        match item.as_u64() {
            Some(delay) => {
                if delay <= 1 {
                    st.ei_delay = delay as u8;
                } else {
                    return Err(String::from_str("ei_delay must be 0 or 1"));
                }
            },
            None => {
                return Err(String::from_str("ei_delay must be 0 or 1"));
            },
        }
    } else if text_eq(key, "maskable_interrupt_vector") {
        if item.is_null() {
            st.maskable_interrupt_vector = None;
        } else {
            let n = int_in_range(item, field, 0xFF)?;
            st.maskable_interrupt_vector = Some(n as u8);
        }
    }
    Ok(())
}

/// Build a `CpuState` from a JSON object holding any subset of its fields
/// (`partial`), or exactly all 28 of them.
pub fn state_from_json(value: &Json, name: &str, partial: bool) -> (r: Result<CpuState, String>)
    ensures
        res_is(r, state_spec(*value, name@, partial)),
{
    let encoded = object(value, name)?;
    let keys = field_name_list();
    let required: Vec<&str> = if partial {
        Vec::new()
    } else {
        sorted_field_name_list()
    };
    proof {
        assert(views(required@) =~= if partial {
            Seq::<Seq<char>>::empty()
        } else {
            sorted_field_names()
        });
    }
    allowed(encoded, name, &keys, &required)?;
    let mut state = CpuState::default();
    let mut i: usize = 0;
    while i < encoded.len()
        invariant
            i <= encoded.len(),
            fill_state(encoded@, name@, i as int) == Ok::<CpuState, Seq<char>>(state),
            *value == Json::Object(*encoded),
            allowed_spec(
                encoded@,
                name@,
                field_names(),
                if partial {
                    Seq::empty()
                } else {
                    sorted_field_names()
                },
            ) is Ok,
        decreases encoded.len() - i,
    {
        let key = encoded[i].0.as_str();
        let mut field = named(name, ".");
        field.append(key);
        match read_field(&mut state, key, &encoded[i].1, field.as_str()) {
            Ok(()) => {},
            Err(m) => {
                proof {
                    lemma_fill_err(encoded@, name@, i + 1, encoded@.len() as int);
                }
                return Err(m);
            },
        }
        i += 1;
    }
    Ok(state)
}

/// The value of one hexadecimal digit.
pub open spec fn hex_digit(b: u8) -> Option<u8> {
    if 48 <= b <= 57 {
        Some((b - 48) as u8)
    } else if 97 <= b <= 102 {
        Some((b - 87) as u8)
    } else if 65 <= b <= 70 {
        Some((b - 55) as u8)
    } else {
        None
    }
}

/// Two bytes read as a base-16 number: two digits, or `+` and one digit.
pub open spec fn hex_pair(b0: u8, b1: u8) -> Option<u8> {
    if b0 == 43 {
        hex_digit(b1)
    } else {
        match (hex_digit(b0), hex_digit(b1)) {
            (Some(h), Some(l)) => Some((h * 16 + l) as u8),
            _ => None,
        }
    }
}

/// The bytes a hexadecimal text stands for, two characters per byte; none
/// when its length is odd or a pair is not a number.
pub open spec fn hex_decode(text: Seq<u8>) -> Option<Seq<u8>> {
    if text.len() % 2 != 0 {
        None
    } else if forall|k: int| 0 <= k < text.len() / 2 ==> #[trigger] hex_pair(text[2 * k], text[2 * k + 1]) is Some {
        Some(Seq::new(text.len() / 2, |k: int| hex_pair(text[2 * k], text[2 * k + 1])->0))
    } else {
        None
    }
}

/// Every pair starts on a character boundary, so the text can be cut into
/// pairs at all.
pub open spec fn pairs_on_boundaries(text: Seq<u8>) -> bool {
    text.len() % 2 == 0 ==> forall|k: int|
        0 <= k < text.len() / 2 ==> !vstd::utf8::is_continuation_byte(#[trigger] text[2 * k])
}

pub open spec fn not_hex(name: Seq<char>) -> Seq<char> {
    name + " must be a hexadecimal string"@
}

fn hex_digit_value(b: u8) -> (r: Option<u8>)
    ensures
        r == hex_digit(b),
{
    if 48 <= b && b <= 57 {
        Some(b - 48)
    } else if 97 <= b && b <= 102 {
        Some(b - 87)
    } else if 65 <= b && b <= 70 {
        Some(b - 55)
    } else {
        None
    }
}

fn hex_pair_value(b0: u8, b1: u8) -> (r: Option<u8>)
    ensures
        r == hex_pair(b0, b1),
{
    if b0 == 43 {
        return hex_digit_value(b1);
    }
    match (hex_digit_value(b0), hex_digit_value(b1)) {
        (Some(h), Some(l)) => Some(h * 16 + l),
        _ => None,
    }
}

/// The bytes a hexadecimal string stands for.
fn hex_bytes(text: &str, name: &str) -> (r: Result<Vec<u8>, String>)
    requires
        pairs_on_boundaries(text.spec_bytes()),
    ensures
        match hex_decode(text.spec_bytes()) {
            Some(b) => r matches Ok(v) && v@ == b,
            None => r matches Err(m) && m@ == not_hex(name@),
        },
{
    let bytes = text.as_bytes();
    if bytes.len() % 2 != 0 {
        return Err(named(name, " must be a hexadecimal string"));
    }
    let mut out: Vec<u8> = Vec::new();
    let mut k: usize = 0;
    while k < bytes.len() / 2
        invariant
            bytes@ == text.spec_bytes(),
            bytes.len() % 2 == 0,
            k <= bytes.len() / 2,
            out@.len() == k,
            forall|j: int| 0 <= j < k ==> #[trigger] hex_pair(bytes@[2 * j], bytes@[2 * j + 1]) == Some(out@[j]),
        decreases bytes.len() / 2 - k,
    {
        match hex_pair_value(bytes[2 * k], bytes[2 * k + 1]) {
            Some(v) => {
                out.push(v);
            },
            None => {
                assert(hex_pair(bytes@[2 * k as int], bytes@[2 * k + 1]) is None);
                return Err(named(name, " must be a hexadecimal string"));
            },
        }
        k += 1;
    }
    proof {
        assert(forall|j: int| 0 <= j < bytes.len() / 2 ==> #[trigger] hex_pair(bytes@[2 * j], bytes@[2 * j + 1]) is Some);
        assert(out@ =~= Seq::new((bytes@.len() / 2) as nat, |j: int| hex_pair(bytes@[2 * j], bytes@[2 * j + 1])->0));
    }
    Ok(out)
}

/// A member's value; `null` stands in for an absent member.
pub open spec fn member(entries: Seq<(String, Json)>, key: Seq<char>) -> Json {
    match lookup(entries, key) {
        Some(v) => v,
        None => Json::Null,
    }
}

/// After a schema check passes, every required member is present.
proof fn lemma_required_present(
    entries: Seq<(String, Json)>,
    name: Seq<char>,
    keys: Seq<Seq<char>>,
    required: Seq<Seq<char>>,
    i: int,
)
    requires
        allowed_spec(entries, name, keys, required) is Ok,
        0 <= i < required.len(),
    ensures
        lookup(entries, required[i]) is Some,
{
    let p = |k: Seq<char>| !keys_of(entries).contains(k);
    lemma_sorted_exists(required.filter(p));
    if p(required[i]) {
        required.lemma_filter_contains(p, i);
    }
    lemma_lookup_contains(entries, required[i]);
}

/// The member `key`, known to be present.
fn member_ref<'a>(entries: &'a Vec<(String, Json)>, key: &str) -> (r: &'a Json)
    requires
        lookup(entries@, key@) is Some,
    ensures
        *r == member(entries@, key@),
{
    match get(entries, key) {
        Some(v) => v,
        None => {
            assert(false);
            &entries[0].1
        },
    }
}

/// `memory[i]`.
pub open spec fn segment_name(index: nat) -> Seq<char> {
    "memory["@ + decimal(index) + "]"@
}

pub open spec fn segment_keys() -> Seq<Seq<char>> {
    seq!["address"@, "data"@, "file"@, "offset"@, "length"@]
}

pub open spec fn bad_offsets(name: Seq<char>) -> Seq<char> {
    name + ".offset/length must be non-negative/positive integers"@
}

/// The offset a file segment starts at: 0 when absent.
pub open spec fn file_offset(entries: Seq<(String, Json)>) -> Option<u64> {
    match lookup(entries, "offset"@) {
        None => Some(0u64),
        Some(v) => v.unsigned(),
    }
}

/// The number of bytes a file segment takes: the rest of the file when
/// absent.
pub open spec fn file_length(entries: Seq<(String, Json)>, len: nat) -> Option<u64> {
    match lookup(entries, "length"@) {
        None => Some((len - match file_offset(entries) {
            Some(o) => o,
            None => 0u64,
        }) as u64),
        Some(v) => v.unsigned(),
    }
}

/// The bytes a file segment takes from the file's `contents`: from the
/// offset, `length` bytes or up to the end of the file if that comes first.
pub open spec fn file_data(entries: Seq<(String, Json)>, name: Seq<char>, contents: Seq<u8>) -> Result<Seq<u8>, Seq<char>> {
    let len = contents.len();
    match (file_offset(entries), file_length(entries, len)) {
        (Some(o), Some(l)) => if l > 0 && o <= len {
            Ok(contents.subrange(o as int, if o + l < len { o + l } else { len as int }))
        } else {
            Err(bad_offsets(name))
        },
        _ => Err(bad_offsets(name)),
    }
}

/// The offset arithmetic of a file segment stays in range: the offset is
/// within the file when no length is given, and offset plus length fits
/// in a `usize`.
pub open spec fn offsets_in_range(entries: Seq<(String, Json)>, len: nat) -> bool {
    &&& (lookup(entries, "length"@) is None ==> match file_offset(entries) {
        Some(o) => o <= len,
        None => true,
    })
    &&& match (file_offset(entries), file_length(entries, len)) {
        (Some(o), Some(l)) => (l > 0 && o <= len) ==> o + l <= usize::MAX,
        _ => true,
    }
}

/// A file that a segment names, as the caller read it: its contents, or
/// the text of the read error.
pub open spec fn file_view(file: Option<Result<Vec<u8>, String>>) -> Option<Result<Seq<u8>, Seq<char>>> {
    match file {
        Some(Ok(c)) => Some(Ok(c@)),
        Some(Err(m)) => Some(Err(m@)),
        None => None,
    }
}

/// The bytes of a segment, from `data` or from its file.
pub open spec fn segment_data(
    entries: Seq<(String, Json)>,
    name: Seq<char>,
    file: Option<Result<Seq<u8>, Seq<char>>>,
) -> Result<Seq<u8>, Seq<char>> {
    if lookup(entries, "data"@) is Some {
        match member(entries, "data"@) {
            Json::Str(t) => match hex_decode(encode_utf8(t@)) {
                Some(b) => Ok(b),
                None => Err(not_hex(name + ".data"@)),
            },
            _ => Err(name + ".data must be a hexadecimal string"@),
        }
    } else {
        match member(entries, "file"@) {
            Json::Str(_) => match file {
                Some(Ok(c)) => file_data(entries, name, c),
                Some(Err(m)) => Err(name + ".file "@ + m),
                None => Err(name + ".file "@),
            },
            _ => Err(name + ".file must be a path string"@),
        }
    }
}

/// A memory segment read from item `index` of the manifest's `memory`.
pub open spec fn segment_spec(
    item: Json,
    index: nat,
    file: Option<Result<Seq<u8>, Seq<char>>>,
) -> Result<(u16, Seq<u8>), Seq<char>> {
    let name = segment_name(index);
    match item {
        Json::Object(e) => match allowed_spec(e@, name, segment_keys(), seq!["address"@]) {
            Err(m) => Err(m),
            Ok(_) => if (lookup(e@, "data"@) is Some) == (lookup(e@, "file"@) is Some) {
                Err(name + " must have exactly one of 'data' or 'file'"@)
            } else {
                match segment_data(e@, name, file) {
                    Err(m) => Err(m),
                    Ok(d) => match int_spec(member(e@, "address"@), "segment address"@, 0xFFFF) {
                        Err(m) => Err(m),
                        Ok(a) => if d.len() == 0 {
                            Err(name + ": segment data must be non-empty bytes"@)
                        } else if a + d.len() > 0x10000 {
                            Err(name + ": segment does not fit below 0x10000"@)
                        } else {
                            Ok((a as u16, d))
                        },
                    },
                }
            },
        },
        _ => Err(not_object(name)),
    }
}

/// Item `index` can be read: a `data` string can be cut into two-byte
/// pairs on character boundaries, and a file segment's offset arithmetic
/// stays in range. Reading is undefined on the other items (cutting a
/// string mid-character, or an offset past the end with no length, has no
/// result), so they are left out.
pub open spec fn segment_readable(item: Json, index: nat, file: Option<Result<Seq<u8>, Seq<char>>>) -> bool {
    match item {
        Json::Object(e) => allowed_spec(e@, segment_name(index), segment_keys(), seq!["address"@]) is Ok
            ==> {
            &&& (lookup(e@, "file"@) is None && member(e@, "data"@) is Str) ==> pairs_on_boundaries(
                encode_utf8(member(e@, "data"@)->Str_0@),
            )
            &&& match file {
                Some(Ok(c)) => (lookup(e@, "data"@) is None && member(e@, "file"@) is Str)
                    ==> offsets_in_range(e@, c.len()),
                _ => true,
            }
        },
        _ => true,
    }
}

/// Build `name` followed by the decimal `index` and `]`.
fn indexed_name(prefix: &str, index: usize) -> (r: String)
    ensures
        r@ == prefix@ + decimal(index as nat) + "]"@,
{
    let mut name = String::from_str(prefix);
    append_decimal(&mut name, index as u64);
    name.append("]");
    name
}

/// The bytes of a file segment.
fn file_bytes(entries: &Vec<(String, Json)>, name: &str, contents: &Vec<u8>) -> (r: Result<Vec<u8>, String>)
    requires
        offsets_in_range(entries@, contents@.len()),
    ensures
        res_is_bytes(r, file_data(entries@, name@, contents@)),
{
    let offset: Option<u64> = match get(entries, "offset") {
        None => Some(0),
        Some(v) => v.as_u64(),
    };
    let length: Option<u64> = match get(entries, "length") {
        None => Some(contents.len() as u64 - match offset {
            Some(o) => o,
            None => 0,
        }),
        Some(v) => v.as_u64(),
    };
    match (offset, length) {
        (Some(offset), Some(length)) => {
            if length > 0 && offset <= contents.len() as u64 {
                let start = offset as usize;
                let wanted = start + length as usize;
                let end = if wanted < contents.len() {
                    wanted
                } else {
                    contents.len()
                };
                let part = vstd::slice::slice_subrange(contents.as_slice(), start, end);
                return Ok(vstd::slice::slice_to_vec(part));
            }
        },
        _ => {},
    }
    Err(named(name, ".offset/length must be non-negative/positive integers"))
}

/// `r` is the byte result `s` describes.
pub open spec fn res_is_bytes(r: Result<Vec<u8>, String>, s: Result<Seq<u8>, Seq<char>>) -> bool {
    match s {
        Ok(b) => r matches Ok(v) && v@ == b,
        Err(m) => r matches Err(x) && x@ == m,
    }
}

/// The bytes of a segment, from `data` or from its file.
fn read_segment_data(entries: &Vec<(String, Json)>, name: &str, file: Option<&Result<Vec<u8>, String>>) -> (r: Result<Vec<u8>, String>)
    requires
        (lookup(entries@, "data"@) is Some) != (lookup(entries@, "file"@) is Some),
        (lookup(entries@, "file"@) is None && member(entries@, "data"@) is Str) ==> pairs_on_boundaries(
            encode_utf8(member(entries@, "data"@)->Str_0@),
        ),
        match file {
            Some(Ok(c)) => (lookup(entries@, "data"@) is None && member(entries@, "file"@) is Str)
                ==> offsets_in_range(entries@, c@.len()),
            _ => true,
        },
    ensures
        res_is_bytes(
            r,
            segment_data(
                entries@,
                name@,
                match file {
                    Some(f) => file_view(Some(*f)),
                    None => None,
                },
            ),
        ),
{
    match get(entries, "data") {
        Some(data) => {
            match data.as_str() {
                Some(text) => {
                    let data_name = named(name, ".data");
                    hex_bytes(text, data_name.as_str())
                },
                None => Err(named(name, ".data must be a hexadecimal string")),
            }
        },
        None => {
            let f = member_ref(entries, "file");
            match f.as_str() {
                Some(_) => match file {
                    Some(Ok(contents)) => file_bytes(entries, name, contents),
                    Some(Err(message)) => {
                        let mut m = named(name, ".file ");
                        m.append(message.as_str());
                        Err(m)
                    },
                    None => Err(named(name, ".file ")),
                },
                None => Err(named(name, ".file must be a path string")),
            }
        },
    }
}

/// Read one memory segment: item `index` of the manifest's `memory`, with
/// the file it names (if any) as the caller read it.
pub fn segment(item: &Json, index: usize, file: Option<&Result<Vec<u8>, String>>) -> (r: Result<MemorySegment, String>)
    requires
        segment_readable(
            *item,
            index as nat,
            match file {
                Some(f) => file_view(Some(*f)),
                None => None,
            },
        ),
    ensures
        match segment_spec(
            *item,
            index as nat,
            match file {
                Some(f) => file_view(Some(*f)),
                None => None,
            },
        ) {
            Ok((a, d)) => r matches Ok(s) && s.address == a && s.data@ == d,
            Err(m) => r matches Err(x) && x@ == m,
        },
{
    let name = indexed_name("memory[", index);
    let entries = object(item, name.as_str())?;
    let keys: Vec<&str> = vec!["address", "data", "file", "offset", "length"];
    let required: Vec<&str> = vec!["address"];
    assert(views(keys@) =~= segment_keys());
    assert(views(required@) =~= seq!["address"@]);
    allowed(entries, name.as_str(), &keys, &required)?;
    proof {
        lemma_lookup_contains(entries@, "data"@);
        lemma_lookup_contains(entries@, "file"@);
        lemma_required_present(entries@, name@, segment_keys(), seq!["address"@], 0);
    }
    if has_key(entries, "data") == has_key(entries, "file") {
        return Err(named(name.as_str(), " must have exactly one of 'data' or 'file'"));
    }
    let data = read_segment_data(entries, name.as_str(), file)?;
    let address = int_in_range(member_ref(entries, "address"), "segment address", 0xFFFF)?;
    if data.len() == 0 {
        return Err(named(name.as_str(), ": segment data must be non-empty bytes"));
    }
    if data.len() > 0x10000 - address as usize {
        return Err(named(name.as_str(), ": segment does not fit below 0x10000"));
    }
    Ok(MemorySegment { address: address as u16, data })
}

/// `events[i]`.
pub open spec fn event_name(index: nat) -> Seq<char> {
    "events["@ + decimal(index) + "]"@
}

pub open spec fn event_keys() -> Seq<Seq<char>> {
    seq!["at_step"@, "kind"@, "vector"@]
}

/// The event kind a name stands for.
pub open spec fn kind_named(t: Seq<char>) -> Option<EventKind> {
    if t == "nmi"@ {
        Some(EventKind::Nmi)
    } else if t == "int"@ {
        Some(EventKind::Int)
    } else if t == "int_clear"@ {
        Some(EventKind::IntClear)
    } else if t == "reset"@ {
        Some(EventKind::Reset)
    } else if t == "reset_clear"@ {
        Some(EventKind::ResetClear)
    } else {
        None
    }
}

/// The text of a string value.
pub open spec fn str_of(j: Json) -> Option<Seq<char>> {
    match j {
        Json::Str(s) => Some(s@),
        _ => None,
    }
}

/// An event read from item `index` of the manifest's `events`; the vector
/// is 0xFF when absent.
pub open spec fn event_spec(item: Json, index: nat) -> Result<Event, Seq<char>> {
    let name = event_name(index);
    match item {
        Json::Object(e) => match allowed_spec(e@, name, event_keys(), seq!["at_step"@, "kind"@]) {
            Err(m) => Err(m),
            Ok(_) => match member(e@, "at_step"@).unsigned() {
                None => Err(name + ": event at_step must be a non-negative integer"@),
                Some(at_step) => match (match str_of(member(e@, "kind"@)) {
                    Some(t) => kind_named(t),
                    None => None,
                }) {
                    None => Err(
                        name
                            + ": event kind must be one of ('nmi', 'int', 'int_clear', 'reset', 'reset_clear'), got "@
                            + debug_option(str_of(member(e@, "kind"@))),
                    ),
                    Some(kind) => match lookup(e@, "vector"@) {
                        None => Ok(Event { at_step, kind, vector: 0xFF }),
                        Some(v) => match int_spec(v, name + ": event vector"@, 0xFF) {
                            Err(m) => Err(m),
                            Ok(n) => Ok(Event { at_step, kind, vector: n as u8 }),
                        },
                    },
                },
            },
        },
        _ => Err(not_object(name)),
    }
}

/// The event kind named by `t`.
fn kind_from_text(t: &str) -> (r: Option<EventKind>)
    ensures
        r == kind_named(t@),
{
    if text_eq(t, "nmi") {
        Some(EventKind::Nmi)
    } else if text_eq(t, "int") {
        Some(EventKind::Int)
    } else if text_eq(t, "int_clear") {
        Some(EventKind::IntClear)
    } else if text_eq(t, "reset") {
        Some(EventKind::Reset)
    } else if text_eq(t, "reset_clear") {
        Some(EventKind::ResetClear)
    } else {
        None
    }
}

/// Append an optional string as `Debug` prints it.
fn append_debug_option(out: &mut String, v: Option<&str>)
    ensures
        final(out)@ == old(out)@ + debug_option(
            match v {
                Some(t) => Some(t@),
                None => None,
            },
        ),
{
    match v {
        Some(t) => {
            let ghost start = out@;
            out.append("Some(");
            let q = debug_quoted(t);
            out.append(q.as_str());
            out.append(")");
            assert(out@ =~= start + ("Some("@ + debug_text(t@) + ")"@));
        },
        None => {
            out.append("None");
        },
    }
}

/// Read one lifecycle event: item `index` of the manifest's `events`.
pub fn event(item: &Json, index: usize) -> (r: Result<Event, String>)
    ensures
        res_is(r, event_spec(*item, index as nat)),
{
    let name = indexed_name("events[", index);
    let entries = object(item, name.as_str())?;
    let keys: Vec<&str> = vec!["at_step", "kind", "vector"];
    let required: Vec<&str> = vec!["at_step", "kind"];
    assert(views(keys@) =~= event_keys());
    assert(views(required@) =~= seq!["at_step"@, "kind"@]);
    allowed(entries, name.as_str(), &keys, &required)?;
    proof {
        lemma_required_present(entries@, name@, event_keys(), seq!["at_step"@, "kind"@], 0);
        lemma_required_present(entries@, name@, event_keys(), seq!["at_step"@, "kind"@], 1);
    }
    let at_step = match member_ref(entries, "at_step").as_u64() {
        Some(n) => n,
        None => {
            return Err(named(name.as_str(), ": event at_step must be a non-negative integer"));
        },
    };
    let kind_text = member_ref(entries, "kind").as_str();
    let kind = match kind_text {
        Some(t) => kind_from_text(t),
        None => None,
    };
    let kind = match kind {
        Some(k) => k,
        None => {
            let mut m = named(
                name.as_str(),
                ": event kind must be one of ('nmi', 'int', 'int_clear', 'reset', 'reset_clear'), got ",
            );
            append_debug_option(&mut m, kind_text);
            return Err(m);
        },
    };
    let vector = match get(entries, "vector") {
        None => 0xFF,
        Some(v) => {
            let vector_name = named(name.as_str(), ": event vector");
            int_in_range(v, vector_name.as_str(), 0xFF)? as u8
        },
    };
    Ok(Event { at_step, kind, vector })
}

/// The manifest's members, and the ones it must have (sorted).
pub open spec fn manifest_keys() -> Seq<Seq<char>> {
    seq!["version"@, "name"@, "host"@, "port_read_value"@, "memory"@, "initial"@, "events"@, "stop"@]
}

pub open spec fn manifest_required() -> Seq<Seq<char>> {
    seq!["memory"@, "name"@, "stop"@, "version"@]
}

pub open spec fn stop_keys() -> Seq<Seq<char>> {
    seq!["max_steps"@, "on_halt"@, "at_pc"@]
}

/// A manifest as plain values.
pub struct ManifestModel {
    pub name: Seq<char>,
    pub host: HostProfile,
    pub port_read_value: u8,
    pub memory: Seq<(u16, Seq<u8>)>,
    pub initial: CpuState,
    pub events: Seq<Event>,
    pub max_steps: u64,
    pub on_halt: bool,
    pub at_pc: Seq<u16>,
}

/// The file read for memory item `i`, if the caller supplied one.
pub open spec fn file_at(files: Seq<Option<Result<Vec<u8>, String>>>, i: int) -> Option<Result<Seq<u8>, Seq<char>>> {
    if 0 <= i < files.len() {
        file_view(files[i])
    } else {
        None
    }
}

/// The first `n` memory segments, or the first error among them.
pub open spec fn segments_upto(items: Seq<Json>, files: Seq<Option<Result<Vec<u8>, String>>>, n: int) -> Result<Seq<(u16, Seq<u8>)>, Seq<char>>
    decreases n,
{
    if n <= 0 {
        Ok(Seq::empty())
    } else {
        match segments_upto(items, files, n - 1) {
            Err(m) => Err(m),
            Ok(prev) => match segment_spec(items[n - 1], (n - 1) as nat, file_at(files, n - 1)) {
                Err(m) => Err(m),
                Ok(seg) => Ok(prev.push(seg)),
            },
        }
    }
}

/// The first `n` events, or the first error among them.
pub open spec fn events_upto(items: Seq<Json>, n: int) -> Result<Seq<Event>, Seq<char>>
    decreases n,
{
    if n <= 0 {
        Ok(Seq::empty())
    } else {
        match events_upto(items, n - 1) {
            Err(m) => Err(m),
            Ok(prev) => match event_spec(items[n - 1], (n - 1) as nat) {
                Err(m) => Err(m),
                Ok(e) => Ok(prev.push(e)),
            },
        }
    }
}

/// A stop address: an integer up to 0xFFFF.
pub open spec fn pc_value(j: Json) -> Option<u16> {
    match j.unsigned() {
        Some(n) => if n <= 0xFFFF {
            Some(n as u16)
        } else {
            None
        },
        None => None,
    }
}

/// The first `n` stop addresses, or the error if one is not an address.
pub open spec fn at_pc_upto(items: Seq<Json>, n: int) -> Result<Seq<u16>, Seq<char>>
    decreases n,
{
    if n <= 0 {
        Ok(Seq::empty())
    } else {
        match at_pc_upto(items, n - 1) {
            Err(m) => Err(m),
            Ok(prev) => match pc_value(items[n - 1]) {
                None => Err("stop.at_pc must be a tuple of 16-bit addresses"@),
                Some(pc) => Ok(prev.push(pc)),
            },
        }
    }
}

/// Event `i` does not come after event `i + 1`.
pub open spec fn step_pair_ordered(events: Seq<Event>, i: int) -> bool {
    events[i].at_step <= events[i + 1].at_step
}

/// The events are in `at_step` order: no event comes after the next one.
pub open spec fn events_ordered(events: Seq<Event>) -> bool {
    forall|i: int| 0 <= i < events.len() - 1 ==> #[trigger] step_pair_ordered(events, i)
}

pub open spec fn version_spec(root: Seq<(String, Json)>) -> Result<(), Seq<char>> {
    if member(root, "version"@).unsigned() == Some(1u64) {
        Ok(())
    } else {
        Err("unsupported manifest version: "@ + json_compact_text(member(root, "version"@)))
    }
}

pub open spec fn name_spec(root: Seq<(String, Json)>) -> Result<Seq<char>, Seq<char>> {
    match member(root, "name"@) {
        Json::Str(n) => if n@.len() > 0 {
            Ok(n@)
        } else {
            Err("manifest name must be a non-empty string"@)
        },
        _ => Err("manifest name must be a non-empty string"@),
    }
}

pub open spec fn memory_spec(root: Seq<(String, Json)>, files: Seq<Option<Result<Vec<u8>, String>>>) -> Result<Seq<(u16, Seq<u8>)>, Seq<char>> {
    match member(root, "memory"@) {
        Json::Array(v) => segments_upto(v@, files, v@.len() as int),
        _ => Err(not_list("memory"@)),
    }
}

pub open spec fn initial_spec(root: Seq<(String, Json)>) -> Result<CpuState, Seq<char>> {
    match lookup(root, "initial"@) {
        None => Ok(zero_state()),
        Some(v) => match state_spec(v, "initial"@, true) {
            Ok(st) => Ok(st),
            Err(m) => Err("invalid initial state: "@ + m),
        },
    }
}

/// The stop rule: `max_steps`, `on_halt` (true when absent), `at_pc`
/// (empty when absent).
pub open spec fn stop_spec(root: Seq<(String, Json)>) -> Result<(u64, bool, Seq<u16>), Seq<char>> {
    match member(root, "stop"@) {
        Json::Object(st) => match allowed_spec(st@, "stop"@, stop_keys(), seq!["max_steps"@]) {
            Err(m) => Err(m),
            Ok(_) => match member(st@, "max_steps"@).unsigned() {
                Some(max_steps) => if max_steps > 0 {
                    match (match lookup(st@, "on_halt"@) {
                        None => Ok(true),
                        Some(v) => bool_spec(v, "stop.on_halt"@),
                    }) {
                        Err(m) => Err(m),
                        Ok(on_halt) => match lookup(st@, "at_pc"@) {
                            None => Ok((max_steps, on_halt, Seq::empty())),
                            Some(Json::Array(items)) => match at_pc_upto(items@, items@.len() as int) {
                                Err(m) => Err(m),
                                Ok(pcs) => Ok((max_steps, on_halt, pcs)),
                            },
                            Some(_) => Err(not_list("stop.at_pc"@)),
                        },
                    }
                } else {
                    Err("stop.max_steps must be a positive integer"@)
                },
                None => Err("stop.max_steps must be a positive integer"@),
            },
        },
        _ => Err(not_object("stop"@)),
    }
}

pub open spec fn events_spec(root: Seq<(String, Json)>) -> Result<Seq<Event>, Seq<char>> {
    match lookup(root, "events"@) {
        None => Ok(Seq::empty()),
        Some(Json::Array(items)) => events_upto(items@, items@.len() as int),
        Some(_) => Err(not_list("events"@)),
    }
}

pub open spec fn host_spec(root: Seq<(String, Json)>) -> Result<HostProfile, Seq<char>> {
    match lookup(root, "host"@) {
        None => Ok(HostProfile::Flat),
        Some(h) => if str_of(h) == Some("flat"@) {
            Ok(HostProfile::Flat)
        } else if str_of(h) == Some("cpm-minimal"@) {
            Ok(HostProfile::CpmMinimal)
        } else {
            Err("manifest host must be one of ('flat', 'cpm-minimal'), got "@ + debug_option(str_of(h)))
        },
    }
}

pub open spec fn port_spec(root: Seq<(String, Json)>) -> Result<u8, Seq<char>> {
    match lookup(root, "port_read_value"@) {
        None => Ok(0xFFu8),
        Some(v) => match int_spec(v, "manifest port_read_value"@, 0xFF) {
            Err(m) => Err(m),
            Ok(n) => Ok(n as u8),
        },
    }
}

/// A validated manifest read from its JSON form, or the first problem
/// found: the document's members, its version, name, memory segments,
/// initial state, stop rule, events (which must be in `at_step` order),
/// host profile and port value, checked in that order.
pub open spec fn manifest_spec(value: Json, files: Seq<Option<Result<Vec<u8>, String>>>) -> Result<ManifestModel, Seq<char>> {
    match value {
        Json::Object(root) => match allowed_spec(root@, "manifest"@, manifest_keys(), manifest_required()) {
            Err(m) => Err(m),
            Ok(_) => match version_spec(root@) {
                Err(m) => Err(m),
                Ok(_) => match name_spec(root@) {
                    Err(m) => Err(m),
                    Ok(name) => match memory_spec(root@, files) {
                        Err(m) => Err(m),
                        Ok(memory) => match initial_spec(root@) {
                            Err(m) => Err(m),
                            Ok(initial) => match stop_spec(root@) {
                                Err(m) => Err(m),
                                Ok((max_steps, on_halt, at_pc)) => match events_spec(root@) {
                                    Err(m) => Err(m),
                                    Ok(events) => if !events_ordered(events) {
                                        Err("manifest events must be ordered by at_step"@)
                                    } else {
                                        match host_spec(root@) {
                                            Err(m) => Err(m),
                                            Ok(host) => match port_spec(root@) {
                                                Err(m) => Err(m),
                                                Ok(port_read_value) => Ok(
                                                    ManifestModel {
                                                        name,
                                                        host,
                                                        port_read_value,
                                                        memory,
                                                        initial,
                                                        events,
                                                        max_steps,
                                                        on_halt,
                                                        at_pc,
                                                    },
                                                ),
                                            },
                                        }
                                    },
                                },
                            },
                        },
                    },
                },
            },
        },
        _ => Err(not_object("manifest"@)),
    }
}

/// The segments of a manifest as plain values.
pub open spec fn segment_values(memory: Seq<MemorySegment>) -> Seq<(u16, Seq<u8>)> {
    memory.map_values(|s: MemorySegment| (s.address, s.data@))
}

/// `m` is the manifest `model` describes.
pub open spec fn manifest_is(m: Manifest, model: ManifestModel) -> bool {
    &&& m.name@ == model.name
    &&& m.host == model.host
    &&& m.port_read_value == model.port_read_value
    &&& segment_values(m.memory@) == model.memory
    &&& m.initial == model.initial
    &&& m.events@ == model.events
    &&& m.stop.max_steps == model.max_steps
    &&& m.stop.on_halt == model.on_halt
    &&& m.stop.at_pc@ == model.at_pc
}

/// Reading the manifest never cuts a `data` string mid-character or runs
/// its file-segment offset arithmetic out of range, on the inputs where
/// the reading gets that far.
pub open spec fn manifest_readable(value: Json, files: Seq<Option<Result<Vec<u8>, String>>>) -> bool {
    match value {
        Json::Object(root) => (allowed_spec(root@, "manifest"@, manifest_keys(), manifest_required()) is Ok
            && version_spec(root@) is Ok && name_spec(root@) is Ok) ==> match member(root@, "memory"@) {
            Json::Array(v) => forall|i: int|
                0 <= i < v@.len() && #[trigger] segments_upto(v@, files, i) is Ok ==> segment_readable(
                    v@[i],
                    i as nat,
                    file_at(files, i),
                ),
            _ => true,
        },
        _ => true,
    }
}

proof fn lemma_segments_err(items: Seq<Json>, files: Seq<Option<Result<Vec<u8>, String>>>, n: int, k: int)
    requires
        segments_upto(items, files, n) is Err,
        n <= k,
    ensures
        segments_upto(items, files, k) == segments_upto(items, files, n),
    decreases k - n,
{
    if n < k {
        lemma_segments_err(items, files, n, k - 1);
    }
}

proof fn lemma_events_err(items: Seq<Json>, n: int, k: int)
    requires
        events_upto(items, n) is Err,
        n <= k,
    ensures
        events_upto(items, k) == events_upto(items, n),
    decreases k - n,
{
    if n < k {
        lemma_events_err(items, n, k - 1);
    }
}

proof fn lemma_at_pc_err(items: Seq<Json>, n: int, k: int)
    requires
        at_pc_upto(items, n) is Err,
        n <= k,
    ensures
        at_pc_upto(items, k) == at_pc_upto(items, n),
    decreases k - n,
{
    if n < k {
        lemma_at_pc_err(items, n, k - 1);
    }
}

/// Read every memory segment, in order.
fn read_memory(items: &Vec<Json>, files: &Vec<Option<Result<Vec<u8>, String>>>) -> (r: Result<Vec<MemorySegment>, String>)
    requires
        forall|i: int|
            0 <= i < items@.len() && #[trigger] segments_upto(items@, files@, i) is Ok ==> segment_readable(
                items@[i],
                i as nat,
                file_at(files@, i),
            ),
    ensures
        match segments_upto(items@, files@, items@.len() as int) {
            Ok(segs) => r matches Ok(v) && segment_values(v@) == segs,
            Err(m) => r matches Err(x) && x@ == m,
        },
{
    let mut memory: Vec<MemorySegment> = Vec::new();
    let mut i: usize = 0;
    assert(segment_values(memory@) =~= Seq::<(u16, Seq<u8>)>::empty());
    while i < items.len()
        invariant
            i <= items.len(),
            forall|i: int|
                0 <= i < items@.len() && #[trigger] segments_upto(items@, files@, i) is Ok ==> segment_readable(
                    items@[i],
                    i as nat,
                    file_at(files@, i),
                ),
            segments_upto(items@, files@, i as int) == Ok::<Seq<(u16, Seq<u8>)>, Seq<char>>(segment_values(memory@)),
        decreases items.len() - i,
    {
        let file: Option<&Result<Vec<u8>, String>> = if i < files.len() {
            match &files[i] {
                Some(f) => Some(f),
                None => None,
            }
        } else {
            None
        };
        assert((match file {
            Some(f) => file_view(Some(*f)),
            None => None,
        }) == file_at(files@, i as int));
        match segment(&items[i], i, file) {
            Ok(seg) => {
                let ghost prev = memory@;
                memory.push(seg);
                assert(segment_values(memory@) =~= segment_values(prev).push((seg.address, seg.data@)));
            },
            Err(m) => {
                proof {
                    lemma_segments_err(items@, files@, i + 1, items@.len() as int);
                }
                return Err(m);
            },
        }
        i += 1;
    }
    Ok(memory)
}

/// Read every event, in order.
fn read_events(items: &Vec<Json>) -> (r: Result<Vec<Event>, String>)
    ensures
        match events_upto(items@, items@.len() as int) {
            Ok(evs) => r matches Ok(v) && v@ == evs,
            Err(m) => r matches Err(x) && x@ == m,
        },
{
    let mut events: Vec<Event> = Vec::new();
    let mut i: usize = 0;
    while i < items.len()
        invariant
            i <= items.len(),
            events_upto(items@, i as int) == Ok::<Seq<Event>, Seq<char>>(events@),
        decreases items.len() - i,
    {
        match event(&items[i], i) {
            Ok(e) => {
                events.push(e);
            },
            Err(m) => {
                proof {
                    lemma_events_err(items@, i + 1, items@.len() as int);
                }
                return Err(m);
            },
        }
        i += 1;
    }
    Ok(events)
}

/// Read every stop address, in order.
fn read_at_pc(items: &Vec<Json>) -> (r: Result<Vec<u16>, String>)
    ensures
        match at_pc_upto(items@, items@.len() as int) {
            Ok(pcs) => r matches Ok(v) && v@ == pcs,
            Err(m) => r matches Err(x) && x@ == m,
        },
{
    let mut pcs: Vec<u16> = Vec::new();
    let mut i: usize = 0;
    while i < items.len()
        invariant
            i <= items.len(),
            at_pc_upto(items@, i as int) == Ok::<Seq<u16>, Seq<char>>(pcs@),
        decreases items.len() - i,
    {
        match items[i].as_u64() {
            Some(pc) => {
                if pc <= 0xFFFF {
                    pcs.push(pc as u16);
                } else {
                    proof {
                        lemma_at_pc_err(items@, i + 1, items@.len() as int);
                    }
                    return Err(String::from_str("stop.at_pc must be a tuple of 16-bit addresses"));
                }
            },
            None => {
                proof {
                    lemma_at_pc_err(items@, i + 1, items@.len() as int);
                }
                return Err(String::from_str("stop.at_pc must be a tuple of 16-bit addresses"));
            },
        }
        i += 1;
    }
    Ok(pcs)
}

/// Whether the events are in `at_step` order.
fn in_step_order(events: &Vec<Event>) -> (r: bool)
    ensures
        r == events_ordered(events@),
{
    let mut i: usize = 1;
    while i < events.len()
        invariant
            1 <= i,
            forall|j: int| 0 <= j < i - 1 && j < events@.len() - 1 ==> #[trigger] step_pair_ordered(events@, j),
        decreases events.len() - i,
    {
        if events[i - 1].at_step > events[i].at_step {
            assert(!step_pair_ordered(events@, i - 1));
            return false;
        }
        i += 1;
    }
    true
}

/// The stop rule.
fn read_stop(root: &Vec<(String, Json)>) -> (r: Result<StopRule, String>)
    requires
        lookup(root@, "stop"@) is Some,
    ensures
        match stop_spec(root@) {
            Ok((max_steps, on_halt, at_pc)) => r matches Ok(s) && s.max_steps == max_steps && s.on_halt == on_halt && s.at_pc@ == at_pc,
            Err(m) => r matches Err(x) && x@ == m,
        },
{
    let stop_dict = object(member_ref(root, "stop"), "stop")?;
    let keys: Vec<&str> = vec!["max_steps", "on_halt", "at_pc"];
    let required: Vec<&str> = vec!["max_steps"];
    assert(views(keys@) =~= stop_keys());
    assert(views(required@) =~= seq!["max_steps"@]);
    allowed(stop_dict, "stop", &keys, &required)?;
    proof {
        lemma_required_present(stop_dict@, "stop"@, stop_keys(), seq!["max_steps"@], 0);
    }
    let max_steps = match member_ref(stop_dict, "max_steps").as_u64() {
        Some(steps) => {
            if steps > 0 {
                steps
            } else {
                return Err(String::from_str("stop.max_steps must be a positive integer"));
            }
        },
        None => {
            return Err(String::from_str("stop.max_steps must be a positive integer"));
        },
    };
    let on_halt = match get(stop_dict, "on_halt") {
        None => true,
        Some(value) => boolean(value, "stop.on_halt")?,
    };
    let at_pc = match get(stop_dict, "at_pc") {
        None => Vec::new(),
        Some(value) => read_at_pc(list(value, "stop.at_pc")?)?,
    };
    Ok(StopRule { max_steps, on_halt, at_pc })
}

/// The version check.
fn read_version(root: &Vec<(String, Json)>) -> (r: Result<(), String>)
    requires
        lookup(root@, "version"@) is Some,
    ensures
        res_is(r, version_spec(root@)),
{
    let version = member_ref(root, "version");
    if version.as_u64() != Some(1u64) {
        let mut m = String::from_str("unsupported manifest version: ");
        let text = json_compact(version);
        m.append(text.as_str());
        return Err(m);
    }
    Ok(())
}

/// The manifest's name.
fn read_name(root: &Vec<(String, Json)>) -> (r: Result<String, String>)
    requires
        lookup(root@, "name"@) is Some,
    ensures
        match name_spec(root@) {
            Ok(n) => r matches Ok(x) && x@ == n,
            Err(m) => r matches Err(x) && x@ == m,
        },
{
    match member_ref(root, "name").as_str() {
        Some(n) => {
            if n.unicode_len() > 0 {
                Ok(String::from_str(n))
            } else {
                Err(String::from_str("manifest name must be a non-empty string"))
            }
        },
        None => Err(String::from_str("manifest name must be a non-empty string")),
    }
}

/// The initial state: all zeros where the manifest gives none.
fn read_initial(root: &Vec<(String, Json)>) -> (r: Result<CpuState, String>)
    ensures
        res_is(r, initial_spec(root@)),
{
    match get(root, "initial") {
        None => {
            let st = CpuState::default();
            Ok(st)
        },
        Some(v) => match state_from_json(v, "initial", true) {
            Ok(st) => Ok(st),
            Err(e) => {
                let mut m = String::from_str("invalid initial state: ");
                m.append(e.as_str());
                Err(m)
            },
        },
    }
}

/// The events, none where the manifest gives none.
fn read_event_list(root: &Vec<(String, Json)>) -> (r: Result<Vec<Event>, String>)
    ensures
        match events_spec(root@) {
            Ok(evs) => r matches Ok(v) && v@ == evs,
            Err(m) => r matches Err(x) && x@ == m,
        },
{
    match get(root, "events") {
        None => Ok(Vec::new()),
        Some(v) => read_events(list(v, "events")?),
    }
}

/// The host profile: `flat` where the manifest names none.
fn read_host(root: &Vec<(String, Json)>) -> (r: Result<HostProfile, String>)
    ensures
        res_is(r, host_spec(root@)),
{
    match get(root, "host") {
        None => Ok(HostProfile::Flat),
        Some(h) => {
            let text = h.as_str();
            let flat = match text {
                Some(t) => text_eq(t, "flat"),
                None => false,
            };
            let cpm = match text {
                Some(t) => text_eq(t, "cpm-minimal"),
                None => false,
            };
            if flat {
                Ok(HostProfile::Flat)
            } else if cpm {
                Ok(HostProfile::CpmMinimal)
            } else {
                let mut m = String::from_str("manifest host must be one of ('flat', 'cpm-minimal'), got ");
                append_debug_option(&mut m, text);
                Err(m)
            }
        },
    }
}

/// The port value: 0xFF where the manifest gives none.
fn read_port(root: &Vec<(String, Json)>) -> (r: Result<u8, String>)
    ensures
        res_is(r, port_spec(root@)),
{
    match get(root, "port_read_value") {
        None => Ok(0xFF),
        Some(v) => {
            let n = int_in_range(v, "manifest port_read_value", 0xFF)?;
            Ok(n as u8)
        },
    }
}

/// Build a validated manifest from its JSON form. `files[i]` is the file
/// that memory item `i` names, as the caller read it (its contents, or the
/// text of the read error); items without a file need no entry.
#[verifier::rlimit(40)]
pub fn manifest_from_json(value: &Json, files: &Vec<Option<Result<Vec<u8>, String>>>) -> (r: Result<Manifest, String>)
    requires
        manifest_readable(*value, files@),
    ensures
        match manifest_spec(*value, files@) {
            Ok(model) => r matches Ok(m) && manifest_is(m, model),
            Err(msg) => r matches Err(x) && x@ == msg,
        },
{
    let root = object(value, "manifest")?;
    let keys: Vec<&str> = vec!["version", "name", "host", "port_read_value", "memory", "initial", "events", "stop"];
    let required: Vec<&str> = vec!["memory", "name", "stop", "version"];
    assert(views(keys@) =~= manifest_keys());
    assert(views(required@) =~= manifest_required());
    allowed(root, "manifest", &keys, &required)?;
    proof {
        lemma_required_present(root@, "manifest"@, manifest_keys(), manifest_required(), 0);
        lemma_required_present(root@, "manifest"@, manifest_keys(), manifest_required(), 1);
        lemma_required_present(root@, "manifest"@, manifest_keys(), manifest_required(), 2);
        lemma_required_present(root@, "manifest"@, manifest_keys(), manifest_required(), 3);
    }
    read_version(root)?;
    let name = read_name(root)?;
    let memory = read_memory(list(member_ref(root, "memory"), "memory")?, files)?;
    let initial = read_initial(root)?;
    let stop = read_stop(root)?;
    let events = read_event_list(root)?;
    if !in_step_order(&events) {
        return Err(String::from_str("manifest events must be ordered by at_step"));
    }
    let host = read_host(root)?;
    let port_read_value = read_port(root)?;
    Ok(Manifest { name, host, port_read_value, memory, initial, events, stop })
}

/// The file a memory item names, when it takes its bytes from one: an
/// object with no `data` and a string `file`.
pub open spec fn file_ref(item: Json) -> Option<Seq<char>> {
    match item {
        Json::Object(e) => if lookup(e@, "data"@) is None {
            str_of(member(e@, "file"@))
        } else {
            None
        },
        _ => None,
    }
}

/// The items of the manifest's `memory` list, if it has one.
pub open spec fn memory_items(value: Json) -> Seq<Json> {
    match value {
        Json::Object(root) => match member(root@, "memory"@) {
            Json::Array(v) => v@,
            _ => Seq::empty(),
        },
        _ => Seq::empty(),
    }
}

/// For each item of the manifest's `memory`, the file it names, so the
/// caller can read them before [`manifest_from_json`] runs.
pub fn manifest_file_refs(value: &Json) -> (r: Vec<Option<String>>)
    ensures
        r@.len() == memory_items(*value).len(),
        forall|i: int|
            0 <= i < r@.len() ==> match #[trigger] r@[i] {
                Some(p) => file_ref(memory_items(*value)[i]) == Some(p@),
                None => file_ref(memory_items(*value)[i]) is None,
            },
{
    let mut refs: Vec<Option<String>> = Vec::new();
    let items: &Vec<Json> = match value {
        Json::Object(root) => match get(root, "memory") {
            Some(Json::Array(v)) => v,
            _ => {
                return refs;
            },
        },
        _ => {
            return refs;
        },
    };
    let mut i: usize = 0;
    while i < items.len()
        invariant
            i <= items.len(),
            items@ == memory_items(*value),
            refs@.len() == i,
            forall|j: int|
                0 <= j < i ==> match #[trigger] refs@[j] {
                    Some(p) => file_ref(items@[j]) == Some(p@),
                    None => file_ref(items@[j]) is None,
                },
        decreases items.len() - i,
    {
        let entry: Option<String> = match &items[i] {
            Json::Object(e) => {
                if get(e, "data").is_some() {
                    None
                } else {
                    match get(e, "file") {
                        Some(f) => match f.as_str() {
                            Some(path) => Some(String::from_str(path)),
                            None => None,
                        },
                        None => None,
                    }
                }
            },
            _ => None,
        };
        refs.push(entry);
        i += 1;
    }
    refs
}

/// Whether a `data` text can be cut into two-byte pairs on character
/// boundaries.
fn cuts_on_boundaries(text: &str) -> (r: bool)
    ensures
        r == pairs_on_boundaries(text.spec_bytes()),
{
    let bytes = text.as_bytes();
    if bytes.len() % 2 != 0 {
        return true;
    }
    let mut k: usize = 0;
    while k < bytes.len() / 2
        invariant
            bytes@ == text.spec_bytes(),
            bytes.len() % 2 == 0,
            k <= bytes.len() / 2,
            forall|j: int| 0 <= j < k ==> !vstd::utf8::is_continuation_byte(#[trigger] bytes@[2 * j]),
        decreases bytes.len() / 2 - k,
    {
        let b = bytes[2 * k];
        if 0x80 <= b && b <= 0xBF {
            return false;
        }
        k += 1;
    }
    true
}

/// Whether a file segment's offset arithmetic stays in range.
fn offsets_fit(entries: &Vec<(String, Json)>, len: usize) -> (r: bool)
    ensures
        r == offsets_in_range(entries@, len as nat),
{
    let offset: Option<u64> = match get(entries, "offset") {
        None => Some(0),
        Some(v) => v.as_u64(),
    };
    let length_given = get(entries, "length");
    if length_given.is_none() {
        match offset {
            Some(o) => {
                if o > len as u64 {
                    return false;
                }
            },
            None => {},
        }
    }
    let length: Option<u64> = match length_given {
        None => Some(len as u64 - match offset {
            Some(o) => o,
            None => 0,
        }),
        Some(v) => v.as_u64(),
    };
    match (offset, length) {
        (Some(o), Some(l)) => {
            if l > 0 && o <= len as u64 {
                (o as u128) + (l as u128) <= usize::MAX as u128
            } else {
                true
            }
        },
        _ => true,
    }
}

/// Whether memory item `index` can be read (see [`segment_readable`]).
fn segment_is_readable(item: &Json, index: usize, file: Option<&Result<Vec<u8>, String>>) -> (r: bool)
    ensures
        r == segment_readable(
            *item,
            index as nat,
            match file {
                Some(f) => file_view(Some(*f)),
                None => None,
            },
        ),
{
    let entries = match item {
        Json::Object(e) => e,
        _ => {
            return true;
        },
    };
    let name = indexed_name("memory[", index);
    let keys: Vec<&str> = vec!["address", "data", "file", "offset", "length"];
    let required: Vec<&str> = vec!["address"];
    assert(views(keys@) =~= segment_keys());
    assert(views(required@) =~= seq!["address"@]);
    if allowed(entries, name.as_str(), &keys, &required).is_err() {
        return true;
    }
    let file_absent = get(entries, "file").is_none();
    let data_absent = get(entries, "data").is_none();
    let data_ok = if file_absent {
        match get(entries, "data") {
            Some(d) => match d.as_str() {
                Some(t) => cuts_on_boundaries(t),
                None => true,
            },
            None => true,
        }
    } else {
        true
    };
    let file_is_text = match get(entries, "file") {
        Some(f) => f.as_str().is_some(),
        None => false,
    };
    let offsets_ok = match file {
        Some(Ok(contents)) => {
            if data_absent && file_is_text {
                offsets_fit(entries, contents.len())
            } else {
                true
            }
        },
        _ => true,
    };
    data_ok && offsets_ok
}

/// Whether [`manifest_from_json`] can read `value` with `files`: the check
/// its precondition asks for, made on the document itself.
pub fn manifest_is_readable(value: &Json, files: &Vec<Option<Result<Vec<u8>, String>>>) -> (r: bool)
    ensures
        r == manifest_readable(*value, files@),
{
    let root = match value {
        Json::Object(e) => e,
        _ => {
            return true;
        },
    };
    let keys: Vec<&str> = vec!["version", "name", "host", "port_read_value", "memory", "initial", "events", "stop"];
    let required: Vec<&str> = vec!["memory", "name", "stop", "version"];
    assert(views(keys@) =~= manifest_keys());
    assert(views(required@) =~= manifest_required());
    if allowed(root, "manifest", &keys, &required).is_err() {
        return true;
    }
    proof {
        lemma_required_present(root@, "manifest"@, manifest_keys(), manifest_required(), 0);
        lemma_required_present(root@, "manifest"@, manifest_keys(), manifest_required(), 1);
        lemma_required_present(root@, "manifest"@, manifest_keys(), manifest_required(), 3);
    }
    if read_version(root).is_err() || read_name(root).is_err() {
        return true;
    }
    let items = match member_ref(root, "memory") {
        Json::Array(v) => v,
        _ => {
            return true;
        },
    };
    let mut i: usize = 0;
    while i < items.len()
        invariant
            i <= items.len(),
            *value == Json::Object(*root),
            member(root@, "memory"@) == Json::Array(*items),
            allowed_spec(root@, "manifest"@, manifest_keys(), manifest_required()) is Ok,
            version_spec(root@) is Ok,
            name_spec(root@) is Ok,
            segments_upto(items@, files@, i as int) is Ok,
            forall|j: int|
                0 <= j < i && #[trigger] segments_upto(items@, files@, j) is Ok ==> segment_readable(
                    items@[j],
                    j as nat,
                    file_at(files@, j),
                ),
        decreases items.len() - i,
    {
        let file: Option<&Result<Vec<u8>, String>> = if i < files.len() {
            match &files[i] {
                Some(f) => Some(f),
                None => None,
            }
        } else {
            None
        };
        assert((match file {
            Some(f) => file_view(Some(*f)),
            None => None,
        }) == file_at(files@, i as int));
        if !segment_is_readable(&items[i], i, file) {
            return false;
        }
        if segment(&items[i], i, file).is_err() {
            proof {
                assert forall|j: int|
                    0 <= j < items@.len() && #[trigger] segments_upto(items@, files@, j) is Ok implies segment_readable(
                        items@[j],
                        j as nat,
                        file_at(files@, j),
                    ) by {
                    if j > i {
                        lemma_segments_err(items@, files@, i + 1, j);
                    }
                }
            }
            return true;
        }
        i += 1;
    }
    true
}

} // verus!
