//! Checkpoints: a manifest that resumes a run from a captured state.
//!
//! The document is built here as a [`Json`] value; turning it into text,
//! and reading JSON text into a [`Json`], are the JSON library's work.

use vstd::prelude::*;
use vstd::string::{StrSliceExecFns, StringExecFns};

use crate::conformance::{HostProfile, Manifest, MANIFEST_SCHEMA_VERSION};
use crate::json::{keys_of, Json, JsonNumber};
use crate::manifest::{fill_state, missing_keys, set_field, state_spec, unknown_keys};
use crate::state::{field_names, sorted_field_names, zero_state, CpuState};
use crate::text::{decimal, decimal_string};

verus! {

/// The value the JSON parser reads from `text`, when `text` is a JSON
/// document.
pub uninterp spec fn json_document(text: Seq<char>) -> Option<Json>;

/// The parser's message for `text` when it is not a JSON document.
pub uninterp spec fn json_error_text(text: Seq<char>) -> Seq<char>;

/// The text the JSON writer's pretty printer gives for `j`.
pub uninterp spec fn json_pretty_text(j: Json) -> Seq<char>;

/// The text the JSON writer's compact printer (`Display`) gives for `j`.
pub uninterp spec fn json_compact_text(j: Json) -> Seq<char>;

/// `serde_json::Value`, converted to and from [`Json`].
#[verifier::external_type_specification]
#[verifier::external_body]
pub struct ExJsonValue(serde_json::Value);

/// `value` as a [`Json`], member for member: a number keeps its `as_u64`
/// reading and its text, an object its members in the map's order.
#[verifier::external_body]
fn json_from_value(value: &serde_json::Value) -> Json {
    match value {
        serde_json::Value::Null => Json::Null,
        serde_json::Value::Bool(b) => Json::Bool(*b),
        serde_json::Value::Number(n) => Json::Number(JsonNumber { unsigned: n.as_u64(), text: n.to_string() }),
        serde_json::Value::String(s) => Json::Str(s.clone()),
        serde_json::Value::Array(items) => Json::Array(items.iter().map(json_from_value).collect()),
        serde_json::Value::Object(members) => Json::Object(
            members.iter().map(|(k, v)| (k.clone(), json_from_value(v))).collect(),
        ),
    }
}

/// `j` as a `serde_json::Value`, member for member; a number is read back
/// from its text.
#[verifier::external_body]
fn value_from_json(j: &Json) -> serde_json::Value {
    match j {
        Json::Null => serde_json::Value::Null,
        Json::Bool(b) => serde_json::Value::Bool(*b),
        Json::Number(n) => n.text.parse::<serde_json::Number>().map_or(serde_json::Value::Null, serde_json::Value::Number),
        Json::Str(s) => serde_json::Value::String(s.clone()),
        Json::Array(items) => serde_json::Value::Array(items.iter().map(value_from_json).collect()),
        Json::Object(members) => serde_json::Value::Object(
            members.iter().map(|(k, v)| (k.clone(), value_from_json(v))).collect(),
        ),
    }
}

/// Parse JSON text with `serde_json::from_str`: the document's value, or
/// the parser's message. Both are named, not stated: they are functions of
/// the text alone.
#[verifier::external_body]
pub fn parse_json(text: &str) -> (r: Result<Json, String>)
    ensures
        match json_document(text@) {
            Some(j) => r == Ok::<Json, String>(j),
            None => r matches Err(m) && m@ == json_error_text(text@),
        },
{
    match serde_json::from_str::<serde_json::Value>(text) {
        Ok(value) => Ok(json_from_value(&value)),
        Err(error) => Err(error.to_string()),
    }
}

/// Pretty-print `j` with `serde_json::to_string_pretty`. The text is named,
/// not stated. The error arm is never taken: the printer writes into a
/// `Vec`, and a value's keys are strings.
#[verifier::external_body]
pub fn json_pretty(j: &Json) -> (r: String)
    ensures
        r@ == json_pretty_text(*j),
{
    match serde_json::to_string_pretty(&value_from_json(j)) {
        Ok(text) => text,
        Err(_) => String::new(),
    }
}

/// Print `j` compactly, as `serde_json::Value`'s `Display` does. The text
/// is named, not stated.
#[verifier::external_body]
pub fn json_compact(j: &Json) -> (r: String)
    ensures
        r@ == json_compact_text(*j),
{
    value_from_json(j).to_string()
}

/// `j` is the number `n`, with its decimal text.
pub open spec fn is_num(j: Json, n: nat) -> bool {
    j matches Json::Number(x) && x.unsigned == Some(n as u64) && x.text@ == decimal(n) && n <= u64::MAX
}

/// `j` is the string `s`.
pub open spec fn is_str(j: Json, s: Seq<char>) -> bool {
    j matches Json::Str(t) && t@ == s
}

/// `j` is the boolean `b`.
pub open spec fn is_bool(j: Json, b: bool) -> bool {
    j == Json::Bool(b)
}

/// `j` is an object whose members have the keys `keys`, in that order.
pub open spec fn has_keys(j: Json, keys: Seq<Seq<char>>) -> bool {
    j matches Json::Object(e) && keys_of(e@) == keys
}

/// Member `k` of an object, by position.
pub open spec fn at(j: Json, k: int) -> Json {
    match j {
        Json::Object(e) => e@[k].1,
        Json::Array(v) => v@[k],
        _ => Json::Null,
    }
}

/// The number of items or members.
pub open spec fn size(j: Json) -> nat {
    match j {
        Json::Object(e) => e@.len(),
        Json::Array(v) => v@.len(),
        _ => 0,
    }
}

/// The `k`th field, in sorted order, of the state `s`.
pub open spec fn field_value(j: Json, k: int, s: CpuState) -> bool {
    if k == 0 {
        is_num(j, s.a as nat)
    } else if k == 1 {
        is_num(j, s.af_alt as nat)
    } else if k == 2 {
        is_num(j, s.b as nat)
    } else if k == 3 {
        is_num(j, s.bc_alt as nat)
    } else if k == 4 {
        is_num(j, s.c as nat)
    } else if k == 5 {
        is_num(j, s.d as nat)
    } else if k == 6 {
        is_num(j, s.de_alt as nat)
    } else if k == 7 {
        is_num(j, s.e as nat)
    } else if k == 8 {
        is_num(j, s.ei_delay as nat)
    } else if k == 9 {
        is_num(j, s.f as nat)
    } else if k == 10 {
        is_num(j, s.h as nat)
    } else if k == 11 {
        is_bool(j, s.halted)
    } else if k == 12 {
        is_num(j, s.hl_alt as nat)
    } else if k == 13 {
        is_num(j, s.i as nat)
    } else if k == 14 {
        is_bool(j, s.iff1)
    } else if k == 15 {
        is_bool(j, s.iff2)
    } else if k == 16 {
        is_num(j, s.im as nat)
    } else if k == 17 {
        is_num(j, s.ix as nat)
    } else if k == 18 {
        is_num(j, s.iy as nat)
    } else if k == 19 {
        is_num(j, s.l as nat)
    } else if k == 20 {
        match s.maskable_interrupt_vector { Some(v) => is_num(j, v as nat), None => j is Null }
    } else if k == 21 {
        is_bool(j, s.non_maskable_interrupt_pending)
    } else if k == 22 {
        is_num(j, s.pc as nat)
    } else if k == 23 {
        is_num(j, s.q as nat)
    } else if k == 24 {
        is_num(j, s.r as nat)
    } else if k == 25 {
        is_bool(j, s.reset_pending)
    } else if k == 26 {
        is_num(j, s.sp as nat)
    } else if k == 27 {
        is_num(j, s.wz as nat)
    } else {
        false
    }
}

/// `j` is the state `s` as a JSON object: its 28 fields in sorted order.
pub open spec fn state_is(j: Json, s: CpuState) -> bool {
    &&& has_keys(j, sorted_field_names())
    &&& forall|k: int| 0 <= k < 28 ==> #[trigger] field_value(at(j, k), k, s)
}

/// The name of a host profile in a manifest.
pub open spec fn host_name(h: HostProfile) -> Seq<char> {
    match h {
        HostProfile::Flat => "flat"@,
        HostProfile::CpmMinimal => "cpm-minimal"@,
    }
}

/// `n` in decimal, padded with zeros on the left to `width` characters.
pub open spec fn padded_decimal(n: nat, width: nat) -> Seq<char> {
    let d = decimal(n);
    if d.len() < width {
        Seq::new((width - d.len()) as nat, |i: int| '0') + d
    } else {
        d
    }
}

/// The checkpoint manifest for `manifest` resuming from `state`: the schema
/// version, the name `stem`, the same host and port value, one segment at
/// address 0 from the file `{stem}.mem`, every state field as `initial`, no
/// events, and the stop rule with `max_steps = segment_steps` and the same
/// `on_halt` and `at_pc`.
pub open spec fn checkpoint_is(doc: Json, manifest: Manifest, state: CpuState, stem: Seq<char>, segment_steps: u64) -> bool {
    &&& has_keys(doc, seq!["events"@, "host"@, "initial"@, "memory"@, "name"@, "port_read_value"@, "stop"@, "version"@])
    &&& at(doc, 0) matches Json::Array(ev) && ev@.len() == 0
    &&& is_str(at(doc, 1), host_name(manifest.host))
    &&& state_is(at(doc, 2), state)
    &&& at(doc, 3) matches Json::Array(mem) && mem@.len() == 1
    &&& has_keys(at(at(doc, 3), 0), seq!["address"@, "file"@])
    &&& is_num(at(at(at(doc, 3), 0), 0), 0)
    &&& is_str(at(at(at(doc, 3), 0), 1), stem + ".mem"@)
    &&& is_str(at(doc, 4), stem)
    &&& is_num(at(doc, 5), manifest.port_read_value as nat)
    &&& has_keys(at(doc, 6), seq!["at_pc"@, "max_steps"@, "on_halt"@])
    &&& at(at(doc, 6), 0) matches Json::Array(pcs) && pcs@.len() == manifest.stop.at_pc@.len()
    &&& forall|k: int| 0 <= k < manifest.stop.at_pc@.len() ==> #[trigger] is_num(at(at(at(doc, 6), 0), k), manifest.stop.at_pc@[k] as nat)
    &&& is_num(at(at(doc, 6), 1), segment_steps as nat)
    &&& is_bool(at(at(doc, 6), 2), manifest.stop.on_halt)
    &&& is_num(at(doc, 7), MANIFEST_SCHEMA_VERSION as nat)
}

/// A filter whose predicate holds of no item is empty.
proof fn lemma_filter_none<A>(s: Seq<A>, p: spec_fn(A) -> bool)
    requires
        forall|i: int| 0 <= i < s.len() ==> !p(#[trigger] s[i]),
    ensures
        s.filter(p) == Seq::<A>::empty(),
    decreases s.len(),
{
    reveal(Seq::filter);
    if s.len() > 0 {
        lemma_filter_none(s.drop_last(), p);
        assert(!p(s[s.len() - 1]));
    }
}

/// An object whose keys are all among `keys` has no unknown key.
pub(crate) proof fn lemma_no_unknown(entries: Seq<(String, Json)>, keys: Seq<Seq<char>>)
    requires
        forall|i: int| 0 <= i < keys_of(entries).len() ==> keys.contains(#[trigger] keys_of(entries)[i]),
    ensures
        unknown_keys(entries, keys) == Seq::<Seq<char>>::empty(),
{
    lemma_filter_none(keys_of(entries), |k: Seq<char>| !keys.contains(k));
    crate::manifest::lemma_sorted_empty();
}

/// An object that has every key of `required` misses none.
pub(crate) proof fn lemma_none_missing(entries: Seq<(String, Json)>, required: Seq<Seq<char>>)
    requires
        forall|i: int| 0 <= i < required.len() ==> keys_of(entries).contains(#[trigger] required[i]),
    ensures
        missing_keys(entries, required) == Seq::<Seq<char>>::empty(),
{
    lemma_filter_none(required, |k: Seq<char>| !keys_of(entries).contains(k));
    crate::manifest::lemma_sorted_empty();
}

/// The keys of a state document are exactly the state's field names.
#[verifier::rlimit(100)]
proof fn lemma_state_keys(e: Seq<(String, Json)>)
    requires
        keys_of(e) == sorted_field_names(),
    ensures
        unknown_keys(e, field_names()) == Seq::<Seq<char>>::empty(),
        missing_keys(e, sorted_field_names()) == Seq::<Seq<char>>::empty(),
{
    assert forall|i: int| 0 <= i < 28 implies field_names().contains(#[trigger] sorted_field_names()[i]) by {
        if i == 0 {
            assert(field_names()[0] == sorted_field_names()[0]);
        } else if i == 1 {
            assert(field_names()[18] == sorted_field_names()[1]);
        } else if i == 2 {
            assert(field_names()[2] == sorted_field_names()[2]);
        } else if i == 3 {
            assert(field_names()[19] == sorted_field_names()[3]);
        } else if i == 4 {
            assert(field_names()[3] == sorted_field_names()[4]);
        } else if i == 5 {
            assert(field_names()[4] == sorted_field_names()[5]);
        } else if i == 6 {
            assert(field_names()[20] == sorted_field_names()[6]);
        } else if i == 7 {
            assert(field_names()[5] == sorted_field_names()[7]);
        } else if i == 8 {
            assert(field_names()[24] == sorted_field_names()[8]);
        } else if i == 9 {
            assert(field_names()[1] == sorted_field_names()[9]);
        } else if i == 10 {
            assert(field_names()[6] == sorted_field_names()[10]);
        } else if i == 11 {
            assert(field_names()[23] == sorted_field_names()[11]);
        } else if i == 12 {
            assert(field_names()[21] == sorted_field_names()[12]);
        } else if i == 13 {
            assert(field_names()[13] == sorted_field_names()[13]);
        } else if i == 14 {
            assert(field_names()[15] == sorted_field_names()[14]);
        } else if i == 15 {
            assert(field_names()[16] == sorted_field_names()[15]);
        } else if i == 16 {
            assert(field_names()[17] == sorted_field_names()[16]);
        } else if i == 17 {
            assert(field_names()[8] == sorted_field_names()[17]);
        } else if i == 18 {
            assert(field_names()[9] == sorted_field_names()[18]);
        } else if i == 19 {
            assert(field_names()[7] == sorted_field_names()[19]);
        } else if i == 20 {
            assert(field_names()[26] == sorted_field_names()[20]);
        } else if i == 21 {
            assert(field_names()[27] == sorted_field_names()[21]);
        } else if i == 22 {
            assert(field_names()[11] == sorted_field_names()[22]);
        } else if i == 23 {
            assert(field_names()[22] == sorted_field_names()[23]);
        } else if i == 24 {
            assert(field_names()[14] == sorted_field_names()[24]);
        } else if i == 25 {
            assert(field_names()[25] == sorted_field_names()[25]);
        } else if i == 26 {
            assert(field_names()[10] == sorted_field_names()[26]);
        } else if i == 27 {
            assert(field_names()[12] == sorted_field_names()[27]);
        }
    }
    lemma_no_unknown(e, field_names());
    assert forall|i: int| 0 <= i < 28 implies keys_of(e).contains(#[trigger] sorted_field_names()[i]) by {
        assert(keys_of(e)[i] == sorted_field_names()[i]);
    }
    lemma_none_missing(e, sorted_field_names());
}

/// `st` with field `k` (in sorted order) taken from `s`.
pub open spec fn with_field(st: CpuState, s: CpuState, k: int) -> CpuState {
    if k == 0 {
        CpuState { a: s.a, ..st }
    } else if k == 1 {
        CpuState { af_alt: s.af_alt, ..st }
    } else if k == 2 {
        CpuState { b: s.b, ..st }
    } else if k == 3 {
        CpuState { bc_alt: s.bc_alt, ..st }
    } else if k == 4 {
        CpuState { c: s.c, ..st }
    } else if k == 5 {
        CpuState { d: s.d, ..st }
    } else if k == 6 {
        CpuState { de_alt: s.de_alt, ..st }
    } else if k == 7 {
        CpuState { e: s.e, ..st }
    } else if k == 8 {
        CpuState { ei_delay: s.ei_delay, ..st }
    } else if k == 9 {
        CpuState { f: s.f, ..st }
    } else if k == 10 {
        CpuState { h: s.h, ..st }
    } else if k == 11 {
        CpuState { halted: s.halted, ..st }
    } else if k == 12 {
        CpuState { hl_alt: s.hl_alt, ..st }
    } else if k == 13 {
        CpuState { i: s.i, ..st }
    } else if k == 14 {
        CpuState { iff1: s.iff1, ..st }
    } else if k == 15 {
        CpuState { iff2: s.iff2, ..st }
    } else if k == 16 {
        CpuState { im: s.im, ..st }
    } else if k == 17 {
        CpuState { ix: s.ix, ..st }
    } else if k == 18 {
        CpuState { iy: s.iy, ..st }
    } else if k == 19 {
        CpuState { l: s.l, ..st }
    } else if k == 20 {
        CpuState { maskable_interrupt_vector: s.maskable_interrupt_vector, ..st }
    } else if k == 21 {
        CpuState { non_maskable_interrupt_pending: s.non_maskable_interrupt_pending, ..st }
    } else if k == 22 {
        CpuState { pc: s.pc, ..st }
    } else if k == 23 {
        CpuState { q: s.q, ..st }
    } else if k == 24 {
        CpuState { r: s.r, ..st }
    } else if k == 25 {
        CpuState { reset_pending: s.reset_pending, ..st }
    } else if k == 26 {
        CpuState { sp: s.sp, ..st }
    } else if k == 27 {
        CpuState { wz: s.wz, ..st }
    } else {
        st
    }
}

/// The zero state with the first `k` fields (in sorted order) taken from
/// `s`.
pub open spec fn prefix_state(s: CpuState, k: int) -> CpuState
    decreases k,
{
    if k <= 0 {
        zero_state()
    } else {
        with_field(prefix_state(s, k - 1), s, k - 1)
    }
}

/// The field names are pairwise distinct.
proof fn lemma_field_names_differ()
    ensures
        "a"@ != "b"@,
        "a"@ != "c"@,
        "a"@ != "d"@,
        "a"@ != "e"@,
        "a"@ != "f"@,
        "a"@ != "h"@,
        "a"@ != "i"@,
        "a"@ != "l"@,
        "a"@ != "q"@,
        "a"@ != "r"@,
        "af_alt"@ != "bc_alt"@,
        "af_alt"@ != "de_alt"@,
        "af_alt"@ != "halted"@,
        "af_alt"@ != "hl_alt"@,
        "b"@ != "c"@,
        "b"@ != "d"@,
        "b"@ != "e"@,
        "b"@ != "f"@,
        "b"@ != "h"@,
        "b"@ != "i"@,
        "b"@ != "l"@,
        "b"@ != "q"@,
        "b"@ != "r"@,
        "bc_alt"@ != "de_alt"@,
        "bc_alt"@ != "halted"@,
        "bc_alt"@ != "hl_alt"@,
        "c"@ != "d"@,
        "c"@ != "e"@,
        "c"@ != "f"@,
        "c"@ != "h"@,
        "c"@ != "i"@,
        "c"@ != "l"@,
        "c"@ != "q"@,
        "c"@ != "r"@,
        "d"@ != "e"@,
        "d"@ != "f"@,
        "d"@ != "h"@,
        "d"@ != "i"@,
        "d"@ != "l"@,
        "d"@ != "q"@,
        "d"@ != "r"@,
        "de_alt"@ != "halted"@,
        "de_alt"@ != "hl_alt"@,
        "e"@ != "f"@,
        "e"@ != "h"@,
        "e"@ != "i"@,
        "e"@ != "l"@,
        "e"@ != "q"@,
        "e"@ != "r"@,
        "f"@ != "h"@,
        "f"@ != "i"@,
        "f"@ != "l"@,
        "f"@ != "q"@,
        "f"@ != "r"@,
        "h"@ != "i"@,
        "h"@ != "l"@,
        "h"@ != "q"@,
        "h"@ != "r"@,
        "halted"@ != "hl_alt"@,
        "i"@ != "l"@,
        "i"@ != "q"@,
        "i"@ != "r"@,
        "iff1"@ != "iff2"@,
        "im"@ != "ix"@,
        "im"@ != "iy"@,
        "im"@ != "pc"@,
        "im"@ != "sp"@,
        "im"@ != "wz"@,
        "ix"@ != "iy"@,
        "ix"@ != "pc"@,
        "ix"@ != "sp"@,
        "ix"@ != "wz"@,
        "iy"@ != "pc"@,
        "iy"@ != "sp"@,
        "iy"@ != "wz"@,
        "l"@ != "q"@,
        "l"@ != "r"@,
        "pc"@ != "sp"@,
        "pc"@ != "wz"@,
        "q"@ != "r"@,
        "sp"@ != "wz"@,
{
    reveal_strlit("a");
    reveal_strlit("af_alt");
    reveal_strlit("b");
    reveal_strlit("bc_alt");
    reveal_strlit("c");
    reveal_strlit("d");
    reveal_strlit("de_alt");
    reveal_strlit("e");
    reveal_strlit("ei_delay");
    reveal_strlit("f");
    reveal_strlit("h");
    reveal_strlit("halted");
    reveal_strlit("hl_alt");
    reveal_strlit("i");
    reveal_strlit("iff1");
    reveal_strlit("iff2");
    reveal_strlit("im");
    reveal_strlit("ix");
    reveal_strlit("iy");
    reveal_strlit("l");
    reveal_strlit("maskable_interrupt_vector");
    reveal_strlit("non_maskable_interrupt_pending");
    reveal_strlit("pc");
    reveal_strlit("q");
    reveal_strlit("r");
    reveal_strlit("reset_pending");
    reveal_strlit("sp");
    reveal_strlit("wz");
    assert("a"@[0] != "b"@[0]);
    assert("a"@[0] != "c"@[0]);
    assert("a"@[0] != "d"@[0]);
    assert("a"@[0] != "e"@[0]);
    assert("a"@[0] != "f"@[0]);
    assert("a"@[0] != "h"@[0]);
    assert("a"@[0] != "i"@[0]);
    assert("a"@[0] != "l"@[0]);
    assert("a"@[0] != "q"@[0]);
    assert("a"@[0] != "r"@[0]);
    assert("af_alt"@[0] != "bc_alt"@[0]);
    assert("af_alt"@[0] != "de_alt"@[0]);
    assert("af_alt"@[0] != "halted"@[0]);
    assert("af_alt"@[0] != "hl_alt"@[0]);
    assert("b"@[0] != "c"@[0]);
    assert("b"@[0] != "d"@[0]);
    assert("b"@[0] != "e"@[0]);
    assert("b"@[0] != "f"@[0]);
    assert("b"@[0] != "h"@[0]);
    assert("b"@[0] != "i"@[0]);
    assert("b"@[0] != "l"@[0]);
    assert("b"@[0] != "q"@[0]);
    assert("b"@[0] != "r"@[0]);
    assert("bc_alt"@[0] != "de_alt"@[0]);
    assert("bc_alt"@[0] != "halted"@[0]);
    assert("bc_alt"@[0] != "hl_alt"@[0]);
    assert("c"@[0] != "d"@[0]);
    assert("c"@[0] != "e"@[0]);
    assert("c"@[0] != "f"@[0]);
    assert("c"@[0] != "h"@[0]);
    assert("c"@[0] != "i"@[0]);
    assert("c"@[0] != "l"@[0]);
    assert("c"@[0] != "q"@[0]);
    assert("c"@[0] != "r"@[0]);
    assert("d"@[0] != "e"@[0]);
    assert("d"@[0] != "f"@[0]);
    assert("d"@[0] != "h"@[0]);
    assert("d"@[0] != "i"@[0]);
    assert("d"@[0] != "l"@[0]);
    assert("d"@[0] != "q"@[0]);
    assert("d"@[0] != "r"@[0]);
    assert("de_alt"@[0] != "halted"@[0]);
    assert("de_alt"@[0] != "hl_alt"@[0]);
    assert("e"@[0] != "f"@[0]);
    assert("e"@[0] != "h"@[0]);
    assert("e"@[0] != "i"@[0]);
    assert("e"@[0] != "l"@[0]);
    assert("e"@[0] != "q"@[0]);
    assert("e"@[0] != "r"@[0]);
    assert("f"@[0] != "h"@[0]);
    assert("f"@[0] != "i"@[0]);
    assert("f"@[0] != "l"@[0]);
    assert("f"@[0] != "q"@[0]);
    assert("f"@[0] != "r"@[0]);
    assert("h"@[0] != "i"@[0]);
    assert("h"@[0] != "l"@[0]);
    assert("h"@[0] != "q"@[0]);
    assert("h"@[0] != "r"@[0]);
    assert("halted"@[1] != "hl_alt"@[1]);
    assert("i"@[0] != "l"@[0]);
    assert("i"@[0] != "q"@[0]);
    assert("i"@[0] != "r"@[0]);
    assert("iff1"@[3] != "iff2"@[3]);
    assert("im"@[1] != "ix"@[1]);
    assert("im"@[1] != "iy"@[1]);
    assert("im"@[0] != "pc"@[0]);
    assert("im"@[0] != "sp"@[0]);
    assert("im"@[0] != "wz"@[0]);
    assert("ix"@[1] != "iy"@[1]);
    assert("ix"@[0] != "pc"@[0]);
    assert("ix"@[0] != "sp"@[0]);
    assert("ix"@[0] != "wz"@[0]);
    assert("iy"@[0] != "pc"@[0]);
    assert("iy"@[0] != "sp"@[0]);
    assert("iy"@[0] != "wz"@[0]);
    assert("l"@[0] != "q"@[0]);
    assert("l"@[0] != "r"@[0]);
    assert("pc"@[0] != "sp"@[0]);
    assert("pc"@[0] != "wz"@[0]);
    assert("q"@[0] != "r"@[0]);
    assert("sp"@[0] != "wz"@[0]);
}

/// Reading member `k` of a state document sets field `k`.
#[verifier::rlimit(100)]
proof fn lemma_set_field_0(st: CpuState, s: CpuState, k: int, item: Json, field: Seq<char>)
    requires
        0 <= k <= 6,
        field_value(item, k, s),
        s.im <= 2,
        s.ei_delay <= 1,
    ensures
        set_field(st, sorted_field_names()[k], item, field) == Ok::<CpuState, Seq<char>>(with_field(st, s, k)),
{
    reveal_strlit("a");
    reveal_strlit("af_alt");
    reveal_strlit("b");
    reveal_strlit("bc_alt");
    reveal_strlit("c");
    reveal_strlit("d");
    reveal_strlit("de_alt");
    reveal_strlit("e");
    reveal_strlit("ei_delay");
    reveal_strlit("f");
    reveal_strlit("h");
    reveal_strlit("halted");
    reveal_strlit("hl_alt");
    reveal_strlit("i");
    reveal_strlit("iff1");
    reveal_strlit("iff2");
    reveal_strlit("im");
    reveal_strlit("ix");
    reveal_strlit("iy");
    reveal_strlit("l");
    reveal_strlit("maskable_interrupt_vector");
    reveal_strlit("non_maskable_interrupt_pending");
    reveal_strlit("pc");
    reveal_strlit("q");
    reveal_strlit("r");
    reveal_strlit("reset_pending");
    reveal_strlit("sp");
    reveal_strlit("wz");
    lemma_field_names_differ();
    if k == 0 {
        assert(sorted_field_names()[0] == "a"@);
        assert((s.a as u64) as u8 == s.a);
        assert(set_field(st, "a"@, item, field) == Ok::<CpuState, Seq<char>>(with_field(st, s, 0)));
    } else if k == 1 {
        assert(sorted_field_names()[1] == "af_alt"@);
        assert((s.af_alt as u64) as u16 == s.af_alt);
        assert(set_field(st, "af_alt"@, item, field) == Ok::<CpuState, Seq<char>>(with_field(st, s, 1)));
    } else if k == 2 {
        assert(sorted_field_names()[2] == "b"@);
        assert((s.b as u64) as u8 == s.b);
        assert(set_field(st, "b"@, item, field) == Ok::<CpuState, Seq<char>>(with_field(st, s, 2)));
    } else if k == 3 {
        assert(sorted_field_names()[3] == "bc_alt"@);
        assert((s.bc_alt as u64) as u16 == s.bc_alt);
        assert(set_field(st, "bc_alt"@, item, field) == Ok::<CpuState, Seq<char>>(with_field(st, s, 3)));
    } else if k == 4 {
        assert(sorted_field_names()[4] == "c"@);
        assert((s.c as u64) as u8 == s.c);
        assert(set_field(st, "c"@, item, field) == Ok::<CpuState, Seq<char>>(with_field(st, s, 4)));
    } else if k == 5 {
        assert(sorted_field_names()[5] == "d"@);
        assert((s.d as u64) as u8 == s.d);
        assert(set_field(st, "d"@, item, field) == Ok::<CpuState, Seq<char>>(with_field(st, s, 5)));
    } else if k == 6 {
        assert(sorted_field_names()[6] == "de_alt"@);
        assert((s.de_alt as u64) as u16 == s.de_alt);
        assert(set_field(st, "de_alt"@, item, field) == Ok::<CpuState, Seq<char>>(with_field(st, s, 6)));
    }
}

#[verifier::rlimit(100)]
proof fn lemma_set_field_7(st: CpuState, s: CpuState, k: int, item: Json, field: Seq<char>)
    requires
        7 <= k <= 13,
        field_value(item, k, s),
        s.im <= 2,
        s.ei_delay <= 1,
    ensures
        set_field(st, sorted_field_names()[k], item, field) == Ok::<CpuState, Seq<char>>(with_field(st, s, k)),
{
    reveal_strlit("a");
    reveal_strlit("af_alt");
    reveal_strlit("b");
    reveal_strlit("bc_alt");
    reveal_strlit("c");
    reveal_strlit("d");
    reveal_strlit("de_alt");
    reveal_strlit("e");
    reveal_strlit("ei_delay");
    reveal_strlit("f");
    reveal_strlit("h");
    reveal_strlit("halted");
    reveal_strlit("hl_alt");
    reveal_strlit("i");
    reveal_strlit("iff1");
    reveal_strlit("iff2");
    reveal_strlit("im");
    reveal_strlit("ix");
    reveal_strlit("iy");
    reveal_strlit("l");
    reveal_strlit("maskable_interrupt_vector");
    reveal_strlit("non_maskable_interrupt_pending");
    reveal_strlit("pc");
    reveal_strlit("q");
    reveal_strlit("r");
    reveal_strlit("reset_pending");
    reveal_strlit("sp");
    reveal_strlit("wz");
    lemma_field_names_differ();
    if k == 7 {
        assert(sorted_field_names()[7] == "e"@);
        assert((s.e as u64) as u8 == s.e);
        assert(set_field(st, "e"@, item, field) == Ok::<CpuState, Seq<char>>(with_field(st, s, 7)));
    } else if k == 8 {
        assert(sorted_field_names()[8] == "ei_delay"@);
        assert((s.ei_delay as u64) as u8 == s.ei_delay);
        assert(set_field(st, "ei_delay"@, item, field) == Ok::<CpuState, Seq<char>>(with_field(st, s, 8)));
    } else if k == 9 {
        assert(sorted_field_names()[9] == "f"@);
        assert((s.f as u64) as u8 == s.f);
        assert(set_field(st, "f"@, item, field) == Ok::<CpuState, Seq<char>>(with_field(st, s, 9)));
    } else if k == 10 {
        assert(sorted_field_names()[10] == "h"@);
        assert((s.h as u64) as u8 == s.h);
        assert(set_field(st, "h"@, item, field) == Ok::<CpuState, Seq<char>>(with_field(st, s, 10)));
    } else if k == 11 {
        assert(sorted_field_names()[11] == "halted"@);
        assert(set_field(st, "halted"@, item, field) == Ok::<CpuState, Seq<char>>(with_field(st, s, 11)));
    } else if k == 12 {
        assert(sorted_field_names()[12] == "hl_alt"@);
        assert((s.hl_alt as u64) as u16 == s.hl_alt);
        assert(set_field(st, "hl_alt"@, item, field) == Ok::<CpuState, Seq<char>>(with_field(st, s, 12)));
    } else if k == 13 {
        assert(sorted_field_names()[13] == "i"@);
        assert((s.i as u64) as u8 == s.i);
        assert(set_field(st, "i"@, item, field) == Ok::<CpuState, Seq<char>>(with_field(st, s, 13)));
    }
}

#[verifier::rlimit(100)]
proof fn lemma_set_field_14(st: CpuState, s: CpuState, k: int, item: Json, field: Seq<char>)
    requires
        14 <= k <= 20,
        field_value(item, k, s),
        s.im <= 2,
        s.ei_delay <= 1,
    ensures
        set_field(st, sorted_field_names()[k], item, field) == Ok::<CpuState, Seq<char>>(with_field(st, s, k)),
{
    reveal_strlit("a");
    reveal_strlit("af_alt");
    reveal_strlit("b");
    reveal_strlit("bc_alt");
    reveal_strlit("c");
    reveal_strlit("d");
    reveal_strlit("de_alt");
    reveal_strlit("e");
    reveal_strlit("ei_delay");
    reveal_strlit("f");
    reveal_strlit("h");
    reveal_strlit("halted");
    reveal_strlit("hl_alt");
    reveal_strlit("i");
    reveal_strlit("iff1");
    reveal_strlit("iff2");
    reveal_strlit("im");
    reveal_strlit("ix");
    reveal_strlit("iy");
    reveal_strlit("l");
    reveal_strlit("maskable_interrupt_vector");
    reveal_strlit("non_maskable_interrupt_pending");
    reveal_strlit("pc");
    reveal_strlit("q");
    reveal_strlit("r");
    reveal_strlit("reset_pending");
    reveal_strlit("sp");
    reveal_strlit("wz");
    lemma_field_names_differ();
    if k == 14 {
        assert(sorted_field_names()[14] == "iff1"@);
        assert(set_field(st, "iff1"@, item, field) == Ok::<CpuState, Seq<char>>(with_field(st, s, 14)));
    } else if k == 15 {
        assert(sorted_field_names()[15] == "iff2"@);
        assert(set_field(st, "iff2"@, item, field) == Ok::<CpuState, Seq<char>>(with_field(st, s, 15)));
    } else if k == 16 {
        assert(sorted_field_names()[16] == "im"@);
        assert((s.im as u64) as u8 == s.im);
        assert(set_field(st, "im"@, item, field) == Ok::<CpuState, Seq<char>>(with_field(st, s, 16)));
    } else if k == 17 {
        assert(sorted_field_names()[17] == "ix"@);
        assert((s.ix as u64) as u16 == s.ix);
        assert(set_field(st, "ix"@, item, field) == Ok::<CpuState, Seq<char>>(with_field(st, s, 17)));
    } else if k == 18 {
        assert(sorted_field_names()[18] == "iy"@);
        assert((s.iy as u64) as u16 == s.iy);
        assert(set_field(st, "iy"@, item, field) == Ok::<CpuState, Seq<char>>(with_field(st, s, 18)));
    } else if k == 19 {
        assert(sorted_field_names()[19] == "l"@);
        assert((s.l as u64) as u8 == s.l);
        assert(set_field(st, "l"@, item, field) == Ok::<CpuState, Seq<char>>(with_field(st, s, 19)));
    } else if k == 20 {
        assert(sorted_field_names()[20] == "maskable_interrupt_vector"@);
        if let Some(v) = s.maskable_interrupt_vector {
            assert((v as u64) as u8 == v);
        }
        assert(set_field(st, "maskable_interrupt_vector"@, item, field) == Ok::<CpuState, Seq<char>>(with_field(st, s, 20)));
    }
}

#[verifier::rlimit(100)]
proof fn lemma_set_field_21(st: CpuState, s: CpuState, k: int, item: Json, field: Seq<char>)
    requires
        21 <= k <= 27,
        field_value(item, k, s),
        s.im <= 2,
        s.ei_delay <= 1,
    ensures
        set_field(st, sorted_field_names()[k], item, field) == Ok::<CpuState, Seq<char>>(with_field(st, s, k)),
{
    reveal_strlit("a");
    reveal_strlit("af_alt");
    reveal_strlit("b");
    reveal_strlit("bc_alt");
    reveal_strlit("c");
    reveal_strlit("d");
    reveal_strlit("de_alt");
    reveal_strlit("e");
    reveal_strlit("ei_delay");
    reveal_strlit("f");
    reveal_strlit("h");
    reveal_strlit("halted");
    reveal_strlit("hl_alt");
    reveal_strlit("i");
    reveal_strlit("iff1");
    reveal_strlit("iff2");
    reveal_strlit("im");
    reveal_strlit("ix");
    reveal_strlit("iy");
    reveal_strlit("l");
    reveal_strlit("maskable_interrupt_vector");
    reveal_strlit("non_maskable_interrupt_pending");
    reveal_strlit("pc");
    reveal_strlit("q");
    reveal_strlit("r");
    reveal_strlit("reset_pending");
    reveal_strlit("sp");
    reveal_strlit("wz");
    lemma_field_names_differ();
    if k == 21 {
        assert(sorted_field_names()[21] == "non_maskable_interrupt_pending"@);
        assert(set_field(st, "non_maskable_interrupt_pending"@, item, field) == Ok::<CpuState, Seq<char>>(with_field(st, s, 21)));
    } else if k == 22 {
        assert(sorted_field_names()[22] == "pc"@);
        assert((s.pc as u64) as u16 == s.pc);
        assert(set_field(st, "pc"@, item, field) == Ok::<CpuState, Seq<char>>(with_field(st, s, 22)));
    } else if k == 23 {
        assert(sorted_field_names()[23] == "q"@);
        assert((s.q as u64) as u8 == s.q);
        assert(set_field(st, "q"@, item, field) == Ok::<CpuState, Seq<char>>(with_field(st, s, 23)));
    } else if k == 24 {
        assert(sorted_field_names()[24] == "r"@);
        assert((s.r as u64) as u8 == s.r);
        assert(set_field(st, "r"@, item, field) == Ok::<CpuState, Seq<char>>(with_field(st, s, 24)));
    } else if k == 25 {
        assert(sorted_field_names()[25] == "reset_pending"@);
        assert(set_field(st, "reset_pending"@, item, field) == Ok::<CpuState, Seq<char>>(with_field(st, s, 25)));
    } else if k == 26 {
        assert(sorted_field_names()[26] == "sp"@);
        assert((s.sp as u64) as u16 == s.sp);
        assert(set_field(st, "sp"@, item, field) == Ok::<CpuState, Seq<char>>(with_field(st, s, 26)));
    } else if k == 27 {
        assert(sorted_field_names()[27] == "wz"@);
        assert((s.wz as u64) as u16 == s.wz);
        assert(set_field(st, "wz"@, item, field) == Ok::<CpuState, Seq<char>>(with_field(st, s, 27)));
    }
}

/// Reading the first `k` members of a state document gives the zero state
/// with the first `k` fields taken from the state.
proof fn lemma_fill_prefix(j: Json, s: CpuState, name: Seq<char>, k: int)
    requires
        state_is(j, s),
        s.im <= 2,
        s.ei_delay <= 1,
        0 <= k <= 28,
    ensures
        fill_state(j->Object_0@, name, k) == Ok::<CpuState, Seq<char>>(prefix_state(s, k)),
    decreases k,
{
    if k > 0 {
        let e = j->Object_0@;
        lemma_fill_prefix(j, s, name, k - 1);
        assert(keys_of(e).len() == e.len());
        assert(sorted_field_names().len() == 28);
        assert(keys_of(e)[k - 1] == e[k - 1].0@);
        assert(field_value(at(j, k - 1), k - 1, s));
        let st = prefix_state(s, k - 1);
        let field = name + "."@ + e[k - 1].0@;
        if k - 1 < 7 {
            lemma_set_field_0(st, s, k - 1, e[k - 1].1, field);
        } else if k - 1 < 14 {
            lemma_set_field_7(st, s, k - 1, e[k - 1].1, field);
        } else if k - 1 < 21 {
            lemma_set_field_14(st, s, k - 1, e[k - 1].1, field);
        } else {
            lemma_set_field_21(st, s, k - 1, e[k - 1].1, field);
        }
    }
}

/// A state document reads back as the state it describes: `state_from_json`
/// on the object [`state_document`] builds (whole, or read as a partial
/// state) gives the state again, for every state that `validate` accepts.
pub proof fn lemma_state_document_reads_back(j: Json, s: CpuState, name: Seq<char>, partial: bool)
    requires
        state_is(j, s),
        s.im <= 2,
        s.ei_delay <= 1,
    ensures
        state_spec(j, name, partial) == Ok::<CpuState, Seq<char>>(s),
{
    let e = j->Object_0@;
    lemma_state_keys(e);
    lemma_none_missing(e, Seq::empty());
    lemma_fill_prefix(j, s, name, 28);
    assert(prefix_state(s, 28) == s) by {
        reveal_with_fuel(prefix_state, 29);
    }
}

fn num_json(n: u64) -> (r: Json)
    ensures
        is_num(r, n as nat),
{
    Json::Number(JsonNumber { unsigned: Some(n), text: decimal_string(n) })
}

fn str_json(s: &str) -> (r: Json)
    ensures
        is_str(r, s@),
{
    Json::Str(String::from_str(s))
}

fn bool_json(b: bool) -> (r: Json)
    ensures
        is_bool(r, b),
{
    Json::Bool(b)
}

/// The state as a JSON object with sorted keys.
pub fn state_document(state: &CpuState) -> (r: Json)
    ensures
        state_is(r, *state),
{
    let mut members: Vec<(String, Json)> = Vec::new();
    members.push((String::from_str("a"), num_json(state.a as u64)));
    members.push((String::from_str("af_alt"), num_json(state.af_alt as u64)));
    members.push((String::from_str("b"), num_json(state.b as u64)));
    members.push((String::from_str("bc_alt"), num_json(state.bc_alt as u64)));
    members.push((String::from_str("c"), num_json(state.c as u64)));
    members.push((String::from_str("d"), num_json(state.d as u64)));
    members.push((String::from_str("de_alt"), num_json(state.de_alt as u64)));
    members.push((String::from_str("e"), num_json(state.e as u64)));
    members.push((String::from_str("ei_delay"), num_json(state.ei_delay as u64)));
    members.push((String::from_str("f"), num_json(state.f as u64)));
    members.push((String::from_str("h"), num_json(state.h as u64)));
    members.push((String::from_str("halted"), bool_json(state.halted)));
    members.push((String::from_str("hl_alt"), num_json(state.hl_alt as u64)));
    members.push((String::from_str("i"), num_json(state.i as u64)));
    members.push((String::from_str("iff1"), bool_json(state.iff1)));
    members.push((String::from_str("iff2"), bool_json(state.iff2)));
    members.push((String::from_str("im"), num_json(state.im as u64)));
    members.push((String::from_str("ix"), num_json(state.ix as u64)));
    members.push((String::from_str("iy"), num_json(state.iy as u64)));
    members.push((String::from_str("l"), num_json(state.l as u64)));
    members.push((String::from_str("maskable_interrupt_vector"), match state.maskable_interrupt_vector {
        Some(x) => num_json(x as u64),
        None => Json::Null,
    }));
    members.push((String::from_str("non_maskable_interrupt_pending"), bool_json(state.non_maskable_interrupt_pending)));
    members.push((String::from_str("pc"), num_json(state.pc as u64)));
    members.push((String::from_str("q"), num_json(state.q as u64)));
    members.push((String::from_str("r"), num_json(state.r as u64)));
    members.push((String::from_str("reset_pending"), bool_json(state.reset_pending)));
    members.push((String::from_str("sp"), num_json(state.sp as u64)));
    members.push((String::from_str("wz"), num_json(state.wz as u64)));
    proof {
        assert(field_value(members@[0].1, 0, *state));
        assert(field_value(members@[1].1, 1, *state));
        assert(field_value(members@[2].1, 2, *state));
        assert(field_value(members@[3].1, 3, *state));
        assert(field_value(members@[4].1, 4, *state));
        assert(field_value(members@[5].1, 5, *state));
        assert(field_value(members@[6].1, 6, *state));
        assert(field_value(members@[7].1, 7, *state));
        assert(field_value(members@[8].1, 8, *state));
        assert(field_value(members@[9].1, 9, *state));
        assert(field_value(members@[10].1, 10, *state));
        assert(field_value(members@[11].1, 11, *state));
        assert(field_value(members@[12].1, 12, *state));
        assert(field_value(members@[13].1, 13, *state));
        assert(field_value(members@[14].1, 14, *state));
        assert(field_value(members@[15].1, 15, *state));
        assert(field_value(members@[16].1, 16, *state));
        assert(field_value(members@[17].1, 17, *state));
        assert(field_value(members@[18].1, 18, *state));
        assert(field_value(members@[19].1, 19, *state));
        assert(field_value(members@[20].1, 20, *state));
        assert(field_value(members@[21].1, 21, *state));
        assert(field_value(members@[22].1, 22, *state));
        assert(field_value(members@[23].1, 23, *state));
        assert(field_value(members@[24].1, 24, *state));
        assert(field_value(members@[25].1, 25, *state));
        assert(field_value(members@[26].1, 26, *state));
        assert(field_value(members@[27].1, 27, *state));
        assert(keys_of(members@) =~= sorted_field_names());
    }
    let r = Json::Object(members);
    assert(forall|k: int| 0 <= k < 28 ==> #[trigger] field_value(at(r, k), k, *state)) by {
        assert(forall|k: int| 0 <= k < 28 ==> at(r, k) == members@[k].1);
    }
    r
}

/// `n` in decimal, padded with zeros on the left to `width` characters.
pub fn padded_decimal_string(n: u64, width: usize) -> (r: String)
    ensures
        r@ == padded_decimal(n as nat, width as nat),
{
    let digits = decimal_string(n);
    let len = digits.unicode_len();
    if len >= width {
        return digits;
    }
    let mut out = String::new();
    let mut i: usize = 0;
    while i < width - len
        invariant
            len < width,
            i <= width - len,
            out@ == Seq::new(i as nat, |k: int| '0'),
        decreases width - len - i,
    {
        proof { reveal_strlit("0"); }
        out.append("0");
        assert(out@ =~= Seq::new((i + 1) as nat, |k: int| '0'));
        i += 1;
    }
    out.append(digits.as_str());
    out
}

/// The checkpoint manifest that resumes a run of `manifest` from `state`,
/// as record `at_step`, for `segment_steps` more steps: its name
/// `{name}-{at_step}` (the step in 12 digits) and its document. Manifests
/// with events are refused, because their `at_step` values would have to
/// be shifted.
pub fn checkpoint_document(manifest: &Manifest, state: &CpuState, at_step: u64, segment_steps: u64) -> (r: Result<(String, Json), String>)
    ensures
        (r is Err) == (manifest.events@.len() > 0),
        r matches Err(m) ==> m@ == "checkpoints are not supported for manifests with events"@,
        r matches Ok((stem, doc)) ==> stem@ == manifest.name@ + "-"@ + padded_decimal(at_step as nat, 12)
            && checkpoint_is(doc, *manifest, *state, stem@, segment_steps),
{
    if manifest.events.len() > 0 {
        return Err(String::from_str("checkpoints are not supported for manifests with events"));
    }
    let mut stem = String::from_str(manifest.name.as_str());
    stem.append("-");
    let padded = padded_decimal_string(at_step, 12);
    stem.append(padded.as_str());
    let mut file = String::from_str(stem.as_str());
    file.append(".mem");
    let mut segment: Vec<(String, Json)> = Vec::new();
    segment.push((String::from_str("address"), num_json(0)));
    segment.push((String::from_str("file"), Json::Str(file)));
    assert(keys_of(segment@) =~= seq!["address"@, "file"@]);
    let mut memory: Vec<Json> = Vec::new();
    memory.push(Json::Object(segment));
    let mut pcs: Vec<Json> = Vec::new();
    let mut k: usize = 0;
    while k < manifest.stop.at_pc.len()
        invariant
            k <= manifest.stop.at_pc.len(),
            pcs@.len() == k,
            forall|j: int| 0 <= j < k ==> #[trigger] is_num(pcs@[j], manifest.stop.at_pc@[j] as nat),
        decreases manifest.stop.at_pc.len() - k,
    {
        pcs.push(num_json(manifest.stop.at_pc[k] as u64));
        k += 1;
    }
    let mut stop: Vec<(String, Json)> = Vec::new();
    stop.push((String::from_str("at_pc"), Json::Array(pcs)));
    stop.push((String::from_str("max_steps"), num_json(segment_steps)));
    stop.push((String::from_str("on_halt"), bool_json(manifest.stop.on_halt)));
    assert(keys_of(stop@) =~= seq!["at_pc"@, "max_steps"@, "on_halt"@]);
    let host = match manifest.host {
        HostProfile::Flat => str_json("flat"),
        HostProfile::CpmMinimal => str_json("cpm-minimal"),
    };
    let mut members: Vec<(String, Json)> = Vec::new();
    members.push((String::from_str("events"), Json::Array(Vec::new())));
    members.push((String::from_str("host"), host));
    members.push((String::from_str("initial"), state_document(state)));
    members.push((String::from_str("memory"), Json::Array(memory)));
    members.push((String::from_str("name"), Json::Str(stem.clone())));
    members.push((String::from_str("port_read_value"), num_json(manifest.port_read_value as u64)));
    members.push((String::from_str("stop"), Json::Object(stop)));
    members.push((String::from_str("version"), num_json(MANIFEST_SCHEMA_VERSION)));
    assert(keys_of(members@) =~= seq!["events"@, "host"@, "initial"@, "memory"@, "name"@, "port_read_value"@, "stop"@, "version"@]);
    Ok((stem, Json::Object(members)))
}

} // verus!
