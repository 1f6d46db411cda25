//! A state written as JSON reads back as the same state.

use z80_rust::conformance::state_from_json;
use z80_rust::json::{Json, JsonNumber};
use z80_rust::CpuState;

fn to_json(value: &serde_json::Value) -> Json {
    match value {
        serde_json::Value::Null => Json::Null,
        serde_json::Value::Bool(b) => Json::Bool(*b),
        serde_json::Value::Number(n) => Json::Number(JsonNumber {
            unsigned: n.as_u64(),
            text: n.to_string(),
        }),
        serde_json::Value::String(s) => Json::Str(s.clone()),
        serde_json::Value::Array(items) => Json::Array(items.iter().map(to_json).collect()),
        serde_json::Value::Object(members) => Json::Object(
            members
                .iter()
                .map(|(k, v)| (k.clone(), to_json(v)))
                .collect(),
        ),
    }
}

#[test]
fn write_json_then_state_from_json_round_trips() {
    let mut state = CpuState::default();
    state.a = 0xA5;
    state.ix = 0xBEEF;
    state.iff2 = true;
    state.im = 2;
    state.ei_delay = 1;
    state.maskable_interrupt_vector = Some(0xFF);
    state.non_maskable_interrupt_pending = true;
    let mut text = String::new();
    state.write_json(&mut text);
    let value: serde_json::Value = serde_json::from_str(&text).unwrap();
    let read = state_from_json(&to_json(&value), "state", false).unwrap();
    assert_eq!(read, state);
}
