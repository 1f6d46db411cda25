//! JSON text in and out, and the checkpoint documents.

use z80_rust::checkpoint::{
    checkpoint_document, json_compact, json_pretty, padded_decimal_string, parse_json, state_document,
};
use z80_rust::conformance::{
    manifest_from_json, state_from_json, Event, EventKind, HostProfile, Manifest, MemorySegment, StopRule,
    MANIFEST_SCHEMA_VERSION,
};
use z80_rust::json::Json;
use z80_rust::CpuState;

fn demo(events: Vec<Event>) -> Manifest {
    Manifest {
        name: "demo".to_string(),
        host: HostProfile::CpmMinimal,
        port_read_value: 0x7F,
        memory: vec![MemorySegment { address: 0x100, data: vec![0x76] }],
        initial: CpuState::default(),
        events,
        stop: StopRule { max_steps: 10, on_halt: true, at_pc: vec![5, 0x1234] },
    }
}

fn pretty(text: &str) -> String {
    let value: serde_json::Value = serde_json::from_str(text).unwrap();
    serde_json::to_string_pretty(&value).unwrap()
}

#[test]
fn parse_json_reads_a_document_with_its_keys_in_order() {
    let value = parse_json(r#"{"b": 18446744073709551615, "a": [true, null, "x", -1, 2.5]}"#).unwrap();
    let Json::Object(members) = &value else { panic!("not an object") };
    assert_eq!(members.len(), 2);
    assert_eq!(members[0].0, "a");
    assert_eq!(members[1].0, "b");
    let Json::Number(big) = &members[1].1 else { panic!("not a number") };
    assert_eq!(big.unsigned, Some(u64::MAX));
    let Json::Array(items) = &members[0].1 else { panic!("not an array") };
    assert!(matches!(items[0], Json::Bool(true)));
    assert!(matches!(items[1], Json::Null));
    assert!(matches!(&items[2], Json::Str(s) if s == "x"));
    assert!(matches!(&items[3], Json::Number(n) if n.unsigned.is_none() && n.text == "-1"));
    assert!(matches!(&items[4], Json::Number(n) if n.unsigned.is_none() && n.text == "2.5"));
}

#[test]
fn parse_json_reports_the_parser_message() {
    let expected = serde_json::from_str::<serde_json::Value>("{").unwrap_err().to_string();
    assert_eq!(parse_json("{").unwrap_err(), expected);
    assert!(parse_json("").is_err());
}

#[test]
fn a_parsed_manifest_document_is_read() {
    let text = r#"{"version": 1, "name": "t", "host": "flat", "memory": [{"address": 0, "data": "3E2A76"}],
        "initial": {"pc": 0}, "stop": {"max_steps": 5, "on_halt": true}}"#;
    let manifest = manifest_from_json(&parse_json(text).unwrap(), &vec![None]).unwrap();
    assert_eq!(manifest.name, "t");
    assert_eq!(manifest.memory[0].data, vec![0x3E, 0x2A, 0x76]);
    assert_eq!(manifest.stop.max_steps, 5);
}

#[test]
fn json_compact_prints_as_the_writer_does() {
    let value = parse_json(r#"{"x": [1, {"y": "q\"\n\u0001"}], "w": null, "v": 2.5}"#).unwrap();
    let expected: serde_json::Value =
        serde_json::from_str(r#"{"x": [1, {"y": "q\"\n\u0001"}], "w": null, "v": 2.5}"#).unwrap();
    assert_eq!(json_compact(&value), expected.to_string());
    assert_eq!(json_compact(&value), r#"{"v":2.5,"w":null,"x":[1,{"y":"q\"\n\u0001"}]}"#);
    assert_eq!(json_compact(&Json::Str("1".to_string())), "\"1\"");
}

#[test]
fn json_pretty_prints_as_the_writer_does() {
    let value = parse_json(r#"{"x": [1, {"y": "z"}], "w": false}"#).unwrap();
    assert_eq!(json_pretty(&value), pretty(r#"{"w": false, "x": [1, {"y": "z"}]}"#));
    assert_eq!(json_pretty(&Json::Array(Vec::new())), "[]");
}

#[test]
fn padded_decimal_fills_with_zeros() {
    assert_eq!(padded_decimal_string(42, 12), "000000000042");
    assert_eq!(padded_decimal_string(0, 3), "000");
    assert_eq!(padded_decimal_string(123456, 3), "123456");
    assert_eq!(padded_decimal_string(u64::MAX, 12), "18446744073709551615");
}

#[test]
fn a_checkpoint_document_resumes_the_run() {
    let mut state = CpuState::default();
    state.a = 0x2A;
    state.pc = 0x0103;
    state.maskable_interrupt_vector = Some(0xFF);
    let (stem, document) = checkpoint_document(&demo(Vec::new()), &state, 42, 1000).unwrap();
    assert_eq!(stem, "demo-000000000042");
    let mut initial = String::new();
    state.write_json(&mut initial);
    let expected = format!(
        r#"{{"version": {MANIFEST_SCHEMA_VERSION}, "name": "demo-000000000042", "host": "cpm-minimal",
        "port_read_value": 127, "memory": [{{"address": 0, "file": "demo-000000000042.mem"}}],
        "initial": {initial}, "events": [],
        "stop": {{"max_steps": 1000, "on_halt": true, "at_pc": [5, 4660]}}}}"#
    );
    assert_eq!(json_pretty(&document), pretty(&expected));
}

#[test]
fn a_checkpoint_is_refused_for_a_manifest_with_events() {
    let events = vec![Event { at_step: 3, kind: EventKind::Nmi, vector: 0 }];
    let error = checkpoint_document(&demo(events), &CpuState::default(), 0, 1).unwrap_err();
    assert_eq!(error, "checkpoints are not supported for manifests with events");
}

#[test]
fn a_state_document_reads_back_as_its_state() {
    let mut state = CpuState::default();
    state.a = 0xFF;
    state.hl_alt = 0xBEEF;
    state.im = 2;
    state.ei_delay = 1;
    state.iff2 = true;
    state.maskable_interrupt_vector = Some(0x38);
    let document = state_document(&state);
    assert_eq!(state_from_json(&document, "initial", false), Ok(state));
    assert_eq!(state_from_json(&document, "initial", true), Ok(state));
    let mut text = String::new();
    state.write_json(&mut text);
    assert_eq!(json_pretty(&document), pretty(&text));
}

#[test]
fn a_written_checkpoint_loads_as_the_resumed_manifest() {
    let mut state = CpuState::default();
    state.a = 0x2A;
    state.pc = 0x0103;
    state.im = 1;
    let manifest = demo(Vec::new());
    let (stem, document) = checkpoint_document(&manifest, &state, 7, 500).unwrap();
    let text = json_pretty(&document);
    let memory: Vec<u8> = (0..0x10000u32).map(|i| (i % 251) as u8).collect();
    let loaded = manifest_from_json(&parse_json(&text).unwrap(), &vec![Some(Ok(memory.clone()))]).unwrap();
    assert_eq!(loaded.name, stem);
    assert_eq!(loaded.host, manifest.host);
    assert_eq!(loaded.port_read_value, manifest.port_read_value);
    assert_eq!(loaded.memory, vec![MemorySegment { address: 0, data: memory }]);
    assert_eq!(loaded.initial, state);
    assert!(loaded.events.is_empty());
    assert_eq!(loaded.stop, StopRule { max_steps: 500, on_halt: true, at_pc: vec![5, 0x1234] });
}
