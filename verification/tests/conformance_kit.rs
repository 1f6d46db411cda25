//! The conformance kit: manifest reading, the CP/M traps, events, and runs.

use z80_rust::conformance::{
    apply_event, handle_cpm_trap, manifest_file_refs, manifest_from_json, state_from_json,
    step_record, Boundary, BoundaryKind, ConformanceHost, Event, EventKind, HostProfile, Manifest,
    MemorySegment, RunError, StopReason, StopRule, TraceRunner,
};
use z80_rust::json::{Json, JsonNumber};
use z80_rust::manifest::{int_in_range, manifest_is_readable};
use z80_rust::{CpuState, Z80};

fn num(n: u64) -> Json {
    Json::Number(JsonNumber {
        unsigned: Some(n),
        text: n.to_string(),
    })
}

fn text(s: &str) -> Json {
    Json::Str(s.to_string())
}

/// An object; members are given in key order, as the parser yields them.
fn obj(members: Vec<(&str, Json)>) -> Json {
    Json::Object(
        members
            .into_iter()
            .map(|(k, v)| (k.to_string(), v))
            .collect(),
    )
}

fn manifest(host: HostProfile, memory: Vec<MemorySegment>, stop: StopRule) -> Manifest {
    Manifest {
        name: "test".to_string(),
        host,
        port_read_value: 0xFF,
        memory,
        initial: CpuState::default(),
        events: Vec::new(),
        stop,
    }
}

fn segment(address: u16, data: &[u8]) -> MemorySegment {
    MemorySegment {
        address,
        data: data.to_vec(),
    }
}

fn stop(max_steps: u64, on_halt: bool, at_pc: Vec<u16>) -> StopRule {
    StopRule {
        max_steps,
        on_halt,
        at_pc,
    }
}

#[test]
fn a_partial_state_reads_its_fields_and_zeroes_the_rest() {
    let value = obj(vec![
        ("a", num(0x12)),
        ("iff1", Json::Bool(true)),
        ("maskable_interrupt_vector", num(0xFF)),
        ("pc", num(0x1234)),
    ]);
    let state = state_from_json(&value, "initial", true).unwrap();
    let mut expected = CpuState::default();
    expected.a = 0x12;
    expected.iff1 = true;
    expected.maskable_interrupt_vector = Some(0xFF);
    expected.pc = 0x1234;
    assert_eq!(state, expected);
    let null_vector = obj(vec![("maskable_interrupt_vector", Json::Null)]);
    assert_eq!(
        state_from_json(&null_vector, "s", true).unwrap(),
        CpuState::default()
    );
}

#[test]
fn state_errors_name_the_field() {
    assert_eq!(
        state_from_json(&obj(vec![("a", num(256))]), "initial", true),
        Err("initial.a must be an integer in range 0x00..0xFF".to_string())
    );
    assert_eq!(
        state_from_json(&obj(vec![("sp", num(0x10000))]), "initial", true),
        Err("initial.sp must be an integer in range 0x0000..0xFFFF".to_string())
    );
    assert_eq!(
        state_from_json(&obj(vec![("halted", num(1))]), "x", true),
        Err("x.halted must be a bool".to_string())
    );
    assert_eq!(
        state_from_json(&obj(vec![("im", num(3))]), "x", true),
        Err("im must be 0, 1, or 2".to_string())
    );
    assert_eq!(
        state_from_json(&obj(vec![("ei_delay", num(2))]), "x", true),
        Err("ei_delay must be 0 or 1".to_string())
    );
    assert_eq!(
        state_from_json(&obj(vec![("bogus", num(0)), ("zz", num(0))]), "x", true),
        Err("x fields do not match schema (unknown=[\"bogus\", \"zz\"])".to_string())
    );
    assert_eq!(
        state_from_json(&num(1), "x", true),
        Err("x must be an object with string keys".to_string())
    );
}

#[test]
fn a_full_state_needs_every_field() {
    let value = obj(vec![("a", num(1)), ("zz", num(0))]);
    let error = state_from_json(&value, "s", false).unwrap_err();
    assert!(error.starts_with("s fields do not match schema (missing=[\"af_alt\", \"b\", "));
    assert!(error.ends_with("\"wz\"], unknown=[\"zz\"])"));
}

fn minimal_manifest(extra: Vec<(&str, Json)>) -> Json {
    let mut members = vec![
        ("memory", Json::Array(vec![obj(vec![("address", num(0)), ("data", text("3e2a76"))])])),
        ("name", text("demo")),
        ("stop", obj(vec![("max_steps", num(10))])),
        ("version", num(1)),
    ];
    members.extend(extra);
    members.sort_by(|a, b| a.0.cmp(b.0));
    obj(members)
}

#[test]
fn a_manifest_reads_with_its_defaults() {
    let manifest = manifest_from_json(&minimal_manifest(vec![]), &Vec::new()).unwrap();
    assert_eq!(manifest.name, "demo");
    assert_eq!(manifest.host, HostProfile::Flat);
    assert_eq!(manifest.port_read_value, 0xFF);
    assert_eq!(manifest.memory, vec![segment(0, &[0x3E, 0x2A, 0x76])]);
    assert_eq!(manifest.initial, CpuState::default());
    assert!(manifest.events.is_empty());
    assert_eq!(manifest.stop, stop(10, true, Vec::new()));
}

#[test]
fn a_manifest_reads_events_host_and_stop_addresses() {
    let value = minimal_manifest(vec![
        (
            "events",
            Json::Array(vec![
                obj(vec![("at_step", num(1)), ("kind", text("int")), ("vector", num(0xCF))]),
                obj(vec![("at_step", num(3)), ("kind", text("nmi"))]),
            ]),
        ),
        ("host", text("cpm-minimal")),
        ("initial", obj(vec![("sp", num(0xF000))])),
        ("port_read_value", num(0x7F)),
    ]);
    let manifest = manifest_from_json(&value, &Vec::new()).unwrap();
    assert_eq!(manifest.host, HostProfile::CpmMinimal);
    assert_eq!(manifest.port_read_value, 0x7F);
    assert_eq!(manifest.initial.sp, 0xF000);
    assert_eq!(
        manifest.events,
        vec![
            Event { at_step: 1, kind: EventKind::Int, vector: 0xCF },
            Event { at_step: 3, kind: EventKind::Nmi, vector: 0xFF },
        ]
    );
}

#[test]
fn manifest_errors_come_in_check_order() {
    let bad_version = minimal_manifest(vec![]).clone_with("version", num(2));
    assert_eq!(
        manifest_from_json(&bad_version, &Vec::new()).unwrap_err(),
        "unsupported manifest version: 2"
    );
    let text_version = minimal_manifest(vec![]).clone_with("version", text("1"));
    assert_eq!(
        manifest_from_json(&text_version, &Vec::new()).unwrap_err(),
        "unsupported manifest version: \"1\""
    );
    let empty_name = minimal_manifest(vec![]).clone_with("name", text(""));
    assert_eq!(
        manifest_from_json(&empty_name, &Vec::new()).unwrap_err(),
        "manifest name must be a non-empty string"
    );
    let missing = obj(vec![("name", text("x")), ("version", num(1))]);
    assert_eq!(
        manifest_from_json(&missing, &Vec::new()).unwrap_err(),
        "manifest fields do not match schema (missing=[\"memory\", \"stop\"])"
    );
    let bad_host = minimal_manifest(vec![("host", text("zx"))]);
    assert_eq!(
        manifest_from_json(&bad_host, &Vec::new()).unwrap_err(),
        "manifest host must be one of ('flat', 'cpm-minimal'), got Some(\"zx\")"
    );
    let numeric_host = minimal_manifest(vec![("host", num(1))]);
    assert_eq!(
        manifest_from_json(&numeric_host, &Vec::new()).unwrap_err(),
        "manifest host must be one of ('flat', 'cpm-minimal'), got None"
    );
    let unordered = minimal_manifest(vec![(
        "events",
        Json::Array(vec![
            obj(vec![("at_step", num(5)), ("kind", text("reset"))]),
            obj(vec![("at_step", num(4)), ("kind", text("reset_clear"))]),
        ]),
    )]);
    assert_eq!(
        manifest_from_json(&unordered, &Vec::new()).unwrap_err(),
        "manifest events must be ordered by at_step"
    );
    let bad_kind = minimal_manifest(vec![(
        "events",
        Json::Array(vec![obj(vec![("at_step", num(0)), ("kind", text("irq"))])]),
    )]);
    assert_eq!(
        manifest_from_json(&bad_kind, &Vec::new()).unwrap_err(),
        "events[0]: event kind must be one of ('nmi', 'int', 'int_clear', 'reset', 'reset_clear'), got Some(\"irq\")"
    );
    let zero_steps = minimal_manifest(vec![]).clone_with("stop", obj(vec![("max_steps", num(0))]));
    assert_eq!(
        manifest_from_json(&zero_steps, &Vec::new()).unwrap_err(),
        "stop.max_steps must be a positive integer"
    );
    let bad_pc = minimal_manifest(vec![]).clone_with(
        "stop",
        obj(vec![("at_pc", Json::Array(vec![num(0x10000)])), ("max_steps", num(1))]),
    );
    assert_eq!(
        manifest_from_json(&bad_pc, &Vec::new()).unwrap_err(),
        "stop.at_pc must be a tuple of 16-bit addresses"
    );
    let bad_port = minimal_manifest(vec![("port_read_value", num(300))]);
    assert_eq!(
        manifest_from_json(&bad_port, &Vec::new()).unwrap_err(),
        "manifest port_read_value must be an integer in range 0x00..0xFF"
    );
    let bad_initial = minimal_manifest(vec![("initial", obj(vec![("a", num(999))]))]);
    assert_eq!(
        manifest_from_json(&bad_initial, &Vec::new()).unwrap_err(),
        "invalid initial state: initial.a must be an integer in range 0x00..0xFF"
    );
}

trait CloneWith {
    fn clone_with(self, key: &str, value: Json) -> Json;
}

impl CloneWith for Json {
    fn clone_with(self, key: &str, value: Json) -> Json {
        match self {
            Json::Object(members) => Json::Object(
                members
                    .into_iter()
                    .map(|(k, v)| if k == key { (k, value_copy(&value)) } else { (k, v) })
                    .collect(),
            ),
            other => other,
        }
    }
}

fn value_copy(value: &Json) -> Json {
    match value {
        Json::Null => Json::Null,
        Json::Bool(b) => Json::Bool(*b),
        Json::Number(n) => Json::Number(n.clone()),
        Json::Str(s) => Json::Str(s.clone()),
        Json::Array(items) => Json::Array(items.iter().map(value_copy).collect()),
        Json::Object(members) => Json::Object(
            members
                .iter()
                .map(|(k, v)| (k.clone(), value_copy(v)))
                .collect(),
        ),
    }
}

#[test]
fn segment_errors_name_the_segment() {
    let cases: Vec<(Json, &str)> = vec![
        (
            obj(vec![("address", num(0)), ("data", text("abc"))]),
            "memory[0].data must be a hexadecimal string",
        ),
        (
            obj(vec![("address", num(0)), ("data", text("zz"))]),
            "memory[0].data must be a hexadecimal string",
        ),
        (
            obj(vec![("address", num(0)), ("data", text(""))]),
            "memory[0]: segment data must be non-empty bytes",
        ),
        (
            obj(vec![("address", num(0xFFFF)), ("data", text("0102"))]),
            "memory[0]: segment does not fit below 0x10000",
        ),
        (
            obj(vec![("address", num(0))]),
            "memory[0] must have exactly one of 'data' or 'file'",
        ),
        (
            obj(vec![("address", num(0)), ("data", num(1))]),
            "memory[0].data must be a hexadecimal string",
        ),
        (
            obj(vec![("address", num(0x10000)), ("data", text("00"))]),
            "segment address must be an integer in range 0x0000..0xFFFF",
        ),
    ];
    for (item, message) in cases {
        let value = minimal_manifest(vec![]).clone_with("memory", Json::Array(vec![item]));
        assert_eq!(manifest_from_json(&value, &Vec::new()).unwrap_err(), message);
    }
}

#[test]
fn hex_data_accepts_both_cases_and_a_plus_sign() {
    let value = minimal_manifest(vec![]).clone_with(
        "memory",
        Json::Array(vec![obj(vec![("address", num(0x10)), ("data", text("aBFf+7"))])]),
    );
    let manifest = manifest_from_json(&value, &Vec::new()).unwrap();
    assert_eq!(manifest.memory, vec![segment(0x10, &[0xAB, 0xFF, 0x07])]);
}

#[test]
fn file_segments_take_their_bytes_from_the_file() {
    let item = obj(vec![
        ("address", num(0x100)),
        ("file", text("prog.bin")),
        ("length", num(2)),
        ("offset", num(1)),
    ]);
    let value = minimal_manifest(vec![]).clone_with("memory", Json::Array(vec![item]));
    assert_eq!(manifest_file_refs(&value), vec![Some("prog.bin".to_string())]);
    let files = vec![Some(Ok(vec![9u8, 8, 7, 6]))];
    let manifest = manifest_from_json(&value, &files).unwrap();
    assert_eq!(manifest.memory, vec![segment(0x100, &[8, 7])]);
    let unreadable = vec![Some(Err("prog.bin: not found".to_string()))];
    assert_eq!(
        manifest_from_json(&value, &unreadable).unwrap_err(),
        "memory[0].file prog.bin: not found"
    );
    let whole = obj(vec![("address", num(0)), ("file", text("prog.bin"))]);
    let value = minimal_manifest(vec![]).clone_with("memory", Json::Array(vec![whole]));
    let manifest = manifest_from_json(&value, &files).unwrap();
    assert_eq!(manifest.memory, vec![segment(0, &[9, 8, 7, 6])]);
    let zero = obj(vec![("address", num(0)), ("file", text("p")), ("length", num(0))]);
    let value = minimal_manifest(vec![]).clone_with("memory", Json::Array(vec![zero]));
    assert_eq!(
        manifest_from_json(&value, &files).unwrap_err(),
        "memory[0].offset/length must be non-negative/positive integers"
    );
}

#[test]
fn stop_reasons_have_their_names() {
    assert_eq!(StopReason::MaxSteps.as_str(), "max_steps");
    assert_eq!(StopReason::CpmExit.as_str(), "cpm_exit");
    assert_eq!(StopReason::AtPc.as_str(), "at_pc");
    assert_eq!(StopReason::Halted.as_str(), "halted");
    assert_eq!(
        StopReason::Fault(z80_rust::Fault::Im0NonRstVector(0)).as_str(),
        "fault"
    );
}

#[test]
fn the_host_loads_segments_in_order() {
    let m = manifest(
        HostProfile::Flat,
        vec![segment(0x10, &[1, 2, 3]), segment(0x11, &[9])],
        stop(1, true, Vec::new()),
    );
    let host = ConformanceHost::new(&m);
    assert_eq!(&host.memory[0x10..0x13], &[1, 9, 3]);
    assert_eq!(host.port_read_value, 0xFF);
    assert!(host.output.is_empty());
}

#[test]
fn cpm_traps_print_and_return() {
    let mut m = manifest(
        HostProfile::CpmMinimal,
        vec![segment(0x200, b"hi$"), segment(0x8000, &[0x34, 0x12])],
        stop(1, true, Vec::new()),
    );
    m.initial.pc = 0x0005;
    m.initial.sp = 0x8000;
    m.initial.c = 9;
    m.initial.d = 0x02;
    m.initial.e = 0x00;
    let mut cpu = Z80::new(ConformanceHost::new(&m));
    cpu.restore_state(&m.initial);
    assert!(matches!(handle_cpm_trap(&mut cpu), Ok(false)));
    assert_eq!(cpu.bus.output, b"hi");
    assert_eq!((cpu.pc, cpu.sp), (0x1234, 0x8002));

    cpu.pc = 0x0005;
    cpu.sp = 0x8000;
    cpu.c = 2;
    cpu.e = b'!';
    assert!(matches!(handle_cpm_trap(&mut cpu), Ok(false)));
    assert_eq!(cpu.bus.output, b"hi!");

    cpu.pc = 0x0005;
    cpu.c = 7;
    assert!(matches!(
        handle_cpm_trap(&mut cpu),
        Err(RunError::UnsupportedBdosFunction(7))
    ));
    assert_eq!(cpu.pc, 0x0005);

    cpu.c = 0;
    assert!(matches!(handle_cpm_trap(&mut cpu), Ok(true)));
    cpu.pc = 0x0000;
    assert!(matches!(handle_cpm_trap(&mut cpu), Ok(true)));
    cpu.pc = 0x0100;
    assert!(matches!(handle_cpm_trap(&mut cpu), Ok(false)));
}

#[test]
fn events_become_requests() {
    let m = manifest(HostProfile::Flat, Vec::new(), stop(1, true, Vec::new()));
    let mut cpu = Z80::new(ConformanceHost::new(&m));
    apply_event(&mut cpu, Event { at_step: 0, kind: EventKind::Int, vector: 0x12 });
    assert!(cpu.maskable_interrupt_pending());
    assert_eq!(cpu.capture_state().maskable_interrupt_vector, Some(0x12));
    apply_event(&mut cpu, Event { at_step: 0, kind: EventKind::IntClear, vector: 0 });
    assert!(!cpu.maskable_interrupt_pending());
    apply_event(&mut cpu, Event { at_step: 0, kind: EventKind::Nmi, vector: 0 });
    assert!(cpu.non_maskable_interrupt_pending());
    apply_event(&mut cpu, Event { at_step: 0, kind: EventKind::Reset, vector: 0 });
    assert!(cpu.reset_pending());
    apply_event(&mut cpu, Event { at_step: 0, kind: EventKind::ResetClear, vector: 0 });
    assert!(!cpu.reset_pending());
}

/// Drive a runner to its end, collecting the records.
fn run(runner: &mut TraceRunner) -> (StopReason, Vec<z80_rust::conformance::StepRecord>) {
    let mut records = Vec::new();
    loop {
        match runner.boundary() {
            Ok(Boundary::Stop(reason)) => return (reason, records),
            Ok(Boundary::Record(index)) => {
                assert_eq!(index, records.len() as u64);
                match runner.record() {
                    Ok(record) => records.push(record),
                    Err(fault) => return (StopReason::Fault(fault), records),
                }
            }
            Err(error) => panic!("run error {error:?}"),
        }
    }
}

#[test]
fn a_run_stops_on_halt_and_records_each_boundary() {
    // LD A,0x2A; HALT
    let m = manifest(
        HostProfile::Flat,
        vec![segment(0, &[0x3E, 0x2A, 0x76])],
        stop(10, true, Vec::new()),
    );
    let mut runner = TraceRunner::new(&m);
    let (reason, records) = run(&mut runner);
    assert_eq!(reason, StopReason::Halted);
    assert_eq!(records.len(), 2);
    assert_eq!(records[0].kind, BoundaryKind::Instruction);
    assert_eq!(records[0].bytes, vec![0x3E, 0x2A]);
    assert_eq!(records[0].t_states, 7);
    assert_eq!(records[0].state.a, 0x2A);
    assert_eq!(records[1].address, 2);
    assert_eq!(records[1].bytes, vec![0x76]);
    let result = runner.finish(reason);
    assert_eq!((result.steps, result.t_states), (2, 11));
}

#[test]
fn a_run_stops_at_max_steps_and_at_pc() {
    let program = [0x00, 0x00, 0x00, 0x00];
    let m = manifest(HostProfile::Flat, vec![segment(0, &program)], stop(3, true, Vec::new()));
    let mut runner = TraceRunner::new(&m);
    let (reason, records) = run(&mut runner);
    assert_eq!(reason, StopReason::MaxSteps);
    assert_eq!(records.len(), 3);

    let m = manifest(HostProfile::Flat, vec![segment(0, &program)], stop(9, true, vec![2]));
    let mut runner = TraceRunner::new(&m);
    let (reason, records) = run(&mut runner);
    assert_eq!(reason, StopReason::AtPc);
    assert_eq!(records.len(), 2);
}

#[test]
fn a_halted_run_waits_for_pending_events() {
    // EI; HALT, with an interrupt arriving before boundary 3.
    let mut m = manifest(
        HostProfile::Flat,
        vec![segment(0, &[0xFB, 0x76])],
        stop(6, true, Vec::new()),
    );
    m.initial.im = 1;
    m.initial.sp = 0x9000;
    m.events = vec![Event { at_step: 3, kind: EventKind::Int, vector: 0xFF }];
    let mut runner = TraceRunner::new(&m);
    let (reason, records) = run(&mut runner);
    assert_eq!(reason, StopReason::MaxSteps);
    let kinds: Vec<BoundaryKind> = records.iter().map(|r| r.kind).collect();
    assert_eq!(
        kinds,
        vec![
            BoundaryKind::Instruction,
            BoundaryKind::Instruction,
            BoundaryKind::Halted,
            BoundaryKind::Interrupt,
            BoundaryKind::Instruction,
            BoundaryKind::Instruction,
        ]
    );
    assert_eq!(records[3].t_states, 13);
    assert!(records[3].bytes.is_empty());
}

#[test]
fn a_cpm_run_ends_on_warm_boot_with_its_output() {
    // LD C,2; LD E,'A'; CALL 5; JP 0 -- with RET at 0x0005 never reached
    // because the trap returns on its own.
    let mut m = manifest(
        HostProfile::CpmMinimal,
        vec![segment(0x100, &[0x0E, 0x02, 0x1E, b'A', 0xCD, 0x05, 0x00, 0xC3, 0x00, 0x00])],
        stop(100, true, Vec::new()),
    );
    m.initial.pc = 0x100;
    m.initial.sp = 0xF000;
    let mut runner = TraceRunner::new(&m);
    let (reason, records) = run(&mut runner);
    assert_eq!(reason, StopReason::CpmExit);
    assert_eq!(records.len(), 4);
    let result = runner.finish(reason);
    assert_eq!(result.output, b"A");
}

#[test]
fn step_record_reports_a_reset_boundary() {
    let m = manifest(HostProfile::Flat, Vec::new(), stop(1, true, Vec::new()));
    let mut cpu = Z80::new(ConformanceHost::new(&m));
    cpu.request_reset();
    let record = step_record(&mut cpu, 7).unwrap();
    assert_eq!(record.index, 7);
    assert_eq!(record.kind, BoundaryKind::Reset);
    assert_eq!(record.t_states, 3);
    assert!(record.bytes.is_empty());
    assert!(record.state.reset_pending);
}

#[test]
fn a_data_string_cut_mid_character_is_not_readable() {
    let good = minimal_manifest(vec![]);
    assert!(manifest_is_readable(&good, &Vec::new()));
    let split = minimal_manifest(vec![]).clone_with(
        "memory",
        Json::Array(vec![obj(vec![("address", num(0)), ("data", text("a\u{20ac}"))])]),
    );
    assert!(!manifest_is_readable(&split, &Vec::new()));
    let whole = minimal_manifest(vec![]).clone_with(
        "memory",
        Json::Array(vec![obj(vec![("address", num(0)), ("data", text("\u{e9}"))])]),
    );
    assert!(manifest_is_readable(&whole, &Vec::new()));
    assert_eq!(
        manifest_from_json(&whole, &Vec::new()).unwrap_err(),
        "memory[0].data must be a hexadecimal string"
    );
}

#[test]
fn at_pc_wins_over_the_step_budget_at_the_last_boundary() {
    // After three NOPs the PC is 3 and the budget of 3 is spent: the
    // documented order tests `at_pc` before the budget.
    let program = [0x00, 0x00, 0x00, 0x00];
    let m = manifest(HostProfile::Flat, vec![segment(0, &program)], stop(3, true, vec![3]));
    let mut runner = TraceRunner::new(&m);
    let (reason, records) = run(&mut runner);
    assert_eq!(reason, StopReason::AtPc);
    assert_eq!(records.len(), 3);
}

#[test]
fn on_halt_wins_over_the_step_budget_at_the_last_boundary() {
    // NOP; HALT with a budget of exactly two steps.
    let m = manifest(HostProfile::Flat, vec![segment(0, &[0x00, 0x76])], stop(2, true, Vec::new()));
    let mut runner = TraceRunner::new(&m);
    let (reason, records) = run(&mut runner);
    assert_eq!(reason, StopReason::Halted);
    assert_eq!(records.len(), 2);
    let m = manifest(HostProfile::Flat, vec![segment(0, &[0x00, 0x76])], stop(2, false, Vec::new()));
    let mut runner = TraceRunner::new(&m);
    let (reason, _) = run(&mut runner);
    assert_eq!(reason, StopReason::MaxSteps);
}

#[test]
fn a_record_applies_the_step_writes_to_the_host_memory() {
    // LD A,0x55; LD (0x8000),A; PUSH AF
    let program = [0x3E, 0x55, 0x32, 0x00, 0x80, 0xF5];
    let m = manifest(HostProfile::Flat, vec![segment(0, &program)], stop(3, false, Vec::new()));
    let mut runner = TraceRunner::new(&m);
    runner.cpu.sp = 0x9000;
    let (reason, records) = run(&mut runner);
    assert_eq!(reason, StopReason::MaxSteps);
    assert_eq!(records.len(), 3);
    assert_eq!(runner.cpu.bus.memory[0x8000], 0x55);
    assert_eq!(runner.cpu.bus.memory[0x8FFF], 0x55);
    assert_eq!(&runner.cpu.bus.memory[..6], &program[..]);
}

#[test]
fn int_in_range_prints_any_maximum_in_hex() {
    assert_eq!(int_in_range(&num(0x1FF), "x", 0x1FF), Ok(0x1FF));
    assert_eq!(
        int_in_range(&num(0x200), "x", 0x1FF),
        Err("x must be an integer in range 0x0000..0x01FF".to_string())
    );
    assert_eq!(
        int_in_range(&text("1"), "y", 0x12345),
        Err("y must be an integer in range 0x0000..0x12345".to_string())
    );
    assert_eq!(
        int_in_range(&num(0x100), "z", 0xFF),
        Err("z must be an integer in range 0x00..0xFF".to_string())
    );
}
