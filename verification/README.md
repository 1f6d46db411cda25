# z80_rust

A Z80 instruction core whose instruction semantics are proved with Verus.

Each instruction handler in `src/` has a contract stating, as a spec
function over a mathematical model of the machine (`processor::Machine`:
the processor state, every exchange with the host's bus, and the bytes of
the current instruction), the new state, the bus traffic, and the T-states.
The exchanges are the host's own record when the host declares
`Bus::obeys_bus_spec`: each of its four methods must then extend its
`history` by exactly the exchange it performed, so the traffic a contract
states is the traffic the bus saw. A host may also keep a condition of its
own through every method (`Bus::inv`). The conformance host does both: every
read it answers comes from its memory (the earlier writes applied) or its
port value, its memory is its earlier memory with the writes made since
applied, and its port value and console output never change under the
CPU's calls. A host written outside verification promises nothing; the
CPU's contracts then speak of its own record of the calls it made.

Layout:

- `src/flags.rs`, `alu.rs`, `rotate.rs`, `loads.rs`, `control.rs`, `io.rs`,
  `blocks.rs`, `index.rs`: the instruction groups.
- `src/dispatch.rs`, `index_dispatch.rs`: decoding.
- `src/det.rs`, `det_prefixed.rs`, `det_index.rs`: an instruction boundary
  is determined by the machine and the host's memory and port value
  (`det::lemma_boundary_determined`), so a manifest determines its run
  (`conformance::lemma_record_determined`).
- `src/processor.rs`, `cpu.rs`, `state.rs`: the CPU, its boundary, and
  captured state.
- `src/json.rs`, `manifest.rs`, `conformance.rs`, `checkpoint.rs`,
  `resume.rs`: the conformance kit's JSON parsing and printing, manifest
  reading, host, CP/M traps, run decisions, checkpoint documents, and the
  proof that a checkpoint reads back as the manifest that resumes its run.
- `src/bench.rs`: the speed benchmark's run loop.
- `app/`: reading and writing the kit's files, the loop that performs a
  run's decisions, and the speed benchmark.
- `tests/`: behaviour on concrete programs and documents.
