# ksight

A tracer of program executions, file opens and block I/O latency. Kernel
probes report events through a ring buffer; the agent filters, formats and
shows them in a terminal interface next to a latency histogram.

- `src/` is the library, written in Verus and verified: the filter handed to
  the probes, the byte layout of event records and their decoding, the text of
  each event line, the histogram arithmetic, the interface state and the
  decisions of the main loop.
- `app/` is the agent program around it: command line, loading and attaching
  the probes, reading the maps and the ring buffer, and drawing with ratatui.
- `tests/` exercises the library.

The kernel probes themselves are a separate program for the BPF target
(`app/probes.rs`, built on its own with `aya-ebpf`, not part of the agent's
build). The agent reads the compiled object at run time from the path in
`KSIGHT_BPF_OBJECT` (by default `target/bpfel-unknown-none/release/ksight`).
