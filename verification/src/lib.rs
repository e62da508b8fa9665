//! ksight: a tracer of program executions, file opens and block I/O latency.
//! This library holds what the agent computes: the filter handed to the
//! kernel probes, the byte layout of the events they report, the text that
//! shows each event, the latency histogram, and the state of the terminal
//! interface.

pub mod agent;
pub mod common;
pub mod event_loop;
pub mod probe;
pub mod text;
pub mod tui;

pub use agent::{bucket_to_us, build_filter, filter_label, format_event, sum_per_cpu, Args};
pub use common::{
    parse_event, Event, EventKind, EventPayload, ExecPayload, Filter, FilterMode, OpenPayload,
    RequestKey, COMM_LEN, EVENT_LEN, FILTER_MODE_COMM, FILTER_MODE_NONE, FILTER_MODE_PID,
    HIST_BUCKETS, PATH_LEN, PAYLOAD_LEN,
};
pub use event_loop::{handle_input, ingest_record, LoopAction, LoopInput};
pub use probe::{exec_event, exec_probe_event, open_event, open_probe_event, pid_of, ppid_of};
pub use text::bytes_to_str;
pub use tui::{update_histogram, AppState, EventRecord, HistogramBar, MAX_EVENTS};
