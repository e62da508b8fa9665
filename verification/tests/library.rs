use ksight::{
    bucket_to_us, build_filter, bytes_to_str, exec_event, exec_probe_event, open_probe_event, filter_label, format_event,
    handle_input, ingest_record, open_event, parse_event, pid_of, ppid_of, sum_per_cpu,
    update_histogram, AppState, Args, Event, EventKind, EventPayload, ExecPayload, FilterMode,
    LoopAction, LoopInput, OpenPayload, EVENT_LEN, FILTER_MODE_COMM, FILTER_MODE_NONE,
    FILTER_MODE_PID, HIST_BUCKETS, MAX_EVENTS, PATH_LEN, PAYLOAD_LEN,
};

fn comm(name: &[u8]) -> [u8; 16] {
    let mut c = [0u8; 16];
    c[..name.len()].copy_from_slice(name);
    c
}

fn path(name: &[u8]) -> [u8; PATH_LEN] {
    let mut p = [0u8; PATH_LEN];
    p[..name.len()].copy_from_slice(name);
    p
}

#[test]
fn format_event_exec_exact_columns() {
    let event = exec_event(100u64 << 32 | 7, 1, comm(b"bash"));
    assert_eq!(
        format_event(&event),
        "EXEC  pid=100      ppid=1        comm=bash"
    );
}

#[test]
fn format_event_open_exact_columns() {
    let event = open_event(200u64 << 32, comm(b"cat"), path(b"/etc/motd"));
    assert_eq!(
        format_event(&event),
        "OPEN  pid=200      comm=cat              /etc/motd"
    );
}

#[test]
fn format_event_long_pid_is_not_cut() {
    let event = exec_event(4294967295u64 << 32, 123456789, comm(b"x"));
    assert_eq!(
        format_event(&event),
        "EXEC  pid=4294967295 ppid=123456789 comm=x"
    );
}

#[test]
fn bytes_to_str_replaces_invalid_utf8() {
    assert_eq!(bytes_to_str(b"a\xffb\0zz"), "a\u{FFFD}b");
}

#[test]
fn bytes_to_str_decodes_utf8() {
    assert_eq!(bytes_to_str("héllo\0".as_bytes()), "héllo");
}

#[test]
fn event_record_roundtrip() {
    let event = open_event(42u64 << 32, comm(b"vim"), path(b"/tmp/x"));
    let bytes = event.to_bytes();
    assert_eq!(bytes.len(), EVENT_LEN);
    assert_eq!(&bytes[..4], &[1, 0, 0, 0]);
    let back = parse_event(&bytes).unwrap();
    assert!(back.kind == EventKind::Open);
    assert_eq!(&back.payload.bytes[..], &event.payload.bytes[..]);
    let open = back.payload.open();
    assert_eq!(open.pid, 42);
    assert_eq!(open.comm, comm(b"vim"));
    assert_eq!(open.filename, path(b"/tmp/x"));
}

#[test]
fn parse_event_rejects_short_record() {
    let event = exec_event(1u64 << 32, 0, comm(b"sh"));
    let bytes = event.to_bytes();
    assert!(parse_event(&bytes[..EVENT_LEN - 1]).is_none());
    assert!(parse_event(&[]).is_none());
}

#[test]
fn parse_event_rejects_unknown_kind() {
    let mut bytes = vec![0u8; EVENT_LEN];
    bytes[0] = 2;
    assert!(parse_event(&bytes).is_none());
    bytes[0] = 0;
    bytes[3] = 1;
    assert!(parse_event(&bytes).is_none());
}

#[test]
fn parse_event_ignores_trailing_bytes() {
    let event = exec_event(9u64 << 32, 3, comm(b"ls"));
    let mut bytes = event.to_bytes();
    bytes.extend_from_slice(&[0xaa; 20]);
    let back = parse_event(&bytes).unwrap();
    assert!(back.kind == EventKind::Exec);
    let exec = back.payload.exec();
    assert_eq!(exec.pid, 9);
    assert_eq!(exec.ppid, 3);
    assert_eq!(exec.comm, comm(b"ls"));
}

#[test]
fn payload_views_share_bytes() {
    let payload = EventPayload::from_exec(ExecPayload {
        pid: 0x01020304,
        ppid: 0x0a0b0c0d,
        comm: comm(b"abc"),
    });
    assert_eq!(&payload.bytes[..8], &[4, 3, 2, 1, 0x0d, 0x0c, 0x0b, 0x0a]);
    assert_eq!(payload.bytes.len(), PAYLOAD_LEN);
    assert!(payload.bytes[24..].iter().all(|&b| b == 0));
    let open = payload.open();
    assert_eq!(open.pid, 0x01020304);
    assert_eq!(&open.comm[..4], &[0x0d, 0x0c, 0x0b, 0x0a]);
    let back = EventPayload::from_open(open).exec();
    assert_eq!(back.pid, 0x01020304);
    assert_eq!(back.ppid, 0x0a0b0c0d);
}

#[test]
fn exec_payload_roundtrip() {
    let p = ExecPayload {
        pid: 77,
        ppid: u32::MAX,
        comm: comm(b"0123456789abcdef"),
    };
    let q = EventPayload::from_exec(p).exec();
    assert_eq!(q.pid, 77);
    assert_eq!(q.ppid, u32::MAX);
    assert_eq!(q.comm, p.comm);
}

#[test]
fn open_payload_roundtrip() {
    let p = OpenPayload {
        pid: 5,
        comm: comm(b"cp"),
        filename: [b'x'; PATH_LEN],
    };
    let q = EventPayload::from_open(p).open();
    assert_eq!(q.pid, 5);
    assert_eq!(q.comm, p.comm);
    assert_eq!(q.filename, p.filename);
}

#[test]
fn event_kind_codes() {
    assert_eq!(EventKind::Exec.code(), 0);
    assert_eq!(EventKind::Open.code(), 1);
    assert!(EventKind::from_code(0) == Some(EventKind::Exec));
    assert!(EventKind::from_code(1) == Some(EventKind::Open));
    assert!(EventKind::from_code(2).is_none());
}

#[test]
fn filter_mode_codes() {
    assert_eq!(FilterMode::All.code(), FILTER_MODE_NONE);
    assert_eq!(FilterMode::Pid.code(), FILTER_MODE_PID);
    assert_eq!(FilterMode::Comm.code(), FILTER_MODE_COMM);
}

#[test]
fn build_filter_pid_wins_over_comm() {
    let f = build_filter(&Args {
        pid: Some(7),
        comm: Some("cat".to_string()),
    });
    assert_eq!(f.mode, FILTER_MODE_PID);
    assert_eq!(f.pid, 7);
    assert_eq!(f.comm_len, 0);
    assert_eq!(f.comm, [0u8; 16]);
    assert_eq!(
        filter_label(&Args {
            pid: Some(7),
            comm: Some("cat".to_string())
        }),
        "pid=7"
    );
}

#[test]
fn build_filter_none_zeroes_fields() {
    let f = build_filter(&Args {
        pid: None,
        comm: None,
    });
    assert_eq!(f.pid, 0);
    assert_eq!(f.comm_len, 0);
    assert_eq!(f.comm, [0u8; 16]);
}

#[test]
fn build_filter_copies_utf8_bytes() {
    let f = build_filter(&Args {
        pid: None,
        comm: Some("é".to_string()),
    });
    assert_eq!(f.comm_len, 2);
    assert_eq!(&f.comm[..3], &[0xc3, 0xa9, 0]);
}

#[test]
fn filter_label_pid_zero_and_comm_utf8() {
    assert_eq!(
        filter_label(&Args {
            pid: Some(0),
            comm: None
        }),
        "pid=0"
    );
    assert_eq!(
        filter_label(&Args {
            pid: None,
            comm: Some("日本".to_string())
        }),
        "comm=日本"
    );
}

#[test]
fn sum_per_cpu_large_values() {
    assert_eq!(sum_per_cpu(&[u64::MAX - 1, 1]), u64::MAX);
}

#[test]
fn bucket_ranges_meet() {
    for b in 0..63 {
        let (low, high) = bucket_to_us(b);
        let (next_low, _) = bucket_to_us(b + 1);
        assert!(low <= high);
        assert!(high <= next_low);
    }
    assert_eq!(bucket_to_us(0), (0, 0));
    assert_eq!(bucket_to_us(10), (1, 2));
    assert_eq!(bucket_to_us(63), ((1u64 << 63) / 1000, (u64::MAX - 1) / 1000));
}

#[test]
fn pid_of_takes_upper_half() {
    assert_eq!(pid_of(0x0000_1234_0000_5678), 0x1234);
    assert_eq!(pid_of(u64::MAX), u32::MAX);
    assert_eq!(pid_of(0xffff_ffff), 0);
}

#[test]
fn ppid_of_cases() {
    assert_eq!(ppid_of(None), 0);
    assert_eq!(ppid_of(Some(7)), 7);
    assert_eq!(ppid_of(Some(-1)), u32::MAX);
    assert_eq!(ppid_of(Some(i32::MIN)), 0x8000_0000);
}

#[test]
fn app_state_new_is_empty() {
    let s = AppState::new("none".to_string());
    assert_eq!(s.events.len(), 0);
    assert_eq!(s.histogram, [0u64; HIST_BUCKETS]);
    assert_eq!(s.filter_label, "none");
    assert_eq!(s.event_count, 0);
}

#[test]
fn push_event_keeps_last_max_events() {
    let mut s = AppState::new("none".to_string());
    for i in 0..(MAX_EVENTS + 5) {
        s.push_event(format!("line{}", i));
        assert!(s.events.len() <= MAX_EVENTS);
        assert_eq!(s.events.back().unwrap().line, format!("line{}", i));
    }
    assert_eq!(s.events.len(), MAX_EVENTS);
    assert_eq!(s.event_count, (MAX_EVENTS + 5) as u64);
    assert_eq!(s.events.front().unwrap().line, "line5");
}

#[test]
fn header_line_exact() {
    let mut s = AppState::new("comm=cat".to_string());
    s.push_event("a".to_string());
    s.push_event("b".to_string());
    assert_eq!(
        s.header_line(),
        " ksight   filter: comm=cat   events: 2   q: quit"
    );
}

#[test]
fn event_lines_newest_first() {
    let mut s = AppState::new("none".to_string());
    s.push_event("first".to_string());
    s.push_event("second".to_string());
    s.push_event("third".to_string());
    assert_eq!(s.event_lines(), vec!["third", "second", "first"]);
}

#[test]
fn histogram_bars_skip_empty_buckets() {
    let mut s = AppState::new("none".to_string());
    s.histogram[10] = 5;
    s.histogram[20] = 3;
    let bars = s.histogram_bars();
    assert_eq!(bars.len(), 2);
    assert_eq!(bars[0].label, "1us");
    assert_eq!(bars[0].value, 5);
    assert_eq!(bars[1].label, "1048us");
    assert_eq!(bars[1].value, 3);
    assert!(AppState::new("none".to_string()).histogram_bars().is_empty());
}

#[test]
fn update_histogram_sums_each_bucket() {
    let mut s = AppState::new("none".to_string());
    let mut per_cpu: Vec<Vec<u64>> = vec![vec![0, 0]; HIST_BUCKETS];
    per_cpu[3] = vec![1, 2, 3];
    per_cpu[63] = vec![10];
    update_histogram(&mut s, &per_cpu);
    assert_eq!(s.histogram[3], 6);
    assert_eq!(s.histogram[63], 10);
    assert_eq!(s.histogram[0], 0);
}

#[test]
fn ingest_record_shows_events_only() {
    let mut s = AppState::new("none".to_string());
    let event = exec_event(5u64 << 32, 1, comm(b"sh"));
    assert!(ingest_record(&mut s, &event.to_bytes()));
    assert!(!ingest_record(&mut s, &[1, 2, 3]));
    assert_eq!(s.event_count, 1);
    assert_eq!(s.events.len(), 1);
    assert_eq!(s.events[0].line, format_event(&event));
}

#[test]
fn handle_input_keys() {
    let mut s = AppState::new("none".to_string());
    let quit = handle_input(&mut s, LoopInput::Key { press: true, code: Some('q') });
    assert!(quit == LoopAction::Quit);
    let release = handle_input(&mut s, LoopInput::Key { press: false, code: Some('q') });
    assert!(release == LoopAction::Continue);
    let other_key = handle_input(&mut s, LoopInput::Key { press: true, code: Some('x') });
    assert!(other_key == LoopAction::Continue);
    let no_char = handle_input(&mut s, LoopInput::Key { press: true, code: None });
    assert!(no_char == LoopAction::Continue);
    assert!(handle_input(&mut s, LoopInput::Other) == LoopAction::Continue);
    assert_eq!(s.event_count, 0);
}

#[test]
fn handle_input_records_and_tick() {
    let mut s = AppState::new("none".to_string());
    let a = exec_event(1u64 << 32, 0, comm(b"a"));
    let b = open_event(2u64 << 32, comm(b"b"), path(b"/b"));
    let records = vec![a.to_bytes(), vec![0u8; 3], b.to_bytes()];
    let action = handle_input(&mut s, LoopInput::Records { records });
    assert!(action == LoopAction::Redraw);
    assert_eq!(s.event_count, 2);
    assert_eq!(s.event_lines(), vec![format_event(&b), format_event(&a)]);

    let mut per_cpu: Vec<Vec<u64>> = vec![Vec::new(); HIST_BUCKETS];
    per_cpu[12] = vec![4, 4];
    let action = handle_input(&mut s, LoopInput::Tick { per_cpu });
    assert!(action == LoopAction::Redraw);
    assert_eq!(s.histogram[12], 8);
    assert_eq!(s.event_count, 2);
}

#[test]
fn event_struct_fields() {
    let e = Event {
        kind: EventKind::Exec,
        payload: EventPayload { bytes: [0u8; PAYLOAD_LEN] },
    };
    assert_eq!(
        format_event(&e),
        "EXEC  pid=0        ppid=0        comm="
    );
}

#[test]
fn filter_name_reads_back() {
    for name in ["cat", "0123456789abcdef", "héllo", ""] {
        let f = build_filter(&Args {
            pid: None,
            comm: Some(name.to_string()),
        });
        assert_eq!(bytes_to_str(&f.comm), name);
    }
}

#[test]
fn bytes_to_str_ignores_after_nul() {
    assert_eq!(bytes_to_str(b"ab\0cd"), "ab");
    assert_eq!(bytes_to_str(b"\0abc"), "");
}

#[test]
fn bytes_to_str_invalid_has_no_nul_and_is_short() {
    let buf = [0xffu8, 0xfe, 0x80, b'a', 0xc3];
    let s = bytes_to_str(&buf);
    assert!(!s.contains('\0'));
    assert!(s.chars().count() <= buf.len());
    assert_eq!(s, "\u{FFFD}\u{FFFD}\u{FFFD}a\u{FFFD}");
}

#[test]
fn bytes_to_str_is_idempotent() {
    for buf in [&b"a\xffb\0c"[..], b"plain", b"\xe2\x82", b""] {
        let once = bytes_to_str(buf).into_owned();
        assert_eq!(bytes_to_str(once.as_bytes()), once);
    }
}

#[test]
fn format_event_has_no_nul() {
    let mut name = [0u8; 16];
    name[..3].copy_from_slice(&[0xff, b'x', 0xc0]);
    let s = format_event(&exec_event(3u64 << 32, 4, name));
    assert!(!s.contains('\0'));
    assert!(s.starts_with("EXEC  pid="));
}

#[test]
fn sum_per_cpu_adds_over_parts_and_orders() {
    let a = [5u64, 7, 11];
    let b = [13u64, 17];
    let ab: Vec<u64> = a.iter().chain(b.iter()).copied().collect();
    assert_eq!(sum_per_cpu(&ab), sum_per_cpu(&a) + sum_per_cpu(&b));
    assert_eq!(sum_per_cpu(&[11, 5, 7]), sum_per_cpu(&a));
}

#[test]
fn push_event_calls_from_new() {
    let mut s = AppState::new("pid=1".to_string());
    let n = 3 * MAX_EVENTS + 7;
    for i in 0..n {
        s.push_event(format!("e{}", i));
    }
    assert_eq!(s.events.len(), MAX_EVENTS);
    for j in 0..MAX_EVENTS {
        assert_eq!(s.events[j].line, format!("e{}", n - MAX_EVENTS + j));
    }
    assert_eq!(s.event_count, n as u64);
    assert_eq!(s.filter_label, "pid=1");
    assert_eq!(s.histogram, [0u64; HIST_BUCKETS]);
}

#[test]
fn exec_probe_event_decisions() {
    assert!(exec_probe_event(None, 1u64 << 32, Some(1)).is_none());
    let e = exec_probe_event(Some(comm(b"sh")), (12u64 << 32) | 99, None).unwrap();
    assert!(e.kind == EventKind::Exec);
    let p = e.payload.exec();
    assert_eq!(p.pid, 12);
    assert_eq!(p.ppid, 0);
    assert_eq!(p.comm, comm(b"sh"));
    let e = exec_probe_event(Some(comm(b"sh")), 12u64 << 32, Some(-2)).unwrap();
    assert_eq!(e.payload.exec().ppid, u32::MAX - 1);
}

#[test]
fn open_probe_event_decisions() {
    assert!(open_probe_event(None, 1u64 << 32, Some(path(b"/a"))).is_none());
    assert!(open_probe_event(Some(comm(b"cat")), 1u64 << 32, None).is_none());
    let e = open_probe_event(Some(comm(b"cat")), 8u64 << 32, Some(path(b"/a"))).unwrap();
    assert!(e.kind == EventKind::Open);
    let p = e.payload.open();
    assert_eq!(p.pid, 8);
    assert_eq!(p.filename, path(b"/a"));
}

#[test]
fn update_histogram_partial_keeps_rest() {
    let mut s = AppState::new("none".to_string());
    s.histogram[5] = 99;
    s.histogram[1] = 42;
    update_histogram(&mut s, &vec![vec![1, 1], vec![3]]);
    assert_eq!(s.histogram[0], 2);
    assert_eq!(s.histogram[1], 3);
    assert_eq!(s.histogram[5], 99);
}

#[test]
fn handle_input_skipped_records_need_no_room() {
    let mut s = AppState::new("none".to_string());
    s.event_count = u64::MAX;
    let action = handle_input(&mut s, LoopInput::Records { records: vec![vec![1, 2, 3]] });
    assert!(action == LoopAction::Redraw);
    assert_eq!(s.event_count, u64::MAX);
}
