use ksight::{
    bucket_to_us, build_filter, bytes_to_str, filter_label, format_event, sum_per_cpu, Args,
    Event, EventKind, EventPayload, ExecPayload, OpenPayload, COMM_LEN, FILTER_MODE_COMM,
    FILTER_MODE_NONE, FILTER_MODE_PID, PATH_LEN,
};

#[test]
fn build_filter_none_when_no_args() {
    let args = Args {
        pid: None,
        comm: None,
    };
    let f = build_filter(&args);
    assert_eq!(f.mode, FILTER_MODE_NONE);
}

#[test]
fn build_filter_pid_mode() {
    let args = Args {
        pid: Some(1234),
        comm: None,
    };
    let f = build_filter(&args);
    assert_eq!(f.mode, FILTER_MODE_PID);
    assert_eq!(f.pid, 1234);
}

#[test]
fn build_filter_comm_mode_copies_bytes_and_len() {
    let args = Args {
        pid: None,
        comm: Some("cat".to_string()),
    };
    let f = build_filter(&args);
    assert_eq!(f.mode, FILTER_MODE_COMM);
    assert_eq!(f.comm_len, 3);
    assert_eq!(&f.comm[..3], b"cat");
    assert_eq!(f.comm[3], 0);
}

#[test]
fn build_filter_truncates_overlong_comm() {
    let long = "abcdefghijklmnopqrstuvwxyz";
    let args = Args {
        pid: None,
        comm: Some(long.to_string()),
    };
    let f = build_filter(&args);
    assert_eq!(f.comm_len as usize, COMM_LEN);
    assert_eq!(&f.comm[..], &long.as_bytes()[..COMM_LEN]);
}

#[test]
fn filter_label_variants() {
    assert_eq!(
        filter_label(&Args {
            pid: Some(42),
            comm: None
        }),
        "pid=42"
    );
    assert_eq!(
        filter_label(&Args {
            pid: None,
            comm: Some("cat".to_string())
        }),
        "comm=cat"
    );
    assert_eq!(
        filter_label(&Args {
            pid: None,
            comm: None
        }),
        "none"
    );
}

#[test]
fn bytes_to_str_stops_at_nul() {
    assert_eq!(bytes_to_str(b"cat\0\0\0\0"), "cat");
}

#[test]
fn bytes_to_str_no_nul_uses_whole_buffer() {
    assert_eq!(bytes_to_str(b"abc"), "abc");
}

#[test]
fn bytes_to_str_empty() {
    assert_eq!(bytes_to_str(b""), "");
}

#[test]
fn sum_per_cpu_adds_all() {
    assert_eq!(sum_per_cpu(&[1, 2, 3, 4]), 10);
    assert_eq!(sum_per_cpu(&[]), 0);
}

#[test]
fn bucket_to_us_known_buckets() {
    // bucket 10 = 2^10 ns = 1024 ns = 1us low bound
    assert_eq!(bucket_to_us(10).0, 1);
    // bucket 20 = 2^20 ns = 1048576 ns = 1048us low bound
    assert_eq!(bucket_to_us(20).0, 1048);
    // high bound is one ns below the next bucket
    let (low, high) = bucket_to_us(20);
    assert!(high >= low);
}

#[test]
fn format_event_exec() {
    let event = Event {
        kind: EventKind::Exec,
        payload: EventPayload::from_exec(ExecPayload {
            pid: 100,
            ppid: 1,
            comm: *b"bash\0\0\0\0\0\0\0\0\0\0\0\0",
        }),
    };
    let s = format_event(&event);
    assert!(s.starts_with("EXEC"));
    assert!(s.contains("pid=100"));
    assert!(s.contains("ppid=1"));
    assert!(s.contains("comm=bash"));
}

#[test]
fn format_event_open() {
    let mut filename = [0u8; PATH_LEN];
    filename[..9].copy_from_slice(b"/etc/motd");
    let event = Event {
        kind: EventKind::Open,
        payload: EventPayload::from_open(OpenPayload {
            pid: 200,
            comm: *b"cat\0\0\0\0\0\0\0\0\0\0\0\0\0",
            filename,
        }),
    };
    let s = format_event(&event);
    assert!(s.starts_with("OPEN"));
    assert!(s.contains("pid=200"));
    assert!(s.contains("comm=cat"));
    assert!(s.contains("/etc/motd"));
}
