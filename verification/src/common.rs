//! Data shared by the kernel probes and the agent, and the byte layout in
//! which the probes hand events over through the ring buffer.
use vstd::prelude::*;

verus! {

/// Length of a task's command name as the kernel stores it.
pub const COMM_LEN: usize = 16;

/// Room kept for a file path captured by the open probe.
pub const PATH_LEN: usize = 256;

/// Size of an event payload: the larger of its two views (the open view:
/// pid, command name and path).
pub const PAYLOAD_LEN: usize = 276;

/// Size of an event record in the ring buffer: the kind word and the payload.
pub const EVENT_LEN: usize = 280;

/// Number of buckets of the block I/O latency histogram.
pub const HIST_BUCKETS: usize = 64;

/// Filter mode word: trace every task.
pub const FILTER_MODE_NONE: u32 = 0;

/// Filter mode word: trace the task with a given pid.
pub const FILTER_MODE_PID: u32 = 1;

/// Filter mode word: trace the tasks with a given command name.
pub const FILTER_MODE_COMM: u32 = 2;

/// What happened: a program was executed, or a file was opened.
#[derive(Clone, Copy, PartialEq, Eq, Structural, Debug)]
pub enum EventKind {
    Exec,
    Open,
}

impl EventKind {
    /// The word that stands for the kind in an event record.
    pub open spec fn spec_code(self) -> u32 {
        match self {
            EventKind::Exec => 0,
            EventKind::Open => 1,
        }
    }

    /// The word that stands for the kind in an event record.
    pub fn code(&self) -> (r: u32)
        ensures
            r == self.spec_code(),
    {
        match self {
            EventKind::Exec => 0,
            EventKind::Open => 1,
        }
    }

    /// The kind that a word stands for, if any.
    pub fn from_code(code: u32) -> (r: Option<EventKind>)
        ensures
            r is Some <==> code < 2,
            r matches Some(k) ==> k.spec_code() == code,
    {
        if code == 0 {
            Some(EventKind::Exec)
        } else if code == 1 {
            Some(EventKind::Open)
        } else {
            None
        }
    }
}

/// A program execution: the new program's pid, its parent's pid, its name.
#[derive(Clone, Copy)]
pub struct ExecPayload {
    pub pid: u32,
    pub ppid: u32,
    pub comm: [u8; COMM_LEN],
}

/// A file open: the opening task's pid and name, and the path it opened.
#[derive(Clone, Copy)]
pub struct OpenPayload {
    pub pid: u32,
    pub comm: [u8; COMM_LEN],
    pub filename: [u8; PATH_LEN],
}

/// The payload of an event, as the bytes that both of its views share: read
/// as an `ExecPayload` or as an `OpenPayload`, as the event's kind says.
#[derive(Clone, Copy)]
pub struct EventPayload {
    pub bytes: [u8; PAYLOAD_LEN],
}

/// An event as the probes report it.
#[derive(Clone, Copy)]
pub struct Event {
    pub kind: EventKind,
    pub payload: EventPayload,
}

/// Which tasks the probes report on.
#[derive(Clone, Copy, PartialEq, Eq, Structural, Debug)]
pub enum FilterMode {
    All,
    Pid,
    Comm,
}

impl FilterMode {
    /// The mode word that stands for the mode in a `Filter`.
    pub open spec fn spec_code(self) -> u32 {
        match self {
            FilterMode::All => FILTER_MODE_NONE,
            FilterMode::Pid => FILTER_MODE_PID,
            FilterMode::Comm => FILTER_MODE_COMM,
        }
    }

    /// The mode word that stands for the mode in a `Filter`.
    pub fn code(&self) -> (r: u32)
        ensures
            r == self.spec_code(),
    {
        match self {
            FilterMode::All => FILTER_MODE_NONE,
            FilterMode::Pid => FILTER_MODE_PID,
            FilterMode::Comm => FILTER_MODE_COMM,
        }
    }
}

/// The filter that the agent hands to the probes: a mode word, the pid to
/// match, and the command name to match with its length.
#[derive(Clone, Copy)]
pub struct Filter {
    pub mode: u32,
    pub pid: u32,
    pub comm: [u8; COMM_LEN],
    pub comm_len: u32,
}

/// Key of an in-flight block request: its sector and device.
#[derive(Clone, Copy)]
pub struct RequestKey {
    pub sector: u64,
    pub dev: u32,
    pub _pad: u32,
}

/// Value of the little-endian 32-bit word at `at` in `s`.
pub open spec fn le_u32_at(s: Seq<u8>, at: int) -> int {
    s[at] + 256 * s[at + 1] + 65536 * s[at + 2] + 16777216 * s[at + 3]
}

/// The four little-endian bytes of `x`.
pub open spec fn le_bytes(x: u32) -> Seq<u8> {
    seq![(x % 256) as u8, (x / 256 % 256) as u8, (x / 65536 % 256) as u8, (x / 16777216) as u8]
}

/// Reading back the bytes of a word gives the word.
pub proof fn lemma_le_bytes_read(x: u32)
    ensures
        le_u32_at(le_bytes(x), 0) == x,
        le_bytes(x).len() == 4,
        le_bytes(x)[0] == x % 256,
        le_bytes(x)[3] == x / 16777216,
{
    let b = le_bytes(x);
    assert(b[0] == x % 256);
    assert(b[1] == x / 256 % 256);
    assert(b[2] == x / 65536 % 256);
    assert(b[3] == x / 16777216);
    assert(x % 256 + 256 * (x / 256 % 256) + 65536 * (x / 65536 % 256) + 16777216 * (x
        / 16777216) == x) by (nonlinear_arith);
}

/// Writing the word read from four bytes gives the same four bytes.
pub proof fn lemma_le_bytes_write(s: Seq<u8>, at: int)
    requires
        0 <= at,
        at + 4 <= s.len(),
    ensures
        le_u32_at(s, at) <= u32::MAX,
        le_bytes(le_u32_at(s, at) as u32) == s.subrange(at, at + 4),
{
    let b0 = s[at];
    let b1 = s[at + 1];
    let b2 = s[at + 2];
    let b3 = s[at + 3];
    let x = b0 + 256 * b1 + 65536 * b2 + 16777216 * b3;
    assert(x % 256 == b0 && x / 256 % 256 == b1 && x / 65536 % 256 == b2 && x / 16777216
        == b3) by (nonlinear_arith)
        requires
            x == b0 + 256 * b1 + 65536 * b2 + 16777216 * b3,
            0 <= b0 < 256,
            0 <= b1 < 256,
            0 <= b2 < 256,
            0 <= b3 < 256,
    ;
    assert(le_bytes(x as u32) =~= s.subrange(at, at + 4));
}

/// The little-endian bytes of `x`.
pub fn u32_to_le(x: u32) -> (r: [u8; 4])
    ensures
        r@ == le_bytes(x),
{
    let r = [(x % 256) as u8, (x / 256 % 256) as u8, (x / 65536 % 256) as u8, (x / 16777216) as u8];
    assert(r@ =~= le_bytes(x));
    r
}

/// The little-endian word at `at` in `s`.
pub fn u32_from_le(s: &[u8], at: usize) -> (r: u32)
    requires
        at + 4 <= s@.len(),
    ensures
        r == le_u32_at(s@, at as int),
{
    let b0 = s[at] as u32;
    let b1 = s[at + 1] as u32;
    let b2 = s[at + 2] as u32;
    let b3 = s[at + 3] as u32;
    b0 + 256 * b1 + 65536 * b2 + 16777216 * b3
}

/// `dst` with `src` written over it from position `at`.
pub fn write_bytes<const N: usize>(dst: &mut [u8; N], at: usize, src: &[u8])
    requires
        at + src@.len() <= N,
    ensures
        final(dst)@ == old(dst)@.take(at as int) + src@ + old(dst)@.skip(at + src@.len()),
{
    let ghost start = dst@;
    let mut i: usize = 0;
    while i < src.len()
        invariant
            at + src@.len() <= N,
            i <= src@.len(),
            dst@.len() == N,
            start.len() == N,
            dst@ == start.take(at as int) + src@.take(i as int) + start.skip(at + i),
        decreases src.len() - i,
    {
        dst[at + i] = src[i];
        i = i + 1;
        assert(dst@ =~= start.take(at as int) + src@.take(i as int) + start.skip(at + i));
    }
    assert(src@.take(src@.len() as int) == src@);
}

/// The `N` bytes of `src` from position `at`.
pub fn read_bytes<const N: usize>(src: &[u8], at: usize) -> (r: [u8; N])
    requires
        at + N <= src@.len(),
    ensures
        r@ == src@.subrange(at as int, at + N),
{
    let mut r: [u8; N] = vstd::array::array_fill_for_copy_types(0u8);
    proof {
        vstd::array::array_len_matches_n(&r);
    }
    let n = src.len();
    let mut i: usize = 0;
    while i < N
        invariant
            n == src@.len(),
            at + N <= src@.len(),
            i <= N,
            r@.len() == N,
            forall|j: int| 0 <= j < i ==> r@[j] == src@[at + j],
        decreases N - i,
    {
        r[i] = src[at + i];
        i = i + 1;
    }
    assert(r@ =~= src@.subrange(at as int, at + N));
    r
}

/// The payload bytes written from an `ExecPayload`: pid, parent pid, name,
/// and zeros for the rest of the room.
pub open spec fn exec_payload_bytes(p: ExecPayload) -> Seq<u8> {
    le_bytes(p.pid) + le_bytes(p.ppid) + p.comm@ + Seq::new(
        (PAYLOAD_LEN - 24) as nat,
        |i: int| 0u8,
    )
}

/// The payload bytes written from an `OpenPayload`: pid, name, path.
pub open spec fn open_payload_bytes(p: OpenPayload) -> Seq<u8> {
    le_bytes(p.pid) + p.comm@ + p.filename@
}

impl EventPayload {
    /// A payload that holds `p` in its exec view; the bytes past it are zero.
    pub fn from_exec(p: ExecPayload) -> (r: EventPayload)
        ensures
            r.bytes@ == exec_payload_bytes(p),
            r.bytes@.subrange(0, 4) == le_bytes(p.pid),
            r.bytes@.subrange(4, 8) == le_bytes(p.ppid),
            r.bytes@.subrange(8, 24) == p.comm@,
            forall|i: int| 24 <= i < PAYLOAD_LEN ==> #[trigger] r.bytes@[i] == 0,
    {
        let mut bytes = [0u8; PAYLOAD_LEN];
        let pid = u32_to_le(p.pid);
        let ppid = u32_to_le(p.ppid);
        write_bytes(&mut bytes, 0, pid.as_slice());
        write_bytes(&mut bytes, 4, ppid.as_slice());
        write_bytes(&mut bytes, 8, p.comm.as_slice());
        assert(bytes@ =~= exec_payload_bytes(p));
        EventPayload { bytes }
    }

    /// A payload that holds `p` in its open view.
    pub fn from_open(p: OpenPayload) -> (r: EventPayload)
        ensures
            r.bytes@ == open_payload_bytes(p),
            r.bytes@.subrange(0, 4) == le_bytes(p.pid),
            r.bytes@.subrange(4, 20) == p.comm@,
            r.bytes@.subrange(20, PAYLOAD_LEN as int) == p.filename@,
    {
        let mut bytes = [0u8; PAYLOAD_LEN];
        let pid = u32_to_le(p.pid);
        write_bytes(&mut bytes, 0, pid.as_slice());
        write_bytes(&mut bytes, 4, p.comm.as_slice());
        write_bytes(&mut bytes, 20, p.filename.as_slice());
        assert(bytes@ =~= open_payload_bytes(p));
        EventPayload { bytes }
    }

    /// The payload read as a program execution.
    pub fn exec(&self) -> (r: ExecPayload)
        ensures
            r.pid == le_u32_at(self.bytes@, 0),
            r.ppid == le_u32_at(self.bytes@, 4),
            r.comm@ == self.bytes@.subrange(8, 24),
    {
        let s = self.bytes.as_slice();
        ExecPayload { pid: u32_from_le(s, 0), ppid: u32_from_le(s, 4), comm: read_bytes(s, 8) }
    }

    /// The payload read as a file open.
    pub fn open(&self) -> (r: OpenPayload)
        ensures
            r.pid == le_u32_at(self.bytes@, 0),
            r.comm@ == self.bytes@.subrange(4, 20),
            r.filename@ == self.bytes@.subrange(20, PAYLOAD_LEN as int),
    {
        let s = self.bytes.as_slice();
        OpenPayload { pid: u32_from_le(s, 0), comm: read_bytes(s, 4), filename: read_bytes(s, 20) }
    }
}

/// Reading the exec view of a payload written from an `ExecPayload` gives
/// that payload back.
pub proof fn lemma_exec_payload_roundtrip(p: ExecPayload)
    ensures
        le_u32_at(exec_payload_bytes(p), 0) == p.pid,
        le_u32_at(exec_payload_bytes(p), 4) == p.ppid,
        exec_payload_bytes(p).subrange(8, 24) == p.comm@,
{
    let b = exec_payload_bytes(p);
    lemma_le_bytes_read(p.pid);
    lemma_le_bytes_read(p.ppid);
    assert(b.subrange(0, 4) =~= le_bytes(p.pid));
    assert(b.subrange(4, 8) =~= le_bytes(p.ppid));
    assert(b.subrange(8, 24) =~= p.comm@);
    assert(le_u32_at(b, 0) == le_u32_at(le_bytes(p.pid), 0));
    assert(le_u32_at(b, 4) == le_u32_at(le_bytes(p.ppid), 0));
}

/// Reading the open view of a payload written from an `OpenPayload` gives
/// that payload back.
pub proof fn lemma_open_payload_roundtrip(p: OpenPayload)
    ensures
        le_u32_at(open_payload_bytes(p), 0) == p.pid,
        open_payload_bytes(p).subrange(4, 20) == p.comm@,
        open_payload_bytes(p).subrange(20, PAYLOAD_LEN as int) == p.filename@,
{
    let b = open_payload_bytes(p);
    lemma_le_bytes_read(p.pid);
    assert(b.subrange(0, 4) =~= le_bytes(p.pid));
    assert(b.subrange(4, 20) =~= p.comm@);
    assert(b.subrange(20, PAYLOAD_LEN as int) =~= p.filename@);
    assert(le_u32_at(b, 0) == le_u32_at(le_bytes(p.pid), 0));
}

/// The record bytes of an event: its kind word, then its payload.
pub open spec fn event_bytes(kind: EventKind, payload: Seq<u8>) -> Seq<u8> {
    le_bytes(kind.spec_code()) + payload
}

/// What a record in the ring buffer holds: `None` where it is shorter than an
/// event or its kind word stands for no kind; else the kind and the payload
/// bytes. Bytes past the event are ignored.
pub open spec fn parse_event_spec(bytes: Seq<u8>) -> Option<(EventKind, Seq<u8>)> {
    if bytes.len() < EVENT_LEN {
        None
    } else if le_u32_at(bytes, 0) == 0 {
        Some((EventKind::Exec, bytes.subrange(4, EVENT_LEN as int)))
    } else if le_u32_at(bytes, 0) == 1 {
        Some((EventKind::Open, bytes.subrange(4, EVENT_LEN as int)))
    } else {
        None
    }
}

impl Event {
    /// The bytes of the event as a record in the ring buffer.
    pub fn to_bytes(&self) -> (r: Vec<u8>)
        ensures
            r@ == event_bytes(self.kind, self.payload.bytes@),
            r@.len() == EVENT_LEN,
            le_u32_at(r@, 0) == self.kind.spec_code(),
            r@.subrange(0, 4) == le_bytes(self.kind.spec_code()),
            forall|i: int| 0 <= i < PAYLOAD_LEN ==> #[trigger] r@[4 + i] == self.payload.bytes@[i],
    {
        let kind = u32_to_le(self.kind.code());
        let mut r: Vec<u8> = Vec::new();
        let mut i: usize = 0;
        while i < 4
            invariant
                i <= 4,
                r@ == kind@.take(i as int),
            decreases 4 - i,
        {
            r.push(kind[i]);
            i = i + 1;
            assert(r@ =~= kind@.take(i as int));
        }
        let mut j: usize = 0;
        while j < PAYLOAD_LEN
            invariant
                j <= PAYLOAD_LEN,
                r@ == kind@ + self.payload.bytes@.take(j as int),
            decreases PAYLOAD_LEN - j,
        {
            r.push(self.payload.bytes[j]);
            j = j + 1;
            assert(r@ =~= kind@ + self.payload.bytes@.take(j as int));
        }
        assert(self.payload.bytes@.take(PAYLOAD_LEN as int) =~= self.payload.bytes@);
        proof {
            lemma_le_bytes_read(self.kind.spec_code());
            assert(r@.subrange(0, 4) =~= le_bytes(self.kind.spec_code()));
            assert(le_u32_at(r@, 0) == le_u32_at(le_bytes(self.kind.spec_code()), 0));
        }
        r
    }
}

/// Reads an event from a record of the ring buffer. A record shorter than an
/// event, or whose kind word stands for no kind, gives `None`.
pub fn parse_event(bytes: &[u8]) -> (r: Option<Event>)
    ensures
        r is Some <==> parse_event_spec(bytes@) is Some,
        r matches Some(ev) ==> parse_event_spec(bytes@) == Some((ev.kind, ev.payload.bytes@)),
        r is Some <==> bytes@.len() >= EVENT_LEN && le_u32_at(bytes@, 0) < 2,
        r matches Some(ev) ==> {
            &&& ev.kind.spec_code() == le_u32_at(bytes@, 0)
            &&& ev.payload.bytes@ == bytes@.subrange(4, EVENT_LEN as int)
            &&& forall|i: int|
                0 <= i < PAYLOAD_LEN ==> #[trigger] ev.payload.bytes@[i] == bytes@[4 + i]
        },
{
    if bytes.len() < EVENT_LEN {
        return None;
    }
    let code = u32_from_le(bytes, 0);
    match EventKind::from_code(code) {
        Some(kind) => {
            let payload: [u8; PAYLOAD_LEN] = read_bytes(bytes, 4);
            Some(Event { kind, payload: EventPayload { bytes: payload } })
        },
        None => None,
    }
}

/// The layout of a record: its first four bytes are the kind word, little
/// endian, and the payload follows unchanged, byte for byte, up to the
/// event's size. Reading a record keeps the payload in place; writing an
/// event puts it in place.
pub proof fn lemma_record_layout(bytes: Seq<u8>, kind: EventKind, payload: Seq<u8>)
    ensures
        parse_event_spec(bytes) matches Some((k, p)) ==> {
            &&& bytes.len() >= EVENT_LEN
            &&& k.spec_code() == le_u32_at(bytes, 0)
            &&& p.len() == PAYLOAD_LEN
            &&& forall|i: int| 0 <= i < PAYLOAD_LEN ==> #[trigger] p[i] == bytes[4 + i]
        },
        payload.len() == PAYLOAD_LEN ==> {
            let r = event_bytes(kind, payload);
            &&& r.len() == EVENT_LEN
            &&& le_u32_at(r, 0) == kind.spec_code()
            &&& forall|i: int| 0 <= i < PAYLOAD_LEN ==> #[trigger] r[4 + i] == payload[i]
        },
{
    lemma_le_bytes_read(kind.spec_code());
    if payload.len() == PAYLOAD_LEN {
        let r = event_bytes(kind, payload);
        assert(le_u32_at(r, 0) == le_u32_at(le_bytes(kind.spec_code()), 0));
    }
}

/// Reading back the record of an event gives the event.
pub proof fn lemma_event_roundtrip(kind: EventKind, payload: Seq<u8>)
    requires
        payload.len() == PAYLOAD_LEN,
    ensures
        parse_event_spec(event_bytes(kind, payload)) == Some((kind, payload)),
{
    let b = event_bytes(kind, payload);
    lemma_le_bytes_read(kind.spec_code());
    assert(b.subrange(0, 4) =~= le_bytes(kind.spec_code()));
    assert(le_u32_at(b, 0) == le_u32_at(le_bytes(kind.spec_code()), 0));
    assert(b.subrange(4, EVENT_LEN as int) =~= payload);
}

/// A record that reads as an event is, up to the event's size, the record
/// of that event.
pub proof fn lemma_record_roundtrip(bytes: Seq<u8>)
    requires
        parse_event_spec(bytes) is Some,
    ensures
        ({
            let (kind, payload) = parse_event_spec(bytes).unwrap();
            event_bytes(kind, payload) == bytes.take(EVENT_LEN as int)
        }),
{
    let (kind, payload) = parse_event_spec(bytes).unwrap();
    lemma_le_bytes_write(bytes, 0);
    assert(kind.spec_code() == le_u32_at(bytes, 0));
    assert(event_bytes(kind, payload) =~= bytes.take(EVENT_LEN as int));
}

} // verus!
