//! The agent's logic: the filter handed to the probes, the text of each
//! event, and the latency histogram's arithmetic.
use vstd::arithmetic::power2::{lemma2_to64, lemma_pow2_strictly_increases, pow2};
use vstd::prelude::*;
use vstd::utf8::encode_utf8;

use crate::common::{
    exec_payload_bytes, le_u32_at, lemma_exec_payload_roundtrip, lemma_open_payload_roundtrip,
    open_payload_bytes, Event, EventKind, ExecPayload, Filter, OpenPayload, COMM_LEN,
    FILTER_MODE_COMM, FILTER_MODE_NONE, FILTER_MODE_PID, PAYLOAD_LEN,
};
use crate::text::{
    buffer_chars, buffer_text, c_string, chars_to_string, decimal, lemma_c_string_at_nul,
    lemma_c_string_without_nul, lemma_decimal_no_nul, lemma_pad_right_layout, lemma_encode_utf8_nonzero,
    lemma_no_nul_concat, lemma_pad_right_no_nul, no_nul, pad_right, push_decimal, push_padded,
    push_str,
};

verus! {

/// The command line: trace one pid, or the tasks of one command name, or
/// every task.
pub struct Args {
    pub pid: Option<u32>,
    pub comm: Option<String>,
}

/// The command-name field of a filter: the first `COMM_LEN` bytes of the
/// name (all of them if it is shorter), then zeros.
pub open spec fn comm_field(bytes: Seq<u8>) -> Seq<u8> {
    let len = if bytes.len() < COMM_LEN { bytes.len() } else { COMM_LEN as nat };
    bytes.take(len as int) + Seq::new((COMM_LEN - len) as nat, |i: int| 0u8)
}

/// Number of name bytes that a filter keeps.
pub open spec fn comm_field_len(bytes: Seq<u8>) -> nat {
    if bytes.len() < COMM_LEN {
        bytes.len()
    } else {
        COMM_LEN as nat
    }
}

/// The name field of a filter is `COMM_LEN` bytes: the name's first bytes,
/// as many as fit, unchanged, and every byte after them zero.
pub proof fn lemma_comm_field_layout(bytes: Seq<u8>)
    ensures
        comm_field(bytes).len() == COMM_LEN,
        comm_field_len(bytes) == (if bytes.len() < COMM_LEN { bytes.len() } else { COMM_LEN as nat }),
        forall|j: int| 0 <= j < comm_field_len(bytes) ==> #[trigger] comm_field(bytes)[j] == bytes[j],
        forall|j: int|
            comm_field_len(bytes) <= j < COMM_LEN ==> #[trigger] comm_field(bytes)[j] == 0,
{
}

/// Builds the filter for the probes. A pid, where one is given, wins: the
/// filter then matches that pid. Else a command name, where one is given, is
/// copied in, cut to `COMM_LEN` bytes. Else the filter matches every task.
/// Fields that the mode does not use are zero.
pub fn build_filter(args: &Args) -> (f: Filter)
    ensures
        args.pid matches Some(pid) ==> {
            &&& f.mode == FILTER_MODE_PID
            &&& f.pid == pid
            &&& f.comm@ == Seq::new(COMM_LEN as nat, |i: int| 0u8)
            &&& f.comm_len == 0
        },
        args.pid is None && args.comm is Some ==> {
            let bytes = encode_utf8(args.comm.unwrap()@);
            &&& f.mode == FILTER_MODE_COMM
            &&& f.pid == 0
            &&& f.comm@ == comm_field(bytes)
            &&& f.comm_len == comm_field_len(bytes)
            &&& f.comm_len == (if bytes.len() < COMM_LEN { bytes.len() } else { COMM_LEN as nat })
            &&& f.comm@.len() == COMM_LEN
            &&& forall|j: int| 0 <= j < f.comm_len ==> #[trigger] f.comm@[j] == bytes[j]
            &&& forall|j: int| f.comm_len <= j < COMM_LEN ==> #[trigger] f.comm@[j] == 0
        },
        args.pid is None && args.comm is None ==> {
            &&& f.mode == FILTER_MODE_NONE
            &&& f.pid == 0
            &&& f.comm@ == Seq::new(COMM_LEN as nat, |i: int| 0u8)
            &&& f.comm_len == 0
        },
{
    let mut filter = Filter { mode: FILTER_MODE_NONE, pid: 0, comm: [0u8; COMM_LEN], comm_len: 0 };
    assert(filter.comm@ =~= Seq::new(COMM_LEN as nat, |i: int| 0u8));
    if let Some(pid) = args.pid {
        filter.mode = FILTER_MODE_PID;
        filter.pid = pid;
    } else if let Some(comm) = &args.comm {
        filter.mode = FILTER_MODE_COMM;
        let bytes = comm.as_str().as_bytes();
        let len = if bytes.len() < COMM_LEN {
            bytes.len()
        } else {
            COMM_LEN
        };
        let mut i: usize = 0;
        while i < len
            invariant
                len <= COMM_LEN,
                len <= bytes@.len(),
                i <= len,
                filter.comm@.len() == COMM_LEN,
                forall|j: int| 0 <= j < i ==> filter.comm@[j] == bytes@[j],
                forall|j: int| i <= j < COMM_LEN ==> filter.comm@[j] == 0,
                filter.mode == FILTER_MODE_COMM,
                filter.pid == 0,
            decreases len - i,
        {
            filter.comm[i] = bytes[i];
            i = i + 1;
        }
        filter.comm_len = len as u32;
        assert(filter.comm@ =~= comm_field(bytes@));
    }
    filter
}

/// A command name that fits in a filter and holds no NUL character is read
/// back from the filter's name field unchanged.
pub proof fn lemma_filter_comm_roundtrip(name: Seq<char>)
    requires
        encode_utf8(name).len() <= COMM_LEN,
        forall|i: int| 0 <= i < name.len() ==> name[i] != '\0',
    ensures
        buffer_text(comm_field(encode_utf8(name))) == name,
{
    let b = encode_utf8(name);
    let f = comm_field(b);
    lemma_encode_utf8_nonzero(name);
    assert forall|j: int| 0 <= j < b.len() implies f[j] != 0 by {
        assert(f[j] == b[j]);
    }
    if b.len() < COMM_LEN {
        lemma_c_string_at_nul(f, b.len() as int);
    } else {
        lemma_c_string_without_nul(f);
    }
    assert(c_string(f) =~= b);
    vstd::utf8::encode_utf8_valid_utf8(name);
    vstd::utf8::encode_utf8_decode_utf8(name);
}

/// The characters "pid=".
pub open spec fn pid_prefix() -> Seq<char> {
    seq!['p', 'i', 'd', '=']
}

/// The characters "comm=".
pub open spec fn comm_prefix() -> Seq<char> {
    seq!['c', 'o', 'm', 'm', '=']
}

/// The characters "none".
pub open spec fn none_label() -> Seq<char> {
    seq!['n', 'o', 'n', 'e']
}

/// The label of the active filter: "pid=<pid>", "comm=<name>" or "none",
/// with the pid winning as in `build_filter`.
pub open spec fn filter_label_spec(pid: Option<u32>, comm: Option<Seq<char>>) -> Seq<char> {
    match pid {
        Some(p) => pid_prefix() + decimal(p as nat),
        None => match comm {
            Some(c) => comm_prefix() + c,
            None => none_label(),
        },
    }
}

/// The label of the filter that `build_filter` makes from `args`.
pub fn filter_label(args: &Args) -> (r: String)
    ensures
        r@ == filter_label_spec(
            args.pid,
            match args.comm {
                Some(c) => Some(c@),
                None => None,
            },
        ),
{
    let mut buf: Vec<char> = Vec::new();
    if let Some(pid) = args.pid {
        push_str(&mut buf, "pid=");
        proof {
            reveal_strlit("pid=");
        }
        push_decimal(&mut buf, pid as u64);
    } else if let Some(comm) = &args.comm {
        push_str(&mut buf, "comm=");
        proof {
            reveal_strlit("comm=");
        }
        push_str(&mut buf, comm.as_str());
    } else {
        push_str(&mut buf, "none");
        proof {
            reveal_strlit("none");
        }
    }
    chars_to_string(buf.as_slice())
}

/// The characters "EXEC  pid=".
pub open spec fn exec_head() -> Seq<char> {
    seq!['E', 'X', 'E', 'C', ' ', ' ', 'p', 'i', 'd', '=']
}

/// The characters " ppid=".
pub open spec fn ppid_sep() -> Seq<char> {
    seq![' ', 'p', 'p', 'i', 'd', '=']
}

/// The characters " comm=".
pub open spec fn comm_sep() -> Seq<char> {
    seq![' ', 'c', 'o', 'm', 'm', '=']
}

/// The characters "OPEN  pid=".
pub open spec fn open_head() -> Seq<char> {
    seq!['O', 'P', 'E', 'N', ' ', ' ', 'p', 'i', 'd', '=']
}

/// The line that shows an event of `kind` with the payload bytes `p`:
/// "EXEC  pid=<pid> ppid=<ppid> comm=<name>" with pid and parent pid
/// left-aligned in eight columns, or "OPEN  pid=<pid> comm=<name> <path>"
/// with the pid in eight columns and the name in sixteen.
pub open spec fn event_line(kind: EventKind, p: Seq<u8>) -> Seq<char> {
    match kind {
        EventKind::Exec => exec_head() + pad_right(decimal(le_u32_at(p, 0) as nat), 8)
            + ppid_sep() + pad_right(decimal(le_u32_at(p, 4) as nat), 8) + comm_sep()
            + buffer_text(p.subrange(8, 24)),
        EventKind::Open => open_head() + pad_right(decimal(le_u32_at(p, 0) as nat), 8)
            + comm_sep() + pad_right(buffer_text(p.subrange(4, 20)), 16) + seq![' ']
            + buffer_text(p.subrange(20, PAYLOAD_LEN as int)),
    }
}

/// An event line holds no NUL where the texts of its name and path hold
/// none.
pub proof fn lemma_event_line_no_nul(kind: EventKind, p: Seq<u8>)
    requires
        kind == EventKind::Exec ==> no_nul(buffer_text(p.subrange(8, 24))),
        kind == EventKind::Open ==> no_nul(buffer_text(p.subrange(4, 20))) && no_nul(
            buffer_text(p.subrange(20, PAYLOAD_LEN as int)),
        ),
    ensures
        no_nul(event_line(kind, p)),
{
    let pid = pad_right(decimal(le_u32_at(p, 0) as nat), 8);
    lemma_decimal_no_nul(le_u32_at(p, 0) as nat);
    lemma_pad_right_no_nul(decimal(le_u32_at(p, 0) as nat), 8);
    assert(no_nul(comm_sep()));
    match kind {
        EventKind::Exec => {
            let ppid = pad_right(decimal(le_u32_at(p, 4) as nat), 8);
            lemma_decimal_no_nul(le_u32_at(p, 4) as nat);
            lemma_pad_right_no_nul(decimal(le_u32_at(p, 4) as nat), 8);
            assert(no_nul(exec_head()));
            assert(no_nul(ppid_sep()));
            lemma_no_nul_concat(exec_head(), pid);
            lemma_no_nul_concat(exec_head() + pid, ppid_sep());
            lemma_no_nul_concat(exec_head() + pid + ppid_sep(), ppid);
            lemma_no_nul_concat(exec_head() + pid + ppid_sep() + ppid, comm_sep());
            lemma_no_nul_concat(
                exec_head() + pid + ppid_sep() + ppid + comm_sep(),
                buffer_text(p.subrange(8, 24)),
            );
        },
        EventKind::Open => {
            let comm = pad_right(buffer_text(p.subrange(4, 20)), 16);
            lemma_pad_right_no_nul(buffer_text(p.subrange(4, 20)), 16);
            assert(no_nul(open_head()));
            assert(no_nul(seq![' ']));
            lemma_no_nul_concat(open_head(), pid);
            lemma_no_nul_concat(open_head() + pid, comm_sep());
            lemma_no_nul_concat(open_head() + pid + comm_sep(), comm);
            lemma_no_nul_concat(open_head() + pid + comm_sep() + comm, seq![' ']);
            lemma_no_nul_concat(
                open_head() + pid + comm_sep() + comm + seq![' '],
                buffer_text(p.subrange(20, PAYLOAD_LEN as int)),
            );
        },
    }
}

/// The columns of an exec line: "EXEC  pid=" in columns 0 to 9, the pid's
/// numeral from column 10, left-aligned in 8 columns where it fits, then
/// " ppid=" from column 18, the parent pid's numeral from column 24 in 8
/// columns where it fits, then " comm=" and the name from column 38.
pub proof fn lemma_exec_line_columns(p: Seq<u8>)
    requires
        decimal(le_u32_at(p, 0) as nat).len() <= 8,
        decimal(le_u32_at(p, 4) as nat).len() <= 8,
    ensures
        ({
            let line = event_line(EventKind::Exec, p);
            let pid = decimal(le_u32_at(p, 0) as nat);
            let ppid = decimal(le_u32_at(p, 4) as nat);
            &&& line.subrange(0, 10) == seq!['E', 'X', 'E', 'C', ' ', ' ', 'p', 'i', 'd', '=']
            &&& line.subrange(10, 10 + pid.len() as int) == pid
            &&& forall|i: int| 10 + pid.len() <= i < 18 ==> #[trigger] line[i] == ' '
            &&& line.subrange(18, 24) == seq![' ', 'p', 'p', 'i', 'd', '=']
            &&& line.subrange(24, 24 + ppid.len() as int) == ppid
            &&& forall|i: int| 24 + ppid.len() <= i < 32 ==> #[trigger] line[i] == ' '
            &&& line.subrange(32, 38) == seq![' ', 'c', 'o', 'm', 'm', '=']
            &&& line.skip(38) == buffer_text(p.subrange(8, 24))
        }),
{
    let pid = decimal(le_u32_at(p, 0) as nat);
    let ppid = decimal(le_u32_at(p, 4) as nat);
    let a = pad_right(pid, 8);
    let b = pad_right(ppid, 8);
    lemma_pad_right_layout(pid, 8);
    lemma_pad_right_layout(ppid, 8);
    let line = event_line(EventKind::Exec, p);
    assert(line == exec_head() + a + ppid_sep() + b + comm_sep() + buffer_text(p.subrange(8, 24)));
    assert(line.subrange(0, 10) =~= exec_head());
    assert(line.subrange(10, 10 + pid.len() as int) =~= pid);
    assert forall|i: int| 10 + pid.len() <= i < 18 implies #[trigger] line[i] == ' ' by {
        assert(line[i] == a[i - 10]);
    }
    assert(line.subrange(18, 24) =~= ppid_sep());
    assert(line.subrange(24, 24 + ppid.len() as int) =~= ppid);
    assert forall|i: int| 24 + ppid.len() <= i < 32 implies #[trigger] line[i] == ' ' by {
        assert(line[i] == b[i - 24]);
    }
    assert(line.subrange(32, 38) =~= comm_sep());
    assert(line.skip(38) =~= buffer_text(p.subrange(8, 24)));
}

/// The columns of an open line: "OPEN  pid=" in columns 0 to 9, the pid's
/// numeral from column 10 in 8 columns where it fits, " comm=" from column
/// 18, the name from column 24 in 16 columns where it fits, a space, and the
/// path from column 41.
pub proof fn lemma_open_line_columns(p: Seq<u8>)
    requires
        decimal(le_u32_at(p, 0) as nat).len() <= 8,
        buffer_text(p.subrange(4, 20)).len() <= 16,
    ensures
        ({
            let line = event_line(EventKind::Open, p);
            let pid = decimal(le_u32_at(p, 0) as nat);
            let name = buffer_text(p.subrange(4, 20));
            &&& line.subrange(0, 10) == seq!['O', 'P', 'E', 'N', ' ', ' ', 'p', 'i', 'd', '=']
            &&& line.subrange(10, 10 + pid.len() as int) == pid
            &&& forall|i: int| 10 + pid.len() <= i < 18 ==> #[trigger] line[i] == ' '
            &&& line.subrange(18, 24) == seq![' ', 'c', 'o', 'm', 'm', '=']
            &&& line.subrange(24, 24 + name.len() as int) == name
            &&& forall|i: int| 24 + name.len() <= i < 41 ==> #[trigger] line[i] == ' '
            &&& line.skip(41) == buffer_text(p.subrange(20, PAYLOAD_LEN as int))
        }),
{
    let pid = decimal(le_u32_at(p, 0) as nat);
    let name = buffer_text(p.subrange(4, 20));
    let a = pad_right(pid, 8);
    let c = pad_right(name, 16);
    lemma_pad_right_layout(pid, 8);
    lemma_pad_right_layout(name, 16);
    let line = event_line(EventKind::Open, p);
    assert(line.subrange(0, 10) =~= open_head());
    assert(line.subrange(10, 10 + pid.len() as int) =~= pid);
    assert forall|i: int| 10 + pid.len() <= i < 18 implies #[trigger] line[i] == ' ' by {
        assert(line[i] == a[i - 10]);
    }
    assert(line.subrange(18, 24) =~= comm_sep());
    assert(line.subrange(24, 24 + name.len() as int) =~= name);
    assert forall|i: int| 24 + name.len() <= i < 41 implies #[trigger] line[i] == ' ' by {
        if i < 40 {
            assert(line[i] == c[i - 24]);
        }
    }
    assert(line.skip(41) =~= buffer_text(p.subrange(20, PAYLOAD_LEN as int)));
}

/// The line that shows `event`, reading its payload in the view that its
/// kind names.
pub fn format_event(event: &Event) -> (r: String)
    ensures
        r@ == event_line(event.kind, event.payload.bytes@),
        no_nul(r@),
{
    let mut buf: Vec<char> = Vec::new();
    match event.kind {
        EventKind::Exec => {
            let p = event.payload.exec();
            push_str(&mut buf, "EXEC  pid=");
            let pid = crate::text::decimal_chars(p.pid as u64);
            push_padded(&mut buf, &pid, 8);
            push_str(&mut buf, " ppid=");
            let ppid = crate::text::decimal_chars(p.ppid as u64);
            push_padded(&mut buf, &ppid, 8);
            push_str(&mut buf, " comm=");
            let mut comm = buffer_chars(p.comm.as_slice());
            buf.append(&mut comm);
            proof {
                reveal_strlit("EXEC  pid=");
                reveal_strlit(" ppid=");
                reveal_strlit(" comm=");
                assert(buf@ =~= event_line(event.kind, event.payload.bytes@));
                lemma_event_line_no_nul(event.kind, event.payload.bytes@);
            }
        },
        EventKind::Open => {
            let p = event.payload.open();
            push_str(&mut buf, "OPEN  pid=");
            let pid = crate::text::decimal_chars(p.pid as u64);
            push_padded(&mut buf, &pid, 8);
            push_str(&mut buf, " comm=");
            let comm = buffer_chars(p.comm.as_slice());
            push_padded(&mut buf, &comm, 16);
            buf.push(' ');
            let mut filename = buffer_chars(p.filename.as_slice());
            buf.append(&mut filename);
            proof {
                reveal_strlit("OPEN  pid=");
                reveal_strlit(" comm=");
                assert(buf@ =~= event_line(event.kind, event.payload.bytes@));
                lemma_event_line_no_nul(event.kind, event.payload.bytes@);
            }
        },
    }
    chars_to_string(buf.as_slice())
}

/// The line of an event written from an `ExecPayload` shows that payload's
/// pid, parent pid and command name.
pub proof fn lemma_exec_line(p: ExecPayload)
    ensures
        event_line(EventKind::Exec, exec_payload_bytes(p)) == exec_head() + pad_right(
            decimal(p.pid as nat),
            8,
        ) + ppid_sep() + pad_right(decimal(p.ppid as nat), 8) + comm_sep() + buffer_text(p.comm@),
{
    lemma_exec_payload_roundtrip(p);
}

/// The line of an event written from an `OpenPayload` shows that payload's
/// pid, command name and path.
pub proof fn lemma_open_line(p: OpenPayload)
    ensures
        event_line(EventKind::Open, open_payload_bytes(p)) == open_head() + pad_right(
            decimal(p.pid as nat),
            8,
        ) + comm_sep() + pad_right(buffer_text(p.comm@), 16) + seq![' '] + buffer_text(
            p.filename@,
        ),
{
    lemma_open_payload_roundtrip(p);
}

/// Sum of a sequence of counters.
pub open spec fn sum(s: Seq<u64>) -> int
    decreases s.len(),
{
    if s.len() == 0 {
        0
    } else {
        sum(s.drop_last()) + s.last()
    }
}

/// A prefix sums to no more than the whole.
pub proof fn lemma_sum_prefix(s: Seq<u64>, i: int)
    requires
        0 <= i <= s.len(),
    ensures
        0 <= sum(s.take(i)) <= sum(s),
    decreases s.len(),
{
    if s.len() > 0 {
        if i == s.len() {
            assert(s.take(i) =~= s);
            lemma_sum_prefix(s.drop_last(), i - 1);
            assert(s.drop_last().take(i - 1) =~= s.drop_last());
        } else {
            lemma_sum_prefix(s.drop_last(), i);
            assert(s.drop_last().take(i) =~= s.take(i));
        }
    }
}

/// The sum of two sequences joined is the sum of their sums.
pub proof fn lemma_sum_concat(a: Seq<u64>, b: Seq<u64>)
    ensures
        sum(a + b) == sum(a) + sum(b),
        sum(Seq::<u64>::empty()) == 0,
    decreases b.len(),
{
    if b.len() == 0 {
        assert(a + b =~= a);
    } else {
        lemma_sum_concat(a, b.drop_last());
        assert((a + b).drop_last() =~= a + b.drop_last());
        assert((a + b).last() == b.last());
    }
}

/// A single value sums to itself.
pub proof fn lemma_sum_single(x: u64)
    ensures
        sum(seq![x]) == x,
{
    let one = seq![x];
    assert(one.drop_last() =~= Seq::<u64>::empty());
    assert(sum(one.drop_last()) == 0);
    assert(one.last() == x);
}

/// Taking one element out lowers the sum by that element.
pub proof fn lemma_sum_remove(s: Seq<u64>, k: int)
    requires
        0 <= k < s.len(),
    ensures
        sum(s) == sum(s.remove(k)) + s[k],
{
    let front = s.take(k);
    let back = s.skip(k + 1);
    assert(s =~= front + seq![s[k]] + back);
    assert(s.remove(k) =~= front + back);
    lemma_sum_concat(front + seq![s[k]], back);
    lemma_sum_concat(front, seq![s[k]]);
    lemma_sum_concat(front, back);
    let one = seq![s[k]];
    assert(one.drop_last() =~= Seq::<u64>::empty());
    assert(sum(one.drop_last()) == 0);
    assert(one.last() == s[k]);
    assert(sum(one) == s[k]);
    assert(sum(s) == sum(front + seq![s[k]] + back));
    assert(sum(s.remove(k)) == sum(front + back));
}

/// The order of the values does not change their sum.
pub proof fn lemma_sum_permutation(a: Seq<u64>, p: Seq<u64>)
    requires
        a.to_multiset() == p.to_multiset(),
    ensures
        sum(a) == sum(p),
    decreases a.len(),
{
    broadcast use vstd::seq_lib::group_to_multiset_ensures;

    if a.len() == 0 {
        assert(a.to_multiset().len() == 0);
        assert(p.to_multiset().len() == p.len());
        assert(p =~= a);
    } else {
        let x = a.last();
        let rest = a.drop_last();
        assert(a =~= rest.push(x));
        assert(a.to_multiset() == rest.to_multiset().insert(x));
        assert(p.to_multiset().count(x) > 0);
        assert(p.contains(x));
        let k = choose|k: int| 0 <= k < p.len() && p[k] == x;
        let q = p.remove(k);
        assert(q.to_multiset() =~= p.to_multiset().remove(x));
        assert(rest.to_multiset() =~= a.to_multiset().remove(x));
        lemma_sum_permutation(rest, q);
        lemma_sum_remove(p, k);
    }
}

/// Total of a per-CPU counter: the sum of the values of all CPUs.
pub fn sum_per_cpu(values: &[u64]) -> (r: u64)
    requires
        sum(values@) <= u64::MAX,
    ensures
        r == sum(values@),
{
    let mut total: u64 = 0;
    let mut i: usize = 0;
    assert(values@.take(0) =~= Seq::<u64>::empty());
    while i < values.len()
        invariant
            i <= values@.len(),
            sum(values@) <= u64::MAX,
            total == sum(values@.take(i as int)),
        decreases values.len() - i,
    {
        proof {
            lemma_sum_prefix(values@, i + 1);
            assert(values@.take(i + 1).drop_last() =~= values@.take(i as int));
        }
        total = total + values[i];
        i = i + 1;
    }
    assert(values@.take(values@.len() as int) =~= values@);
    total
}

/// Lowest latency of a histogram bucket, in microseconds: bucket `b` counts
/// requests that took from 2^b nanoseconds up to 2^(b+1).
pub open spec fn bucket_low_us(b: nat) -> int {
    pow2(b) as int / 1000
}

/// Highest latency of a histogram bucket, in microseconds: one nanosecond
/// below the next bucket, where that bound fits in 64 bits.
pub open spec fn bucket_high_us(b: nat) -> int {
    let next = 2 * pow2(b);
    (if next > u64::MAX { u64::MAX as int } else { next as int } - 1) / 1000
}

/// The product of `x` and `y`, or `u64::MAX` where it does not fit.
fn saturating_mul_u64(x: u64, y: u64) -> (r: u64)
    ensures
        r == (if x * y > u64::MAX { u64::MAX as int } else { x * y }),
{
    match x.checked_mul(y) {
        Some(p) => p,
        None => u64::MAX,
    }
}

/// The latency range of histogram bucket `bucket`, in microseconds.
pub fn bucket_to_us(bucket: usize) -> (r: (u64, u64))
    requires
        bucket < 64,
    ensures
        r.0 == bucket_low_us(bucket as nat),
        r.1 == bucket_high_us(bucket as nat),
{
    let shift: u64 = bucket as u64;
    proof {
        vstd::bits::lemma_u64_pow2_no_overflow(shift as nat);
        vstd::bits::lemma_u64_shl_is_mul(1, shift);
    }
    let low_ns: u64 = 1u64 << shift;
    let low_us = low_ns / 1000;
    let doubled = saturating_mul_u64(low_ns, 2);
    let high_us = (doubled - 1) / 1000;
    (low_us, high_us)
}

/// Each bucket's range is not empty, and it ends where the next begins:
/// the high bound of bucket `b` is at most the low bound of bucket `b + 1`.
pub proof fn lemma_bucket_ranges(b: nat)
    requires
        b < 64,
    ensures
        bucket_low_us(b) <= bucket_high_us(b),
        b < 63 ==> bucket_high_us(b) <= bucket_low_us(b + 1),
        b < 63 ==> bucket_low_us(b) <= bucket_low_us(b + 1),
{
    vstd::arithmetic::power2::lemma_pow2_pos(b);
    vstd::arithmetic::power2::lemma_pow2_unfold(b + 1);
    lemma2_to64();
    if b < 63 {
        lemma_pow2_strictly_increases(b + 1, 64);
    }
    lemma_pow2_strictly_increases(b, 64);
    let low = pow2(b) as int;
    let next = 2 * low;
    let top = if next > u64::MAX { u64::MAX as int } else { next };
    assert(low <= top - 1);
    assert(low / 1000 <= (top - 1) / 1000) by (nonlinear_arith)
        requires
            low <= top - 1,
            0 <= low,
    ;
    if b < 63 {
        assert((top - 1) / 1000 <= next / 1000) by (nonlinear_arith)
            requires
                top - 1 <= next,
                0 <= top - 1,
        ;
        assert(low / 1000 <= next / 1000) by (nonlinear_arith)
            requires
                low <= next,
                0 <= low,
        ;
    }
}

} // verus!
