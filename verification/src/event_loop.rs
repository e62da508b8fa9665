//! The decisions of the agent's main loop: what each input does to the
//! interface state, and whether to redraw or quit. The loop itself, which
//! waits on the timer, the ring buffer and the terminal, is the program's.
use vstd::prelude::*;

use crate::agent::{
    comm_sep, event_line, exec_head, format_event, lemma_exec_line, lemma_open_line, open_head,
    ppid_sep, sum,
};
use crate::common::{
    event_bytes, exec_payload_bytes, lemma_event_roundtrip, open_payload_bytes, parse_event,
    parse_event_spec, EventKind, ExecPayload, OpenPayload, HIST_BUCKETS,
};
use crate::text::{buffer_text, decimal, pad_right};
use crate::tui::{push_line, push_lines, update_histogram, AppState};

verus! {

/// What the main loop hands over.
pub enum LoopInput {
    /// The refresh timer fired; the per-CPU counters of each histogram bucket
    /// were read.
    Tick { per_cpu: Vec<Vec<u64>> },
    /// The ring buffer was readable; these records were taken from it.
    Records { records: Vec<Vec<u8>> },
    /// A key event: whether it is a press, and the character of the key if
    /// it is a character key.
    Key { press: bool, code: Option<char> },
    /// Any other terminal input, or none.
    Other,
}

/// What the main loop does next.
#[derive(Clone, Copy, PartialEq, Eq, Structural, Debug)]
pub enum LoopAction {
    /// Draw the interface again, then wait for the next input.
    Redraw,
    /// Leave the loop.
    Quit,
    /// Wait for the next input.
    Continue,
}

/// The lines of the records that read as events, in order; the others are
/// skipped.
pub open spec fn record_lines(records: Seq<Seq<u8>>) -> Seq<Seq<char>>
    decreases records.len(),
{
    if records.len() == 0 {
        Seq::empty()
    } else {
        let rest = record_lines(records.drop_last());
        match parse_event_spec(records.last()) {
            Some((kind, payload)) => rest.push(event_line(kind, payload)),
            None => rest,
        }
    }
}

/// Whether a ring-buffer record holds an event.
pub open spec fn holds_event(record: Seq<u8>) -> bool {
    parse_event_spec(record) is Some
}

/// The lines of a batch of records, one record at a time: no records give no
/// lines, and one more record at the end, whatever the batch before it, adds
/// its event's line at the end where it holds an event and nothing where it
/// does not.
pub proof fn lemma_record_lines_step(records: Seq<Seq<u8>>, record: Seq<u8>)
    ensures
        record_lines(Seq::empty()) == Seq::<Seq<char>>::empty(),
        record_lines(records.push(record)) == match parse_event_spec(record) {
            Some((kind, payload)) => record_lines(records).push(event_line(kind, payload)),
            None => record_lines(records),
        },
{
    assert(records.push(record).drop_last() =~= records);
}

/// A batch gives exactly one line for each of its records that holds an
/// event.
pub proof fn lemma_record_lines_count(records: Seq<Seq<u8>>)
    ensures
        record_lines(records).len() == records.filter(|r: Seq<u8>| holds_event(r)).len(),
    decreases records.len(),
{
    if records.len() > 0 {
        let rest = records.drop_last();
        lemma_record_lines_count(rest);
        assert(rest.push(records.last()) =~= records);
        rest.lemma_filter_len_push(|r: Seq<u8>| holds_event(r), records.last());
    } else {
        reveal(Seq::filter);
    }
}

/// The records before a point give no more lines than all the records.
pub proof fn lemma_record_lines_prefix(records: Seq<Seq<u8>>, i: int)
    requires
        0 <= i <= records.len(),
    ensures
        record_lines(records.take(i)).len() <= record_lines(records).len(),
    decreases records.len(),
{
    if i < records.len() {
        lemma_record_lines_prefix(records.drop_last(), i);
        assert(records.drop_last().take(i) =~= records.take(i));
    } else {
        assert(records.take(i) =~= records);
    }
}

/// A record written from an event is shown as that event's line.
pub proof fn lemma_record_shown(kind: EventKind, payload: Seq<u8>)
    requires
        payload.len() == crate::common::PAYLOAD_LEN,
    ensures
        record_lines(seq![event_bytes(kind, payload)]) == seq![event_line(kind, payload)],
{
    let rec = event_bytes(kind, payload);
    lemma_event_roundtrip(kind, payload);
    let recs = seq![rec];
    assert(recs.last() == rec);
    assert(recs.drop_last() =~= Seq::<Seq<u8>>::empty());
    assert(record_lines(recs.drop_last()) == Seq::<Seq<char>>::empty());
    assert(parse_event_spec(recs.last()) == Some((kind, payload)));
    let line = event_line(kind, payload);
    assert(record_lines(recs) == Seq::<Seq<char>>::empty().push(line));
    assert(Seq::<Seq<char>>::empty().push(line) =~= seq![line]);
}

/// A record that the exec probe submits is shown as the line with the
/// probe's pid, parent pid and command name.
pub proof fn lemma_exec_record_shown(p: ExecPayload)
    ensures
        record_lines(seq![event_bytes(EventKind::Exec, exec_payload_bytes(p))]) == seq![
            exec_head() + pad_right(decimal(p.pid as nat), 8) + ppid_sep() + pad_right(
                decimal(p.ppid as nat),
                8,
            ) + comm_sep() + buffer_text(p.comm@),
        ],
{
    lemma_record_shown(EventKind::Exec, exec_payload_bytes(p));
    lemma_exec_line(p);
}

/// A record that the open probe submits is shown as the line with the
/// probe's pid, command name and path.
pub proof fn lemma_open_record_shown(p: OpenPayload)
    ensures
        record_lines(seq![event_bytes(EventKind::Open, open_payload_bytes(p))]) == seq![
            open_head() + pad_right(decimal(p.pid as nat), 8) + comm_sep() + pad_right(
                buffer_text(p.comm@),
                16,
            ) + seq![' '] + buffer_text(p.filename@),
        ],
{
    lemma_record_shown(EventKind::Open, open_payload_bytes(p));
    lemma_open_line(p);
}

/// Whether a key ends the program: a press of `q`.
pub open spec fn quits(press: bool, code: Option<char>) -> bool {
    press && code == Some('q')
}

/// Shows the event that a ring-buffer record holds, if it holds one.
pub fn ingest_record(state: &mut AppState, bytes: &[u8]) -> (shown: bool)
    requires
        parse_event_spec(bytes@) is Some ==> old(state).event_count < u64::MAX,
    ensures
        shown == parse_event_spec(bytes@) is Some,
        parse_event_spec(bytes@) matches Some((kind, payload)) ==> {
            &&& final(state).lines() == push_line(old(state).lines(), event_line(kind, payload))
            &&& final(state).event_count == old(state).event_count + 1
        },
        parse_event_spec(bytes@) is None ==> {
            &&& final(state).lines() == old(state).lines()
            &&& final(state).event_count == old(state).event_count
        },
        final(state).histogram == old(state).histogram,
        final(state).filter_label == old(state).filter_label,
{
    match parse_event(bytes) {
        Some(event) => {
            state.push_event(format_event(&event));
            true
        },
        None => false,
    }
}

/// One turn of the main loop. A timer tick refreshes the histogram from the
/// per-CPU counters and redraws. Records from the ring buffer are shown, in
/// order, those that do not hold an event skipped, and the interface is
/// redrawn. A press of `q` quits; any other input changes nothing.
pub fn handle_input(state: &mut AppState, input: LoopInput) -> (action: LoopAction)
    requires
        input matches LoopInput::Tick { per_cpu } ==> {
            &&& per_cpu@.len() <= HIST_BUCKETS
            &&& forall|b: int| 0 <= b < per_cpu@.len() ==> sum(#[trigger] per_cpu@[b]@) <= u64::MAX
        },
        input matches LoopInput::Records { records } ==> old(state).event_count + record_lines(
            records@.map_values(|r: Vec<u8>| r@),
        ).len() <= u64::MAX,
    ensures
        match input {
            LoopInput::Tick { per_cpu } => {
                &&& action == LoopAction::Redraw
                &&& forall|b: int|
                    0 <= b < per_cpu@.len() ==> final(state).histogram@[b] == sum(
                        #[trigger] per_cpu@[b]@,
                    )
                &&& forall|b: int|
                    per_cpu@.len() <= b < HIST_BUCKETS ==> #[trigger] final(state).histogram@[b]
                        == old(state).histogram@[b]
                &&& final(state).lines() == old(state).lines()
                &&& final(state).event_count == old(state).event_count
                &&& final(state).filter_label == old(state).filter_label
            },
            LoopInput::Records { records } => {
                let lines = record_lines(records@.map_values(|r: Vec<u8>| r@));
                &&& action == LoopAction::Redraw
                &&& final(state).lines() == push_lines(old(state).lines(), lines)
                &&& final(state).event_count == old(state).event_count + lines.len()
                &&& final(state).event_count == old(state).event_count + records@.map_values(
                    |r: Vec<u8>| r@,
                ).filter(|r: Seq<u8>| holds_event(r)).len()
                &&& final(state).histogram == old(state).histogram
                &&& final(state).filter_label == old(state).filter_label
            },
            LoopInput::Key { press, code } => {
                &&& action == (if quits(press, code) {
                    LoopAction::Quit
                } else {
                    LoopAction::Continue
                })
                &&& *final(state) == *old(state)
            },
            LoopInput::Other => {
                &&& action == LoopAction::Continue
                &&& *final(state) == *old(state)
            },
        },
{
    match input {
        LoopInput::Tick { per_cpu } => {
            update_histogram(state, &per_cpu);
            LoopAction::Redraw
        },
        LoopInput::Records { records } => {
            let ghost all = records@.map_values(|r: Vec<u8>| r@);
            let ghost start = state.lines();
            let ghost count0 = state.event_count;
            let n = records.len();
            let mut i: usize = 0;
            assert(all.take(0) =~= Seq::<Seq<u8>>::empty());
            while i < n
                invariant
                    n == records@.len(),
                    all == records@.map_values(|r: Vec<u8>| r@),
                    i <= n,
                    count0 + record_lines(all).len() <= u64::MAX,
                    state.lines() == push_lines(start, record_lines(all.take(i as int))),
                    state.event_count == count0 + record_lines(all.take(i as int)).len(),
                    state.histogram == old(state).histogram,
                    state.filter_label == old(state).filter_label,
                decreases n - i,
            {
                proof {
                    lemma_record_lines_prefix(all, i + 1);
                    assert(all.take(i + 1).drop_last() =~= all.take(i as int));
                    assert(all.take(i + 1).last() == records@[i as int]@);
                }
                ingest_record(state, records[i].as_slice());
                proof {
                    let rest = record_lines(all.take(i as int));
                    if let Some((kind, payload)) = parse_event_spec(all[i as int]) {
                        assert(rest.push(event_line(kind, payload)).drop_last() =~= rest);
                    }
                }
                i = i + 1;
            }
            assert(all.take(n as int) =~= all);
            proof {
                lemma_record_lines_count(all);
            }
            LoopAction::Redraw
        },
        LoopInput::Key { press, code } => {
            let q = match code {
                Some(c) => press && c == 'q',
                None => false,
            };
            if q {
                LoopAction::Quit
            } else {
                LoopAction::Continue
            }
        },
        LoopInput::Other => LoopAction::Continue,
    }
}

} // verus!
