//! What the terminal interface shows: the recent event lines, the header,
//! and the bars of the latency histogram.
use std::collections::VecDeque;
use vstd::prelude::*;

use crate::agent::{bucket_low_us, sum, sum_per_cpu};
use crate::common::HIST_BUCKETS;
use crate::text::{chars_to_string, decimal, push_decimal, push_str};

verus! {

/// Number of event lines that the interface keeps.
pub const MAX_EVENTS: usize = 200;

/// One line of the event pane.
pub struct EventRecord {
    pub line: String,
}

/// What the interface shows: the most recent event lines, oldest first, the
/// latency histogram, the label of the active filter and the number of
/// events seen so far.
pub struct AppState {
    pub events: VecDeque<EventRecord>,
    pub histogram: [u64; HIST_BUCKETS],
    pub filter_label: String,
    pub event_count: u64,
}

/// The lines after one more is shown: the oldest line leaves when
/// `MAX_EVENTS` lines are already there.
pub open spec fn push_line(lines: Seq<Seq<char>>, line: Seq<char>) -> Seq<Seq<char>> {
    if lines.len() == MAX_EVENTS {
        lines.drop_first().push(line)
    } else {
        lines.push(line)
    }
}

/// The lines after several are shown, one after the other.
pub open spec fn push_lines(lines: Seq<Seq<char>>, new: Seq<Seq<char>>) -> Seq<Seq<char>>
    decreases new.len(),
{
    if new.len() == 0 {
        lines
    } else {
        push_line(push_lines(lines, new.drop_last()), new.last())
    }
}

/// The last `n` elements of `s` (all of them where there are fewer).
pub open spec fn last_n(s: Seq<Seq<char>>, n: nat) -> Seq<Seq<char>> {
    if s.len() <= n {
        s
    } else {
        s.skip(s.len() - n)
    }
}

/// The characters " ksight   filter: ".
pub open spec fn header_head() -> Seq<char> {
    seq![' ', 'k', 's', 'i', 'g', 'h', 't', ' ', ' ', ' ', 'f', 'i', 'l', 't', 'e', 'r', ':', ' ']
}

/// The characters "   events: ".
pub open spec fn header_events() -> Seq<char> {
    seq![' ', ' ', ' ', 'e', 'v', 'e', 'n', 't', 's', ':', ' ']
}

/// The characters "   q: quit".
pub open spec fn header_tail() -> Seq<char> {
    seq![' ', ' ', ' ', 'q', ':', ' ', 'q', 'u', 'i', 't']
}

/// The header line: the filter label and the number of events seen.
pub open spec fn header_spec(label: Seq<char>, count: u64) -> Seq<char> {
    header_head() + label + header_events() + decimal(count as nat) + header_tail()
}

/// One bar of the latency histogram: the low bound of its bucket, as
/// "<microseconds>us", and its count.
pub struct HistogramBar {
    pub label: String,
    pub value: u64,
}

/// The label of the bar of bucket `b`.
pub open spec fn bar_label(b: nat) -> Seq<char> {
    decimal(bucket_low_us(b) as nat) + seq!['u', 's']
}

/// The bars of the first `n` buckets of `h`: one for each bucket with a
/// count above zero, in bucket order.
pub open spec fn bars_spec(h: Seq<u64>, n: nat) -> Seq<(Seq<char>, u64)>
    decreases n,
{
    if n == 0 {
        Seq::empty()
    } else {
        let rest = bars_spec(h, (n - 1) as nat);
        if h[n - 1] > 0 {
            rest.push((bar_label((n - 1) as nat), h[n - 1]))
        } else {
            rest
        }
    }
}

/// What showing one event line does: `after` holds the lines of `before`
/// with `line` pushed, one more event counted, and the same histogram and
/// filter label.
pub open spec fn push_step(before: AppState, after: AppState, line: Seq<char>) -> bool {
    &&& after.lines() == push_line(before.lines(), line)
    &&& after.event_count == before.event_count + 1
    &&& after.histogram == before.histogram
    &&& after.filter_label == before.filter_label
}

/// The number of buckets among the first `n` of `h` with a count above zero.
pub open spec fn nonzero_buckets(h: Seq<u64>, n: int) -> nat {
    h.take(n).filter(|c: u64| c > 0).len()
}

/// The bars of the first `n` buckets: one bar for each bucket whose count is
/// above zero and none for the others, in bucket order. The bar of bucket `b`
/// comes after those of the nonzero buckets before it, is labelled by `b`'s
/// low bound and carries `b`'s count; so every bar's count is above zero.
pub proof fn lemma_bars_are_nonzero_buckets(h: Seq<u64>, n: nat)
    requires
        n <= h.len(),
    ensures
        bars_spec(h, n).len() == nonzero_buckets(h, n as int),
        forall|j: int| 0 <= j < bars_spec(h, n).len() ==> #[trigger] bars_spec(h, n)[j].1 > 0,
        forall|b: int|
            0 <= b < n && #[trigger] h[b] > 0 ==> {
                &&& nonzero_buckets(h, b) < bars_spec(h, n).len()
                &&& bars_spec(h, n)[nonzero_buckets(h, b) as int] == (bar_label(b as nat), h[b])
            },
    decreases n,
{
    if n == 0 {
        assert(h.take(0) =~= Seq::<u64>::empty());
        reveal(Seq::filter);
    } else {
        let m = (n - 1) as nat;
        lemma_bars_are_nonzero_buckets(h, m);
        assert(h.take(n as int) =~= h.take(m as int).push(h[m as int]));
        h.take(m as int).lemma_filter_len_push(|c: u64| c > 0, h[m as int]);
        let prev = bars_spec(h, m);
        let cur = bars_spec(h, n);
        assert forall|j: int| 0 <= j < cur.len() implies #[trigger] cur[j].1 > 0 by {
            if j < prev.len() {
                assert(cur[j] == prev[j]);
            }
        }
        assert forall|b: int| 0 <= b < n && #[trigger] h[b] > 0 implies {
            &&& nonzero_buckets(h, b) < cur.len()
            &&& cur[nonzero_buckets(h, b) as int] == (bar_label(b as nat), h[b])
        } by {
            if b < m {
                assert(cur[nonzero_buckets(h, b) as int] == prev[nonzero_buckets(h, b) as int]);
            }
        }
    }
}

impl AppState {
    /// The event lines, oldest first.
    pub open spec fn lines(&self) -> Seq<Seq<char>> {
        self.events@.map_values(|r: EventRecord| r.line@)
    }

    /// The interface holds no more than `MAX_EVENTS` lines.
    pub open spec fn wf(&self) -> bool {
        self.events@.len() <= MAX_EVENTS
    }

    /// A state with no events, an empty histogram and the given filter label.
    pub fn new(filter_label: String) -> (s: AppState)
        ensures
            s.events@.len() == 0,
            s.histogram@ == Seq::new(HIST_BUCKETS as nat, |i: int| 0u64),
            s.filter_label == filter_label,
            s.event_count == 0,
            s.wf(),
    {
        let s = AppState {
            events: VecDeque::with_capacity(MAX_EVENTS),
            histogram: [0u64; HIST_BUCKETS],
            filter_label,
            event_count: 0,
        };
        assert(s.histogram@ =~= Seq::new(HIST_BUCKETS as nat, |i: int| 0u64));
        s
    }

    /// Shows one more event line, dropping the oldest when `MAX_EVENTS` are
    /// shown already, and counts the event.
    pub fn push_event(&mut self, line: String)
        requires
            old(self).event_count < u64::MAX,
        ensures
            push_step(*old(self), *final(self), line@),
            old(self).wf() ==> final(self).wf(),
    {
        let ghost old_events = self.events@;
        if self.events.len() == MAX_EVENTS {
            self.events.pop_front();
        }
        let ghost line_view = line@;
        self.events.push_back(EventRecord { line });
        self.event_count = self.event_count + 1;
        proof {
            if old_events.len() == MAX_EVENTS {
                assert(self.lines() =~= old_events.map_values(|r: EventRecord| r.line@).drop_first().push(line_view));
            } else {
                assert(self.lines() =~= old_events.map_values(|r: EventRecord| r.line@).push(line_view));
            }
        }
    }

    /// The header line: " ksight   filter: <label>   events: <count>   q: quit".
    pub fn header_line(&self) -> (r: String)
        ensures
            r@ == header_spec(self.filter_label@, self.event_count),
    {
        let mut buf: Vec<char> = Vec::new();
        push_str(&mut buf, " ksight   filter: ");
        push_str(&mut buf, self.filter_label.as_str());
        push_str(&mut buf, "   events: ");
        push_decimal(&mut buf, self.event_count);
        push_str(&mut buf, "   q: quit");
        proof {
            reveal_strlit(" ksight   filter: ");
            reveal_strlit("   events: ");
            reveal_strlit("   q: quit");
            assert(buf@ =~= header_spec(self.filter_label@, self.event_count));
        }
        chars_to_string(buf.as_slice())
    }

    /// The event lines, newest first, as the event pane lists them.
    pub fn event_lines(&self) -> (r: Vec<String>)
        ensures
            r@.map_values(|s: String| s@) == self.lines().reverse(),
    {
        let n = self.events.len();
        let mut r: Vec<String> = Vec::new();
        let mut i: usize = 0;
        while i < n
            invariant
                n == self.events@.len(),
                i <= n,
                r@.len() == i,
                forall|j: int| 0 <= j < i ==> #[trigger] r@[j]@ == self.events@[n - 1 - j].line@,
            decreases n - i,
        {
            let line = self.events[n - 1 - i].line.clone();
            r.push(line);
            i = i + 1;
        }
        assert(r@.map_values(|s: String| s@) =~= self.lines().reverse());
        r
    }

    /// The bars of the latency histogram: one for each bucket with a count
    /// above zero, in bucket order, labelled by the bucket's low bound.
    pub fn histogram_bars(&self) -> (r: Vec<HistogramBar>)
        ensures
            r@.map_values(|b: HistogramBar| (b.label@, b.value)) == bars_spec(
                self.histogram@,
                HIST_BUCKETS as nat,
            ),
            r@.len() == nonzero_buckets(self.histogram@, HIST_BUCKETS as int),
            forall|j: int| 0 <= j < r@.len() ==> #[trigger] r@[j].value > 0,
            forall|b: int|
                0 <= b < HIST_BUCKETS && #[trigger] self.histogram@[b] > 0 ==> {
                    let j = nonzero_buckets(self.histogram@, b) as int;
                    &&& j < r@.len()
                    &&& r@[j].label@ == bar_label(b as nat)
                    &&& r@[j].value == self.histogram@[b]
                },
    {
        let mut r: Vec<HistogramBar> = Vec::new();
        let mut b: usize = 0;
        while b < HIST_BUCKETS
            invariant
                b <= HIST_BUCKETS,
                self.histogram@.len() == HIST_BUCKETS,
                r@.map_values(|x: HistogramBar| (x.label@, x.value)) == bars_spec(
                    self.histogram@,
                    b as nat,
                ),
            decreases HIST_BUCKETS - b,
        {
            let count = self.histogram[b];
            if count > 0 {
                let (low_us, _high_us) = crate::agent::bucket_to_us(b);
                let mut label: Vec<char> = Vec::new();
                push_decimal(&mut label, low_us);
                label.push('u');
                label.push('s');
                let ghost before = r@;
                r.push(HistogramBar { label: chars_to_string(label.as_slice()), value: count });
                proof {
                    assert(label@ =~= bar_label(b as nat));
                    assert(r@.map_values(|x: HistogramBar| (x.label@, x.value)) =~= before.map_values(
                        |x: HistogramBar| (x.label@, x.value),
                    ).push((bar_label(b as nat), count)));
                }
            }
            b = b + 1;
        }
        proof {
            let h = self.histogram@;
            lemma_bars_are_nonzero_buckets(h, HIST_BUCKETS as nat);
            let m = r@.map_values(|x: HistogramBar| (x.label@, x.value));
            assert forall|j: int| 0 <= j < r@.len() implies #[trigger] r@[j].value > 0 by {
                assert(m[j].1 == r@[j].value);
            }
            assert forall|k: int| 0 <= k < HIST_BUCKETS && #[trigger] h[k] > 0 implies {
                let j = nonzero_buckets(h, k) as int;
                &&& j < r@.len()
                &&& r@[j].label@ == bar_label(k as nat)
                &&& r@[j].value == h[k]
            } by {
                let j = nonzero_buckets(h, k) as int;
                assert(m[j] == (r@[j].label@, r@[j].value));
            }
        }
        r
    }
}

/// Sets the first buckets of the histogram, one for each entry of
/// `per_cpu`, to the total of that entry's per-CPU counters; the other
/// buckets keep their counts.
pub fn update_histogram(state: &mut AppState, per_cpu: &Vec<Vec<u64>>)
    requires
        per_cpu@.len() <= HIST_BUCKETS,
        forall|b: int| 0 <= b < per_cpu@.len() ==> sum(#[trigger] per_cpu@[b]@) <= u64::MAX,
    ensures
        forall|b: int| 0 <= b < per_cpu@.len() ==> final(state).histogram@[b] == sum(
            #[trigger] per_cpu@[b]@,
        ),
        forall|b: int|
            per_cpu@.len() <= b < HIST_BUCKETS ==> #[trigger] final(state).histogram@[b]
                == old(state).histogram@[b],
        final(state).events@ == old(state).events@,
        final(state).filter_label == old(state).filter_label,
        final(state).event_count == old(state).event_count,
{
    let n = per_cpu.len();
    let mut b: usize = 0;
    while b < n
        invariant
            n == per_cpu@.len(),
            b <= n,
            n <= HIST_BUCKETS,
            forall|k: int| 0 <= k < n ==> sum(#[trigger] per_cpu@[k]@) <= u64::MAX,
            state.histogram@.len() == HIST_BUCKETS,
            forall|k: int| 0 <= k < b ==> state.histogram@[k] == sum(#[trigger] per_cpu@[k]@),
            forall|k: int| b <= k < HIST_BUCKETS ==> #[trigger] state.histogram@[k] == old(
                state,
            ).histogram@[k],
            state.events@ == old(state).events@,
            state.filter_label == old(state).filter_label,
            state.event_count == old(state).event_count,
        decreases n - b,
    {
        let total = sum_per_cpu(per_cpu[b].as_slice());
        state.histogram[b] = total;
        b = b + 1;
    }
}

/// Showing one more line keeps the interface within `MAX_EVENTS` lines.
pub proof fn lemma_push_line_bounded(lines: Seq<Seq<char>>, line: Seq<char>)
    requires
        lines.len() <= MAX_EVENTS,
    ensures
        push_line(lines, line).len() <= MAX_EVENTS,
        push_line(lines, line).last() == line,
{
}

/// The interface shows the last `MAX_EVENTS` lines ever pushed: if it showed
/// the last `MAX_EVENTS` lines of a history, it shows after one more push the
/// last `MAX_EVENTS` lines of the history with that line added.
pub proof fn lemma_push_line_keeps_recent(history: Seq<Seq<char>>, line: Seq<char>)
    ensures
        push_line(last_n(history, MAX_EVENTS as nat), line) == last_n(
            history.push(line),
            MAX_EVENTS as nat,
        ),
{
    let kept = last_n(history, MAX_EVENTS as nat);
    if history.len() < MAX_EVENTS {
        assert(push_line(kept, line) =~= history.push(line));
    } else {
        assert(push_line(kept, line) =~= history.push(line).skip(
            history.push(line).len() - MAX_EVENTS,
        ));
    }
}

/// After any number of pushes, the interface shows the last `MAX_EVENTS`
/// lines of the whole history: what it showed of the history before, then
/// the new lines.
pub proof fn lemma_push_lines_keeps_recent(history: Seq<Seq<char>>, new: Seq<Seq<char>>)
    ensures
        push_lines(last_n(history, MAX_EVENTS as nat), new) == last_n(
            history + new,
            MAX_EVENTS as nat,
        ),
    decreases new.len(),
{
    if new.len() == 0 {
        assert(history + new =~= history);
    } else {
        lemma_push_lines_keeps_recent(history, new.drop_last());
        lemma_push_line_keeps_recent(history + new.drop_last(), new.last());
        assert((history + new.drop_last()).push(new.last()) =~= history + new);
    }
}

/// Pushing lines onto at most `MAX_EVENTS` lines leaves at most
/// `MAX_EVENTS` lines.
pub proof fn lemma_push_lines_bounded(lines: Seq<Seq<char>>, new: Seq<Seq<char>>)
    requires
        lines.len() <= MAX_EVENTS,
    ensures
        push_lines(lines, new).len() <= MAX_EVENTS,
    decreases new.len(),
{
    if new.len() > 0 {
        lemma_push_lines_bounded(lines, new.drop_last());
    }
}

/// Starting from no lines, pushing `lines` one after the other leaves the
/// last `MAX_EVENTS` of them (all of them where there are fewer), oldest
/// first.
pub proof fn lemma_pushes_keep_newest(lines: Seq<Seq<char>>)
    ensures
        push_lines(Seq::empty(), lines).len() == (if lines.len() < MAX_EVENTS {
            lines.len()
        } else {
            MAX_EVENTS as nat
        }),
        forall|j: int|
            0 <= j < push_lines(Seq::empty(), lines).len() ==> #[trigger] push_lines(
                Seq::empty(),
                lines,
            )[j] == lines[lines.len() - push_lines(Seq::empty(), lines).len() + j],
{
    lemma_push_lines_keeps_recent(Seq::empty(), lines);
    assert(Seq::<Seq<char>>::empty() + lines =~= lines);
    assert(last_n(Seq::empty(), MAX_EVENTS as nat) =~= Seq::<Seq<char>>::empty());
}

/// The states that `push_event` goes through when it is called with
/// `lines[0]`, `lines[1]`, ... in order on a new state: after the calls the
/// state shows the newest `MAX_EVENTS` lines, oldest first, has counted
/// every line, evicted ones too, and keeps the new state's histogram and
/// filter label.
pub proof fn lemma_push_event_calls(states: Seq<AppState>, lines: Seq<Seq<char>>)
    requires
        states.len() == lines.len() + 1,
        states[0].events@.len() == 0,
        states[0].event_count == 0,
        forall|i: int| 0 <= i < lines.len() ==> push_step(states[i], #[trigger] states[i + 1], lines[i]),
    ensures
        states.last().lines() == last_n(lines, MAX_EVENTS as nat),
        states.last().lines() == push_lines(Seq::empty(), lines),
        states.last().event_count == lines.len(),
        states.last().histogram == states[0].histogram,
        states.last().filter_label == states[0].filter_label,
    decreases lines.len(),
{
    if lines.len() == 0 {
        assert(states[0].lines() =~= Seq::<Seq<char>>::empty());
        assert(last_n(lines, MAX_EVENTS as nat) =~= lines);
    } else {
        let n = lines.len() - 1;
        let earlier = states.take(n + 1);
        let firsts = lines.take(n);
        assert forall|i: int| 0 <= i < firsts.len() implies push_step(
            earlier[i],
            #[trigger] earlier[i + 1],
            firsts[i],
        ) by {
            assert(push_step(states[i], states[i + 1], lines[i]));
        }
        lemma_push_event_calls(earlier, firsts);
        assert(push_step(states[n], states[n + 1], lines[n]));
        assert(earlier.last() == states[n]);
        assert(firsts =~= lines.drop_last());
        lemma_push_lines_keeps_recent(Seq::empty(), lines);
        assert(Seq::<Seq<char>>::empty() + lines =~= lines);
        assert(last_n(Seq::empty(), MAX_EVENTS as nat) =~= Seq::<Seq<char>>::empty());
    }
}

} // verus!
