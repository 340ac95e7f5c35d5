//! In-process telemetry: named counters and timings of named operations.

use std::time::Instant;
use vstd::prelude::*;
use crate::limits::{elapsed_since, instant_now, nanos_of, TimeSpan};
use crate::text::same_text;

verus! {

/// The value of counter `name` in `c`, or 0 when it has none.
pub open spec fn counter_value(c: Seq<(String, u64)>, name: Seq<char>) -> u64
    decreases c.len(),
{
    if c.len() == 0 {
        0
    } else if c.last().0@ == name {
        c.last().1
    } else {
        counter_value(c.drop_last(), name)
    }
}

/// How many of `s` are at most `m`.
pub open spec fn count_le(s: Seq<u64>, m: u64) -> nat
    decreases s.len(),
{
    if s.len() == 0 {
        0
    } else {
        count_le(s.drop_last(), m) + if s.last() <= m { 1nat } else { 0nat }
    }
}

/// The sum of `s`.
pub open spec fn sum_of(s: Seq<u64>) -> nat
    decreases s.len(),
{
    if s.len() == 0 { 0 } else { sum_of(s.drop_last()) + s.last() as nat }
}

/// The nanoseconds of each span.
pub open spec fn nanos_view(s: Seq<TimeSpan>) -> Seq<u64> {
    s.map_values(|t: TimeSpan| t.nanos)
}

/// Statistics of the recorded durations of one operation.
#[derive(Debug, Clone, Copy, PartialEq, Eq, Structural)]
pub struct TimingStats {
    /// Number of durations.
    pub count: usize,
    /// Shortest.
    pub min: TimeSpan,
    /// Longest.
    pub max: TimeSpan,
    /// Mean, rounded down.
    pub avg: TimeSpan,
    /// The middle one in sorted order (the upper one of two).
    pub median: TimeSpan,
    /// Sum, saturating at the largest span.
    pub total: TimeSpan,
}

/// Whether `st` gives the statistics of the non-empty `s`.
pub open spec fn stats_of(s: Seq<u64>, st: TimingStats) -> bool {
    &&& st.count == s.len()
    &&& (exists|i: int| 0 <= i < s.len() && s[i] == st.min.nanos) && (forall|i: int| 0 <= i < s.len() ==> st.min.nanos <= #[trigger] s[i])
    &&& (exists|i: int| 0 <= i < s.len() && s[i] == st.max.nanos) && (forall|i: int| 0 <= i < s.len() ==> st.max.nanos >= #[trigger] s[i])
    &&& st.total.nanos == if sum_of(s) <= u64::MAX { sum_of(s) } else { u64::MAX as nat }
    &&& st.avg.nanos == st.total.nanos / (s.len() as u64)
    &&& (exists|i: int| 0 <= i < s.len() && s[i] == st.median.nanos)
    &&& count_le(s, st.median.nanos) > s.len() / 2
    &&& forall|i: int| 0 <= i < s.len() && count_le(s, #[trigger] s[i]) > s.len() / 2 ==> st.median.nanos <= s[i]
}

/// Whether `e` names an operation of `t` with the statistics of its
/// durations.
pub open spec fn summarizes(t: Seq<(String, Vec<TimeSpan>)>, e: (String, TimingStats)) -> bool {
    exists|k: int| 0 <= k < t.len() && (#[trigger] t[k]).0@ == e.0@ && stats_of(nanos_view(t[k].1@), e.1)
}

/// Whether `new` is `old` with duration `d` appended to the durations of
/// operation `name`: to its entry when it has one, else in a new entry at
/// the end.
pub open spec fn appended(old: Seq<(String, Vec<TimeSpan>)>, new: Seq<(String, Vec<TimeSpan>)>, name: Seq<char>, d: TimeSpan) -> bool {
    ||| exists|t: int| 0 <= t < old.len() && (#[trigger] old[t]).0@ == name && new.len() == old.len() && new[t].0@ == name
        && new[t].1@ == old[t].1@.push(d) && forall|j: int| 0 <= j < old.len() && j != t ==> #[trigger] new[j] == old[j]
    ||| (forall|j: int| 0 <= j < old.len() ==> (#[trigger] old[j]).0@ != name) && new.len() == old.len() + 1
        && new.subrange(0, old.len() as int) == old && new.last().0@ == name && new.last().1@ == seq![d]
}

/// Whether `out` reports operation `name`.
pub open spec fn reported(out: Seq<(String, TimingStats)>, name: Seq<char>) -> bool {
    exists|i: int| 0 <= i < out.len() && (#[trigger] out[i]).0@ == name
}

/// Counters and timings of named operations; nothing is recorded while
/// disabled.
#[derive(Debug)]
pub struct Telemetry {
    /// Counter names with their values.
    pub counters: Vec<(String, u64)>,
    /// Operation names with their recorded durations.
    pub timings: Vec<(String, Vec<TimeSpan>)>,
    /// Operations being timed, with their start.
    pub start_times: Vec<(String, Instant)>,
    /// Whether recording is on.
    pub enabled: bool,
}

/// All counters and timing statistics at one moment.
#[derive(Debug, Clone)]
pub struct TelemetrySummary {
    /// Counter names with their values.
    pub counters: Vec<(String, u64)>,
    /// Operation names with their statistics.
    pub timings: Vec<(String, TimingStats)>,
}

/// The position of the last entry of `v` named `name`.
fn find_counter(v: &Vec<(String, u64)>, name: &str) -> (r: Option<usize>)
    ensures
        r matches Some(k) ==> k < v@.len() && v@[k as int].0@ == name@ && forall|j: int| k < j < v@.len() ==> (#[trigger] v@[j]).0@ != name@,
        r is None ==> forall|j: int| 0 <= j < v@.len() ==> (#[trigger] v@[j]).0@ != name@,
{
    let mut i: usize = v.len();
    while i > 0
        invariant
            i <= v@.len(),
            forall|j: int| i <= j < v@.len() ==> (#[trigger] v@[j]).0@ != name@,
        decreases i,
    {
        if same_text(v[i - 1].0.as_str(), name) {
            return Some(i - 1);
        }
        i = i - 1;
    }
    None
}

/// The value of the counter after the last entry, named `name`, when no
/// later entry has that name.
proof fn lemma_counter_value_at(c: Seq<(String, u64)>, name: Seq<char>, k: int)
    requires
        0 <= k < c.len(),
        c[k].0@ == name,
        forall|j: int| k < j < c.len() ==> (#[trigger] c[j]).0@ != name,
    ensures
        counter_value(c, name) == c[k].1,
    decreases c.len(),
{
    if k < c.len() - 1 {
        assert(c.last() == c[c.len() - 1]);
        let d = c.drop_last();
        assert forall|j: int| k < j < d.len() implies (#[trigger] d[j]).0@ != name by {
            assert(d[j] == c[j]);
        }
        lemma_counter_value_at(d, name, k);
    }
}

/// A counter with no entry is 0.
proof fn lemma_counter_value_absent(c: Seq<(String, u64)>, name: Seq<char>)
    requires
        forall|j: int| 0 <= j < c.len() ==> (#[trigger] c[j]).0@ != name,
    ensures
        counter_value(c, name) == 0,
    decreases c.len(),
{
    if c.len() > 0 {
        assert(c.last() == c[c.len() - 1]);
        let d = c.drop_last();
        assert forall|j: int| 0 <= j < d.len() implies (#[trigger] d[j]).0@ != name by {
            assert(d[j] == c[j]);
        }
        lemma_counter_value_absent(d, name);
    }
}

/// Replacing the entry at `k` changes only the counter it names.
proof fn lemma_counter_value_update(c: Seq<(String, u64)>, k: int, e: (String, u64), other: Seq<char>)
    requires
        0 <= k < c.len(),
        e.0@ == c[k].0@,
        other != c[k].0@,
    ensures
        counter_value(c.update(k, e), other) == counter_value(c, other),
    decreases c.len(),
{
    let u = c.update(k, e);
    if k < c.len() - 1 {
        assert(u.drop_last() =~= c.drop_last().update(k, e));
        assert(u.last() == c.last());
        lemma_counter_value_update(c.drop_last(), k, e, other);
    } else {
        assert(u.drop_last() =~= c.drop_last());
    }
}

/// `count_le` of the largest element is the length.
proof fn lemma_count_le_all(s: Seq<u64>, m: u64)
    requires
        forall|i: int| 0 <= i < s.len() ==> #[trigger] s[i] <= m,
    ensures
        count_le(s, m) == s.len(),
    decreases s.len(),
{
    if s.len() > 0 {
        assert(s.last() == s[s.len() - 1]);
        let d = s.drop_last();
        assert forall|i: int| 0 <= i < d.len() implies #[trigger] d[i] <= m by {
            assert(d[i] == s[i]);
        }
        lemma_count_le_all(d, m);
    }
}

/// How many of `s` are at most `m`.
fn count_at_most(s: &Vec<TimeSpan>, m: u64) -> (r: usize)
    ensures
        r == count_le(nanos_view(s@), m),
{
    let ghost v = nanos_view(s@);
    let mut n: usize = 0;
    let mut i: usize = 0;
    while i < s.len()
        invariant
            v == nanos_view(s@),
            i <= s@.len(),
            n <= i,
            n == count_le(v.subrange(0, i as int), m),
        decreases s@.len() - i,
    {
        proof {
            let p = v.subrange(0, i + 1);
            assert(p.drop_last() =~= v.subrange(0, i as int));
            assert(p.last() == s@[i as int].nanos);
        }
        if s[i].nanos <= m {
            n = n + 1;
        }
        i = i + 1;
    }
    assert(v.subrange(0, s@.len() as int) =~= v);
    n
}

/// Statistics of the non-empty list of durations `s`.
fn stats_of_spans(s: &Vec<TimeSpan>) -> (st: TimingStats)
    requires
        s@.len() > 0,
    ensures
        stats_of(nanos_view(s@), st),
{
    let ghost v = nanos_view(s@);
    let n = s.len();
    let mut min: u64 = s[0].nanos;
    let mut max: u64 = s[0].nanos;
    let mut total: u64 = 0;
    let mut i: usize = 0;
    proof {
        assert(v.subrange(0, 0) =~= Seq::<u64>::empty());
        assert(v[0] == s@[0].nanos);
    }
    while i < n
        invariant
            n == s@.len(),
            v == nanos_view(s@),
            n > 0,
            i <= n,
            exists|j: int| 0 <= j < n && v[j] == min,
            exists|j: int| 0 <= j < n && v[j] == max,
            forall|j: int| 0 <= j < i ==> min <= #[trigger] v[j],
            forall|j: int| 0 <= j < i ==> max >= #[trigger] v[j],
            total == if sum_of(v.subrange(0, i as int)) <= u64::MAX { sum_of(v.subrange(0, i as int)) } else { u64::MAX as nat },
        decreases n - i,
    {
        let x = s[i].nanos;
        assert(v[i as int] == x);
        if x < min {
            min = x;
        }
        if x > max {
            max = x;
        }
        proof {
            let p = v.subrange(0, i + 1);
            assert(p.drop_last() =~= v.subrange(0, i as int));
            assert(p.last() == x);
        }
        total = total.saturating_add(x);
        i = i + 1;
    }
    assert(v.subrange(0, n as int) =~= v);
    let half = n / 2;
    let mut median: u64 = max;
    proof {
        lemma_count_le_all(v, max);
    }
    let mut j: usize = 0;
    while j < n
        invariant
            n == s@.len(),
            v == nanos_view(s@),
            half == n / 2,
            j <= n,
            exists|k: int| 0 <= k < n && v[k] == median,
            count_le(v, median) > half,
            forall|k: int| 0 <= k < j && count_le(v, #[trigger] v[k]) > half ==> median <= v[k],
        decreases n - j,
    {
        let x = s[j].nanos;
        assert(v[j as int] == x);
        let c = count_at_most(s, x);
        if c > half && x < median {
            median = x;
        }
        j = j + 1;
    }
    TimingStats {
        count: n,
        min: TimeSpan { nanos: min },
        max: TimeSpan { nanos: max },
        avg: TimeSpan { nanos: total / n as u64 },
        median: TimeSpan { nanos: median },
        total: TimeSpan { nanos: total },
    }
}

impl Telemetry {
    /// No two counters share a name.
    pub open spec fn wf(&self) -> bool {
        forall|i: int, j: int| 0 <= i < j < self.counters@.len() ==> (#[trigger] self.counters@[i]).0@ != (#[trigger] self.counters@[j]).0@
    }

    /// The value of counter `name`.
    pub open spec fn counter(&self, name: Seq<char>) -> u64 {
        counter_value(self.counters@, name)
    }

    /// Recording on, nothing recorded.
    pub fn new() -> (t: Telemetry)
        ensures
            t.wf(),
            t.enabled,
            t.counters@.len() == 0 && t.timings@.len() == 0 && t.start_times@.len() == 0,
    {
        Telemetry { counters: Vec::new(), timings: Vec::new(), start_times: Vec::new(), enabled: true }
    }

    /// Recording off, nothing recorded.
    pub fn disabled() -> (t: Telemetry)
        ensures
            t.wf(),
            !t.enabled,
            t.counters@.len() == 0 && t.timings@.len() == 0 && t.start_times@.len() == 0,
    {
        Telemetry { counters: Vec::new(), timings: Vec::new(), start_times: Vec::new(), enabled: false }
    }

    /// Whether recording is on.
    pub fn is_enabled(&self) -> (r: bool)
        ensures
            r == self.enabled,
    {
        self.enabled
    }

    /// Turns recording on or off.
    pub fn set_enabled(&mut self, enabled: bool)
        ensures
            final(self).enabled == enabled,
            final(self).counters == old(self).counters,
            final(self).timings == old(self).timings,
            final(self).start_times == old(self).start_times,
    {
        self.enabled = enabled;
    }

    /// Adds 1 to counter `name` while recording.
    pub fn increment_counter(&mut self, name: &str)
        requires
            old(self).wf(),
        ensures
            final(self).wf(),
            final(self).enabled == old(self).enabled,
            old(self).enabled ==> final(self).counter(name@) == if old(self).counter(name@) < u64::MAX {
                (old(self).counter(name@) + 1) as u64
            } else {
                u64::MAX
            },
            !old(self).enabled ==> final(self).counters@ == old(self).counters@,
            forall|other: Seq<char>| other != name@ ==> #[trigger] final(self).counter(other) == old(self).counter(other),
    {
        self.add_counter(name, 1);
    }

    /// Adds `value` to counter `name` while recording, saturating.
    pub fn add_counter(&mut self, name: &str, value: u64)
        requires
            old(self).wf(),
        ensures
            final(self).wf(),
            final(self).enabled == old(self).enabled,
            old(self).enabled ==> final(self).counter(name@) == if old(self).counter(name@) + value <= u64::MAX {
                (old(self).counter(name@) + value) as u64
            } else {
                u64::MAX
            },
            !old(self).enabled ==> final(self).counters@ == old(self).counters@,
            forall|other: Seq<char>| other != name@ ==> #[trigger] final(self).counter(other) == old(self).counter(other),
    {
        if !self.enabled {
            return;
        }
        let ghost before = self.counters@;
        match find_counter(&self.counters, name) {
            Some(k) => {
                let v = self.counters[k].1.saturating_add(value);
                let key = self.counters[k].0.clone();
                proof {
                    lemma_counter_value_at(before, name@, k as int);
                }
                self.counters.set(k, (key, v));
                proof {
                    assert(self.counters@ == before.update(k as int, (key, v)));
                    assert forall|j: int| k < j < self.counters@.len() implies (#[trigger] self.counters@[j]).0@ != name@ by {
                        assert(self.counters@[j] == before[j]);
                    }
                    lemma_counter_value_at(self.counters@, name@, k as int);
                    assert forall|other: Seq<char>| other != name@ implies #[trigger] counter_value(self.counters@, other) == counter_value(before, other) by {
                        lemma_counter_value_update(before, k as int, (key, v), other);
                    }
                    assert forall|a: int, b: int| 0 <= a < b < self.counters@.len() implies (#[trigger] self.counters@[a]).0@ != (#[trigger] self.counters@[b]).0@ by {
                        assert(self.counters@[a].0@ == before[a].0@ && self.counters@[b].0@ == before[b].0@);
                    }
                }
            },
            None => {
                proof {
                    lemma_counter_value_absent(before, name@);
                }
                self.counters.push((name.to_owned(), value));
                proof {
                    assert(self.counters@.drop_last() =~= before);
                    assert forall|other: Seq<char>| other != name@ implies #[trigger] counter_value(self.counters@, other) == counter_value(before, other) by {}
                    assert forall|a: int, b: int| 0 <= a < b < self.counters@.len() implies (#[trigger] self.counters@[a]).0@ != (#[trigger] self.counters@[b]).0@ by {
                        assert(self.counters@[a] == before[a]);
                        if b < before.len() {
                            assert(self.counters@[b] == before[b]);
                        }
                    }
                }
            },
        }
    }

    /// The value of counter `name`, 0 when it was never counted.
    pub fn get_counter(&self, name: &str) -> (r: u64)
        ensures
            r == self.counter(name@),
    {
        match find_counter(&self.counters, name) {
            Some(k) => {
                proof {
                    lemma_counter_value_at(self.counters@, name@, k as int);
                }
                self.counters[k].1
            },
            None => {
                proof {
                    lemma_counter_value_absent(self.counters@, name@);
                }
                0
            },
        }
    }

    /// The position of the timing of operation `name`.
    fn find_timing(&self, name: &str) -> (r: Option<usize>)
        ensures
            r matches Some(k) ==> k < self.timings@.len() && self.timings@[k as int].0@ == name@,
            r is None ==> forall|j: int| 0 <= j < self.timings@.len() ==> (#[trigger] self.timings@[j]).0@ != name@,
    {
        let mut i: usize = 0;
        while i < self.timings.len()
            invariant
                i <= self.timings@.len(),
                forall|j: int| 0 <= j < i ==> (#[trigger] self.timings@[j]).0@ != name@,
            decreases self.timings@.len() - i,
        {
            if same_text(self.timings[i].0.as_str(), name) {
                return Some(i);
            }
            i = i + 1;
        }
        None
    }

    /// The position of the running timing of operation `name`.
    fn find_start(&self, name: &str) -> (r: Option<usize>)
        ensures
            r matches Some(k) ==> k < self.start_times@.len() && self.start_times@[k as int].0@ == name@,
            r is None ==> forall|j: int| 0 <= j < self.start_times@.len() ==> (#[trigger] self.start_times@[j]).0@ != name@,
    {
        let mut i: usize = 0;
        while i < self.start_times.len()
            invariant
                i <= self.start_times@.len(),
                forall|j: int| 0 <= j < i ==> (#[trigger] self.start_times@[j]).0@ != name@,
            decreases self.start_times@.len() - i,
        {
            if same_text(self.start_times[i].0.as_str(), name) {
                return Some(i);
            }
            i = i + 1;
        }
        None
    }

    /// Starts timing operation `name` while recording, restarting it if it
    /// was running.
    pub fn start_timing(&mut self, name: &str)
        requires
            old(self).wf(),
        ensures
            final(self).wf(),
            final(self).enabled == old(self).enabled,
            final(self).counters@ == old(self).counters@,
            final(self).timings@ == old(self).timings@,
            old(self).enabled ==> exists|k: int| 0 <= k < final(self).start_times@.len() && (#[trigger] final(self).start_times@[k]).0@ == name@,
            !old(self).enabled ==> final(self).start_times@ == old(self).start_times@,
    {
        if !self.enabled {
            return;
        }
        let now = instant_now();
        match self.find_start(name) {
            Some(k) => {
                self.start_times.remove(k);
            },
            None => {},
        }
        self.start_times.push((name.to_owned(), now));
        assert(self.start_times@[self.start_times@.len() - 1].0@ == name@);
    }

    /// Ends timing operation `name`: while recording, and when it was
    /// started, records and returns how long it ran.
    pub fn end_timing(&mut self, name: &str) -> (r: Option<TimeSpan>)
        requires
            old(self).wf(),
        ensures
            final(self).wf(),
            final(self).enabled == old(self).enabled,
            final(self).counters@ == old(self).counters@,
            r is Some <==> old(self).enabled && exists|k: int| 0 <= k < old(self).start_times@.len()
                && (#[trigger] old(self).start_times@[k]).0@ == name@,
            r matches Some(d) ==> appended(old(self).timings@, final(self).timings@, name@, d)
                && exists|k: int| 0 <= k < old(self).start_times@.len() && (#[trigger] old(self).start_times@[k]).0@ == name@
                && final(self).start_times@ == old(self).start_times@.remove(k),
            r is None ==> final(self).timings@ == old(self).timings@ && final(self).start_times@ == old(self).start_times@,
    {
        if !self.enabled {
            return None;
        }
        let k = match self.find_start(name) {
            Some(k) => k,
            None => return None,
        };
        assert(self.start_times@[k as int].0@ == name@);
        let (_, start) = self.start_times.remove(k);
        let n = nanos_of(elapsed_since(&start));
        let d = TimeSpan { nanos: if n > u64::MAX as u128 { u64::MAX } else { n as u64 } };
        let ghost before = self.timings@;
        match self.find_timing(name) {
            Some(t) => {
                let (key, mut spans) = self.timings.remove(t);
                let ghost old_spans = spans@;
                spans.push(d);
                self.timings.insert(t, (key, spans));
                proof {
                    assert(self.timings@ =~= before.update(t as int, self.timings@[t as int]));
                    assert(self.timings@[t as int].1@ == old_spans.push(d));
                    assert(old_spans == before[t as int].1@);
                    assert forall|j: int| 0 <= j < before.len() && j != t implies #[trigger] self.timings@[j] == before[j] by {}
                }
            },
            None => {
                let mut spans: Vec<TimeSpan> = Vec::new();
                spans.push(d);
                self.timings.push((name.to_owned(), spans));
                proof {
                    assert(self.timings@.subrange(0, before.len() as int) =~= before);
                    assert(self.timings@.last().1@ =~= seq![d]);
                }
            },
        }
        Some(d)
    }

    /// Statistics of the recorded durations of operation `name`, when any
    /// were recorded.
    pub fn get_timing_stats(&self, name: &str) -> (r: Option<TimingStats>)
        ensures
            r matches Some(st) ==> exists|k: int| 0 <= k < self.timings@.len() && (#[trigger] self.timings@[k]).0@ == name@
                && stats_of(nanos_view(self.timings@[k].1@), st),
            r is None ==> (forall|k: int| 0 <= k < self.timings@.len() ==> (#[trigger] self.timings@[k]).0@ != name@)
                || exists|k: int| 0 <= k < self.timings@.len() && (#[trigger] self.timings@[k]).0@ == name@
                && self.timings@[k].1@.len() == 0,
    {
        match self.find_timing(name) {
            Some(k) => {
                let spans = &self.timings[k].1;
                if spans.len() == 0 {
                    None
                } else {
                    Some(stats_of_spans(spans))
                }
            },
            None => None,
        }
    }

    /// Every counter, and the statistics of every operation with a recorded
    /// duration.
    pub fn get_summary(&self) -> (r: TelemetrySummary)
        ensures
            r.counters@ == self.counters@,
            forall|i: int| 0 <= i < r.timings@.len() ==> summarizes(self.timings@, #[trigger] r.timings@[i]),
            forall|k: int| 0 <= k < self.timings@.len() && (#[trigger] self.timings@[k]).1@.len() > 0
                ==> reported(r.timings@, self.timings@[k].0@),
    {
        let mut counters: Vec<(String, u64)> = Vec::new();
        let mut i: usize = 0;
        while i < self.counters.len()
            invariant
                i <= self.counters@.len(),
                counters@ == self.counters@.subrange(0, i as int),
            decreases self.counters@.len() - i,
        {
            let (k, v) = &self.counters[i];
            counters.push((k.clone(), *v));
            i = i + 1;
            assert(counters@ =~= self.counters@.subrange(0, i as int));
        }
        assert(self.counters@.subrange(0, self.counters@.len() as int) =~= self.counters@);
        let mut timings: Vec<(String, TimingStats)> = Vec::new();
        let mut j: usize = 0;
        while j < self.timings.len()
            invariant
                j <= self.timings@.len(),
                forall|i: int| 0 <= i < timings@.len() ==> summarizes(self.timings@, #[trigger] timings@[i]),
                forall|k: int| 0 <= k < j && (#[trigger] self.timings@[k]).1@.len() > 0 ==> reported(timings@, self.timings@[k].0@),
            decreases self.timings@.len() - j,
        {
            let spans = &self.timings[j].1;
            if spans.len() > 0 {
                let st = stats_of_spans(spans);
                let ghost before = timings@;
                timings.push((self.timings[j].0.clone(), st));
                proof {
                    assert forall|i: int| 0 <= i < timings@.len() implies summarizes(self.timings@, #[trigger] timings@[i]) by {
                        if i < before.len() {
                            assert(timings@[i] == before[i]);
                        } else {
                            assert(self.timings@[j as int].0@ == timings@[i].0@);
                        }
                    }
                    assert forall|k: int| 0 <= k < j + 1 && (#[trigger] self.timings@[k]).1@.len() > 0
                        implies reported(timings@, self.timings@[k].0@) by {
                        if k < j {
                            let i = choose|i: int| 0 <= i < before.len() && (#[trigger] before[i]).0@ == self.timings@[k].0@;
                            assert(timings@[i] == before[i]);
                        } else {
                            assert(timings@[before.len() as int].0@ == self.timings@[k].0@);
                        }
                    }
                }
            }
            j = j + 1;
        }
        TelemetrySummary { counters, timings }
    }

    /// Forgets every counter and timing.
    pub fn clear(&mut self)
        ensures
            final(self).wf(),
            final(self).enabled == old(self).enabled,
            final(self).counters@.len() == 0 && final(self).timings@.len() == 0 && final(self).start_times@.len() == 0,
    {
        self.counters = Vec::new();
        self.timings = Vec::new();
        self.start_times = Vec::new();
    }
}

} // verus!
