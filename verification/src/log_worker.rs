use vstd::prelude::*;
use crate::text::chars_of;

verus! {

/// One chunk of log text of a container, stamped with the time the
/// cluster reported it (nanoseconds since the epoch).
pub struct LogData {
    pub text: String,
    pub pod: String,
    pub container: String,
    pub timestamp: i64,
}

/// Timestamps in non-descending order.
pub open spec fn sorted_times(s: Seq<i64>) -> bool {
    forall|i: int, j: int| 0 <= i < j < s.len() ==> s[i] <= s[j]
}

/// How many timestamps of `s` are at or before `ts`.
pub open spec fn count_at_or_before(s: Seq<i64>, ts: i64) -> nat
    decreases s.len(),
{
    if s.len() == 0 {
        0
    } else {
        count_at_or_before(s.drop_last(), ts) + (if s.last() <= ts { 1nat } else { 0nat })
    }
}

/// A line that begins with a line break opens an extra, empty line in the
/// text view, except for a bare line break.
pub open spec fn needs_spacer(text: Seq<char>) -> bool {
    &&& text.len() > 0
    &&& (text[0] == '\r' || text[0] == '\n')
    &&& text != seq!['\r', '\n']
    &&& text != seq!['\n']
}

/// The line at which a chunk stamped `ts` goes: after every line stamped
/// at or before `ts`.
pub open spec fn insert_offset(times: Seq<i64>, ts: i64) -> nat {
    count_at_or_before(times, ts)
}

/// The line timestamps once a chunk stamped `ts` holding `text` is placed.
pub open spec fn insert_one(times: Seq<i64>, ts: i64, text: Seq<char>) -> Seq<i64> {
    let off = insert_offset(times, ts) as int;
    let once = times.insert(off, ts);
    if needs_spacer(text) {
        once.insert(off, ts)
    } else {
        once
    }
}

/// The line timestamps once the chunks `data` are placed one after another.
pub open spec fn insert_many(times: Seq<i64>, data: Seq<LogData>) -> Seq<i64>
    decreases data.len(),
{
    if data.len() == 0 {
        times
    } else {
        let before = insert_many(times, data.drop_last());
        insert_one(before, data.last().timestamp, data.last().text@)
    }
}

/// The first position in a sorted list of timestamps whose timestamp is
/// not before `ts`.
pub fn search_offset(times: &Vec<i64>, ts: i64) -> (r: usize)
    requires
        sorted_times(times@),
    ensures
        r <= times.len(),
        forall|i: int| 0 <= i < r ==> times@[i] < ts,
        forall|i: int| r <= i < times.len() ==> times@[i] >= ts,
{
    let mut lo: usize = 0;
    let mut hi: usize = times.len();
    while lo < hi
        invariant
            lo <= hi <= times.len(),
            sorted_times(times@),
            forall|i: int| 0 <= i < lo ==> times@[i] < ts,
            forall|i: int| hi <= i < times.len() ==> times@[i] >= ts,
        decreases hi - lo,
    {
        let mid = lo + (hi - lo) / 2;
        if times[mid] < ts {
            lo = mid + 1;
        } else {
            hi = mid;
        }
    }
    lo
}

proof fn lemma_count_at_or_before(s: Seq<i64>, ts: i64, off: int)
    requires
        0 <= off <= s.len(),
        forall|i: int| 0 <= i < off ==> s[i] <= ts,
        forall|i: int| off <= i < s.len() ==> s[i] > ts,
    ensures
        count_at_or_before(s, ts) == off,
    decreases s.len(),
{
    if s.len() > 0 {
        let p = s.drop_last();
        if off == s.len() {
            lemma_count_at_or_before(p, ts, off - 1);
        } else {
            lemma_count_at_or_before(p, ts, off);
        }
    }
}

proof fn lemma_insert_sorted(s: Seq<i64>, off: int, ts: i64)
    requires
        sorted_times(s),
        0 <= off <= s.len(),
        forall|i: int| 0 <= i < off ==> s[i] <= ts,
        forall|i: int| off <= i < s.len() ==> s[i] >= ts,
    ensures
        sorted_times(s.insert(off, ts)),
        forall|i: int| 0 <= i < off ==> s.insert(off, ts)[i] <= ts,
        forall|i: int| off <= i < s.len() + 1 ==> s.insert(off, ts)[i] >= ts,
{
    let t = s.insert(off, ts);
    assert forall|i: int, j: int| 0 <= i < j < t.len() implies t[i] <= t[j] by {
        if j < off {
        } else if j == off {
        } else if i < off {
            assert(t[i] == s[i]);
            assert(t[j] == s[j - 1]);
        } else if i == off {
        } else {
            assert(t[i] == s[i - 1]);
            assert(t[j] == s[j - 1]);
        }
    }
}

/// The timestamps of the lines in a log view, kept in time order so that
/// each new chunk of log data goes to the line its time belongs at.
pub struct LogTimeline {
    times: Vec<i64>,
}

impl LogTimeline {
    /// The timestamp of each line, top to bottom.
    pub closed spec fn lines(&self) -> Seq<i64> {
        self.times@
    }

    /// The lines are in time order.
    pub closed spec fn wf(&self) -> bool {
        sorted_times(self.times@)
    }

    /// An empty view.
    pub fn new() -> (t: Self)
        ensures
            t.wf(),
            t.lines() == Seq::<i64>::empty(),
    {
        LogTimeline { times: Vec::new() }
    }

    /// Forgets all lines.
    pub fn clear(&mut self)
        ensures
            final(self).wf(),
            final(self).lines() == Seq::<i64>::empty(),
    {
        self.times.clear();
    }

    /// Places one chunk and returns the line it goes to: after every line
    /// stamped at or before it. A chunk that begins with a line break
    /// takes an extra line.
    pub fn insert_entry(&mut self, ts: i64, text: &str) -> (offset: usize)
        requires
            old(self).wf(),
        ensures
            final(self).wf(),
            offset == insert_offset(old(self).lines(), ts),
            final(self).lines() == insert_one(old(self).lines(), ts, text@),
            forall|i: int| 0 <= i < offset ==> old(self).lines()[i] <= ts,
            forall|i: int| offset <= i < old(self).lines().len() ==> old(self).lines()[i] > ts,
    {
        let ghost before = self.times@;
        let mut offset = search_offset(&self.times, ts);
        let len = self.times.len();
        while offset < len && self.times[offset] == ts
            invariant
                len == self.times.len(),
                self.times@ == before,
                sorted_times(before),
                offset <= len,
                forall|i: int| 0 <= i < offset ==> before[i] <= ts,
                forall|i: int| offset <= i < len ==> before[i] >= ts,
            decreases len - offset,
        {
            offset = offset + 1;
        }
        assert forall|i: int| offset <= i < len implies before[i] > ts by {
            if offset < len {
                assert(before[offset as int] != ts);
                assert(before[offset as int] <= before[i]);
            }
        }
        proof {
            lemma_count_at_or_before(before, ts, offset as int);
            lemma_insert_sorted(before, offset as int, ts);
        }
        self.times.insert(offset, ts);
        let chars = chars_of(text);
        let spacer = chars.len() > 0 && (chars[0] == '\r' || chars[0] == '\n')
            && !(chars.len() == 2 && chars[0] == '\r' && chars[1] == '\n')
            && !(chars.len() == 1 && chars[0] == '\n');
        proof {
            if chars@ == seq!['\r', '\n'] {
                assert(chars@.len() == 2 && chars@[0] == '\r' && chars@[1] == '\n');
            }
            if chars@ == seq!['\n'] {
                assert(chars@.len() == 1 && chars@[0] == '\n');
            }
            if chars.len() == 2 && chars@[0] == '\r' && chars@[1] == '\n' {
                assert(chars@ =~= seq!['\r', '\n']);
            }
            if chars.len() == 1 && chars@[0] == '\n' {
                assert(chars@ =~= seq!['\n']);
            }
        }
        assert(spacer == needs_spacer(text@));
        if spacer {
            let ghost once = self.times@;
            proof {
                lemma_insert_sorted(once, offset as int, ts);
            }
            self.times.insert(offset, ts);
        }
        offset
    }

    /// Places a batch of chunks one after another and hands each back with
    /// the line it went to.
    pub fn process_log_data(&mut self, data: Vec<LogData>) -> (res: Vec<(usize, LogData)>)
        requires
            old(self).wf(),
        ensures
            final(self).wf(),
            final(self).lines() == insert_many(old(self).lines(), data@),
            res.len() == data.len(),
            forall|k: int| 0 <= k < res.len() ==> (#[trigger] res@[k]).1 == data@[k],
            forall|k: int| 0 <= k < res.len() ==> (#[trigger] res@[k]).0 == insert_offset(
                insert_many(old(self).lines(), data@.take(k)),
                data@[k].timestamp,
            ),
    {
        let ghost start = self.lines();
        let mut res: Vec<(usize, LogData)> = Vec::new();
        let mut data = data;
        let ghost all = data@;
        let total = data.len();
        assert(all.len() == total);
        let mut rest: Vec<LogData> = Vec::new();
        while data.len() > 0
            invariant
                data@ + rest@.reverse() =~= all,
                all.len() <= usize::MAX,
            decreases data.len(),
        {
            let ghost d0 = data@;
            let ghost r0 = rest@;
            let x = data.pop().unwrap();
            rest.push(x);
            assert(rest@.reverse() =~= seq![x] + r0.reverse());
            assert(d0 =~= data@.push(x));
        }
        assert(rest@.reverse() =~= all);
        assert(rest@ =~= all.reverse());
        let mut done: usize = 0;
        while rest.len() > 0
            invariant
                self.wf(),
                done + rest.len() == all.len(),
                all.len() <= usize::MAX,
                rest@ =~= all.subrange(done as int, all.len() as int).reverse(),
                self.lines() == insert_many(start, all.take(done as int)),
                res.len() == done,
                forall|k: int| 0 <= k < res.len() ==> (#[trigger] res@[k]).1 == all[k],
                forall|k: int| 0 <= k < res.len() ==> (#[trigger] res@[k]).0 == insert_offset(
                    insert_many(start, all.take(k)),
                    all[k].timestamp,
                ),
            decreases rest.len(),
        {
            let ghost rest_before = rest@;
            let datum = rest.pop().unwrap();
            assert(datum == all[done as int]) by {
                assert(rest_before.last() == all.subrange(done as int, all.len() as int).reverse().last());
            }
            let off = self.insert_entry(datum.timestamp, datum.text.as_str());
            assert(all.take(done + 1).drop_last() =~= all.take(done as int));
            assert(all.take(done + 1).last() == all[done as int]);
            res.push((off, datum));
            done = done + 1;
            assert(rest@ =~= all.subrange(done as int, all.len() as int).reverse());
        }
        assert(all.take(all.len() as int) =~= all);
        res
    }

    /// The line at which the given second of time begins.
    pub fn offset_for_seconds(&self, seconds: i64) -> (offset: usize)
        requires
            self.wf(),
            i64::MIN <= seconds * 1_000_000_000 <= i64::MAX,
        ensures
            offset <= self.lines().len(),
            forall|i: int| 0 <= i < offset ==> self.lines()[i] < seconds * 1_000_000_000,
            forall|i: int| offset <= i < self.lines().len() ==> self.lines()[i] >= seconds * 1_000_000_000,
    {
        let ts = seconds * 1_000_000_000;
        search_offset(&self.times, ts)
    }
}

} // verus!
