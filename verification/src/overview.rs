use vstd::prelude::*;
use vstd::multiset::Multiset;
use crate::assoc::{assoc_map, keys_of, lemma_assoc_lookup, lemma_assoc_push, lemma_assoc_update, unique_keys};
use crate::text::str_eq;

verus! {

/// Nanoseconds in a minute.
pub open spec fn minute_nanos() -> int {
    60_000_000_000
}

/// The start of the minute that the time `ts` (in nanoseconds) falls in.
pub open spec fn minute_start(ts: i64) -> int {
    ts - (ts as int) % minute_nanos()
}

/// The start of the minute that `ts` falls in.
pub fn minute_of(ts: i64) -> (r: i64)
    requires
        ts >= i64::MIN + 60_000_000_000,
    ensures
        r == minute_start(ts),
{
    let mut m = ts % 60_000_000_000;
    if m < 0 {
        m = m + 60_000_000_000;
    }
    ts - m
}

/// How often one highlighter matched, per minute.
pub struct Series {
    name: String,
    counts: Vec<(i64, u32)>,
}

/// The data behind the overview chart: the time span of the log and, per
/// highlighter, how many lines it matched in each minute.
pub struct ChartData {
    start: Option<i64>,
    end: Option<i64>,
    series: Vec<Series>,
}

/// What the chart holds.
pub struct ChartView {
    pub start: Option<i64>,
    pub end: Option<i64>,
    pub data: Map<Seq<char>, Map<i64, u32>>,
}

/// Each series as its name and its counts per minute.
spec fn series_pairs(v: Seq<Series>) -> Seq<(Seq<char>, Map<i64, u32>)> {
    v.map_values(|s: Series| (s.name@, assoc_map(s.counts@)))
}

/// A series that has counts gets a zero for the minute `b` when it has
/// none for it yet, so that quiet minutes show as zero.
pub open spec fn pad_minute(cm: Map<i64, u32>, b: i64) -> Map<i64, u32> {
    if cm.dom() != Set::<i64>::empty() && !cm.contains_key(b) {
        cm.insert(b, 0)
    } else {
        cm
    }
}

/// The earlier of a known time and a new one.
pub open spec fn earliest(a: Option<i64>, t: i64) -> Option<i64> {
    match a {
        Some(x) => if t < x { Some(t) } else { Some(x) },
        None => Some(t),
    }
}

/// The later of a known time and a new one.
pub open spec fn latest(a: Option<i64>, t: i64) -> Option<i64> {
    match a {
        Some(x) => if t > x { Some(t) } else { Some(x) },
        None => Some(t),
    }
}

/// The chart after one more log line at time `t`.
pub open spec fn after_timestamp(c: ChartView, t: i64) -> ChartView {
    ChartView {
        start: earliest(c.start, t),
        end: latest(c.end, t),
        data: c.data.map_values(|cm: Map<i64, u32>| pad_minute(cm, minute_start(t) as i64)),
    }
}

/// The chart after log lines at the times `ts`, in turn.
pub open spec fn after_timestamps(c: ChartView, ts: Seq<i64>) -> ChartView
    decreases ts.len(),
{
    if ts.len() == 0 {
        c
    } else {
        after_timestamp(after_timestamps(c, ts.drop_last()), ts.last())
    }
}

/// Counts one more match in the minute `b`.
pub open spec fn bump(cm: Map<i64, u32>, b: i64) -> Map<i64, u32> {
    cm.insert(b, if cm.contains_key(b) { (cm[b] + 1) as u32 } else { 1u32 })
}

/// The chart after the highlighter `tag` matched a line of minute `b`.
pub open spec fn after_match(d: Map<Seq<char>, Map<i64, u32>>, tag: Seq<char>, b: i64) -> Map<Seq<char>, Map<i64, u32>> {
    d.insert(tag, bump(if d.contains_key(tag) { d[tag] } else { Map::empty() }, b))
}

/// The chart after the highlighters `tags` matched a line of minute `b`,
/// in turn.
pub open spec fn after_matches(d: Map<Seq<char>, Map<i64, u32>>, tags: Seq<Seq<char>>, b: i64) -> Map<Seq<char>, Map<i64, u32>>
    decreases tags.len(),
{
    if tags.len() == 0 {
        d
    } else {
        after_match(after_matches(d, tags.drop_last(), b), tags.last(), b)
    }
}

/// Every count of the chart leaves room for `n` more.
pub open spec fn counts_below(d: Map<Seq<char>, Map<i64, u32>>, n: int) -> bool {
    forall|k: Seq<char>, x: i64| #[trigger] d.contains_key(k) && #[trigger] d[k].contains_key(x) ==> d[k][x] + n <= u32::MAX
}

impl Series {
    /// A series of one match in the minute `b`.
    fn single(name: &str, b: i64) -> (s: Series)
        ensures
            s.name@ == name@,
            unique_keys(s.counts@),
            assoc_map(s.counts@) == Map::<i64, u32>::empty().insert(b, 1),
    {
        let mut counts: Vec<(i64, u32)> = Vec::new();
        counts.push((b, 1));
        assert(counts@.drop_last() =~= Seq::<(i64, u32)>::empty());
        assert(assoc_map(counts@.drop_last()) == Map::<i64, u32>::empty());
        assert(assoc_map(counts@) =~= Map::<i64, u32>::empty().insert(b, 1));
        Series { name: name.to_owned(), counts }
    }

    /// Where the minute `b` is counted, if it is.
    fn find_minute(&self, b: i64) -> (r: Option<usize>)
        ensures
            match r {
                Some(x) => x < self.counts.len() && self.counts@[x as int].0 == b,
                None => !keys_of(self.counts@).contains(b),
            },
    {
        let mut k: usize = 0;
        while k < self.counts.len()
            invariant
                k <= self.counts.len(),
                forall|y: int| 0 <= y < k ==> self.counts@[y].0 != b,
            decreases self.counts.len() - k,
        {
            if self.counts[k].0 == b {
                return Some(k);
            }
            k = k + 1;
        }
        assert(!keys_of(self.counts@).contains(b)) by {
            if keys_of(self.counts@).contains(b) {
                let y = choose|y: int| 0 <= y < keys_of(self.counts@).len() && keys_of(self.counts@)[y] == b;
                assert(self.counts@[y].0 == b);
            }
        }
        None
    }

    /// Gives a series with counts a zero for the minute `b` when it lacks it.
    fn pad(&mut self, b: i64)
        requires
            unique_keys(old(self).counts@),
        ensures
            final(self).name == old(self).name,
            unique_keys(final(self).counts@),
            assoc_map(final(self).counts@) == pad_minute(assoc_map(old(self).counts@), b),
    {
        let ghost c0 = self.counts@;
        proof {
            lemma_assoc_lookup(c0);
            lemma_nonempty_dom(c0);
        }
        if self.counts.len() > 0 {
            match self.find_minute(b) {
                Some(x) => {
                    assert(keys_of(c0)[x as int] == b);
                },
                None => {
                    self.counts.push((b, 0));
                    proof {
                        lemma_assoc_push(c0, b, 0);
                    }
                },
            }
        }
    }

    /// Counts one more match in the minute `b`.
    fn count_match(&mut self, b: i64)
        requires
            unique_keys(old(self).counts@),
            assoc_map(old(self).counts@).contains_key(b) ==> assoc_map(old(self).counts@)[b] < u32::MAX,
        ensures
            final(self).name == old(self).name,
            unique_keys(final(self).counts@),
            assoc_map(final(self).counts@) == bump(assoc_map(old(self).counts@), b),
    {
        let ghost c0 = self.counts@;
        proof {
            lemma_assoc_lookup(c0);
        }
        match self.find_minute(b) {
            Some(x) => {
                let cur = self.counts[x].1;
                assert(assoc_map(c0)[c0[x as int].0] == cur);
                assert(keys_of(c0)[x as int] == b);
                self.counts.set(x, (b, cur + 1));
                proof {
                    lemma_assoc_update(c0, x as int, (cur + 1) as u32);
                    assert(c0.update(x as int, (c0[x as int].0, (cur + 1) as u32)) =~= self.counts@);
                }
            },
            None => {
                self.counts.push((b, 1));
                proof {
                    lemma_assoc_push(c0, b, 1);
                }
            },
        }
    }
}

impl ChartData {
    /// What the chart holds.
    pub closed spec fn view(&self) -> ChartView {
        ChartView { start: self.start, end: self.end, data: assoc_map(series_pairs(self.series@)) }
    }

    /// No highlighter has two series and no series counts a minute twice.
    pub closed spec fn wf(&self) -> bool {
        &&& unique_keys(series_pairs(self.series@))
        &&& forall|i: int| 0 <= i < self.series.len() ==> unique_keys(#[trigger] self.series@[i].counts@)
    }

    /// An empty chart.
    pub fn new() -> (c: Self)
        ensures
            c.wf(),
            c.view().start is None,
            c.view().end is None,
            c.view().data == Map::<Seq<char>, Map<i64, u32>>::empty(),
    {
        let c = ChartData { start: None, end: None, series: Vec::new() };
        assert(series_pairs(c.series@) =~= Seq::<(Seq<char>, Map<i64, u32>)>::empty());
        c
    }

    /// Forgets the time span and all counts.
    pub fn clear(&mut self)
        ensures
            final(self).wf(),
            final(self).view().start is None,
            final(self).view().end is None,
            final(self).view().data == Map::<Seq<char>, Map<i64, u32>>::empty(),
    {
        self.start = None;
        self.end = None;
        self.series.clear();
        assert(series_pairs(self.series@) =~= Seq::<(Seq<char>, Map<i64, u32>)>::empty());
    }

    /// Takes note of log lines at the times `ts`: widens the time span and
    /// gives every series with counts a zero for a minute it lacks.
    pub fn add_timestamps(&mut self, ts: &Vec<i64>)
        requires
            old(self).wf(),
            forall|k: int| 0 <= k < ts.len() ==> #[trigger] ts@[k] >= i64::MIN + 60_000_000_000,
        ensures
            final(self).wf(),
            final(self).view() == after_timestamps(old(self).view(), ts@),
    {
        let ghost start_view = self.view();
        let mut i: usize = 0;
        while i < ts.len()
            invariant
                i <= ts.len(),
                self.wf(),
                forall|k: int| 0 <= k < ts.len() ==> #[trigger] ts@[k] >= i64::MIN + 60_000_000_000,
                self.view() == after_timestamps(start_view, ts@.take(i as int)),
            decreases ts.len() - i,
        {
            let t = ts[i];
            assert(ts@.take(i + 1).drop_last() =~= ts@.take(i as int));
            assert(ts@.take(i + 1).last() == t);
            self.add_timestamp(t);
            i = i + 1;
        }
        assert(ts@.take(ts.len() as int) =~= ts@);
    }

    fn add_timestamp(&mut self, t: i64)
        requires
            old(self).wf(),
            t >= i64::MIN + 60_000_000_000,
        ensures
            final(self).wf(),
            final(self).view() == after_timestamp(old(self).view(), t),
    {
        self.start = match self.start {
            Some(x) => if t < x { Some(t) } else { Some(x) },
            None => Some(t),
        };
        self.end = match self.end {
            Some(x) => if t > x { Some(t) } else { Some(x) },
            None => Some(t),
        };
        let b = minute_of(t);
        let ghost pairs0 = series_pairs(self.series@);
        let ghost span = (self.start, self.end);
        assert(span == (earliest(old(self).view().start, t), latest(old(self).view().end, t)));
        let mut j: usize = 0;
        while j < self.series.len()
            invariant
                j <= self.series.len(),
                self.wf(),
                (self.start, self.end) == span,
                self.series.len() == pairs0.len(),
                unique_keys(pairs0),
                forall|q: int| 0 <= q < pairs0.len() ==> (#[trigger] series_pairs(self.series@)[q]).0 == pairs0[q].0,
                forall|q: int| 0 <= q < j ==> (#[trigger] series_pairs(self.series@)[q]).1 == pad_minute(pairs0[q].1, b),
                forall|q: int| j <= q < pairs0.len() ==> (#[trigger] series_pairs(self.series@)[q]).1 == pairs0[q].1,
            decreases self.series.len() - j,
        {
            let ghost before = self.series@;
            assert(unique_keys(before[j as int].counts@));
            let mut s = self.series.remove(j);
            assert(s == before[j as int]);
            s.pad(b);
            self.series.insert(j, s);
            assert(self.series@ =~= before.update(j as int, s));
            assert(series_pairs(self.series@)[j as int] == (s.name@, assoc_map(s.counts@)));
            assert(series_pairs(before)[j as int] == (before[j as int].name@, assoc_map(before[j as int].counts@)));
            assert forall|q: int| 0 <= q < pairs0.len() && q != j implies #[trigger] series_pairs(self.series@)[q] == series_pairs(before)[q] by {
                assert(self.series@[q] == before[q]);
            }
            assert forall|q: int| 0 <= q < self.series.len() implies unique_keys(#[trigger] self.series@[q].counts@) by {
                if q != j {
                    assert(self.series@[q] == before[q]);
                }
            }
            proof {
                let sp = series_pairs(self.series@);
                assert forall|a: int, c: int| 0 <= a < c < sp.len() implies sp[a].0 != sp[c].0 by {
                    assert(sp[a].0 == pairs0[a].0);
                    assert(sp[c].0 == pairs0[c].0);
                }
            }
            j = j + 1;
        }
        proof {
            let sp = series_pairs(self.series@);
            lemma_assoc_lookup(pairs0);
            lemma_assoc_lookup(sp);
            assert(keys_of(sp) =~= keys_of(pairs0)) by {
                assert forall|q: int| 0 <= q < sp.len() implies keys_of(sp)[q] == keys_of(pairs0)[q] by {
                    assert(sp[q].0 == pairs0[q].0);
                }
            }
            let m0 = assoc_map(pairs0);
            let m1 = assoc_map(sp);
            assert forall|key: Seq<char>| #[trigger] m1.contains_key(key) <==> m0.contains_key(key) by {}
            assert forall|key: Seq<char>| m1.contains_key(key) implies #[trigger] m1[key] == pad_minute(m0[key], b) by {
                let q = choose|q: int| 0 <= q < keys_of(sp).len() && keys_of(sp)[q] == key;
                assert(sp[q].0 == key);
                assert(m1[sp[q].0] == sp[q].1);
                assert(m0[pairs0[q].0] == pairs0[q].1);
            }
            assert(m1 =~= m0.map_values(|cm: Map<i64, u32>| pad_minute(cm, b)));
            assert(b == minute_start(t) as i64);
            assert(self.view().data == m1);
        }
    }

    /// Counts one line of minute `minute_start(ts)` for each highlighter in
    /// `tags` that matched it.
    pub fn add_matches(&mut self, ts: i64, tags: &Vec<String>)
        requires
            old(self).wf(),
            ts >= i64::MIN + 60_000_000_000,
            tags.len() <= u32::MAX,
            counts_below(old(self).view().data, tags.len() as int),
        ensures
            final(self).wf(),
            final(self).view().start == old(self).view().start,
            final(self).view().end == old(self).view().end,
            final(self).view().data == after_matches(
                old(self).view().data,
                tags@.map_values(|t: String| t@),
                minute_start(ts) as i64,
            ),
    {
        let b = minute_of(ts);
        let ghost d0 = self.view().data;
        let ghost tv = tags@.map_values(|t: String| t@);
        let mut i: usize = 0;
        while i < tags.len()
            invariant
                i <= tags.len(),
                tags.len() <= u32::MAX,
                self.wf(),
                self.view().start == old(self).view().start,
                self.view().end == old(self).view().end,
                tv == tags@.map_values(|t: String| t@),
                b == minute_start(ts) as i64,
                self.view().data == after_matches(d0, tv.take(i as int), b),
                counts_below(self.view().data, tags.len() - i),
            decreases tags.len() - i,
        {
            assert(tv.take(i + 1).drop_last() =~= tv.take(i as int));
            assert(tv.take(i + 1).last() == tags@[i as int]@);
            self.add_match(tags[i].as_str(), b, (tags.len() - i) as u32);
            i = i + 1;
        }
        assert(tv.take(tags.len() as int) =~= tv);
    }

    fn add_match(&mut self, tag: &str, b: i64, room: u32)
        requires
            old(self).wf(),
            room >= 1,
            counts_below(old(self).view().data, room as int),
        ensures
            final(self).wf(),
            final(self).view().start == old(self).view().start,
            final(self).view().end == old(self).view().end,
            final(self).view().data == after_match(old(self).view().data, tag@, b),
            counts_below(final(self).view().data, room - 1),
    {
        let ghost pairs0 = series_pairs(self.series@);
        let ghost d0 = assoc_map(pairs0);
        proof {
            lemma_assoc_lookup(pairs0);
        }
        let mut pos: Option<usize> = None;
        let mut j: usize = 0;
        while j < self.series.len()
            invariant
                j <= self.series.len(),
                pairs0 == series_pairs(self.series@),
                pos matches Some(p) ==> p < j && pairs0[p as int].0 == tag@,
                pos is None ==> forall|q: int| 0 <= q < j ==> pairs0[q].0 != tag@,
            decreases self.series.len() - j,
        {
            if pos.is_none() && str_eq(self.series[j].name.as_str(), tag) {
                pos = Some(j);
            }
            j = j + 1;
        }
        let ghost before = self.series@;
        match pos {
            Some(p) => {
                let mut s = self.series.remove(p);
                assert(before[p as int] == s);
                let ghost cm0 = assoc_map(s.counts@);
                assert(pairs0[p as int] == (s.name@, cm0));
                assert(d0[tag@] == cm0) by {
                    assert(d0[pairs0[p as int].0] == pairs0[p as int].1);
                }
                assert(d0.contains_key(tag@)) by {
                    assert(keys_of(pairs0)[p as int] == tag@);
                }
                assert(unique_keys(s.counts@));
                assert(cm0.contains_key(b) ==> cm0[b] < u32::MAX) by {
                    if cm0.contains_key(b) {
                        assert(d0.contains_key(tag@) && d0[tag@].contains_key(b));
                    }
                }
                s.count_match(b);
                self.series.insert(p, s);
                assert(self.series@ =~= before.update(p as int, s));
                proof {
                    assert(series_pairs(self.series@) =~= pairs0.update(p as int, (tag@, bump(cm0, b))));
                    lemma_assoc_update(pairs0, p as int, bump(cm0, b));
                    assert(pairs0.update(p as int, (pairs0[p as int].0, bump(cm0, b))) =~= series_pairs(self.series@));
                    assert forall|q2: int| 0 <= q2 < self.series.len() implies unique_keys(#[trigger] self.series@[q2].counts@) by {
                        if q2 != p {
                            assert(self.series@[q2] == before[q2]);
                        }
                    }
                }
            },
            None => {
                let s = Series::single(tag, b);
                self.series.push(s);
                proof {
                    assert(!keys_of(pairs0).contains(tag@)) by {
                        if keys_of(pairs0).contains(tag@) {
                            let y = choose|y: int| 0 <= y < keys_of(pairs0).len() && keys_of(pairs0)[y] == tag@;
                            assert(pairs0[y].0 == tag@);
                        }
                    }
                    assert(series_pairs(self.series@) =~= pairs0.push((tag@, assoc_map(s.counts@))));
                    lemma_assoc_push(pairs0, tag@, assoc_map(s.counts@));
                    assert(bump(Map::<i64, u32>::empty(), b) =~= Map::<i64, u32>::empty().insert(b, 1));
                    assert forall|q2: int| 0 <= q2 < self.series.len() implies unique_keys(#[trigger] self.series@[q2].counts@) by {
                        if q2 < before.len() {
                            assert(self.series@[q2] == before[q2]);
                        }
                    }
                }
            },
        }
        proof {
            let d1 = self.view().data;
            assert forall|k: Seq<char>, x: i64| #[trigger] d1.contains_key(k) && #[trigger] d1[k].contains_key(x) implies d1[k][x] + (room - 1) <= u32::MAX by {
                if k == tag@ {
                    if x != b {
                        assert(d0.contains_key(k) && d0[k].contains_key(x));
                    } else if d0.contains_key(k) && d0[k].contains_key(b) {
                    }
                } else {
                    assert(d0.contains_key(k) && d0[k].contains_key(x));
                }
            }
        }
    }

    /// The highest count among the series of the highlighters `names`, or
    /// zero when they have none.
    pub fn max_count(&self, names: &Vec<String>) -> (m: u32)
        requires
            self.wf(),
        ensures
            forall|k: Seq<char>, x: i64|
                names@.map_values(|n: String| n@).contains(k) && #[trigger] self.view().data.contains_key(k)
                    && #[trigger] self.view().data[k].contains_key(x) ==> self.view().data[k][x] <= m,
            m == 0 || exists|k: Seq<char>, x: i64|
                names@.map_values(|n: String| n@).contains(k) && #[trigger] self.view().data.contains_key(k)
                    && #[trigger] self.view().data[k].contains_key(x) && self.view().data[k][x] == m,
    {
        let ghost nv = names@.map_values(|n: String| n@);
        let ghost pairs = series_pairs(self.series@);
        let ghost d = assoc_map(pairs);
        proof {
            lemma_assoc_lookup(pairs);
        }
        let mut m: u32 = 0;
        let mut j: usize = 0;
        while j < self.series.len()
            invariant
                j <= self.series.len(),
                self.wf(),
                pairs == series_pairs(self.series@),
                d == assoc_map(pairs),
                nv == names@.map_values(|n: String| n@),
                forall|q: int, x: i64| 0 <= q < j && nv.contains(pairs[q].0) && #[trigger] pairs[q].1.contains_key(x) ==> pairs[q].1[x] <= m,
                m == 0 || exists|q: int, x: i64| 0 <= q < j && nv.contains(pairs[q].0) && #[trigger] pairs[q].1.contains_key(x) && pairs[q].1[x] == m,
            decreases self.series.len() - j,
        {
            let s = &self.series[j];
            let mut wanted = false;
            let mut n: usize = 0;
            while n < names.len()
                invariant
                    n <= names.len(),
                    nv == names@.map_values(|n: String| n@),
                    wanted == nv.take(n as int).contains(s.name@),
                decreases names.len() - n,
            {
                let ghost t0 = nv.take(n as int);
                let ghost t1 = t0.push(names@[n as int]@);
                assert(nv.take(n + 1) =~= t1);
                let same = str_eq(names[n].as_str(), s.name.as_str());
                proof {
                    if same {
                        assert(t1[n as int] == s.name@);
                    }
                    if t1.contains(s.name@) && !same {
                        let q = choose|q: int| 0 <= q < t1.len() && t1[q] == s.name@;
                        assert(t0[q] == s.name@);
                    }
                    if t0.contains(s.name@) {
                        let q = choose|q: int| 0 <= q < t0.len() && t0[q] == s.name@;
                        assert(t1[q] == s.name@);
                    }
                }
                if same {
                    wanted = true;
                }
                n = n + 1;
            }
            assert(nv.take(names.len() as int) =~= nv);
            assert(pairs[j as int] == (s.name@, assoc_map(s.counts@)));
            proof {
                lemma_assoc_lookup(s.counts@);
            }
            if wanted {
                let mut k: usize = 0;
                while k < s.counts.len()
                    invariant
                        k <= s.counts.len(),
                        j < self.series.len(),
                        s == &self.series@[j as int],
                        pairs == series_pairs(self.series@),
                        nv.contains(pairs[j as int].0),
                        unique_keys(s.counts@),
                        forall|q: int, x: i64| 0 <= q < j && nv.contains(pairs[q].0) && #[trigger] pairs[q].1.contains_key(x) ==> pairs[q].1[x] <= m,
                        forall|y: int| 0 <= y < k ==> s.counts@[y].1 <= m,
                        m == 0 || (exists|q: int, x: i64| 0 <= q < j && nv.contains(pairs[q].0) && #[trigger] pairs[q].1.contains_key(x) && pairs[q].1[x] == m)
                            || (exists|y: int| 0 <= y < k && s.counts@[y].1 == m),
                    decreases s.counts.len() - k,
                {
                    if s.counts[k].1 > m {
                        m = s.counts[k].1;
                    }
                    k = k + 1;
                }
                proof {
                    let cm = assoc_map(s.counts@);
                    assert forall|x: i64| #[trigger] cm.contains_key(x) implies cm[x] <= m by {
                        let y = choose|y: int| 0 <= y < keys_of(s.counts@).len() && keys_of(s.counts@)[y] == x;
                        assert(cm[s.counts@[y].0] == s.counts@[y].1);
                    }
                    if m != 0 && !(exists|q: int, x: i64| 0 <= q < j && nv.contains(pairs[q].0) && #[trigger] pairs[q].1.contains_key(x) && pairs[q].1[x] == m) {
                        let y = choose|y: int| 0 <= y < s.counts.len() && s.counts@[y].1 == m;
                        assert(keys_of(s.counts@)[y] == s.counts@[y].0);
                        assert(cm.contains_key(s.counts@[y].0));
                        assert(cm[s.counts@[y].0] == m);
                        assert(pairs[j as int].1.contains_key(s.counts@[y].0));
                    }
                }
            }
            j = j + 1;
        }
        proof {
            assert forall|k: Seq<char>, x: i64|
                nv.contains(k) && #[trigger] d.contains_key(k) && #[trigger] d[k].contains_key(x) implies d[k][x] <= m by {
                let q = choose|q: int| 0 <= q < keys_of(pairs).len() && keys_of(pairs)[q] == k;
                assert(pairs[q].0 == k);
                assert(d[pairs[q].0] == pairs[q].1);
            }
            if m != 0 {
                let (q, x) = choose|q: int, x: i64| 0 <= q < self.series.len() && nv.contains(pairs[q].0) && #[trigger] pairs[q].1.contains_key(x) && pairs[q].1[x] == m;
                assert(d[pairs[q].0] == pairs[q].1);
                assert(keys_of(pairs)[q] == pairs[q].0);
                assert(d.contains_key(pairs[q].0));
                assert(self.view().data == d);
                assert(self.view().data.contains_key(pairs[q].0) && self.view().data[pairs[q].0].contains_key(x)
                    && self.view().data[pairs[q].0][x] == m);
            }
        }
        m
    }
}

proof fn lemma_nonempty_dom(c: Seq<(i64, u32)>)
    requires
        unique_keys(c),
    ensures
        (c.len() > 0) == (assoc_map(c).dom() != Set::<i64>::empty()),
{
    lemma_assoc_lookup(c);
    if c.len() > 0 {
        assert(keys_of(c)[0] == c[0].0);
        assert(assoc_map(c).dom().contains(c[0].0));
    } else {
        assert(assoc_map(c).dom() =~= Set::<i64>::empty());
    }
}

/// Minutes in strictly ascending order.
pub open spec fn ascending_minutes(v: Seq<(i64, u32)>) -> bool {
    forall|i: int, j: int| 0 <= i < j < v.len() ==> v[i].0 < v[j].0
}

/// `pairs` ordered by minute, for minutes that occur once each.
fn sort_by_minute(pairs: Vec<(i64, u32)>) -> (sorted: Vec<(i64, u32)>)
    requires
        unique_keys(pairs@),
    ensures
        ascending_minutes(sorted@),
        sorted@.to_multiset() == pairs@.to_multiset(),
{
    broadcast use vstd::seq_lib::group_to_multiset_ensures;

    let mut rest = pairs;
    let ghost all = rest@;
    let mut sorted: Vec<(i64, u32)> = Vec::new();
    while rest.len() > 0
        invariant
            unique_keys(all),
            ascending_minutes(sorted@),
            sorted@.to_multiset().add(rest@.to_multiset()) == all.to_multiset(),
            forall|i: int, j: int| 0 <= i < rest@.len() && 0 <= j < sorted@.len() ==> #[trigger] rest@[i].0 != #[trigger] sorted@[j].0,
            unique_keys(rest@),
        decreases rest.len(),
    {
        let ghost r0 = rest@;
        let ghost s0 = sorted@;
        let p = rest.pop().unwrap();
        assert(r0 == rest@.push(p));
        let mut pos: usize = 0;
        while pos < sorted.len() && sorted[pos].0 < p.0
            invariant
                pos <= sorted.len(),
                sorted@ == s0,
                forall|k: int| 0 <= k < pos ==> sorted@[k].0 < p.0,
            decreases sorted.len() - pos,
        {
            pos = pos + 1;
        }
        assert forall|k: int| pos <= k < s0.len() implies s0[k].0 > p.0 by {
            assert(r0[r0.len() - 1] == p);
            assert(p.0 != s0[k].0);
            if pos < s0.len() {
                assert(p.0 != s0[pos as int].0);
                if k > pos {
                    assert(s0[pos as int].0 < s0[k].0);
                }
            }
        }
        sorted.insert(pos, p);
        assert(sorted@ == s0.insert(pos as int, p));
        assert forall|i: int, j: int| 0 <= i < j < sorted@.len() implies sorted@[i].0 < sorted@[j].0 by {
            if j < pos {
            } else if j == pos {
            } else if i < pos {
                assert(sorted@[j] == s0[j - 1]);
            } else if i == pos {
                assert(sorted@[j] == s0[j - 1]);
            } else {
                assert(sorted@[i] == s0[i - 1]);
                assert(sorted@[j] == s0[j - 1]);
            }
        }
        assert forall|i: int, j: int| 0 <= i < rest@.len() && 0 <= j < sorted@.len() implies #[trigger] rest@[i].0 != #[trigger] sorted@[j].0 by {
            assert(rest@[i] == r0[i]);
            if j < pos {
                assert(sorted@[j] == s0[j]);
            } else if j == pos {
                assert(r0[r0.len() - 1] == p);
            } else {
                assert(sorted@[j] == s0[j - 1]);
            }
        }
        proof {
            vstd::seq_lib::to_multiset_insert(s0, pos as int, p);
            vstd::seq_lib::to_multiset_build(rest@, p);
        }
        assert(sorted@.to_multiset().add(rest@.to_multiset()) =~= s0.to_multiset().add(r0.to_multiset()));
    }
    assert(rest@.to_multiset() =~= Multiset::empty());
    assert(sorted@.to_multiset().add(rest@.to_multiset()) =~= sorted@.to_multiset());
    sorted
}

impl ChartData {
    /// The counts of the series of highlighter `name`, as the chart draws its
    /// line: minute by minute, in order of time. Empty where it has none.
    pub fn series_points(&self, name: &str) -> (points: Vec<(i64, u32)>)
        requires
            self.wf(),
        ensures
            ascending_minutes(points@),
            forall|m: i64, c: u32| #[trigger] points@.contains((m, c)) <==> (self.view().data.contains_key(name@)
                && self.view().data[name@].contains_key(m) && self.view().data[name@][m] == c),
    {
        broadcast use vstd::seq_lib::group_to_multiset_ensures;

        let ghost pairs = series_pairs(self.series@);
        proof {
            lemma_assoc_lookup(pairs);
        }
        let mut j: usize = 0;
        while j < self.series.len()
            invariant
                j <= self.series.len(),
                self.wf(),
                pairs == series_pairs(self.series@),
                forall|q: int| 0 <= q < pairs.len() ==> #[trigger] assoc_map(pairs)[pairs[q].0] == pairs[q].1,
                forall|key: Seq<char>| #[trigger] assoc_map(pairs).contains_key(key) <==> keys_of(pairs).contains(key),
                forall|q: int| 0 <= q < j ==> pairs[q].0 != name@,
            decreases self.series.len() - j,
        {
            if str_eq(self.series[j].name.as_str(), name) {
                let counts = &self.series[j].counts;
                let mut copy: Vec<(i64, u32)> = Vec::new();
                let mut k: usize = 0;
                while k < counts.len()
                    invariant
                        k <= counts.len(),
                        copy@ == counts@.take(k as int),
                    decreases counts.len() - k,
                {
                    copy.push(counts[k]);
                    k = k + 1;
                    assert(copy@ =~= counts@.take(k as int));
                }
                assert(counts@.take(counts.len() as int) =~= counts@);
                assert(self.series@[j as int].wf_counts());
                let points = sort_by_minute(copy);
                proof {
                    let cm = assoc_map(counts@);
                    lemma_assoc_lookup(counts@);
                    assert(pairs[j as int] == (name@, cm));
                    assert(keys_of(pairs)[j as int] == name@);
                    assert(assoc_map(pairs)[pairs[j as int].0] == pairs[j as int].1);
                    assert forall|m: i64, c: u32| #[trigger] points@.contains((m, c)) <==> (self.view().data.contains_key(name@)
                        && self.view().data[name@].contains_key(m) && self.view().data[name@][m] == c) by {
                        assert(copy@ == counts@);
                        assert(points@.to_multiset().count((m, c)) == counts@.to_multiset().count((m, c)));
                        vstd::seq_lib::to_multiset_contains(points@, (m, c));
                        vstd::seq_lib::to_multiset_contains(counts@, (m, c));
                        assert(points@.contains((m, c)) <==> counts@.contains((m, c)));
                        if counts@.contains((m, c)) {
                            let y = choose|y: int| 0 <= y < counts@.len() && counts@[y] == (m, c);
                            assert(keys_of(counts@)[y] == m);
                            assert(cm[counts@[y].0] == counts@[y].1);
                        }
                        if cm.contains_key(m) && cm[m] == c {
                            let y = choose|y: int| 0 <= y < keys_of(counts@).len() && keys_of(counts@)[y] == m;
                            assert(cm[counts@[y].0] == counts@[y].1);
                            assert(counts@[y] == (m, c));
                        }
                    }
                }
                return points;
            }
            j = j + 1;
        }
        proof {
            assert(!keys_of(pairs).contains(name@)) by {
                if keys_of(pairs).contains(name@) {
                    let q = choose|q: int| 0 <= q < keys_of(pairs).len() && keys_of(pairs)[q] == name@;
                    assert(pairs[q].0 == name@);
                }
            }
        }
        let points: Vec<(i64, u32)> = Vec::new();
        points
    }
}

impl Series {
    spec fn wf_counts(&self) -> bool {
        unique_keys(self.counts@)
    }
}

} // verus!
