use vstd::prelude::*;
use crate::assoc::{assoc_map, keys_of, lemma_assoc_lookup, lemma_assoc_push, lemma_assoc_update, unique_keys};
use crate::text::str_eq;

verus! {

/// Where one match of a rule stands in the text: its line and the byte
/// range within that line.
#[derive(Clone, Copy)]
pub struct MatchSpan {
    pub line: usize,
    pub start: usize,
    pub end: usize,
}

/// A place in the text as a line and an index within that line.
pub open spec fn start_of(m: MatchSpan) -> (usize, usize) {
    (m.line, m.start)
}

/// `a` comes after `b` in the text.
pub open spec fn is_after(a: (usize, usize), b: (usize, usize)) -> bool {
    a.0 > b.0 || (a.0 == b.0 && a.1 > b.1)
}

/// The first match that starts after `cursor`.
pub open spec fn first_after(spans: Seq<MatchSpan>, cursor: (usize, usize)) -> Option<nat>
    decreases spans.len(),
{
    if spans.len() == 0 {
        None
    } else {
        match first_after(spans.drop_last(), cursor) {
            Some(i) => Some(i),
            None => if is_after(start_of(spans.last()), cursor) { Some((spans.len() - 1) as nat) } else { None },
        }
    }
}

/// The match that "next" goes to from `cursor`: the first that starts after
/// it, else the last one, else none.
pub open spec fn next_from(spans: Seq<MatchSpan>, cursor: (usize, usize)) -> Option<nat> {
    match first_after(spans, cursor) {
        Some(i) => Some(i),
        None => if spans.len() > 0 { Some((spans.len() - 1) as nat) } else { None },
    }
}

/// The matches of one rule.
pub struct RuleMatches {
    id: String,
    spans: Vec<MatchSpan>,
}

/// The matches of each rule, by rule id.
pub struct MatchTable {
    rules: Vec<RuleMatches>,
}

spec fn rule_pairs(v: Seq<RuleMatches>) -> Seq<(Seq<char>, Seq<MatchSpan>)> {
    v.map_values(|r: RuleMatches| (r.id@, r.spans@))
}

impl MatchTable {
    /// The matches of each rule.
    pub closed spec fn view(&self) -> Map<Seq<char>, Seq<MatchSpan>> {
        assoc_map(rule_pairs(self.rules@))
    }

    /// No rule is listed twice.
    pub closed spec fn wf(&self) -> bool {
        unique_keys(rule_pairs(self.rules@))
    }

    /// A table without matches.
    pub fn new() -> (t: Self)
        ensures
            t.wf(),
            t.view() == Map::<Seq<char>, Seq<MatchSpan>>::empty(),
    {
        let t = MatchTable { rules: Vec::new() };
        assert(rule_pairs(t.rules@) =~= Seq::<(Seq<char>, Seq<MatchSpan>)>::empty());
        t
    }

    /// Forgets all matches.
    pub fn clear(&mut self)
        ensures
            final(self).wf(),
            final(self).view() == Map::<Seq<char>, Seq<MatchSpan>>::empty(),
    {
        self.rules.clear();
        assert(rule_pairs(self.rules@) =~= Seq::<(Seq<char>, Seq<MatchSpan>)>::empty());
    }

    /// Where the rule `id` is listed.
    fn find_rule(&self, id: &str) -> (r: Option<usize>)
        requires
            self.wf(),
        ensures
            match r {
                Some(i) => i < self.rules.len() && self.rules@[i as int].id@ == id@
                    && self.view().contains_key(id@) && self.view()[id@] == self.rules@[i as int].spans@,
                None => !self.view().contains_key(id@),
            },
    {
        let ghost pairs = rule_pairs(self.rules@);
        proof {
            lemma_assoc_lookup(pairs);
        }
        let mut i: usize = 0;
        while i < self.rules.len()
            invariant
                i <= self.rules.len(),
                pairs == rule_pairs(self.rules@),
                unique_keys(pairs),
                forall|q: int| 0 <= q < pairs.len() ==> #[trigger] assoc_map(pairs)[pairs[q].0] == pairs[q].1,
                forall|k: Seq<char>| #[trigger] assoc_map(pairs).contains_key(k) <==> keys_of(pairs).contains(k),
                forall|q: int| 0 <= q < i ==> pairs[q].0 != id@,
            decreases self.rules.len() - i,
        {
            if str_eq(self.rules[i].id.as_str(), id) {
                assert(pairs[i as int] == (self.rules@[i as int].id@, self.rules@[i as int].spans@));
                assert(keys_of(pairs)[i as int] == id@);
                assert(assoc_map(pairs)[pairs[i as int].0] == pairs[i as int].1);
                assert(self.view() == assoc_map(pairs));
                return Some(i);
            }
            i = i + 1;
        }
        assert(!keys_of(pairs).contains(id@)) by {
            if keys_of(pairs).contains(id@) {
                let q = choose|q: int| 0 <= q < keys_of(pairs).len() && keys_of(pairs)[q] == id@;
                assert(pairs[q].0 == id@);
            }
        }
        None
    }

    /// Appends the matches `spans` to those of the rule `tag`, listing the
    /// rule where it had none.
    pub fn add_matches(&mut self, tag: &str, spans: &Vec<MatchSpan>)
        requires
            old(self).wf(),
        ensures
            final(self).wf(),
            final(self).view() == old(self).view().insert(
                tag@,
                (if old(self).view().contains_key(tag@) { old(self).view()[tag@] } else { Seq::<MatchSpan>::empty() }) + spans@,
            ),
    {
        let ghost pairs0 = rule_pairs(self.rules@);
        let ghost before = self.rules@;
        match self.find_rule(tag) {
            Some(i) => {
                let mut r = self.rules.remove(i);
                assert(r == before[i as int]);
                let ghost s0 = r.spans@;
                let mut k: usize = 0;
                while k < spans.len()
                    invariant
                        k <= spans.len(),
                        r.id == before[i as int].id,
                        r.spans@ == s0 + spans@.take(k as int),
                    decreases spans.len() - k,
                {
                    r.spans.push(spans[k]);
                    k = k + 1;
                    assert(r.spans@ =~= s0 + spans@.take(k as int));
                }
                assert(spans@.take(spans.len() as int) =~= spans@);
                let ghost rv = r.spans@;
                self.rules.insert(i, r);
                assert(self.rules@ =~= before.update(i as int, r));
                proof {
                    lemma_assoc_update(pairs0, i as int, rv);
                    assert(pairs0[i as int] == (before[i as int].id@, before[i as int].spans@));
                    assert(rule_pairs(self.rules@) =~= pairs0.update(i as int, (pairs0[i as int].0, rv)));
                }
            },
            None => {
                let mut v: Vec<MatchSpan> = Vec::new();
                let mut k: usize = 0;
                while k < spans.len()
                    invariant
                        k <= spans.len(),
                        v@ == spans@.take(k as int),
                    decreases spans.len() - k,
                {
                    v.push(spans[k]);
                    k = k + 1;
                    assert(v@ =~= spans@.take(k as int));
                }
                assert(spans@.take(spans.len() as int) =~= spans@);
                let r = RuleMatches { id: tag.to_owned(), spans: v };
                self.rules.push(r);
                proof {
                    lemma_assoc_lookup(pairs0);
                    assert(!keys_of(pairs0).contains(tag@));
                    lemma_assoc_push(pairs0, tag@, spans@);
                    assert(rule_pairs(self.rules@) =~= pairs0.push((tag@, spans@)));
                    assert(Seq::<MatchSpan>::empty() + spans@ =~= spans@);
                }
            },
        }
    }

    /// The match of rule `rule` that "next" goes to from `cursor`.
    pub fn next_from_pos(&self, cursor: (usize, usize), rule: &str) -> (r: Option<usize>)
        requires
            self.wf(),
        ensures
            (match r {
                Some(x) => Some(x as nat),
                None => None,
            }) == (if self.view().contains_key(rule@) { next_from(self.view()[rule@], cursor) } else { None }),
    {
        match self.find_rule(rule) {
            Some(i) => next_in(self.rules[i].spans.as_slice(), cursor),
            None => None,
        }
    }

    /// Whether the rule `id` has a match at `index`.
    fn has_match(&self, id: &str, index: usize) -> (b: bool)
        requires
            self.wf(),
        ensures
            b == (self.view().contains_key(id@) && index < self.view()[id@].len()),
    {
        match self.find_rule(id) {
            Some(i) => index < self.rules[i].spans.len(),
            None => false,
        }
    }

    /// The number of matches of the rule `id`.
    fn match_count(&self, id: &str) -> (n: Option<usize>)
        requires
            self.wf(),
        ensures
            match n {
                Some(x) => self.view().contains_key(id@) && x == self.view()[id@].len(),
                None => !self.view().contains_key(id@),
            },
    {
        match self.find_rule(id) {
            Some(i) => Some(self.rules[i].spans.len()),
            None => None,
        }
    }

    /// Where the match `index` of rule `id` starts.
    fn match_start(&self, id: &str, index: usize) -> (p: (usize, usize))
        requires
            self.wf(),
            self.view().contains_key(id@),
            index < self.view()[id@].len(),
        ensures
            p == start_of(self.view()[id@][index as int]),
    {
        let i = self.find_rule(id).unwrap();
        let m = self.rules[i].spans[index];
        (m.line, m.start)
    }
}

/// The match that "next" goes to from `cursor` among `spans`.
fn next_in(spans: &[MatchSpan], cursor: (usize, usize)) -> (r: Option<usize>)
    ensures
        (match r {
            Some(x) => Some(x as nat),
            None => None,
        }) == next_from(spans@, cursor),
{
    let mut i: usize = 0;
    while i < spans.len()
        invariant
            i <= spans.len(),
            first_after(spans@.take(i as int), cursor) is None,
        decreases spans.len() - i,
    {
        assert(spans@.take(i + 1).drop_last() =~= spans@.take(i as int));
        let m = spans[i];
        if m.line > cursor.0 || (m.line == cursor.0 && m.start > cursor.1) {
            proof {
                lemma_first_after_prefix(spans@, cursor, (i + 1) as nat);
            }
            return Some(i);
        }
        i = i + 1;
    }
    assert(spans@.take(spans.len() as int) =~= spans@);
    if spans.len() > 0 {
        Some(spans.len() - 1)
    } else {
        None
    }
}

/// A match found within a prefix is the first match of the whole.
proof fn lemma_first_after_prefix(s: Seq<MatchSpan>, cursor: (usize, usize), k: nat)
    requires
        k <= s.len(),
        first_after(s.take(k as int), cursor) is Some,
    ensures
        first_after(s, cursor) == first_after(s.take(k as int), cursor),
    decreases s.len() - k,
{
    if k < s.len() {
        assert(s.take(k + 1 as int).drop_last() =~= s.take(k as int));
        lemma_first_after_prefix(s, cursor, k + 1);
    } else {
        assert(s.take(k as int) =~= s);
    }
}

/// A change of which match is shown as selected.
pub struct HighlightChange {
    pub rule: String,
    pub index: usize,
    pub selected: bool,
}

/// A highlight change as plain values.
pub open spec fn change_view(c: HighlightChange) -> (Seq<char>, nat, bool) {
    (c.rule@, c.index as nat, c.selected)
}

/// The selected match of a file view and where a click last put the cursor.
pub struct MatchSelection {
    current: Option<(String, usize)>,
    cursor_next: Option<usize>,
    active_rule: String,
}

/// What a match selection holds.
pub struct SelectionView {
    pub current: Option<(Seq<char>, nat)>,
    pub cursor_next: Option<nat>,
    pub active_rule: Seq<char>,
}

/// The match after the cursor, once "next" or "previous" switches to the
/// rule `id` from the selected match of another rule.
pub open spec fn cursor_after_switch(s: SelectionView, t: Map<Seq<char>, Seq<MatchSpan>>, id: Seq<char>) -> Option<nat> {
    match s.current {
        Some((cid, cur)) =>
            if id != cid && t.contains_key(cid) && cur < t[cid].len() {
                next_from(t[id], start_of(t[cid][cur as int]))
            } else {
                s.cursor_next
            },
        None => s.cursor_next,
    }
}

/// "Next" with nothing after the cursor and no match of the rule at all:
/// the step past the last match cannot be counted.
pub open spec fn select_fails(s: SelectionView, t: Map<Seq<char>, Seq<MatchSpan>>, id: Seq<char>, forward: bool) -> bool {
    &&& t.contains_key(id)
    &&& s.current is Some
    &&& cursor_after_switch(s, t, id) is None
    &&& forward
    &&& t[id].len() == 0
}

/// The selection and the highlight changes after "next" (`forward`) or
/// "previous" among the matches of rule `id`.
pub open spec fn select_outcome(
    s: SelectionView,
    t: Map<Seq<char>, Seq<MatchSpan>>,
    id: Seq<char>,
    forward: bool,
) -> (SelectionView, Seq<(Seq<char>, nat, bool)>) {
    if !t.contains_key(id) {
        (s, Seq::empty())
    } else {
        let matches = t[id];
        let n = matches.len();
        match s.current {
            Some((cid, cur)) => {
                let switched = id != cid && t.contains_key(cid) && cur < t[cid].len();
                let ch1: Seq<(Seq<char>, nat, bool)> = if switched { seq![(cid, cur, false)] } else { Seq::empty() };
                let next: nat = match cursor_after_switch(s, t, id) {
                    Some(x) => x,
                    None => if forward {
                        if cur < n - 1 { (cur + 1) as nat } else { 0 }
                    } else {
                        if cur > 0 { (cur - 1) as nat } else { 0 }
                    },
                };
                let ch2: Seq<(Seq<char>, nat, bool)> = if cur < n { seq![(id, cur, false)] } else { Seq::empty() };
                let ch3: Seq<(Seq<char>, nat, bool)> = if next < n { seq![(id, next, true)] } else { Seq::empty() };
                (SelectionView { current: Some((id, next)), cursor_next: None, active_rule: s.active_rule }, ch1 + ch2 + ch3)
            },
            None => {
                let start: nat = match s.cursor_next {
                    Some(x) => x,
                    None => if forward { 0 } else if n > 0 { (n - 1) as nat } else { 0 },
                };
                if start < n {
                    (SelectionView { current: Some((id, start)), cursor_next: None, active_rule: s.active_rule }, seq![(id, start, true)])
                } else {
                    (SelectionView { current: None, cursor_next: None, active_rule: s.active_rule }, Seq::empty())
                }
            },
        }
    }
}

/// The changes as plain values.
pub open spec fn changes_view(v: Seq<HighlightChange>) -> Seq<(Seq<char>, nat, bool)> {
    v.map_values(|c: HighlightChange| change_view(c))
}

fn change(rule: &str, index: usize, selected: bool) -> (c: HighlightChange)
    ensures
        change_view(c) == (rule@, index as nat, selected),
{
    HighlightChange { rule: rule.to_owned(), index, selected }
}

impl MatchSelection {
    /// What the selection holds.
    pub closed spec fn view(&self) -> SelectionView {
        SelectionView {
            current: match self.current {
                Some((id, c)) => Some((id@, c as nat)),
                None => None,
            },
            cursor_next: match self.cursor_next {
                Some(c) => Some(c as nat),
                None => None,
            },
            active_rule: self.active_rule@,
        }
    }

    /// Nothing selected; `active_rule` is the rule that a click looks for.
    pub fn new(active_rule: &str) -> (s: Self)
        ensures
            s.view() == (SelectionView { current: None, cursor_next: None, active_rule: active_rule@ }),
    {
        MatchSelection { current: None, cursor_next: None, active_rule: active_rule.to_owned() }
    }

    /// Makes `rule` the rule that a click looks for.
    pub fn set_active_rule(&mut self, rule: &str)
        ensures
            final(self).view() == (SelectionView { active_rule: rule@, ..old(self).view() }),
    {
        self.active_rule = rule.to_owned();
    }

    /// The cursor moved to `cursor`: the next "next" or "previous" goes to the
    /// match of the active rule that follows it.
    pub fn cursor_changed(&mut self, table: &MatchTable, cursor: (usize, usize))
        requires
            table.wf(),
        ensures
            final(self).view() == (SelectionView {
                cursor_next: if table.view().contains_key(old(self).view().active_rule) {
                    next_from(table.view()[old(self).view().active_rule], cursor)
                } else {
                    None
                },
                ..old(self).view()
            }),
    {
        self.cursor_next = table.next_from_pos(cursor, self.active_rule.as_str());
    }

    /// Moves the selection to the next (`forward`) or previous match of the
    /// rule `id`; returns the matches to show as selected or no longer so,
    /// in order.
    pub fn select_match(&mut self, table: &MatchTable, id: &str, forward: bool) -> (changes: Vec<HighlightChange>)
        requires
            table.wf(),
            !select_fails(old(self).view(), table.view(), id@, forward),
        ensures
            (final(self).view(), changes_view(changes@)) == select_outcome(old(self).view(), table.view(), id@, forward),
    {
        let mut changes: Vec<HighlightChange> = Vec::new();
        let ghost s0 = self.view();
        let ghost t = table.view();
        let n = match table.match_count(id) {
            Some(n) => n,
            None => {
                assert(changes_view(changes@) =~= Seq::<(Seq<char>, nat, bool)>::empty());
                return changes;
            },
        };
        match self.current.take() {
            Some((cid, cur)) => {
                if !str_eq(cid.as_str(), id) && table.has_match(cid.as_str(), cur) {
                    let p = table.match_start(cid.as_str(), cur);
                    self.cursor_next = table.next_from_pos(p, id);
                    changes.push(change(cid.as_str(), cur, false));
                }
                let next = match self.cursor_next.take() {
                    Some(x) => x,
                    None => if forward {
                        if cur < n - 1 { cur + 1 } else { 0 }
                    } else {
                        if cur > 0 { cur - 1 } else { 0 }
                    },
                };
                if cur < n {
                    changes.push(change(id, cur, false));
                }
                if next < n {
                    changes.push(change(id, next, true));
                }
                self.current = Some((id.to_owned(), next));
                proof {
                    let ch1: Seq<(Seq<char>, nat, bool)> = if id@ != cid@ && t.contains_key(cid@) && cur < t[cid@].len() {
                        seq![(cid@, cur as nat, false)]
                    } else {
                        Seq::empty()
                    };
                    let ch2: Seq<(Seq<char>, nat, bool)> = if cur < n { seq![(id@, cur as nat, false)] } else { Seq::empty() };
                    let ch3: Seq<(Seq<char>, nat, bool)> = if next < n { seq![(id@, next as nat, true)] } else { Seq::empty() };
                    assert(changes_view(changes@) =~= ch1 + ch2 + ch3);
                }
            },
            None => {
                let start = match self.cursor_next.take() {
                    Some(x) => x,
                    None => if forward { 0 } else if n > 0 { n - 1 } else { 0 },
                };
                if start < n {
                    changes.push(change(id, start, true));
                    self.current = Some((id.to_owned(), start));
                    assert(changes_view(changes@) =~= seq![(id@, start as nat, true)]);
                } else {
                    assert(changes_view(changes@) =~= Seq::<(Seq<char>, nat, bool)>::empty());
                }
            },
        }
        changes
    }

    /// Moves to the next match of the rule `id`.
    pub fn select_next_match(&mut self, table: &MatchTable, id: &str) -> (changes: Vec<HighlightChange>)
        requires
            table.wf(),
            !select_fails(old(self).view(), table.view(), id@, true),
        ensures
            (final(self).view(), changes_view(changes@)) == select_outcome(old(self).view(), table.view(), id@, true),
    {
        self.select_match(table, id, true)
    }

    /// Moves to the previous match of the rule `id`.
    pub fn select_prev_match(&mut self, table: &MatchTable, id: &str) -> (changes: Vec<HighlightChange>)
        requires
            table.wf(),
        ensures
            (final(self).view(), changes_view(changes@)) == select_outcome(old(self).view(), table.view(), id@, false),
    {
        self.select_match(table, id, false)
    }

    /// Drops the selection and all matches; returns the match to show as no
    /// longer selected, if it exists.
    pub fn clear(&mut self, table: &mut MatchTable) -> (changes: Vec<HighlightChange>)
        requires
            old(table).wf(),
        ensures
            final(table).wf(),
            final(table).view() == Map::<Seq<char>, Seq<MatchSpan>>::empty(),
            final(self).view() == (SelectionView { current: None, ..old(self).view() }),
            changes_view(changes@) == (match old(self).view().current {
                Some((id, c)) => if old(table).view().contains_key(id) && c < old(table).view()[id].len() {
                    seq![(id, c, false)]
                } else {
                    Seq::empty()
                },
                None => Seq::empty(),
            }),
    {
        let mut changes: Vec<HighlightChange> = Vec::new();
        match self.current.take() {
            Some((id, c)) => {
                if table.has_match(id.as_str(), c) {
                    changes.push(change(id.as_str(), c, false));
                    assert(changes_view(changes@) =~= seq![(id@, c as nat, false)]);
                } else {
                    assert(changes_view(changes@) =~= Seq::<(Seq<char>, nat, bool)>::empty());
                }
            },
            None => {
                assert(changes_view(changes@) =~= Seq::<(Seq<char>, nat, bool)>::empty());
            },
        }
        table.clear();
        changes
    }
}

} // verus!

verus! {

/// Stepping within the selected rule, with no click pending: "next" from
/// match `cur` of `n` goes to match `(cur + 1) % n`, wrapping round from the
/// last to the first, and "previous" goes one back but not before the
/// first. The match left is shown as no longer selected, the one reached
/// as selected.
pub proof fn lemma_step_within_rule(s: SelectionView, t: Map<Seq<char>, Seq<MatchSpan>>, id: Seq<char>, cur: nat)
    requires
        t.contains_key(id),
        cur < t[id].len(),
        s.current == Some((id, cur)),
        s.cursor_next is None,
    ensures
        select_outcome(s, t, id, true).0.current == Some((id, ((cur as int + 1) % (t[id].len() as int)) as nat)),
        select_outcome(s, t, id, true).1 == seq![(id, cur, false), (id, ((cur as int + 1) % (t[id].len() as int)) as nat, true)],
        cur > 0 ==> select_outcome(s, t, id, false).0.current == Some((id, (cur - 1) as nat)),
        cur == 0 ==> select_outcome(s, t, id, false).0.current == Some((id, 0nat)),
        select_outcome(s, t, id, true).0.cursor_next is None,
{
    let n = t[id].len() as int;
    if cur + 1 < n {
        assert((cur as int + 1) % n == cur + 1) by (nonlinear_arith)
            requires
                0 <= cur + 1 < n,
        ;
    } else {
        assert(cur + 1 == n);
        assert((cur as int + 1) % n == 0) by (nonlinear_arith)
            requires
                cur + 1 == n,
                n > 0,
        ;
    }
    assert(select_outcome(s, t, id, true).1 =~= seq![(id, cur, false), (id, ((cur as int + 1) % n) as nat, true)]);
}

} // verus!
