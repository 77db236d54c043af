use vstd::prelude::*;
use std::collections::HashMap;
use crate::assoc::{assoc_map, keys_of, lemma_assoc_lookup, lemma_assoc_push, lemma_assoc_remove, lemma_assoc_update, unique_keys};
use crate::model::{ExtractSelection, SearchResultMatch};
use crate::navigation::{get_next_pos, step_pos};
use crate::text::str_eq;

verus! {

/// `v` shifted right `k` times, each time folding in the reflected IEEE
/// polynomial where a one bit drops out: an entry of the CRC-32 table.
pub open spec fn crc32_shift(v: u32, k: nat) -> u32
    decreases k,
{
    if k == 0 {
        v
    } else {
        let w = crc32_shift(v, (k - 1) as nat);
        if w & 1 == 1 { (w >> 1u32) ^ 0xEDB8_8320u32 } else { w >> 1u32 }
    }
}

/// The running CRC-32 value after one more byte, by table lookup.
pub open spec fn crc32_step(c: u32, b: u8) -> u32 {
    crc32_shift(((c as u8) ^ b) as u32, 8) ^ (c >> 8u32)
}

/// The running CRC-32 value after `bytes`, in turn.
pub open spec fn crc32_fold(c: u32, bytes: Seq<u8>) -> u32
    decreases bytes.len(),
{
    if bytes.len() == 0 {
        c
    } else {
        crc32_fold(crc32_step(c, bytes[0]), bytes.drop_first())
    }
}

/// The CRC-32 (IEEE) checksum of the UTF-8 bytes of `text`, as
/// `crc::crc32::checksum_ieee` computes it: the running value starts with
/// all bits set and is inverted at the end.
pub open spec fn spec_text_crc32(text: Seq<char>) -> u32 {
    !crc32_fold(!0u32, vstd::utf8::encode_utf8(text))
}

/// The CRC-32 (IEEE) checksum of the UTF-8 bytes of `text`, with the `crc`
/// crate's `checksum_ieee`.
#[verifier::external_body]
pub(crate) fn text_checksum(text: &str) -> (r: u32)
    ensures
        r == spec_text_crc32(text@),
{
    crc::crc32::checksum_ieee(text.as_bytes())
}

/// The row of the extracted text `text` within the matches of the rule
/// `search_id`: extracted texts are told apart by their checksum.
pub fn text_selection(search_id: &str, text: &str) -> (sel: ExtractSelection)
    ensures
        sel matches ExtractSelection::TextGroup(id, t) && id@ == search_id@ && t == spec_text_crc32(text@),
{
    ExtractSelection::TextGroup(search_id.to_owned(), text_checksum(text))
}

/// The lines of one extracted text within a rule's matches.
pub struct ChildView {
    pub count: int,
    pub positions: Seq<i32>,
}

/// A rule's matches: its name, a count, the lines, and the lines of each
/// extracted text by its checksum.
pub struct GroupView {
    pub name: Seq<char>,
    pub count: int,
    pub positions: Seq<i32>,
    pub children: Map<u32, ChildView>,
}

/// The line of a match in a chunk whose first line is `offset`.
pub open spec fn match_line(m: SearchResultMatch, offset: i32) -> i32 {
    ((m.line as i32) + offset) as i32
}

/// The checksum of the text that a match extracted, if any.
pub open spec fn match_text_id(m: SearchResultMatch) -> Option<u32> {
    match m.extracted_text {
        Some(t) => Some(spec_text_crc32(t@)),
        None => None,
    }
}

/// An extracted text after one more of its matches, at `line`.
pub open spec fn child_after(c: Option<ChildView>, line: i32) -> ChildView {
    match c {
        Some(c) => ChildView { count: c.count + 1, positions: c.positions.push(line) },
        None => ChildView { count: 1, positions: seq![line] },
    }
}

/// A rule's group after one more match at `line`, which extracted the text
/// with checksum `tid` if any.
pub open spec fn group_after(g: GroupView, line: i32, tid: Option<u32>) -> GroupView {
    GroupView {
        name: g.name,
        count: g.count + 1,
        positions: g.positions.push(line),
        children: match tid {
            Some(t) => g.children.insert(t, child_after(if g.children.contains_key(t) { Some(g.children[t]) } else { None }, line)),
            None => g.children,
        },
    }
}

/// A rule's group after the matches `ms` of a chunk whose first line is
/// `offset`, in turn.
pub open spec fn group_after_all(g: GroupView, ms: Seq<SearchResultMatch>, offset: i32) -> GroupView
    decreases ms.len(),
{
    if ms.len() == 0 {
        g
    } else {
        group_after(group_after_all(g, ms.drop_last(), offset), match_line(ms.last(), offset), match_text_id(ms.last()))
    }
}

/// A new group, before any of its matches.
pub open spec fn new_group(name: Seq<char>) -> GroupView {
    GroupView { name, count: 0, positions: Seq::empty(), children: Map::empty() }
}

/// The groups after the matches `ms` of rule `id` named `name`.
pub open spec fn after_results(
    v: Map<Seq<char>, GroupView>,
    id: Seq<char>,
    name: Seq<char>,
    ms: Seq<SearchResultMatch>,
    offset: i32,
) -> Map<Seq<char>, GroupView> {
    v.insert(id, group_after_all(if v.contains_key(id) { v[id] } else { new_group(name) }, ms, offset))
}

/// Every line of the matches fits.
pub open spec fn lines_fit(ms: Seq<SearchResultMatch>, offset: i32) -> bool {
    forall|i: int| 0 <= i < ms.len() ==> i32::MIN <= (#[trigger] ms[i].line as i32) + offset <= i32::MAX
}

/// The counts of a group leave room for `n` more.
pub open spec fn group_room(g: GroupView, n: int) -> bool {
    &&& g.count + n <= i32::MAX
    &&& g.count >= 0
    &&& forall|t: u32| #[trigger] g.children.contains_key(t) ==> 0 <= g.children[t].count && g.children[t].count + n <= i32::MAX
}

/// A group counts its lines, and so does each extracted text.
pub open spec fn group_counts_ok(g: GroupView) -> bool {
    &&& g.count == g.positions.len()
    &&& forall|t: u32| #[trigger] g.children.contains_key(t) ==> g.children[t].count == g.children[t].positions.len()
}

/// One more match keeps the counts in step with the lines.
proof fn lemma_group_after_counts(g: GroupView, line: i32, tid: Option<u32>)
    requires
        group_counts_ok(g),
    ensures
        group_counts_ok(group_after(g, line, tid)),
{
    let n = group_after(g, line, tid);
    assert forall|t: u32| #[trigger] n.children.contains_key(t) implies n.children[t].count == n.children[t].positions.len() by {
        if tid == Some(t) {
            if g.children.contains_key(t) {
            }
        }
    }
}

/// The positions that a selection of the table stands for.
pub open spec fn positions_of(v: Map<Seq<char>, GroupView>, sel: ExtractSelection) -> Option<Seq<i32>> {
    match sel {
        ExtractSelection::SearchGroup(id) => if v.contains_key(id@) { Some(v[id@].positions) } else { None },
        ExtractSelection::TextGroup(id, t) => if v.contains_key(id@) && v[id@].children.contains_key(t) {
            Some(v[id@].children[t].positions)
        } else {
            None
        },
    }
}

/// A selection of the table as plain values.
pub open spec fn selection_view(s: ExtractSelection) -> (Seq<char>, Option<u32>) {
    match s {
        ExtractSelection::SearchGroup(id) => (id@, None),
        ExtractSelection::TextGroup(id, t) => (id@, Some(t)),
    }
}

struct ExtractChild {
    count: i32,
    positions: Vec<i32>,
}

struct ExtractGroup {
    search_id: String,
    name: String,
    count: i32,
    positions: Vec<i32>,
    children: HashMap<u32, ExtractChild>,
}

spec fn child_view(c: ExtractChild) -> ChildView {
    ChildView { count: c.count as int, positions: c.positions@ }
}

impl ExtractGroup {
    spec fn view(&self) -> GroupView {
        GroupView {
            name: self.name@,
            count: self.count as int,
            positions: self.positions@,
            children: self.children@.map_values(|c: ExtractChild| child_view(c)),
        }
    }

    /// The counts follow the lines, and no extracted text counts more than
    /// its rule.
    spec fn wf(&self) -> bool {
        &&& group_counts_ok(self.view())
        &&& forall|t: u32| #[trigger] self.view().children.contains_key(t) ==> self.view().children[t].count <= self.count
    }

    /// Counts one more match at `line`, which extracted the text with
    /// checksum `tid` if any.
    fn add_match(&mut self, line: i32, tid: Option<u32>)
        requires
            old(self).wf(),
            group_room(old(self).view(), 1),
        ensures
            final(self).wf(),
            final(self).search_id == old(self).search_id,
            final(self).view() == group_after(old(self).view(), line, tid),
    {
        broadcast use vstd::std_specs::hash::group_hash_axioms;

        proof {
            lemma_group_after_counts(old(self).view(), line, tid);
        }
        let ghost v0 = old(self).view();
        self.count = self.count + 1;
        self.positions.push(line);
        match tid {
            Some(t) => {
                let ghost ch0 = self.children@;
                match self.children.remove(&t) {
                    Some(c) => {
                        assert(ch0.contains_key(t) && ch0[t] == c);
                        assert(v0.children.contains_key(t) && v0.children[t] == child_view(c));
                        let mut c = c;
                        c.count = c.count + 1;
                        c.positions.push(line);
                        self.children.insert(t, c);
                        assert(self.children@ == ch0.insert(t, c));
                        assert(self.view().children =~= v0.children.insert(t, child_view(c)));
                    },
                    None => {
                        assert(!v0.children.contains_key(t));
                        let mut positions: Vec<i32> = Vec::new();
                        positions.push(line);
                        let c = ExtractChild { count: 1, positions };
                        assert(c.positions@ =~= seq![line]);
                        self.children.insert(t, c);
                        assert(self.children@ == ch0.insert(t, c));
                        assert(self.view().children =~= v0.children.insert(t, child_view(c)));
                    },
                }
            },
            None => {},
        }
        assert(self.view() =~= group_after(v0, line, tid));
        proof {
            let n = self.view();
            assert forall|t: u32| #[trigger] n.children.contains_key(t) implies n.children[t].count <= self.count by {
                if tid != Some(t) {
                    assert(v0.children.contains_key(t));
                }
            }
        }
    }
}

/// The table of extracted matches of a log view, and the selected row with
/// the position within it that "next" and "previous" step from.
pub struct ExtractIndex {
    groups: Vec<ExtractGroup>,
    active: Option<(ExtractSelection, usize)>,
}

spec fn group_pairs(v: Seq<ExtractGroup>) -> Seq<(Seq<char>, GroupView)> {
    v.map_values(|g: ExtractGroup| (g.search_id@, g.view()))
}

/// The selected row and position, as plain values.
pub open spec fn active_view(a: Option<(ExtractSelection, usize)>) -> Option<((Seq<char>, Option<u32>), nat)> {
    match a {
        Some((s, p)) => Some((selection_view(s), p as nat)),
        None => None,
    }
}

/// The selected row still has its lines and the position is one of them.
pub open spec fn active_ok(v: Map<Seq<char>, GroupView>, a: Option<(ExtractSelection, usize)>) -> bool {
    match a {
        Some((s, p)) => positions_of(v, s) matches Some(ps) && p < ps.len(),
        None => true,
    }
}

impl ExtractIndex {
    /// The groups, by rule id.
    pub closed spec fn view(&self) -> Map<Seq<char>, GroupView> {
        assoc_map(group_pairs(self.groups@))
    }

    /// The selected row and position.
    pub closed spec fn active(&self) -> Option<(ExtractSelection, usize)> {
        self.active
    }

    /// No rule is listed twice, nor an extracted text twice within a rule,
    /// and the selection points at a line.
    pub closed spec fn wf(&self) -> bool {
        &&& unique_keys(group_pairs(self.groups@))
        &&& forall|i: int| 0 <= i < self.groups.len() ==> (#[trigger] self.groups@[i]).wf()
        &&& active_ok(self.view(), self.active)
    }

    /// An empty table.
    pub fn new() -> (x: Self)
        ensures
            x.wf(),
            x.view() == Map::<Seq<char>, GroupView>::empty(),
            x.active() is None,
    {
        let x = ExtractIndex { groups: Vec::new(), active: None };
        assert(group_pairs(x.groups@) =~= Seq::<(Seq<char>, GroupView)>::empty());
        x
    }
}

impl ExtractIndex {
    /// Where the rule `id` is listed.
    fn find_group(&self, id: &str) -> (r: Option<usize>)
        requires
            self.wf(),
        ensures
            match r {
                Some(i) => i < self.groups.len() && self.groups@[i as int].search_id@ == id@
                    && self.view().contains_key(id@) && self.view()[id@] == self.groups@[i as int].view(),
                None => !self.view().contains_key(id@),
            },
    {
        let ghost pairs = group_pairs(self.groups@);
        proof {
            lemma_assoc_lookup(pairs);
        }
        let mut i: usize = 0;
        while i < self.groups.len()
            invariant
                i <= self.groups.len(),
                pairs == group_pairs(self.groups@),
                unique_keys(pairs),
                forall|q: int| 0 <= q < pairs.len() ==> #[trigger] assoc_map(pairs)[pairs[q].0] == pairs[q].1,
                forall|k: Seq<char>| #[trigger] assoc_map(pairs).contains_key(k) <==> keys_of(pairs).contains(k),
                forall|q: int| 0 <= q < i ==> pairs[q].0 != id@,
            decreases self.groups.len() - i,
        {
            if str_eq(self.groups[i].search_id.as_str(), id) {
                assert(pairs[i as int] == (self.groups@[i as int].search_id@, self.groups@[i as int].view()));
                assert(keys_of(pairs)[i as int] == id@);
                assert(assoc_map(pairs)[pairs[i as int].0] == pairs[i as int].1);
                return Some(i);
            }
            i = i + 1;
        }
        assert(!keys_of(pairs).contains(id@)) by {
            if keys_of(pairs).contains(id@) {
                let q = choose|q: int| 0 <= q < keys_of(pairs).len() && keys_of(pairs)[q] == id@;
                assert(pairs[q].0 == id@);
            }
        }
        None
    }

    /// Whether the counts of rule `id` leave room for `n` more matches; a
    /// rule not listed yet starts at zero.
    pub fn has_room(&self, id: &str, n: usize) -> (b: bool)
        requires
            self.wf(),
        ensures
            b == group_room(if self.view().contains_key(id@) { self.view()[id@] } else { new_group(Seq::empty()) }, n as int),
    {
        match self.find_group(id) {
            Some(i) => {
                let g = &self.groups[i];
                if n > i32::MAX as usize || g.count < 0 || (g.count as i64) + (n as i64) > i32::MAX as i64 {
                    proof {
                        if n <= i32::MAX {
                            assert(g.count + n > i32::MAX || g.count < 0);
                        }
                    }
                    return false;
                }
                proof {
                    assert(g.wf());
                    let ch = g.view().children;
                    assert forall|t: u32| #[trigger] ch.contains_key(t) implies 0 <= ch[t].count && ch[t].count + n <= i32::MAX by {
                        assert(ch[t].count == ch[t].positions.len());
                    }
                }
                true
            },
            None => n <= i32::MAX as usize,
        }
    }

    /// Takes in the matches of rule `id` (named `result.name`) from a chunk
    /// whose first line is `offset`.
    pub fn add_results(&mut self, id: &str, result: &crate::model::RuleSearchResultData, offset: i32)
        requires
            old(self).wf(),
            result.name is Some,
            lines_fit(result.matches@, offset),
            group_room(
                if old(self).view().contains_key(id@) { old(self).view()[id@] } else { new_group(Seq::empty()) },
                result.matches@.len() as int,
            ),
        ensures
            final(self).wf(),
            final(self).active() == old(self).active(),
            final(self).view() == after_results(old(self).view(), id@, result.name.unwrap()@, result.matches@, offset),
    {
        let ghost pairs0 = group_pairs(self.groups@);
        let ghost v0 = self.view();
        proof {
            lemma_assoc_lookup(pairs0);
        }
        let name = match &result.name {
            Some(n) => n,
            None => {
                return;
            },
        };
        let found = self.find_group(id);
        let ghost before = self.groups@;
        let mut g = match found {
            Some(i) => self.groups.remove(i),
            None => ExtractGroup {
                search_id: id.to_owned(),
                name: name.clone(),
                count: 0,
                positions: Vec::new(),
                children: HashMap::new(),
            },
        };
        let ghost g0 = g.view();
        proof {
            if found is None {
                assert(g.view().children =~= Map::<u32, ChildView>::empty());
                assert(g.view() == new_group(name@));
            } else {
                assert(g == before[found.unwrap() as int]);
            }
            assert(g0 == (if v0.contains_key(id@) { v0[id@] } else { new_group(name@) }));
        }
        let ms = &result.matches;
        let mut k: usize = 0;
        while k < ms.len()
            invariant
                k <= ms.len(),
                g.wf(),
                g.search_id@ == id@,
                lines_fit(ms@, offset),
                g.view() == group_after_all(g0, ms@.take(k as int), offset),
                group_room(g.view(), ms.len() - k),
                g.view().positions.len() >= g0.positions.len(),
                forall|t: u32| #[trigger] g0.children.contains_key(t) ==> g.view().children.contains_key(t)
                    && g.view().children[t].positions.len() >= g0.children[t].positions.len(),
            decreases ms.len() - k,
        {
            let m = &ms[k];
            assert(i32::MIN <= (ms@[k as int].line as i32) + offset <= i32::MAX);
            let line = (m.line as i32) + offset;
            let tid = match &m.extracted_text {
                Some(t) => Some(text_checksum(t.as_str())),
                None => None,
            };
            let ghost gv = g.view();
            g.add_match(line, tid);
            proof {
                assert(ms@.take(k + 1).drop_last() =~= ms@.take(k as int));
                assert(ms@.take(k + 1).last() == ms@[k as int]);
                assert(line == match_line(ms@[k as int], offset));
                assert(tid == match_text_id(ms@[k as int]));
                let gn = g.view();
                assert forall|t: u32| #[trigger] gn.children.contains_key(t) implies 0 <= gn.children[t].count
                    && gn.children[t].count + (ms.len() - (k + 1)) <= i32::MAX by {
                    if gv.children.contains_key(t) {
                    }
                }
                assert forall|t: u32| #[trigger] g0.children.contains_key(t) implies gn.children.contains_key(t)
                    && gn.children[t].positions.len() >= g0.children[t].positions.len() by {
                    assert(gv.children.contains_key(t));
                }
            }
            k = k + 1;
        }
        assert(ms@.take(ms.len() as int) =~= ms@);
        let ghost gfinal = g.view();
        match found {
            Some(i) => {
                self.groups.insert(i, g);
                assert(self.groups@ =~= before.update(i as int, g));
                proof {
                    assert(pairs0[i as int].0 == id@);
                    lemma_assoc_update(pairs0, i as int, gfinal);
                    assert(group_pairs(self.groups@) =~= pairs0.update(i as int, (pairs0[i as int].0, gfinal)));
                    assert forall|q: int| 0 <= q < self.groups.len() implies (#[trigger] self.groups@[q]).wf() by {
                        if q != i {
                            assert(self.groups@[q] == before[q]);
                        }
                    }
                }
            },
            None => {
                self.groups.push(g);
                proof {
                    assert(!keys_of(pairs0).contains(id@));
                    lemma_assoc_push(pairs0, id@, gfinal);
                    assert(group_pairs(self.groups@) =~= pairs0.push((id@, gfinal)));
                    assert forall|q: int| 0 <= q < self.groups.len() implies (#[trigger] self.groups@[q]).wf() by {
                        if q < before.len() {
                            assert(self.groups@[q] == before[q]);
                        }
                    }
                }
            },
        }
        proof {
            let v1 = self.view();
            assert(v1 == v0.insert(id@, gfinal));
            match &self.active {
                Some((sel, p)) => {
                    match sel {
                        ExtractSelection::SearchGroup(sid) => {
                            if sid@ == id@ {
                                assert(v0.contains_key(id@));
                            }
                        },
                        ExtractSelection::TextGroup(sid, t) => {
                            if sid@ == id@ {
                                assert(v0.contains_key(id@));
                                assert(g0.children.contains_key(*t));
                            }
                        },
                    }
                },
                None => {},
            }
        }
    }
}

/// The count that the row `sel` of the table shows, where it is listed.
pub open spec fn count_of(v: Map<Seq<char>, GroupView>, sel: ExtractSelection) -> Option<int> {
    match sel {
        ExtractSelection::SearchGroup(id) => if v.contains_key(id@) { Some(v[id@].count) } else { None },
        ExtractSelection::TextGroup(id, t) => if v.contains_key(id@) && v[id@].children.contains_key(t) {
            Some(v[id@].children[t].count)
        } else {
            None
        },
    }
}

/// The selected row and position after choosing the row `sel`: its first
/// line, where it has lines.
pub open spec fn first_line_of(v: Map<Seq<char>, GroupView>, sel: ExtractSelection) -> Option<i32> {
    match positions_of(v, sel) {
        Some(ps) => if ps.len() > 0 { Some(ps[0]) } else { None },
        None => None,
    }
}

impl ExtractIndex {
    /// The lines of the row `sel`.
    fn positions(&self, sel: &ExtractSelection) -> (r: Option<&Vec<i32>>)
        requires
            self.wf(),
        ensures
            match r {
                Some(ps) => positions_of(self.view(), *sel) == Some(ps@),
                None => positions_of(self.view(), *sel) is None,
            },
    {
        match sel {
            ExtractSelection::SearchGroup(id) => match self.find_group(id.as_str()) {
                Some(i) => Some(&self.groups[i].positions),
                None => None,
            },
            ExtractSelection::TextGroup(id, t) => match self.find_group(id.as_str()) {
                Some(i) => {
                    let g = &self.groups[i];
                    assert(g.wf());
                    match g.children.get(t) {
                        Some(c) => Some(&c.positions),
                        None => None,
                    }
                },
                None => None,
            },
        }
    }

    /// The count that the row `sel` shows: how many matches it holds.
    pub fn count(&self, sel: &ExtractSelection) -> (r: Option<usize>)
        requires
            self.wf(),
        ensures
            match r {
                Some(n) => count_of(self.view(), *sel) == Some(n as int),
                None => count_of(self.view(), *sel) is None,
            },
    {
        proof {
            lemma_counts_follow_lines(self);
        }
        match self.positions(sel) {
            Some(ps) => Some(ps.len()),
            None => None,
        }
    }

    /// Chooses the row `sel` of the table; returns its first line, to scroll
    /// to, where it has one. Where it has none nothing changes.
    pub fn select(&mut self, sel: ExtractSelection) -> (r: Option<i32>)
        requires
            old(self).wf(),
        ensures
            final(self).wf(),
            final(self).view() == old(self).view(),
            r == first_line_of(old(self).view(), sel),
            active_view(final(self).active()) == (if r is Some {
                Some((selection_view(sel), 0nat))
            } else {
                active_view(old(self).active())
            }),
    {
        let first = match self.positions(&sel) {
            Some(ps) => if ps.len() > 0 { Some(ps[0]) } else { None },
            None => None,
        };
        if first.is_some() {
            self.active = Some((sel, 0));
        }
        first
    }

    /// Steps to the next (`forward`) or previous line of the selected row,
    /// wrapping round; returns the line to scroll to.
    pub fn step(&mut self, forward: bool) -> (r: Option<i32>)
        requires
            old(self).wf(),
        ensures
            final(self).wf(),
            final(self).view() == old(self).view(),
            match old(self).active() {
                Some((s, p)) => {
                    let ps = positions_of(old(self).view(), s).unwrap();
                    let np = step_pos(ps.len(), p as nat, forward);
                    &&& r == Some(ps[np as int])
                    &&& active_view(final(self).active()) == Some((selection_view(s), np))
                },
                None => r is None && final(self).active() is None,
            },
    {
        match self.active.take() {
            Some((sel, pos)) => {
                let (np, line) = match self.positions(&sel) {
                    Some(ps) => {
                        let np = get_next_pos(ps.len(), pos, forward);
                        (np, ps[np])
                    },
                    None => {
                        return None;
                    },
                };
                self.active = Some((sel, np));
                Some(line)
            },
            None => None,
        }
    }

    /// Drops the groups of the rules `ids`, whose patterns changed; the
    /// selection is dropped with them.
    pub fn forget_rules(&mut self, ids: &Vec<String>)
        requires
            old(self).wf(),
        ensures
            final(self).wf(),
            final(self).view() == old(self).view().remove_keys(ids@.map_values(|s: String| s@).to_set()),
            final(self).active() == (if ids.len() > 0 { None } else { old(self).active() }),
    {
        let ghost idv = ids@.map_values(|s: String| s@);
        let ghost v0 = self.view();
        if ids.len() > 0 {
            self.active = None;
        }
        let mut k: usize = 0;
        while k < ids.len()
            invariant
                k <= ids.len(),
                idv == ids@.map_values(|s: String| s@),
                unique_keys(group_pairs(self.groups@)),
                forall|i: int| 0 <= i < self.groups.len() ==> (#[trigger] self.groups@[i]).wf(),
                ids.len() > 0 ==> self.active is None,
                ids.len() == 0 ==> self.active == old(self).active,
                self.view() == v0.remove_keys(idv.take(k as int).to_set()),
            decreases ids.len() - k,
        {
            let ghost before = self.groups@;
            let ghost pairs = group_pairs(before);
            let ghost vb = self.view();
            proof {
                assert(self.wf());
            }
            match self.find_group(ids[k].as_str()) {
                Some(i) => {
                    self.groups.remove(i);
                    proof {
                        assert(pairs[i as int].0 == ids@[k as int]@);
                        lemma_assoc_remove(pairs, i as int);
                        assert(group_pairs(self.groups@) =~= pairs.remove(i as int));
                        assert forall|q: int| 0 <= q < self.groups.len() implies (#[trigger] self.groups@[q]).wf() by {
                            if q < i {
                                assert(self.groups@[q] == before[q]);
                            } else {
                                assert(self.groups@[q] == before[q + 1]);
                            }
                        }
                    }
                },
                None => {},
            }
            proof {
                let key = ids@[k as int]@;
                let t0 = idv.take(k as int);
                let t1 = idv.take(k + 1);
                assert(t1 =~= t0.push(key));
                assert(t1.to_set() =~= t0.to_set().insert(key)) by {
                    assert forall|x: Seq<char>| t1.to_set().contains(x) <==> t0.to_set().insert(key).contains(x) by {
                        if t1.contains(x) && x != key {
                            let q = choose|q: int| 0 <= q < t1.len() && t1[q] == x;
                            assert(t0[q] == x);
                        }
                        if t0.contains(x) {
                            let q = choose|q: int| 0 <= q < t0.len() && t0[q] == x;
                            assert(t1[q] == x);
                        }
                        if x == key {
                            assert(t1[k as int] == x);
                        }
                    }
                }
                assert(self.view() =~= v0.remove_keys(idv.take(k + 1).to_set()));
            }
            k = k + 1;
        }
        assert(idv.take(ids.len() as int) =~= idv);
        proof {
            if ids.len() == 0 {
                assert(idv.to_set() =~= Set::<Seq<char>>::empty());
                assert(self.view() =~= v0);
            }
        }
    }
}

/// The first line of the chunk that search results refer to: the top of the
/// text for a search over all of it, else the last line shown.
pub open spec fn chunk_offset(full_search: bool, line_count: i32) -> i32 {
    if full_search { 0 } else if line_count > 0 { (line_count - 1) as i32 } else { 0 }
}

/// The first line of the chunk that search results refer to.
pub fn data_offset(full_search: bool, line_count: i32) -> (r: i32)
    ensures
        r == chunk_offset(full_search, line_count),
{
    if full_search {
        0
    } else if line_count > 0 {
        line_count - 1
    } else {
        0
    }
}

/// The bookmarks of a log view: a line for each key.
pub struct Bookmarks {
    marks: HashMap<u16, i32>,
}

/// What toggling a bookmark did: whether the old mark went, whether a new
/// one was set, and whether any bookmark is left to show.
pub struct BookmarkToggle {
    pub removed: bool,
    pub added: bool,
    pub any_left: bool,
}

impl Bookmarks {
    /// The line of each key.
    pub closed spec fn view(&self) -> Map<u16, i32> {
        self.marks@
    }

    /// No bookmarks.
    pub fn new() -> (b: Self)
        ensures
            b.view() == Map::<u16, i32>::empty(),
    {
        Bookmarks { marks: HashMap::new() }
    }

    /// The line of the bookmark `key`, to scroll to.
    pub fn line(&self, key: u16) -> (r: Option<i32>)
        ensures
            r == (if self.view().contains_key(key) { Some(self.view()[key]) } else { None }),
    {
        broadcast use vstd::std_specs::hash::group_hash_axioms;

        match self.marks.get(&key) {
            Some(l) => Some(*l),
            None => None,
        }
    }

    /// Toggles the bookmark `key` at the cursor's line: a mark on that very
    /// line goes away, a mark elsewhere moves there, and a new one is set.
    pub fn toggle(&mut self, key: u16, cursor_line: i32) -> (t: BookmarkToggle)
        ensures
            t.removed == old(self).view().contains_key(key),
            t.added == !(old(self).view().contains_key(key) && old(self).view()[key] == cursor_line),
            final(self).view() == toggled(old(self).view(), key, cursor_line),
            t.any_left == (final(self).view().dom() != Set::<u16>::empty()),
    {
        broadcast use vstd::std_specs::hash::group_hash_axioms;

        let ghost m0 = self.marks@;
        let mut removed = false;
        let mut add = true;
        match self.marks.remove(&key) {
            Some(line) => {
                removed = true;
                add = line != cursor_line;
            },
            None => {
                assert(m0.remove(key) =~= m0);
            },
        }
        if add {
            self.marks.insert(key, cursor_line);
            assert(m0.remove(key).insert(key, cursor_line) =~= m0.insert(key, cursor_line));
        }
        let any_left = self.marks.len() > 0;
        proof {
            if any_left {
                assert(self.marks@.len() > 0);
                assert(self.marks@.dom().len() > 0);
                assert(self.marks@.dom() != Set::<u16>::empty());
            } else {
                assert(self.marks@.dom().len() == 0);
                self.marks@.dom().lemma_len0_is_empty();
            }
        }
        BookmarkToggle { removed, added: add, any_left }
    }
}

/// In the table of extracted matches, the count of a rule is the number of
/// its matched lines, and so is the count of each extracted text.
pub proof fn lemma_counts_follow_lines(x: &ExtractIndex)
    requires
        x.wf(),
    ensures
        forall|id: Seq<char>| #[trigger] x.view().contains_key(id) ==> group_counts_ok(x.view()[id]),
{
    let pairs = group_pairs(x.groups@);
    lemma_assoc_lookup(pairs);
    assert forall|id: Seq<char>| #[trigger] x.view().contains_key(id) implies group_counts_ok(x.view()[id]) by {
        let q = choose|q: int| 0 <= q < keys_of(pairs).len() && keys_of(pairs)[q] == id;
        assert(pairs[q].0 == id);
        assert(assoc_map(pairs)[pairs[q].0] == pairs[q].1);
        assert(x.groups@[q].wf());
    }
}

/// The bookmarks after toggling `key` at `line`: a mark on that line goes,
/// else the key is set to that line.
pub open spec fn toggled(m: Map<u16, i32>, key: u16, line: i32) -> Map<u16, i32> {
    if m.contains_key(key) && m[key] == line { m.remove(key) } else { m.insert(key, line) }
}

/// Toggling a bookmark twice at the same line leaves the bookmarks as they
/// were, where the key was free or set to that line.
pub proof fn lemma_toggle_twice(m: Map<u16, i32>, key: u16, line: i32)
    requires
        m.contains_key(key) ==> m[key] == line,
    ensures
        toggled(toggled(m, key, line), key, line) == m,
{
    if m.contains_key(key) {
        assert(m.remove(key).insert(key, line) =~= m);
    } else {
        assert(m.insert(key, line).remove(key) =~= m);
    }
}

} // verus!
