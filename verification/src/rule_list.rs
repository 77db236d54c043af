use vstd::prelude::*;
use crate::compare::{compare_all, compare_steps, left_of, right_of, steps_cover, CompareResult};
use crate::rules::{added_rules, id_list, ids, removed_ids, rule_type_highlight, sort_by_id, sorted_ids, Highlighter};
use crate::text::{copy_opt, opt_str_eq, opt_view};

verus! {

/// The id of the system rule that holds the free-text search.
pub const SEARCH_ID: u128 = 0xba5b70bb_57b9_4f5c_95c9_e80953ae113eu128;

/// A rule as the list of rules shows it: a blank name or pattern stands for
/// none.
pub struct HighlighterRow {
    pub id: u128,
    pub name: String,
    pub regex: String,
    pub color: Option<String>,
    pub is_system: bool,
    pub rule_type: String,
}

/// A rule's row as plain values.
pub struct RowView {
    pub id: u128,
    pub name: Seq<char>,
    pub regex: Seq<char>,
    pub color: Option<Seq<char>>,
    pub is_system: bool,
    pub rule_type: Seq<char>,
}

/// A row as plain values.
pub open spec fn row_view(r: HighlighterRow) -> RowView {
    RowView { id: r.id, name: r.name@, regex: r.regex@, color: opt_view(r.color), is_system: r.is_system, rule_type: r.rule_type@ }
}

/// The row a rule is shown in.
pub open spec fn row_of(h: Highlighter) -> RowView {
    RowView {
        id: h.id,
        name: match opt_view(h.name) { Some(n) => n, None => Seq::empty() },
        regex: match opt_view(h.regex) { Some(r) => r, None => Seq::empty() },
        color: opt_view(h.color),
        is_system: h.is_system,
        rule_type: h.rule_type@,
    }
}

/// A blank text stands for none.
pub open spec fn non_blank(s: Seq<char>) -> Option<Seq<char>> {
    if s.len() == 0 { None } else { Some(s) }
}

/// What a rule read back from its row holds: id, name, pattern, colour,
/// system flag, type, and extracting pattern.
pub struct RuleView {
    pub id: u128,
    pub name: Option<Seq<char>>,
    pub regex: Option<Seq<char>>,
    pub color: Option<Seq<char>>,
    pub is_system: bool,
    pub rule_type: Seq<char>,
    pub extractor_regex: Option<Seq<char>>,
}

/// A rule as plain values.
pub open spec fn rule_view(h: Highlighter) -> RuleView {
    RuleView {
        id: h.id,
        name: opt_view(h.name),
        regex: opt_view(h.regex),
        color: opt_view(h.color),
        is_system: h.is_system,
        rule_type: h.rule_type@,
        extractor_regex: opt_view(h.extractor_regex),
    }
}

/// The rule read back from a row: blank name and pattern are none, and the
/// row keeps no extracting pattern.
pub open spec fn rule_of(r: RowView) -> RuleView {
    RuleView {
        id: r.id,
        name: non_blank(r.name),
        regex: non_blank(r.regex),
        color: r.color,
        is_system: r.is_system,
        rule_type: r.rule_type,
        extractor_regex: None,
    }
}

/// The rules that a view of rules lists.
pub struct HighlighterList {
    rows: Vec<HighlighterRow>,
}

impl HighlighterList {
    /// The rows, in order.
    pub closed spec fn view(&self) -> Seq<RowView> {
        self.rows@.map_values(|r: HighlighterRow| row_view(r))
    }

    /// No rules.
    pub fn new() -> (l: Self)
        ensures
            l.view() == Seq::<RowView>::empty(),
    {
        let l = HighlighterList { rows: Vec::new() };
        assert(l.view() =~= Seq::<RowView>::empty());
        l
    }

    /// Lists one more rule.
    pub fn add_highlighter(&mut self, h: &Highlighter)
        ensures
            final(self).view() == old(self).view().push(row_of(*h)),
    {
        let row = HighlighterRow {
            id: h.id,
            name: match &h.name { Some(n) => n.clone(), None => String::new() },
            regex: match &h.regex { Some(r) => r.clone(), None => String::new() },
            color: copy_opt(&h.color),
            is_system: h.is_system,
            rule_type: h.rule_type.clone(),
        };
        let ghost before = self.rows@;
        self.rows.push(row);
        assert(self.view() =~= before.map_values(|r: HighlighterRow| row_view(r)).push(row_view(row)));
    }

    /// Lists more rules, in order.
    pub fn add_highlighters(&mut self, hs: &Vec<Highlighter>)
        ensures
            final(self).view() == old(self).view() + hs@.map_values(|h: Highlighter| row_of(h)),
    {
        let mut i: usize = 0;
        while i < hs.len()
            invariant
                i <= hs.len(),
                self.view() == old(self).view() + hs@.take(i as int).map_values(|h: Highlighter| row_of(h)),
            decreases hs.len() - i,
        {
            self.add_highlighter(&hs[i]);
            i = i + 1;
            assert(hs@.take(i as int).map_values(|h: Highlighter| row_of(h))
                =~= hs@.take(i - 1).map_values(|h: Highlighter| row_of(h)).push(row_of(hs@[i - 1])));
            assert(self.view() =~= old(self).view() + hs@.take(i as int).map_values(|h: Highlighter| row_of(h)));
        }
        assert(hs@.take(hs.len() as int) =~= hs@);
    }

    /// The rules listed, read back from their rows.
    pub fn get_highlighters(&self) -> (v: Vec<Highlighter>)
        ensures
            v@.map_values(|h: Highlighter| rule_view(h)) == self.view().map_values(|r: RowView| rule_of(r)),
    {
        let mut v: Vec<Highlighter> = Vec::new();
        let mut i: usize = 0;
        while i < self.rows.len()
            invariant
                i <= self.rows.len(),
                v@.map_values(|h: Highlighter| rule_view(h)) == self.view().take(i as int).map_values(|r: RowView| rule_of(r)),
            decreases self.rows.len() - i,
        {
            let r = &self.rows[i];
            let name = if r.name.as_str().is_empty() { None } else { Some(r.name.clone()) };
            let regex = if r.regex.as_str().is_empty() { None } else { Some(r.regex.clone()) };
            let h = Highlighter {
                id: r.id,
                name,
                color: copy_opt(&r.color),
                regex,
                is_system: r.is_system,
                rule_type: r.rule_type.clone(),
                extractor_regex: None,
            };
            let ghost before = v@;
            v.push(h);
            proof {
                let f = |h: Highlighter| rule_view(h);
                let g = |r: RowView| rule_of(r);
                assert(v@.map_values(f) =~= before.map_values(f).push(rule_view(h)));
                assert(self.view().take(i + 1).map_values(g) =~= self.view().take(i as int).map_values(g).push(rule_of(self.view()[i as int])));
                assert(self.view()[i as int] == row_view(*r));
                assert(rule_view(h) == rule_of(row_view(*r)));
            }
            i = i + 1;
        }
        assert(self.view().take(self.rows.len() as int) =~= self.view());
        v
    }

    /// Sets the pattern of the rule `id`, where it is listed.
    pub fn set_regex(&mut self, id: u128, regex: &str)
        ensures
            final(self).view().len() == old(self).view().len(),
            forall|k: int| 0 <= k < old(self).view().len() ==> #[trigger] final(self).view()[k] == (if old(self).view()[k].id == id {
                RowView { regex: regex@, ..old(self).view()[k] }
            } else {
                old(self).view()[k]
            }),
    {
        let mut i: usize = 0;
        while i < self.rows.len()
            invariant
                i <= self.rows.len(),
                self.view().len() == old(self).view().len(),
                forall|k: int| 0 <= k < self.view().len() ==> #[trigger] self.view()[k] == (if k < i && old(self).view()[k].id == id {
                    RowView { regex: regex@, ..old(self).view()[k] }
                } else {
                    old(self).view()[k]
                }),
            decreases self.rows.len() - i,
        {
            let ghost before = self.rows@;
            let ghost vb = self.view();
            if self.rows[i].id == id {
                let mut r = self.rows.remove(i);
                r.regex = regex.to_owned();
                self.rows.insert(i, r);
                proof {
                    assert(self.rows@ =~= before.update(i as int, r));
                    assert forall|k: int| 0 <= k < self.view().len() implies #[trigger] self.view()[k] == (if k < i + 1 && old(self).view()[k].id == id {
                        RowView { regex: regex@, ..old(self).view()[k] }
                    } else {
                        old(self).view()[k]
                    }) by {
                        if k != i {
                            assert(self.view()[k] == vb[k]);
                        } else {
                            assert(vb[k] == old(self).view()[k]);
                            assert(row_view(before[k]) == vb[k]);
                        }
                    }
                }
            } else {
                proof {
                    assert forall|k: int| 0 <= k < self.view().len() implies #[trigger] self.view()[k] == (if k < i + 1 && old(self).view()[k].id == id {
                        RowView { regex: regex@, ..old(self).view()[k] }
                    } else {
                        old(self).view()[k]
                    }) by {
                        if k == i {
                            assert(self.view()[k] == row_view(self.rows@[k]));
                        }
                    }
                }
            }
            i = i + 1;
        }
    }

    /// Drops the rule `id`, where it is listed.
    pub fn delete_rule(&mut self, id: u128)
        ensures
            match first_row_with(old(self).view(), id) {
                Some(k) => final(self).view() == old(self).view().remove(k),
                None => final(self).view() == old(self).view(),
            },
    {
        let mut i: usize = 0;
        while i < self.rows.len()
            invariant
                i <= self.rows.len(),
                self.view() == old(self).view(),
                forall|k: int| 0 <= k < i ==> self.view()[k].id != id,
            decreases self.rows.len() - i,
        {
            if self.rows[i].id == id {
                let ghost before = self.rows@;
                self.rows.remove(i);
                proof {
                    lemma_first_row(old(self).view(), id, i as int);
                    assert(self.view() =~= old(self).view().remove(i as int));
                }
                return;
            }
            i = i + 1;
        }
        proof {
            lemma_no_row(old(self).view(), id);
        }
    }
}

/// The first row of the rule `id`.
pub open spec fn first_row_with(rows: Seq<RowView>, id: u128) -> Option<int>
    decreases rows.len(),
{
    if rows.len() == 0 {
        None
    } else {
        match first_row_with(rows.drop_last(), id) {
            Some(k) => Some(k),
            None => if rows.last().id == id { Some(rows.len() - 1) } else { None },
        }
    }
}

proof fn lemma_first_row(rows: Seq<RowView>, id: u128, i: int)
    requires
        0 <= i < rows.len(),
        rows[i].id == id,
        forall|k: int| 0 <= k < i ==> rows[k].id != id,
    ensures
        first_row_with(rows, id) == Some(i),
    decreases rows.len(),
{
    if i < rows.len() - 1 {
        lemma_first_row(rows.drop_last(), id, i);
    } else {
        lemma_no_row(rows.drop_last(), id);
    }
}

proof fn lemma_no_row(rows: Seq<RowView>, id: u128)
    requires
        forall|k: int| 0 <= k < rows.len() ==> rows[k].id != id,
    ensures
        first_row_with(rows, id) is None,
    decreases rows.len(),
{
    if rows.len() > 0 {
        lemma_no_row(rows.drop_last(), id);
    }
}

/// A rule written to the list and read back is the rule itself, where its
/// name and pattern are not blank and it has no extracting pattern.
pub proof fn lemma_rule_roundtrip(h: Highlighter)
    requires
        opt_view(h.name) matches Some(n) ==> n.len() > 0,
        opt_view(h.regex) matches Some(r) ==> r.len() > 0,
        h.extractor_regex is None,
    ensures
        rule_of(row_of(h)) == rule_view(h),
{
}

/// The pattern of the search rule for the text typed in the search field:
/// the text, matched without regard to case; blank for no text.
pub open spec fn search_rule_regex_text(text: Seq<char>) -> Seq<char> {
    if text.len() > 0 { "(?i)"@ + text } else { Seq::empty() }
}

/// The pattern of the search rule for the text typed in the search field.
pub fn search_rule_regex(text: &str) -> (r: String)
    ensures
        r@ == search_rule_regex_text(text@),
{
    if text.is_empty() {
        String::new()
    } else {
        let mut r = "(?i)".to_owned();
        r.append(text);
        r
    }
}

/// The rules a file view starts with: the search rule, and rules for
/// errors and for warnings, whose ids are fresh.
pub open spec fn default_rules_ok(v: Seq<Highlighter>) -> bool {
    &&& v.len() == 3
    &&& v[0].id == SEARCH_ID
    &&& rule_view(v[0]) == (RuleView {
        id: SEARCH_ID,
        name: Some("Search"@),
        regex: None,
        color: Some("rgba(229,190,90,1)"@),
        is_system: true,
        rule_type: rule_type_highlight(),
        extractor_regex: None,
    })
    &&& rule_view(v[1]) == (RuleView {
        id: v[1].id,
        name: Some("Error"@),
        regex: Some(".*\\s((?i)error|fatal|failed(?-i))\\s.*"@),
        color: Some("rgba(255,96,102,1)"@),
        is_system: false,
        rule_type: rule_type_highlight(),
        extractor_regex: None,
    })
    &&& rule_view(v[2]) == (RuleView {
        id: v[2].id,
        name: Some("Warning"@),
        regex: Some(".*\\s((?i)warn(?-i))\\s.*"@),
        color: Some("rgba(207,111,57,1)"@),
        is_system: false,
        rule_type: rule_type_highlight(),
        extractor_regex: None,
    })
}

/// The rules a file view starts with.
pub fn get_default_rules() -> (v: Vec<Highlighter>)
    ensures
        default_rules_ok(v@),
{
    let mut v: Vec<Highlighter> = Vec::new();
    let mut search = Highlighter::new("highlight");
    search.id = SEARCH_ID;
    search.color = Some("rgba(229,190,90,1)".to_owned());
    search.name = Some("Search".to_owned());
    search.is_system = true;
    v.push(search);
    let mut error = Highlighter::new("highlight");
    error.regex = Some(".*\\s((?i)error|fatal|failed(?-i))\\s.*".to_owned());
    error.color = Some("rgba(255,96,102,1)".to_owned());
    error.name = Some("Error".to_owned());
    v.push(error);
    let mut warning = Highlighter::new("highlight");
    warning.regex = Some(".*\\s((?i)warn(?-i))\\s.*".to_owned());
    warning.color = Some("rgba(207,111,57,1)".to_owned());
    warning.name = Some("Warning".to_owned());
    v.push(warning);
    proof {
        reveal_strlit("highlight");
        assert("highlight"@ =~= rule_type_highlight());
    }
    v
}

/// The name the toolbar shows for a rule without one.
pub open spec fn shown_rule_name(name: Option<Seq<char>>) -> Seq<char> {
    match name {
        Some(n) => n,
        None => "Unamed rule"@,
    }
}

/// The rules the toolbar lists that are renamed, with their new names.
pub open spec fn toolbar_renames(steps: Seq<CompareResult>, old: Seq<Highlighter>, new: Seq<Highlighter>, listed: Seq<u128>) -> Seq<(u128, Seq<char>)>
    decreases steps.len(),
{
    if steps.len() == 0 {
        Seq::empty()
    } else {
        let rest = toolbar_renames(steps.drop_last(), old, new, listed);
        match steps.last() {
            CompareResult::Equal(i, j) => if listed.contains(old[i as int].id) && opt_view(old[i as int].name) != opt_view(new[j as int].name) {
                rest.push((old[i as int].id, shown_rule_name(opt_view(new[j as int].name))))
            } else {
                rest
            },
            _ => rest,
        }
    }
}

/// A rule the toolbar lists changed its pattern, so its counts are void.
pub open spec fn toolbar_clears(steps: Seq<CompareResult>, old: Seq<Highlighter>, new: Seq<Highlighter>, listed: Seq<u128>) -> bool
    decreases steps.len(),
{
    if steps.len() == 0 {
        false
    } else {
        toolbar_clears(steps.drop_last(), old, new, listed) || match steps.last() {
            CompareResult::Equal(i, j) => listed.contains(old[i as int].id) && opt_view(old[i as int].regex) != opt_view(new[j as int].regex),
            _ => false,
        }
    }
}

/// What the toolbar of a file view does when the rules change: rules to
/// add, rules to drop, whether to clear the match counts, and rules to
/// rename.
pub struct ToolbarChanges {
    pub add: Vec<Highlighter>,
    pub delete: Vec<u128>,
    pub clear_counts: bool,
    pub renames: Vec<(u128, String)>,
}

/// Compares the rules a workbench has (ordered by id) with the rules it is
/// given, for a toolbar that lists the rules `listed`. Returns the given
/// rules ordered by id, and what the toolbar does.
pub fn toolbar_changes(current: &Vec<Highlighter>, rules: Vec<Highlighter>, listed: &Vec<u128>) -> (res: (Vec<Highlighter>, ToolbarChanges))
    ensures
        sorted_ids(res.0@),
        res.0@.to_multiset() == rules@.to_multiset(),
        ({
            let steps = compare_steps(ids(current@), ids(res.0@));
            &&& res.1.add@ == added_rules(steps, res.0@)
            &&& res.1.delete@ == removed_ids(steps, current@)
            &&& res.1.clear_counts == toolbar_clears(steps, current@, res.0@, listed@)
            &&& res.1.renames@.map_values(|r: (u128, String)| (r.0, r.1@)) == toolbar_renames(steps, current@, res.0@, listed@)
        }),
{
    let sorted = sort_by_id(rules);
    let old_ids = id_list(current);
    let new_ids = id_list(&sorted);
    let steps = compare_all(&old_ids, &new_ids);
    let ghost all_steps = steps@;
    proof {
        assert forall|k: int| 0 <= k < all_steps.len() implies match #[trigger] all_steps[k] {
            CompareResult::Equal(i, j) => i < current.len() && j < sorted.len(),
            CompareResult::MissesLeft(j) => j < sorted.len(),
            CompareResult::MissesRight(i) => i < current.len(),
        } by {
            assert(steps_cover(all_steps, old_ids@.len(), new_ids@.len()));
            match all_steps[k] {
                CompareResult::Equal(i, j) => {
                    assert(left_of(all_steps[k]) == Some(i));
                    assert(right_of(all_steps[k]) == Some(j));
                },
                CompareResult::MissesLeft(j) => {
                    assert(right_of(all_steps[k]) == Some(j));
                },
                CompareResult::MissesRight(i) => {
                    assert(left_of(all_steps[k]) == Some(i));
                },
            }
        }
    }
    let mut add: Vec<Highlighter> = Vec::new();
    let mut delete: Vec<u128> = Vec::new();
    let mut clear_counts = false;
    let mut renames: Vec<(u128, String)> = Vec::new();
    let mut k: usize = 0;
    while k < steps.len()
        invariant
            k <= steps.len(),
            all_steps == steps@,
            forall|q: int| 0 <= q < all_steps.len() ==> match #[trigger] all_steps[q] {
                CompareResult::Equal(i, j) => i < current.len() && j < sorted.len(),
                CompareResult::MissesLeft(j) => j < sorted.len(),
                CompareResult::MissesRight(i) => i < current.len(),
            },
            add@ == added_rules(all_steps.take(k as int), sorted@),
            delete@ == removed_ids(all_steps.take(k as int), current@),
            clear_counts == toolbar_clears(all_steps.take(k as int), current@, sorted@, listed@),
            renames@.map_values(|r: (u128, String)| (r.0, r.1@)) == toolbar_renames(all_steps.take(k as int), current@, sorted@, listed@),
        decreases steps.len() - k,
    {
        let ghost prefix = all_steps.take(k as int);
        assert(all_steps.take(k + 1).drop_last() =~= prefix);
        assert(all_steps.take(k + 1).last() == all_steps[k as int]);
        match steps[k] {
            CompareResult::MissesLeft(j) => {
                add.push(sorted[j].copy());
            },
            CompareResult::MissesRight(i) => {
                delete.push(current[i].id);
            },
            CompareResult::Equal(i, j) => {
                let left = &current[i];
                let right = &sorted[j];
                let mut is_listed = false;
                let mut q: usize = 0;
                while q < listed.len()
                    invariant
                        q <= listed.len(),
                        is_listed == listed@.take(q as int).contains(left.id),
                    decreases listed.len() - q,
                {
                    proof {
                        let t0 = listed@.take(q as int);
                        let t1 = listed@.take(q + 1);
                        assert(t1 =~= t0.push(listed@[q as int]));
                        if t1.contains(left.id) && listed@[q as int] != left.id {
                            let w = choose|w: int| 0 <= w < t1.len() && t1[w] == left.id;
                            assert(t0[w] == left.id);
                        }
                        if t0.contains(left.id) {
                            let w = choose|w: int| 0 <= w < t0.len() && t0[w] == left.id;
                            assert(t1[w] == left.id);
                        }
                        if listed@[q as int] == left.id {
                            assert(t1[q as int] == left.id);
                        }
                    }
                    if listed[q] == left.id {
                        is_listed = true;
                    }
                    q = q + 1;
                }
                assert(listed@.take(listed.len() as int) =~= listed@);
                if is_listed {
                    if !opt_str_eq(&left.regex, &right.regex) {
                        clear_counts = true;
                    }
                    if !opt_str_eq(&left.name, &right.name) {
                        let name = match &right.name {
                            Some(n) => n.clone(),
                            None => "Unamed rule".to_owned(),
                        };
                        let ghost before = renames@;
                        renames.push((left.id, name));
                        assert(renames@.map_values(|r: (u128, String)| (r.0, r.1@))
                            =~= before.map_values(|r: (u128, String)| (r.0, r.1@)).push((left.id, name@)));
                    }
                }
            },
        }
        k = k + 1;
    }
    assert(all_steps.take(steps.len() as int) =~= all_steps);
    (sorted, ToolbarChanges { add, delete, clear_counts, renames })
}

/// The rules a file view's toolbar offers to step through: each rule's id
/// and the name it shows.
pub struct RuleSelector {
    rows: Vec<(u128, String)>,
}

/// The row the toolbar shows for a rule.
pub open spec fn selector_row(h: Highlighter) -> (u128, Seq<char>) {
    (h.id, shown_rule_name(opt_view(h.name)))
}

impl RuleSelector {
    /// The rows, in order.
    pub closed spec fn view(&self) -> Seq<(u128, Seq<char>)> {
        self.rows@.map_values(|r: (u128, String)| (r.0, r.1@))
    }

    /// A toolbar offering the rules `rules`.
    pub fn new(rules: &Vec<Highlighter>) -> (s: Self)
        ensures
            s.view() == rules@.map_values(|h: Highlighter| selector_row(h)),
    {
        let mut s = RuleSelector { rows: Vec::new() };
        let mut i: usize = 0;
        while i < rules.len()
            invariant
                i <= rules.len(),
                s.view() == rules@.take(i as int).map_values(|h: Highlighter| selector_row(h)),
            decreases rules.len() - i,
        {
            s.add_rule(&rules[i]);
            assert(rules@.take(i + 1).map_values(|h: Highlighter| selector_row(h))
                =~= rules@.take(i as int).map_values(|h: Highlighter| selector_row(h)).push(selector_row(rules@[i as int])));
            i = i + 1;
        }
        assert(rules@.take(rules.len() as int) =~= rules@);
        s
    }

    /// Offers one more rule.
    pub fn add_rule(&mut self, h: &Highlighter)
        ensures
            final(self).view() == old(self).view().push(selector_row(*h)),
    {
        let name = match &h.name {
            Some(n) => n.clone(),
            None => "Unamed rule".to_owned(),
        };
        let ghost before = self.rows@;
        self.rows.push((h.id, name));
        assert(self.view() =~= before.map_values(|r: (u128, String)| (r.0, r.1@)).push((h.id, name@)));
    }

    fn find(&self, id: u128) -> (r: Option<usize>)
        ensures
            match r {
                Some(k) => k < self.rows.len() && self.rows@[k as int].0 == id
                    && forall|q: int| 0 <= q < k ==> self.rows@[q].0 != id,
                None => forall|q: int| 0 <= q < self.rows.len() ==> self.rows@[q].0 != id,
            },
    {
        let mut i: usize = 0;
        while i < self.rows.len()
            invariant
                i <= self.rows.len(),
                forall|q: int| 0 <= q < i ==> self.rows@[q].0 != id,
            decreases self.rows.len() - i,
        {
            if self.rows[i].0 == id {
                return Some(i);
            }
            i = i + 1;
        }
        None
    }

    /// Drops the first row of rule `id`, if any.
    pub fn delete_rule(&mut self, id: u128)
        ensures
            match first_row_of(old(self).view(), id) {
                Some(k) => final(self).view() == old(self).view().remove(k),
                None => final(self).view() == old(self).view(),
            },
    {
        let ghost v0 = self.view();
        match self.find(id) {
            Some(k) => {
                let ghost before = self.rows@;
                self.rows.remove(k);
                proof {
                    lemma_first_row_of(v0, id, k as int);
                    assert(self.view() =~= v0.remove(k as int));
                }
            },
            None => {
                proof {
                    lemma_no_row_of(v0, id);
                }
            },
        }
    }

    /// Shows `name` for the first row of rule `id`, if any.
    pub fn update_rule(&mut self, id: u128, name: &str)
        ensures
            match first_row_of(old(self).view(), id) {
                Some(k) => final(self).view() == old(self).view().update(k, (id, name@)),
                None => final(self).view() == old(self).view(),
            },
    {
        let ghost v0 = self.view();
        match self.find(id) {
            Some(k) => {
                let ghost before = self.rows@;
                self.rows.set(k, (id, name.to_owned()));
                proof {
                    lemma_first_row_of(v0, id, k as int);
                    assert(self.view() =~= v0.update(k as int, (id, name@)));
                }
            },
            None => {
                proof {
                    lemma_no_row_of(v0, id);
                }
            },
        }
    }

    /// The ids of the rules offered, in order.
    pub fn ids(&self) -> (v: Vec<u128>)
        ensures
            v@ == self.view().map_values(|r: (u128, Seq<char>)| r.0),
    {
        let mut v: Vec<u128> = Vec::new();
        let mut i: usize = 0;
        while i < self.rows.len()
            invariant
                i <= self.rows.len(),
                v@ == self.view().take(i as int).map_values(|r: (u128, Seq<char>)| r.0),
            decreases self.rows.len() - i,
        {
            v.push(self.rows[i].0);
            i = i + 1;
            assert(v@ =~= self.view().take(i as int).map_values(|r: (u128, Seq<char>)| r.0));
        }
        assert(self.view().take(self.rows.len() as int) =~= self.view());
        v
    }
}

/// The first row of rule `id`.
pub open spec fn first_row_of(rows: Seq<(u128, Seq<char>)>, id: u128) -> Option<int>
    decreases rows.len(),
{
    if rows.len() == 0 {
        None
    } else {
        match first_row_of(rows.drop_last(), id) {
            Some(k) => Some(k),
            None => if rows.last().0 == id { Some(rows.len() - 1) } else { None },
        }
    }
}

proof fn lemma_first_row_of(rows: Seq<(u128, Seq<char>)>, id: u128, i: int)
    requires
        0 <= i < rows.len(),
        rows[i].0 == id,
        forall|k: int| 0 <= k < i ==> rows[k].0 != id,
    ensures
        first_row_of(rows, id) == Some(i),
    decreases rows.len(),
{
    if i < rows.len() - 1 {
        lemma_first_row_of(rows.drop_last(), id, i);
    } else {
        lemma_no_row_of(rows.drop_last(), id);
    }
}

proof fn lemma_no_row_of(rows: Seq<(u128, Seq<char>)>, id: u128)
    requires
        forall|k: int| 0 <= k < rows.len() ==> rows[k].0 != id,
    ensures
        first_row_of(rows, id) is None,
    decreases rows.len(),
{
    if rows.len() > 0 {
        lemma_no_row_of(rows.drop_last(), id);
    }
}

/// What a file view's workbench does for a message of its toolbar.
pub enum WorkbenchAction {
    /// Give the search rule this pattern and apply the rules again.
    SetSearchRegex(String),
    /// Show the dialog of rules.
    ShowRules,
    /// Follow the end of the text, or stop doing so.
    AutoScroll(bool),
    /// Clear the text.
    ClearLog,
    /// Nothing to do beyond the state change.
    Nothing,
}

/// What the workbench keeps between messages of its toolbar: the text
/// typed in the search field.
pub struct WorkbenchState {
    pub search_text: String,
}

/// An action as plain values: which one, and its text or flag.
pub open spec fn action_view(a: WorkbenchAction) -> (nat, Seq<char>, bool) {
    match a {
        WorkbenchAction::SetSearchRegex(r) => (0, r@, false),
        WorkbenchAction::ShowRules => (1, Seq::empty(), false),
        WorkbenchAction::AutoScroll(b) => (2, Seq::empty(), b),
        WorkbenchAction::ClearLog => (3, Seq::empty(), false),
        WorkbenchAction::Nothing => (4, Seq::empty(), false),
    }
}

impl WorkbenchState {
    /// No text typed.
    pub fn new() -> (w: Self)
        ensures
            w.search_text@ == Seq::<char>::empty(),
    {
        WorkbenchState { search_text: String::new() }
    }

    /// Takes one message of the toolbar.
    pub fn update(&mut self, msg: crate::model::LogViewToolbarMsg) -> (a: WorkbenchAction)
        ensures
            match msg {
                crate::model::LogViewToolbarMsg::TextChange(t) => final(self).search_text@ == t@
                    && action_view(a) == (4nat, Seq::<char>::empty(), false),
                crate::model::LogViewToolbarMsg::SearchPressed => final(self).search_text@ == old(self).search_text@
                    && action_view(a) == (0nat, search_rule_regex_text(old(self).search_text@), false),
                crate::model::LogViewToolbarMsg::ClearSearchPressed => final(self).search_text@ == old(self).search_text@
                    && action_view(a) == (0nat, Seq::<char>::empty(), false),
                crate::model::LogViewToolbarMsg::ShowRules => final(self).search_text@ == old(self).search_text@
                    && action_view(a) == (1nat, Seq::<char>::empty(), false),
                crate::model::LogViewToolbarMsg::ToggleAutoScroll(b) => final(self).search_text@ == old(self).search_text@
                    && action_view(a) == (2nat, Seq::<char>::empty(), b),
                crate::model::LogViewToolbarMsg::Clear => final(self).search_text@ == old(self).search_text@
                    && action_view(a) == (3nat, Seq::<char>::empty(), false),
            },
    {
        match msg {
            crate::model::LogViewToolbarMsg::TextChange(t) => {
                self.search_text = t;
                WorkbenchAction::Nothing
            },
            crate::model::LogViewToolbarMsg::SearchPressed => WorkbenchAction::SetSearchRegex(search_rule_regex(self.search_text.as_str())),
            crate::model::LogViewToolbarMsg::ClearSearchPressed => WorkbenchAction::SetSearchRegex(String::new()),
            crate::model::LogViewToolbarMsg::ShowRules => WorkbenchAction::ShowRules,
            crate::model::LogViewToolbarMsg::ToggleAutoScroll(b) => WorkbenchAction::AutoScroll(b),
            crate::model::LogViewToolbarMsg::Clear => WorkbenchAction::ClearLog,
        }
    }
}

} // verus!
