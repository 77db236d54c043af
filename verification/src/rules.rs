use vstd::prelude::*;
use vstd::multiset::Multiset;
use crate::compare::{
    compare_all, compare_steps, steps_cover, steps_truthful, strictly_sorted, CompareResult,
    left_consumed, right_consumed, left_of, right_of,
};
use crate::regex_ops::{compile_pattern, compiled_view};
use crate::text::{copy_opt, opt_str_eq, opt_view, str_eq};

verus! {

/// A rule as the user edits it: text that matches `regex` is highlighted
/// in `color`, or excluded, and `extractor_regex` picks what to group by.
pub struct Highlighter {
    pub id: u128,
    pub name: Option<String>,
    pub color: Option<String>,
    pub regex: Option<String>,
    pub is_system: bool,
    pub rule_type: String,
    pub extractor_regex: Option<String>,
}

/// The rule type of highlighting rules.
pub open spec fn rule_type_highlight() -> Seq<char> {
    seq!['h', 'i', 'g', 'h', 'l', 'i', 'g', 'h', 't']
}

/// The rule type of excluding rules.
pub open spec fn rule_type_exclude() -> Seq<char> {
    seq!['e', 'x', 'c', 'l', 'u', 'd', 'e']
}

/// A fresh random rule id, as `uuid::Uuid::new_v4` gives it.
#[verifier::external_body]
fn new_rule_id() -> u128 {
    uuid::Uuid::new_v4().as_u128()
}

impl Highlighter {
    /// A rule of type `rule_type` with a fresh id and nothing else set.
    pub fn new(rule_type: &str) -> (h: Self)
        ensures
            h.rule_type@ == rule_type@,
            h.name is None,
            h.color is None,
            h.regex is None,
            h.extractor_regex is None,
            !h.is_system,
    {
        Highlighter {
            id: new_rule_id(),
            name: None,
            color: None,
            regex: None,
            is_system: false,
            rule_type: rule_type.to_owned(),
            extractor_regex: None,
        }
    }

    /// The rule hides the lines it matches.
    pub open spec fn excludes(&self) -> bool {
        self.rule_type@ == rule_type_exclude()
    }

    /// Whether the rule hides the lines it matches.
    pub fn is_exclude(&self) -> (b: bool)
        ensures
            b == self.excludes(),
    {
        let b = str_eq(self.rule_type.as_str(), "exclude");
        proof {
            reveal_strlit("exclude");
            assert("exclude"@ =~= rule_type_exclude());
        }
        b
    }

    /// A copy of this rule.
    pub fn copy(&self) -> (r: Self)
        ensures
            r == *self,
    {
        Highlighter {
            id: self.id,
            name: copy_opt(&self.name),
            color: copy_opt(&self.color),
            regex: copy_opt(&self.regex),
            is_system: self.is_system,
            rule_type: self.rule_type.clone(),
            extractor_regex: copy_opt(&self.extractor_regex),
        }
    }
}

/// The ids of a list of rules.
pub open spec fn ids(v: Seq<Highlighter>) -> Seq<u128> {
    v.map_values(|h: Highlighter| h.id)
}

/// Ids in non-descending order.
pub open spec fn sorted_ids(v: Seq<Highlighter>) -> bool {
    forall|i: int, j: int| 0 <= i < j < v.len() ==> v[i].id <= v[j].id
}

/// The ids of `v`, in order.
pub fn id_list(v: &Vec<Highlighter>) -> (r: Vec<u128>)
    ensures
        r@ == ids(v@),
{
    let mut r: Vec<u128> = Vec::new();
    let mut i: usize = 0;
    while i < v.len()
        invariant
            i <= v.len(),
            r@ =~= ids(v@).take(i as int),
        decreases v.len() - i,
    {
        r.push(v[i].id);
        i = i + 1;
    }
    assert(ids(v@).take(v.len() as int) =~= ids(v@));
    r
}

/// Whether a rule has the id `x`.
pub open spec fn id_is(x: u128) -> spec_fn(Highlighter) -> bool {
    |h: Highlighter| h.id == x
}

/// A list in which no rule has the id `x` keeps none of them when
/// filtered by that id.
proof fn lemma_none_with_id(s: Seq<Highlighter>, x: u128)
    requires
        forall|k: int| 0 <= k < s.len() ==> s[k].id != x,
    ensures
        s.filter(id_is(x)) == Seq::<Highlighter>::empty(),
    decreases s.len(),
{
    reveal(Seq::filter);
    if s.len() > 0 {
        lemma_none_with_id(s.drop_last(), x);
    }
}

/// Inserting `h` after every rule of smaller id and before the rest puts it
/// first among the rules that share its id.
proof fn lemma_insert_first_of_id(s0: Seq<Highlighter>, pos: int, h: Highlighter, x: u128)
    requires
        0 <= pos <= s0.len(),
        forall|k: int| 0 <= k < pos ==> s0[k].id < h.id,
    ensures
        s0.insert(pos, h).filter(id_is(x)) == seq![h].filter(id_is(x)) + s0.filter(id_is(x)),
{
    let p = id_is(x);
    let front = s0.take(pos);
    let back = s0.skip(pos);
    assert(s0.insert(pos, h) =~= front + seq![h] + back);
    assert(s0 =~= front + back);
    Seq::filter_distributes_over_add(front + seq![h], back, p);
    Seq::filter_distributes_over_add(front, seq![h], p);
    Seq::filter_distributes_over_add(front, back, p);
    if h.id == x {
        lemma_none_with_id(front, x);
        assert(front.filter(p) + seq![h].filter(p) + back.filter(p) =~= seq![h].filter(p) + (
        front.filter(p) + back.filter(p)));
    } else {
        lemma_none_with_id(seq![h], x);
        assert(front.filter(p) + seq![h].filter(p) + back.filter(p) =~= seq![h].filter(p) + (
        front.filter(p) + back.filter(p)));
    }
}

/// The rules of `rules` ordered by id, as `sort_by_key` on the id orders them.
pub fn sort_by_id(rules: Vec<Highlighter>) -> (sorted: Vec<Highlighter>)
    ensures
        sorted_ids(sorted@),
        sorted@.to_multiset() == rules@.to_multiset(),
        forall|x: u128| #[trigger] sorted@.filter(id_is(x)) == rules@.filter(id_is(x)),
        sorted_ids(rules@) ==> sorted@ == rules@,
{
    broadcast use vstd::seq_lib::group_to_multiset_ensures;

    let mut rest = rules;
    let ghost all = rest@;
    let mut sorted: Vec<Highlighter> = Vec::new();
    while rest.len() > 0
        invariant
            sorted_ids(sorted@),
            sorted@.to_multiset().add(rest@.to_multiset()) == all.to_multiset(),
            forall|x: u128| #[trigger] all.filter(id_is(x)) == rest@.filter(id_is(x)) + sorted@.filter(id_is(x)),
            rest@.len() <= all.len(),
            rest@ == all.take(rest@.len() as int),
            sorted_ids(all) ==> sorted@ == all.skip(rest@.len() as int),
        decreases rest.len(),
    {
        let ghost r0 = rest@;
        let ghost s0 = sorted@;
        let h = rest.pop().unwrap();
        assert(r0 == rest@.push(h));
        assert(rest@ =~= all.take(rest@.len() as int));
        assert(h == all[rest@.len() as int]);
        let mut pos: usize = 0;
        while pos < sorted.len() && sorted[pos].id < h.id
            invariant
                pos <= sorted.len(),
                sorted@ == s0,
                forall|k: int| 0 <= k < pos ==> sorted@[k].id < h.id,
            decreases sorted.len() - pos,
        {
            pos = pos + 1;
        }
        assert forall|k: int| pos <= k < s0.len() implies s0[k].id >= h.id by {
            if pos < s0.len() {
                assert(s0[pos as int].id <= s0[k].id);
            }
        }
        sorted.insert(pos, h);
        assert forall|i: int, j: int| 0 <= i < j < sorted@.len() implies sorted@[i].id <= sorted@[j].id by {
            if j < pos {
            } else if j == pos {
            } else if i < pos {
                assert(sorted@[j] == s0[j - 1]);
            } else if i == pos {
                assert(sorted@[j] == s0[j - 1]);
            } else {
                assert(sorted@[i] == s0[i - 1]);
                assert(sorted@[j] == s0[j - 1]);
            }
        }
        assert(sorted@ == s0.insert(pos as int, h));
        proof {
            vstd::seq_lib::to_multiset_insert(s0, pos as int, h);
            vstd::seq_lib::to_multiset_build(rest@, h);
        }
        assert(sorted@.to_multiset().add(rest@.to_multiset()) =~= s0.to_multiset().add(r0.to_multiset()));
        assert forall|x: u128| #[trigger] all.filter(id_is(x)) == rest@.filter(id_is(x)) + sorted@.filter(id_is(x)) by {
            lemma_insert_first_of_id(s0, pos as int, h, x);
            Seq::filter_distributes_over_add(rest@, seq![h], id_is(x));
            assert(r0 =~= rest@ + seq![h]);
            assert(rest@.filter(id_is(x)) + seq![h].filter(id_is(x)) + s0.filter(id_is(x)) =~= rest@.filter(id_is(x)) + (seq![h].filter(id_is(x)) + s0.filter(id_is(x))));
        }
        proof {
            if sorted_ids(all) {
                let n = rest@.len() as int;
                assert(s0 == all.skip(n + 1));
                if pos > 0 {
                    assert(s0[0] == all[n + 1]);
                    assert(all[n].id <= all[n + 1].id);
                    assert(s0[0].id < h.id);
                }
                assert(pos == 0);
                assert(sorted@ =~= all.skip(n));
            }
        }
    }
    assert(rest@.to_multiset() =~= Multiset::empty());
    assert(sorted@.to_multiset().add(rest@.to_multiset()) =~= sorted@.to_multiset());
    assert forall|x: u128| #[trigger] sorted@.filter(id_is(x)) == rules@.filter(id_is(x)) by {
        lemma_none_with_id(rest@, x);
        assert(rest@.filter(id_is(x)) + sorted@.filter(id_is(x)) =~= sorted@.filter(id_is(x)));
    }
    assert(all.skip(0) =~= all);
    sorted
}

/// Two versions of one rule search differently.
pub open spec fn search_changed(old: Highlighter, new: Highlighter) -> bool {
    ||| opt_view(old.regex) != opt_view(new.regex)
    ||| old.excludes() != new.excludes()
    ||| opt_view(old.extractor_regex) != opt_view(new.extractor_regex)
}

/// The new rules that the walk reports as missing on the old side.
pub open spec fn added_rules(steps: Seq<CompareResult>, new: Seq<Highlighter>) -> Seq<Highlighter>
    decreases steps.len(),
{
    if steps.len() == 0 {
        Seq::empty()
    } else {
        let rest = added_rules(steps.drop_last(), new);
        match steps.last() {
            CompareResult::MissesLeft(j) => rest.push(new[j as int]),
            _ => rest,
        }
    }
}

/// The ids of the old rules that the walk reports as missing on the new side.
pub open spec fn removed_ids(steps: Seq<CompareResult>, old: Seq<Highlighter>) -> Seq<u128>
    decreases steps.len(),
{
    if steps.len() == 0 {
        Seq::empty()
    } else {
        let rest = removed_ids(steps.drop_last(), old);
        match steps.last() {
            CompareResult::MissesRight(i) => rest.push(old[i as int].id),
            _ => rest,
        }
    }
}

/// The new versions of rules present on both sides whose search changed.
pub open spec fn updated_rules(steps: Seq<CompareResult>, old: Seq<Highlighter>, new: Seq<Highlighter>) -> Seq<Highlighter>
    decreases steps.len(),
{
    if steps.len() == 0 {
        Seq::empty()
    } else {
        let rest = updated_rules(steps.drop_last(), old, new);
        match steps.last() {
            CompareResult::Equal(i, j) => if search_changed(old[i as int], new[j as int]) {
                rest.push(new[j as int])
            } else {
                rest
            },
            _ => rest,
        }
    }
}

/// What changed between the rules a view had and the rules it is given.
pub struct RuleDiff {
    /// Rules that are new.
    pub add: Vec<Highlighter>,
    /// Ids of rules that are gone.
    pub remove: Vec<u128>,
    /// New versions of rules whose search changed.
    pub update: Vec<Highlighter>,
    /// Anything changed at all.
    pub has_changes: bool,
    /// Results of earlier searches are void.
    pub clear_data: bool,
    /// The text shown so far is searched again with the changed rules:
    /// where anything changed and the view had rules before. A view without
    /// rules yet has searched nothing that could be stale.
    pub search_again: bool,
}

/// Compares the rules a view has (ordered by id) with the rules it is
/// given. Returns the given rules ordered by id, and what changed.
pub fn diff_rules(current: &Vec<Highlighter>, rules: Vec<Highlighter>) -> (res: (Vec<Highlighter>, RuleDiff))
    ensures
        sorted_ids(res.0@),
        res.0@.to_multiset() == rules@.to_multiset(),
        forall|x: u128| #[trigger] res.0@.filter(id_is(x)) == rules@.filter(id_is(x)),
        sorted_ids(rules@) ==> res.0@ == rules@,
        ({
            let steps = compare_steps(ids(current@), ids(res.0@));
            &&& res.1.add@ == added_rules(steps, res.0@)
            &&& res.1.remove@ == removed_ids(steps, current@)
            &&& res.1.update@ == updated_rules(steps, current@, res.0@)
            &&& res.1.clear_data == (res.1.update@.len() > 0)
            &&& res.1.has_changes == (res.1.add@.len() > 0 || res.1.remove@.len() > 0 || res.1.update@.len() > 0)
            &&& res.1.search_again == (res.1.has_changes && current@.len() > 0)
        }),
{
    let sorted = sort_by_id(rules);
    let old_ids = id_list(current);
    let new_ids = id_list(&sorted);
    let steps = compare_all(&old_ids, &new_ids);
    let ghost all_steps = steps@;
    proof {
        assert forall|k: int| 0 <= k < all_steps.len() implies match #[trigger] all_steps[k] {
            CompareResult::Equal(i, j) => i < current.len() && j < sorted.len(),
            CompareResult::MissesLeft(j) => j < sorted.len(),
            CompareResult::MissesRight(i) => i < current.len(),
        } by {
            assert(steps_cover(all_steps, old_ids@.len(), new_ids@.len()));
            match all_steps[k] {
                CompareResult::Equal(i, j) => {
                    assert(left_of(all_steps[k]) == Some(i));
                    assert(right_of(all_steps[k]) == Some(j));
                },
                CompareResult::MissesLeft(j) => {
                    assert(right_of(all_steps[k]) == Some(j));
                },
                CompareResult::MissesRight(i) => {
                    assert(left_of(all_steps[k]) == Some(i));
                },
            }
        }
    }
    let mut add: Vec<Highlighter> = Vec::new();
    let mut remove: Vec<u128> = Vec::new();
    let mut update: Vec<Highlighter> = Vec::new();
    let mut k: usize = 0;
    while k < steps.len()
        invariant
            k <= steps.len(),
            all_steps == steps@,
            forall|q: int| 0 <= q < all_steps.len() ==> match #[trigger] all_steps[q] {
                CompareResult::Equal(i, j) => i < current.len() && j < sorted.len(),
                CompareResult::MissesLeft(j) => j < sorted.len(),
                CompareResult::MissesRight(i) => i < current.len(),
            },
            add@ == added_rules(all_steps.take(k as int), sorted@),
            remove@ == removed_ids(all_steps.take(k as int), current@),
            update@ == updated_rules(all_steps.take(k as int), current@, sorted@),
        decreases steps.len() - k,
    {
        let ghost prefix = all_steps.take(k as int);
        assert(all_steps.take(k + 1).drop_last() =~= prefix);
        assert(all_steps.take(k + 1).last() == all_steps[k as int]);
        match steps[k] {
            CompareResult::MissesLeft(j) => {
                add.push(sorted[j].copy());
            },
            CompareResult::MissesRight(i) => {
                remove.push(current[i].id);
            },
            CompareResult::Equal(i, j) => {
                let left = &current[i];
                let right = &sorted[j];
                let changed = !opt_str_eq(&left.regex, &right.regex)
                    || left.is_exclude() != right.is_exclude()
                    || !opt_str_eq(&left.extractor_regex, &right.extractor_regex);
                if changed {
                    update.push(right.copy());
                }
            },
        }
        k = k + 1;
    }
    assert(all_steps.take(steps.len() as int) =~= all_steps);
    let has_changes = add.len() > 0 || remove.len() > 0 || update.len() > 0;
    let clear_data = update.len() > 0;
    let search_again = has_changes && current.len() > 0;
    (sorted, RuleDiff { add, remove, update, has_changes, clear_data, search_again })
}

proof fn lemma_added_rules_index(steps: Seq<CompareResult>, new: Seq<Highlighter>, h: Highlighter)
    ensures
        added_rules(steps, new).contains(h) <==> exists|k: int, j: usize|
            0 <= k < steps.len() && steps[k] == CompareResult::MissesLeft(j) && new[j as int] == h,
    decreases steps.len(),
{
    if steps.len() > 0 {
        let init = steps.drop_last();
        lemma_added_rules_index(init, new, h);
        let rest = added_rules(init, new);
        if added_rules(steps, new).contains(h) {
            match steps.last() {
                CompareResult::MissesLeft(j) => {
                    if !rest.contains(h) {
                        let p = choose|p: int| 0 <= p < rest.push(new[j as int]).len() && rest.push(new[j as int])[p] == h;
                        assert(p == rest.len());
                        assert(steps[steps.len() - 1] == CompareResult::MissesLeft(j));
                    } else {
                        let (k, j2) = choose|k: int, j2: usize| 0 <= k < init.len() && init[k] == CompareResult::MissesLeft(j2) && new[j2 as int] == h;
                        assert(steps[k] == init[k]);
                    }
                },
                _ => {
                    let (k, j2) = choose|k: int, j2: usize| 0 <= k < init.len() && init[k] == CompareResult::MissesLeft(j2) && new[j2 as int] == h;
                    assert(steps[k] == init[k]);
                },
            }
        }
        if exists|k: int, j: usize| 0 <= k < steps.len() && steps[k] == CompareResult::MissesLeft(j) && new[j as int] == h {
            let (k, j) = choose|k: int, j: usize| 0 <= k < steps.len() && steps[k] == CompareResult::MissesLeft(j) && new[j as int] == h;
            if k < init.len() {
                assert(init[k] == steps[k]);
                let p = choose|p: int| 0 <= p < rest.len() && rest[p] == h;
                match steps.last() {
                    CompareResult::MissesLeft(j3) => {
                        assert(rest.push(new[j3 as int])[p] == h);
                    },
                    _ => {},
                }
            } else {
                assert(steps.last() == CompareResult::MissesLeft(j));
                assert(rest.push(new[j as int])[rest.len() as int] == h);
            }
        }
    }
}

proof fn lemma_removed_ids_index(steps: Seq<CompareResult>, old: Seq<Highlighter>, id: u128)
    ensures
        removed_ids(steps, old).contains(id) <==> exists|k: int, i: usize|
            0 <= k < steps.len() && steps[k] == CompareResult::MissesRight(i) && old[i as int].id == id,
    decreases steps.len(),
{
    if steps.len() > 0 {
        let init = steps.drop_last();
        lemma_removed_ids_index(init, old, id);
        let rest = removed_ids(init, old);
        if removed_ids(steps, old).contains(id) {
            match steps.last() {
                CompareResult::MissesRight(i) => {
                    if !rest.contains(id) {
                        let p = choose|p: int| 0 <= p < rest.push(old[i as int].id).len() && rest.push(old[i as int].id)[p] == id;
                        assert(p == rest.len());
                        assert(steps[steps.len() - 1] == CompareResult::MissesRight(i));
                    } else {
                        let (k, i2) = choose|k: int, i2: usize| 0 <= k < init.len() && init[k] == CompareResult::MissesRight(i2) && old[i2 as int].id == id;
                        assert(steps[k] == init[k]);
                    }
                },
                _ => {
                    let (k, i2) = choose|k: int, i2: usize| 0 <= k < init.len() && init[k] == CompareResult::MissesRight(i2) && old[i2 as int].id == id;
                    assert(steps[k] == init[k]);
                },
            }
        }
        if exists|k: int, i: usize| 0 <= k < steps.len() && steps[k] == CompareResult::MissesRight(i) && old[i as int].id == id {
            let (k, i) = choose|k: int, i: usize| 0 <= k < steps.len() && steps[k] == CompareResult::MissesRight(i) && old[i as int].id == id;
            if k < init.len() {
                assert(init[k] == steps[k]);
                let p = choose|p: int| 0 <= p < rest.len() && rest[p] == id;
                match steps.last() {
                    CompareResult::MissesRight(i3) => {
                        assert(rest.push(old[i3 as int].id)[p] == id);
                    },
                    _ => {},
                }
            } else {
                assert(steps.last() == CompareResult::MissesRight(i));
                assert(rest.push(old[i as int].id)[rest.len() as int] == id);
            }
        }
    }
}

proof fn lemma_equal_steps_change_nothing(steps: Seq<CompareResult>, s: Seq<Highlighter>)
    requires
        forall|k: int| 0 <= k < steps.len() ==> (#[trigger] steps[k] matches CompareResult::Equal(a, b) && a == b && a < s.len()),
    ensures
        added_rules(steps, s) == Seq::<Highlighter>::empty(),
        removed_ids(steps, s) == Seq::<u128>::empty(),
        updated_rules(steps, s, s) == Seq::<Highlighter>::empty(),
    decreases steps.len(),
{
    if steps.len() > 0 {
        assert(steps.last() == steps[steps.len() - 1]);
        lemma_equal_steps_change_nothing(steps.drop_last(), s);
    }
}

/// Diffing an id-ordered rule list against itself finds nothing: no rule is
/// added, none removed and none updated, so nothing is sent on and earlier
/// results stay.
pub proof fn lemma_diff_against_itself(s: Seq<Highlighter>)
    requires
        s.len() <= usize::MAX,
    ensures
        added_rules(compare_steps(ids(s), ids(s)), s) == Seq::<Highlighter>::empty(),
        removed_ids(compare_steps(ids(s), ids(s)), s) == Seq::<u128>::empty(),
        updated_rules(compare_steps(ids(s), ids(s)), s, s) == Seq::<Highlighter>::empty(),
{
    crate::compare::lemma_walk_with_itself(ids(s));
    lemma_equal_steps_change_nothing(compare_steps(ids(s), ids(s)), s);
}

/// A single rule filtered by id: itself where it has the id, else nothing.
proof fn lemma_single_with_id(h: Highlighter, x: u128)
    ensures
        seq![h].filter(id_is(x)) == (if h.id == x { seq![h] } else { Seq::<Highlighter>::empty() }),
{
    reveal_with_fuel(Seq::filter, 2);
    assert(seq![h].drop_last() =~= Seq::<Highlighter>::empty());
}

/// Two id-ordered lists that hold the same rules of each id, in the same
/// order, are the same list.
proof fn lemma_sorted_same_ids_equal(a: Seq<Highlighter>, b: Seq<Highlighter>)
    requires
        sorted_ids(a),
        sorted_ids(b),
        forall|x: u128| #[trigger] a.filter(id_is(x)) == b.filter(id_is(x)),
    ensures
        a == b,
    decreases a.len(),
{
    if a.len() == 0 && b.len() == 0 {
        assert(a =~= b);
    } else if a.len() == 0 {
        let x = b[0].id;
        lemma_none_with_id(a, x);
        b.lemma_filter_contains(id_is(x), 0);
        assert(a.filter(id_is(x)) == b.filter(id_is(x)));
    } else if b.len() == 0 {
        let x = a[0].id;
        lemma_none_with_id(b, x);
        a.lemma_filter_contains(id_is(x), 0);
        assert(a.filter(id_is(x)) == b.filter(id_is(x)));
    } else {
        let x = a[0].id;
        let y = b[0].id;
        if x < y {
            assert forall|k: int| 0 <= k < b.len() implies b[k].id != x by {
                if k > 0 {
                    assert(b[0].id <= b[k].id);
                }
            }
            lemma_none_with_id(b, x);
            a.lemma_filter_contains(id_is(x), 0);
            assert(a.filter(id_is(x)) == b.filter(id_is(x)));
        } else if y < x {
            assert forall|k: int| 0 <= k < a.len() implies a[k].id != y by {
                if k > 0 {
                    assert(a[0].id <= a[k].id);
                }
            }
            lemma_none_with_id(a, y);
            b.lemma_filter_contains(id_is(y), 0);
            assert(a.filter(id_is(y)) == b.filter(id_is(y)));
        } else {
            let ra = a.drop_first();
            let rb = b.drop_first();
            assert(a =~= seq![a[0]] + ra);
            assert(b =~= seq![b[0]] + rb);
            assert forall|z: u128| #[trigger] a.filter(id_is(z)) == seq![a[0]].filter(id_is(z)) + ra.filter(id_is(z)) by {
                Seq::filter_distributes_over_add(seq![a[0]], ra, id_is(z));
            }
            assert forall|z: u128| #[trigger] b.filter(id_is(z)) == seq![b[0]].filter(id_is(z)) + rb.filter(id_is(z)) by {
                Seq::filter_distributes_over_add(seq![b[0]], rb, id_is(z));
            }
            lemma_single_with_id(a[0], x);
            lemma_single_with_id(b[0], x);
            assert(a.filter(id_is(x))[0] == a[0]);
            assert(b.filter(id_is(x))[0] == b[0]);
            assert(a.filter(id_is(x)) == b.filter(id_is(x)));
            assert(a[0] == b[0]);
            assert forall|z: u128| #[trigger] ra.filter(id_is(z)) == rb.filter(id_is(z)) by {
                let head = seq![a[0]].filter(id_is(z));
                assert(a.filter(id_is(z)) == b.filter(id_is(z)));
                assert(ra.filter(id_is(z)) =~= a.filter(id_is(z)).skip(head.len() as int));
                assert(rb.filter(id_is(z)) =~= b.filter(id_is(z)).skip(head.len() as int));
            }
            assert(sorted_ids(ra)) by {
                assert forall|i: int, j: int| 0 <= i < j < ra.len() implies ra[i].id <= ra[j].id by {
                    assert(ra[i] == a[i + 1] && ra[j] == a[j + 1]);
                }
            }
            assert(sorted_ids(rb)) by {
                assert forall|i: int, j: int| 0 <= i < j < rb.len() implies rb[i].id <= rb[j].id by {
                    assert(rb[i] == b[i + 1] && rb[j] == b[j + 1]);
                }
            }
            lemma_sorted_same_ids_equal(ra, rb);
            assert(a =~= b);
        }
    }
}

/// Applying the same rules twice changes nothing the second time: both
/// calls of `diff_rules` order the given rules into the same list (each
/// keeps the given rules of every id, in their order), and diffing that
/// list against itself reports no rule added, removed or updated.
pub proof fn lemma_same_rules_twice(first: Seq<Highlighter>, second: Seq<Highlighter>, given: Seq<Highlighter>)
    requires
        first.len() <= usize::MAX,
        sorted_ids(first),
        sorted_ids(second),
        forall|x: u128| #[trigger] first.filter(id_is(x)) == given.filter(id_is(x)),
        forall|x: u128| #[trigger] second.filter(id_is(x)) == given.filter(id_is(x)),
    ensures
        second == first,
        added_rules(compare_steps(ids(first), ids(second)), second) == Seq::<Highlighter>::empty(),
        removed_ids(compare_steps(ids(first), ids(second)), first) == Seq::<u128>::empty(),
        updated_rules(compare_steps(ids(first), ids(second)), first, second) == Seq::<Highlighter>::empty(),
{
    assert forall|x: u128| #[trigger] first.filter(id_is(x)) == second.filter(id_is(x)) by {
        assert(first.filter(id_is(x)) == given.filter(id_is(x)));
        assert(second.filter(id_is(x)) == given.filter(id_is(x)));
    }
    lemma_sorted_same_ids_equal(first, second);
    lemma_diff_against_itself(first);
}

/// Comparing two id-ordered rule lists without repeated ids: the rules
/// reported as added are exactly the new rules whose id the old list
/// lacks, and the ids reported as removed are exactly the old ids the new
/// list lacks.
pub proof fn lemma_diff_adds_and_removes(old: Seq<Highlighter>, new: Seq<Highlighter>)
    requires
        old.len() <= usize::MAX,
        new.len() <= usize::MAX,
        strictly_sorted(ids(old)),
        strictly_sorted(ids(new)),
    ensures
        forall|j: int| 0 <= j < new.len() ==> (added_rules(compare_steps(ids(old), ids(new)), new).contains(
            #[trigger] new[j],
        ) <==> !ids(old).contains(new[j].id)),
        forall|i: int| 0 <= i < old.len() ==> (removed_ids(compare_steps(ids(old), ids(new)), old).contains(
            #[trigger] old[i].id,
        ) <==> !ids(new).contains(old[i].id)),
{
    let l = ids(old);
    let r = ids(new);
    let steps = compare_steps(l, r);
    crate::compare::lemma_compare_steps_laws(l, r);
    assert forall|j: int| 0 <= j < new.len() implies (added_rules(steps, new).contains(#[trigger] new[j])
        <==> !l.contains(new[j].id)) by {
        lemma_added_rules_index(steps, new, new[j]);
        if added_rules(steps, new).contains(new[j]) {
            let (k, j2) = choose|k: int, j2: usize| 0 <= k < steps.len() && steps[k] == CompareResult::MissesLeft(j2) && new[j2 as int] == new[j];
            assert(j2 < r.len());
            assert(!l.contains(r[j2 as int]));
            assert(r[j2 as int] == new[j].id);
        } else {
            assert(right_consumed(steps, j));
            let k = choose|k: int| 0 <= k < steps.len() && right_of(#[trigger] steps[k]) == Some(j as usize);
            match steps[k] {
                CompareResult::Equal(i, j2) => {
                    assert(j2 as int == j);
                    assert(l[i as int] == r[j2 as int]);
                    assert(l[i as int] == new[j].id);
                    assert(l.contains(new[j].id));
                },
                CompareResult::MissesLeft(j2) => {
                    assert(j2 == j);
                    assert(added_rules(steps, new).contains(new[j]));
                },
                CompareResult::MissesRight(_) => {},
            }
        }
    }
    assert forall|i: int| 0 <= i < old.len() implies (removed_ids(steps, old).contains(#[trigger] old[i].id)
        <==> !r.contains(old[i].id)) by {
        lemma_removed_ids_index(steps, old, old[i].id);
        if removed_ids(steps, old).contains(old[i].id) {
            let (k, i2) = choose|k: int, i2: usize| 0 <= k < steps.len() && steps[k] == CompareResult::MissesRight(i2) && old[i2 as int].id == old[i].id;
            assert(i2 < l.len());
            assert(!r.contains(l[i2 as int]));
        } else {
            assert(left_consumed(steps, i));
            let k = choose|k: int| 0 <= k < steps.len() && left_of(#[trigger] steps[k]) == Some(i as usize);
            match steps[k] {
                CompareResult::Equal(i2, j) => {
                    assert(i2 as int == i);
                    assert(l[i2 as int] == r[j as int]);
                    assert(r[j as int] == old[i].id);
                    assert(r.contains(old[i].id));
                },
                CompareResult::MissesRight(i2) => {
                    assert(i2 == i);
                    assert(removed_ids(steps, old).contains(old[i].id));
                },
                CompareResult::MissesLeft(_) => {},
            }
        }
    }
}

proof fn lemma_updated_rules_index(steps: Seq<CompareResult>, old: Seq<Highlighter>, new: Seq<Highlighter>, k: int)
    requires
        0 <= k < steps.len(),
        steps[k] matches CompareResult::Equal(a, b) && search_changed(old[a as int], new[b as int]),
    ensures
        updated_rules(steps, old, new).contains(new[steps[k]->Equal_1 as int]),
    decreases steps.len(),
{
    let init = steps.drop_last();
    if k < steps.len() - 1 {
        assert(init[k] == steps[k]);
        lemma_updated_rules_index(init, old, new, k);
        let rest = updated_rules(init, old, new);
        let x = new[steps[k]->Equal_1 as int];
        let q = choose|q: int| 0 <= q < rest.len() && rest[q] == x;
        match steps.last() {
            CompareResult::Equal(i, j) => if search_changed(old[i as int], new[j as int]) {
                assert(updated_rules(steps, old, new)[q] == x);
            } else {
            },
            _ => {},
        }
    } else {
        assert(steps.last() == steps[k]);
        let rest = updated_rules(init, old, new);
        assert(updated_rules(steps, old, new) == rest.push(new[steps[k]->Equal_1 as int]));
        assert(updated_rules(steps, old, new)[rest.len() as int] == new[steps[k]->Equal_1 as int]);
    }
}

/// A rule kept on both sides whose pattern, type (highlight or exclude) or
/// extracting pattern changed is reported as updated: its new version is
/// in the updates, so the diff has changes and earlier results are void.
pub proof fn lemma_changed_rule_is_updated(old: Seq<Highlighter>, new: Seq<Highlighter>, i: int, j: int)
    requires
        old.len() <= usize::MAX,
        new.len() <= usize::MAX,
        strictly_sorted(ids(old)),
        strictly_sorted(ids(new)),
        0 <= i < old.len(),
        0 <= j < new.len(),
        old[i].id == new[j].id,
        opt_view(old[i].regex) != opt_view(new[j].regex)
            || old[i].excludes() != new[j].excludes()
            || opt_view(old[i].extractor_regex) != opt_view(new[j].extractor_regex),
    ensures
        updated_rules(compare_steps(ids(old), ids(new)), old, new).contains(new[j]),
        updated_rules(compare_steps(ids(old), ids(new)), old, new).len() > 0,
{
    let l = ids(old);
    let r = ids(new);
    let steps = compare_steps(l, r);
    crate::compare::lemma_compare_steps_laws(l, r);
    assert(right_consumed(steps, j));
    let k = choose|k: int| 0 <= k < steps.len() && right_of(#[trigger] steps[k]) == Some(j as usize);
    match steps[k] {
        CompareResult::Equal(a, b) => {
            assert(b as int == j);
            assert(l[a as int] == r[b as int]);
            assert(l[a as int] == l[i]);
            if a as int != i {
                if (a as int) < i {
                    assert(l[a as int] < l[i]);
                } else {
                    assert(l[i] < l[a as int]);
                }
            }
            assert(a as int == i);
            lemma_updated_rules_index(steps, old, new, k);
        },
        CompareResult::MissesLeft(b) => {
            assert(b as int == j);
            assert(l[i] == r[j]);
            assert(l.contains(r[j]));
        },
        CompareResult::MissesRight(_) => {},
    }
}

/// What a running search keeps of a rule.
pub struct ActiveRule {
    pub id: u128,
    pub name: Option<String>,
    pub line_offset: usize,
    /// The rule's pattern, when it compiles.
    pub regex: Option<String>,
    /// The extracting pattern, when it compiles.
    pub extractor_regex: Option<String>,
    pub is_exclude: bool,
    pub is_dirty: bool,
}

/// What a running search keeps of a newly added rule.
pub open spec fn activated(h: Highlighter) -> ActiveRuleView {
    ActiveRuleView {
        id: h.id,
        name: opt_view(h.name),
        line_offset: 0,
        regex: compiled_view(opt_view(h.regex)),
        extractor_regex: compiled_view(opt_view(h.extractor_regex)),
        is_exclude: h.excludes(),
        is_dirty: false,
    }
}

/// The contents of an active rule.
pub struct ActiveRuleView {
    pub id: u128,
    pub name: Option<Seq<char>>,
    pub line_offset: nat,
    pub regex: Option<Seq<char>>,
    pub extractor_regex: Option<Seq<char>>,
    pub is_exclude: bool,
    pub is_dirty: bool,
}

impl View for ActiveRule {
    type V = ActiveRuleView;

    open spec fn view(&self) -> ActiveRuleView {
        ActiveRuleView {
            id: self.id,
            name: opt_view(self.name),
            line_offset: self.line_offset as nat,
            regex: opt_view(self.regex),
            extractor_regex: opt_view(self.extractor_regex),
            is_exclude: self.is_exclude,
            is_dirty: self.is_dirty,
        }
    }
}

/// The contents of a list of active rules.
pub open spec fn active_view(v: Seq<ActiveRule>) -> Seq<ActiveRuleView> {
    v.map_values(|a: ActiveRule| a@)
}

/// The position of the first rule with id `id`, if any.
pub open spec fn first_with_id(v: Seq<ActiveRuleView>, id: u128) -> Option<int>
    decreases v.len(),
{
    if v.len() == 0 {
        None
    } else {
        match first_with_id(v.drop_last(), id) {
            Some(p) => Some(p),
            None => if v.last().id == id { Some(v.len() - 1) } else { None },
        }
    }
}

/// An active rule after its rule was edited: a new pattern resets it,
/// a missing pattern turns it off.
pub open spec fn updated_active(a: ActiveRuleView, h: Highlighter) -> ActiveRuleView {
    match h.regex {
        Some(r) => ActiveRuleView {
            line_offset: 0,
            regex: compiled_view(Some(r@)),
            is_exclude: h.excludes(),
            is_dirty: true,
            extractor_regex: match h.extractor_regex {
                Some(e) => compiled_view(Some(e@)),
                None => a.extractor_regex,
            },
            ..a
        },
        None => ActiveRuleView { regex: None, ..a },
    }
}

/// The active rules after the changes are applied in turn: additions,
/// then removals, then updates.
pub open spec fn after_changes(
    v: Seq<ActiveRuleView>,
    add: Seq<Highlighter>,
    remove: Seq<u128>,
    update: Seq<Highlighter>,
) -> Seq<ActiveRuleView> {
    after_updates(after_removals(v + add.map_values(|h: Highlighter| activated(h)), remove), update)
}

/// Removes the first rule of each id in `remove`, in turn.
pub open spec fn after_removals(v: Seq<ActiveRuleView>, remove: Seq<u128>) -> Seq<ActiveRuleView>
    decreases remove.len(),
{
    if remove.len() == 0 {
        v
    } else {
        let before = after_removals(v, remove.drop_last());
        match first_with_id(before, remove.last()) {
            Some(p) => before.remove(p),
            None => before,
        }
    }
}

/// Edits the first rule of each id in `update`, in turn.
pub open spec fn after_updates(v: Seq<ActiveRuleView>, update: Seq<Highlighter>) -> Seq<ActiveRuleView>
    decreases update.len(),
{
    if update.len() == 0 {
        v
    } else {
        let before = after_updates(v, update.drop_last());
        match first_with_id(before, update.last().id) {
            Some(p) => before.update(p, updated_active(before[p], update.last())),
            None => before,
        }
    }
}

proof fn lemma_first_with_id_bounds(v: Seq<ActiveRuleView>, id: u128)
    ensures
        match first_with_id(v, id) {
            Some(p) => 0 <= p < v.len() && v[p].id == id,
            None => forall|i: int| 0 <= i < v.len() ==> v[i].id != id,
        },
    decreases v.len(),
{
    if v.len() > 0 {
        lemma_first_with_id_bounds(v.drop_last(), id);
        match first_with_id(v.drop_last(), id) {
            Some(p) => {
                assert(v[p] == v.drop_last()[p]);
            },
            None => {
                assert forall|i: int| 0 <= i < v.len() - 1 implies v[i].id != id by {
                    assert(v[i] == v.drop_last()[i]);
                }
            },
        }
    }
}

/// The position of the first active rule with id `id`.
pub fn position_of(v: &Vec<ActiveRule>, id: u128) -> (r: Option<usize>)
    ensures
        r matches Some(p) ==> p < v.len() && v@[p as int].id == id,
        match first_with_id(active_view(v@), id) {
            Some(p) => r == Some(p as usize) && 0 <= p < v@.len(),
            None => r is None,
        },
{
    let ghost av = active_view(v@);
    proof {
        lemma_first_with_id_bounds(av, id);
    }
    let mut i: usize = 0;
    while i < v.len()
        invariant
            i <= v.len(),
            av == active_view(v@),
            first_with_id(av.take(i as int), id) is None,
        decreases v.len() - i,
    {
        assert(av.take(i + 1).drop_last() =~= av.take(i as int));
        if v[i].id == id {
            assert(first_with_id(av.take(i + 1), id) == Some(i as int));
            proof {
                lemma_first_with_id_prefix(av, i as int + 1, id);
            }
            assert(av[i as int].id == id);
            return Some(i);
        }
        i = i + 1;
    }
    assert(av.take(v.len() as int) =~= av);
    None
}

proof fn lemma_first_with_id_prefix(v: Seq<ActiveRuleView>, n: int, id: u128)
    requires
        0 <= n <= v.len(),
        first_with_id(v.take(n), id) is Some,
    ensures
        first_with_id(v, id) == first_with_id(v.take(n), id),
    decreases v.len() - n,
{
    if n < v.len() {
        assert(v.take(n + 1).drop_last() =~= v.take(n));
        lemma_first_with_id_prefix(v, n + 1, id);
    } else {
        assert(v.take(n) =~= v);
    }
}

impl ActiveRule {
    /// What a running search keeps of a newly added rule.
    pub fn activate(h: &Highlighter) -> (a: Self)
        ensures
            a@ == activated(*h),
    {
        ActiveRule {
            id: h.id,
            name: copy_opt(&h.name),
            line_offset: 0,
            regex: compile_pattern(&h.regex),
            extractor_regex: compile_pattern(&h.extractor_regex),
            is_exclude: h.is_exclude(),
            is_dirty: false,
        }
    }
}

/// Applies rule changes to the rules of a running search: adds the new
/// rules, drops the removed ones and refreshes the edited ones.
pub fn apply_rule_changes(active: &mut Vec<ActiveRule>, add: &Vec<Highlighter>, remove: &Vec<u128>, update: &Vec<Highlighter>)
    ensures
        active_view(final(active)@) == after_changes(active_view(old(active)@), add@, remove@, update@),
{
    let ghost start = active_view(active@);
    let mut i: usize = 0;
    while i < add.len()
        invariant
            i <= add.len(),
            active_view(active@) =~= start + add@.take(i as int).map_values(|h: Highlighter| activated(h)),
        decreases add.len() - i,
    {
        let ghost before = active@;
        let a = ActiveRule::activate(&add[i]);
        active.push(a);
        assert(active_view(active@) =~= active_view(before).push(a@));
        assert(add@.take(i + 1).map_values(|h: Highlighter| activated(h)) =~= add@.take(i as int).map_values(|h: Highlighter| activated(h)).push(activated(add@[i as int])));
        i = i + 1;
    }
    assert(add@.take(add.len() as int) =~= add@);
    let ghost added = active_view(active@);
    let mut r: usize = 0;
    while r < remove.len()
        invariant
            r <= remove.len(),
            active_view(active@) == after_removals(added, remove@.take(r as int)),
        decreases remove.len() - r,
    {
        assert(remove@.take(r + 1).drop_last() =~= remove@.take(r as int));
        assert(remove@.take(r + 1).last() == remove@[r as int]);
        let ghost before = active@;
        match position_of(active, remove[r]) {
            Some(p) => {
                active.remove(p);
                assert(active_view(active@) =~= active_view(before).remove(p as int));
            },
            None => {},
        }
        r = r + 1;
    }
    assert(remove@.take(remove.len() as int) =~= remove@);
    let ghost removed = active_view(active@);
    let mut u: usize = 0;
    while u < update.len()
        invariant
            u <= update.len(),
            active_view(active@) == after_updates(removed, update@.take(u as int)),
        decreases update.len() - u,
    {
        assert(update@.take(u + 1).drop_last() =~= update@.take(u as int));
        assert(update@.take(u + 1).last() == update@[u as int]);
        let up = &update[u];
        let ghost before = active_view(active@);
        match position_of(active, up.id) {
            Some(p) => {
                let ghost old_a = active@[p as int];
                match &up.regex {
                    Some(_) => {
                        active[p].line_offset = 0;
                        active[p].regex = compile_pattern(&up.regex);
                        active[p].is_exclude = up.is_exclude();
                        active[p].is_dirty = true;
                        match &up.extractor_regex {
                            Some(_) => {
                                active[p].extractor_regex = compile_pattern(&up.extractor_regex);
                            },
                            None => {},
                        }
                    },
                    None => {
                        active[p].regex = None;
                    },
                }
                assert(active@[p as int]@ == updated_active(old_a@, *up));
                assert(active_view(active@) =~= before.update(p as int, updated_active(before[p as int], *up)));
            },
            None => {},
        }
        u = u + 1;
    }
    assert(update@.take(update.len() as int) =~= update@);
}

} // verus!
