use vstd::prelude::*;

verus! {

/// One step of walking two lists that are sorted by key side by side.
/// Indices point into the left and the right list.
#[derive(Clone, Copy, Debug, PartialEq, Eq, Structural)]
pub enum CompareResult {
    /// Both lists hold the key: left index, right index.
    Equal(usize, usize),
    /// The right list holds a key that the left one lacks.
    MissesLeft(usize),
    /// The left list holds a key that the right one lacks.
    MissesRight(usize),
}

/// Keys in strictly ascending order.
pub open spec fn strictly_sorted(s: Seq<u128>) -> bool {
    forall|i: int, j: int| 0 <= i < j < s.len() ==> s[i] < s[j]
}

/// The step taken from positions `i` (left) and `j` (right).
pub open spec fn step_at(l: Seq<u128>, r: Seq<u128>, i: nat, j: nat) -> Option<CompareResult> {
    if i >= l.len() && j >= r.len() {
        None
    } else if i >= l.len() {
        Some(CompareResult::MissesLeft(j as usize))
    } else if j >= r.len() {
        Some(CompareResult::MissesRight(i as usize))
    } else if l[i as int] < r[j as int] {
        Some(CompareResult::MissesRight(i as usize))
    } else if l[i as int] > r[j as int] {
        Some(CompareResult::MissesLeft(j as usize))
    } else {
        Some(CompareResult::Equal(i as usize, j as usize))
    }
}

/// The left index a step consumes, if any.
pub open spec fn left_of(c: CompareResult) -> Option<usize> {
    match c {
        CompareResult::Equal(i, _) => Some(i),
        CompareResult::MissesRight(i) => Some(i),
        CompareResult::MissesLeft(_) => None,
    }
}

/// The right index a step consumes, if any.
pub open spec fn right_of(c: CompareResult) -> Option<usize> {
    match c {
        CompareResult::Equal(_, j) => Some(j),
        CompareResult::MissesLeft(j) => Some(j),
        CompareResult::MissesRight(_) => None,
    }
}

/// Every step of `steps` is right about the two lists: equal keys are
/// equal, and a key reported missing is absent from the other list.
pub open spec fn steps_truthful(l: Seq<u128>, r: Seq<u128>, steps: Seq<CompareResult>) -> bool {
    forall|k: int|
        0 <= k < steps.len() ==> match #[trigger] steps[k] {
            CompareResult::Equal(i, j) => i < l.len() && j < r.len() && l[i as int] == r[j as int],
            CompareResult::MissesLeft(j) => j < r.len() && !l.contains(r[j as int]),
            CompareResult::MissesRight(i) => i < l.len() && !r.contains(l[i as int]),
        }
}

/// Some step consumes left index `i`.
pub open spec fn left_consumed(steps: Seq<CompareResult>, i: int) -> bool {
    exists|k: int| 0 <= k < steps.len() && left_of(#[trigger] steps[k]) == Some(i as usize)
}

/// Some step consumes right index `j`.
pub open spec fn right_consumed(steps: Seq<CompareResult>, j: int) -> bool {
    exists|k: int| 0 <= k < steps.len() && right_of(#[trigger] steps[k]) == Some(j as usize)
}

/// The left indices that `steps` consume are `0, 1, ..., n - 1` in order,
/// each once; likewise the right indices for `m`.
pub open spec fn steps_cover(steps: Seq<CompareResult>, n: nat, m: nat) -> bool {
    &&& forall|i: int| 0 <= i < n ==> #[trigger] left_consumed(steps, i)
    &&& forall|j: int| 0 <= j < m ==> #[trigger] right_consumed(steps, j)
    &&& forall|k1: int, k2: int|
        0 <= k1 < k2 < steps.len() && left_of(#[trigger] steps[k1]) is Some && left_of(#[trigger] steps[k2]) is Some
            ==> left_of(steps[k1])->0 < left_of(steps[k2])->0
    &&& forall|k1: int, k2: int|
        0 <= k1 < k2 < steps.len() && right_of(#[trigger] steps[k1]) is Some && right_of(#[trigger] steps[k2]) is Some
            ==> right_of(steps[k1])->0 < right_of(steps[k2])->0
    &&& forall|k: int| 0 <= k < steps.len() ==> (left_of(#[trigger] steps[k]) matches Some(i) ==> i < n)
    &&& forall|k: int| 0 <= k < steps.len() ==> (right_of(#[trigger] steps[k]) matches Some(j) ==> j < m)
}

/// Walks two lists sorted by key and reports, key by key, whether both,
/// only the left or only the right list holds it.
pub struct SortedListCompare<'a> {
    lh: &'a Vec<u128>,
    rh: &'a Vec<u128>,
    lhi: usize,
    rhi: usize,
}

impl<'a> SortedListCompare<'a> {
    /// The left list.
    pub closed spec fn left(&self) -> Seq<u128> {
        self.lh@
    }

    /// The right list.
    pub closed spec fn right(&self) -> Seq<u128> {
        self.rh@
    }

    /// Position in the left list.
    pub closed spec fn left_pos(&self) -> nat {
        self.lhi as nat
    }

    /// Position in the right list.
    pub closed spec fn right_pos(&self) -> nat {
        self.rhi as nat
    }

    /// Positions stay within the lists.
    pub closed spec fn wf(&self) -> bool {
        self.lhi <= self.lh.len() && self.rhi <= self.rh.len()
    }

    /// Starts a walk at the front of both lists.
    pub fn new(lh: &'a Vec<u128>, rh: &'a Vec<u128>) -> (s: Self)
        ensures
            s.wf(),
            s.left() == lh@,
            s.right() == rh@,
            s.left_pos() == 0,
            s.right_pos() == 0,
    {
        SortedListCompare { lh, rh, lhi: 0, rhi: 0 }
    }

    /// The next step of the walk, or `None` once both lists are used up.
    pub fn next(&mut self) -> (res: Option<CompareResult>)
        requires
            old(self).wf(),
        ensures
            final(self).wf(),
            final(self).left() == old(self).left(),
            final(self).right() == old(self).right(),
            res == step_at(old(self).left(), old(self).right(), old(self).left_pos(), old(self).right_pos()),
            final(self).left_pos() == old(self).left_pos() + (if res is Some && left_of(res->0) is Some { 1nat } else { 0nat }),
            final(self).right_pos() == old(self).right_pos() + (if res is Some && right_of(res->0) is Some { 1nat } else { 0nat }),
            res is None ==> step_at(final(self).left(), final(self).right(), final(self).left_pos(), final(self).right_pos()) is None,
    {
        let lh_done = self.lhi >= self.lh.len();
        let rh_done = self.rhi >= self.rh.len();
        if lh_done && rh_done {
            return None;
        }
        if lh_done {
            let j = self.rhi;
            self.rhi = self.rhi + 1;
            return Some(CompareResult::MissesLeft(j));
        }
        if rh_done {
            let i = self.lhi;
            self.lhi = self.lhi + 1;
            return Some(CompareResult::MissesRight(i));
        }
        let i = self.lhi;
        let j = self.rhi;
        let a = self.lh[i];
        let b = self.rh[j];
        if a < b {
            self.lhi = self.lhi + 1;
            Some(CompareResult::MissesRight(i))
        } else if a > b {
            self.rhi = self.rhi + 1;
            Some(CompareResult::MissesLeft(j))
        } else {
            self.lhi = self.lhi + 1;
            self.rhi = self.rhi + 1;
            Some(CompareResult::Equal(i, j))
        }
    }
}

/// All steps of walking `lh` and `rh` side by side.
pub open spec fn steps_from(l: Seq<u128>, r: Seq<u128>, i: nat, j: nat) -> Seq<CompareResult>
    decreases (l.len() - i) + (r.len() - j) when i <= l.len() && j <= r.len()
{
    match step_at(l, r, i, j) {
        None => Seq::empty(),
        Some(c) => seq![c] + steps_from(
            l,
            r,
            if left_of(c) is Some { i + 1 } else { i },
            if right_of(c) is Some { j + 1 } else { j },
        ),
    }
}

/// The whole walk over `lh` and `rh`.
pub open spec fn compare_steps(l: Seq<u128>, r: Seq<u128>) -> Seq<CompareResult> {
    steps_from(l, r, 0, 0)
}

/// Every step of walking two sorted lists, in order. For lists whose keys
/// strictly ascend, each key is reported once and truthfully.
pub fn compare_all(lh: &Vec<u128>, rh: &Vec<u128>) -> (steps: Vec<CompareResult>)
    ensures
        steps@ == compare_steps(lh@, rh@),
        strictly_sorted(lh@) && strictly_sorted(rh@) ==> steps_truthful(lh@, rh@, steps@),
        steps_cover(steps@, lh@.len(), rh@.len()),
{
    let mut walk = SortedListCompare::new(lh, rh);
    let mut steps: Vec<CompareResult> = Vec::new();
    assert(steps@ + steps_from(lh@, rh@, 0, 0) =~= compare_steps(lh@, rh@));
    loop
        invariant
            walk.wf(),
            walk.left() == lh@,
            walk.right() == rh@,
            steps@ + steps_from(lh@, rh@, walk.left_pos(), walk.right_pos()) == compare_steps(lh@, rh@),
            strictly_sorted(lh@) && strictly_sorted(rh@) ==> steps_truthful(lh@, rh@, steps@),
            strictly_sorted(lh@) && strictly_sorted(rh@) ==> merge_frontier(lh@, rh@, walk.left_pos(), walk.right_pos()),
            prefix_cover(steps@, walk.left_pos(), walk.right_pos()),
        ensures
            walk.left_pos() == lh@.len(),
            walk.right_pos() == rh@.len(),
            steps@ == compare_steps(lh@, rh@),
            strictly_sorted(lh@) && strictly_sorted(rh@) ==> steps_truthful(lh@, rh@, steps@),
            prefix_cover(steps@, walk.left_pos(), walk.right_pos()),
        decreases (lh@.len() - walk.left_pos()) + (rh@.len() - walk.right_pos()),
    {
        let ghost i = walk.left_pos();
        let ghost j = walk.right_pos();
        let ghost before = steps@;
        match walk.next() {
            None => {
                assert(steps@ + Seq::<CompareResult>::empty() =~= steps@);
                break;
            },
            Some(c) => {
                steps.push(c);
                proof {
                    assert(steps_from(lh@, rh@, i, j) == seq![c] + steps_from(lh@, rh@, walk.left_pos(), walk.right_pos()));
                    assert(steps@ + steps_from(lh@, rh@, walk.left_pos(), walk.right_pos()) =~= before + steps_from(lh@, rh@, i, j));
                    if strictly_sorted(lh@) && strictly_sorted(rh@) {
                        lemma_step_truthful(lh@, rh@, i, j);
                        lemma_frontier_advances(lh@, rh@, i, j);
                        assert forall|k: int| 0 <= k < steps@.len() implies match #[trigger] steps@[k] {
                            CompareResult::Equal(a, b) => a < lh@.len() && b < rh@.len() && lh@[a as int] == rh@[b as int],
                            CompareResult::MissesLeft(b) => b < rh@.len() && !lh@.contains(rh@[b as int]),
                            CompareResult::MissesRight(a) => a < lh@.len() && !rh@.contains(lh@[a as int]),
                        } by {
                            if k < before.len() {
                                assert(steps@[k] == before[k]);
                            }
                        }
                    }
                    lemma_prefix_cover_extends(before, c, i, j);
                }
            },
        }
    }
    proof {
        lemma_prefix_cover_full(steps@, lh@.len(), rh@.len());
    }
    steps
}

/// The steps so far consumed exactly the left indices below `i` and the
/// right indices below `j`, in order.
pub open spec fn prefix_cover(steps: Seq<CompareResult>, i: nat, j: nat) -> bool {
    steps_cover(steps, i, j)
}

/// Everything consumed on one side is smaller than what is left on the
/// other side.
pub open spec fn merge_frontier(l: Seq<u128>, r: Seq<u128>, i: nat, j: nat) -> bool {
    &&& i <= l.len()
    &&& j <= r.len()
    &&& forall|a: int, b: int| 0 <= a < i && j <= b < r.len() ==> l[a] < r[b]
    &&& forall|a: int, b: int| 0 <= b < j && i <= a < l.len() ==> r[b] < l[a]
}

proof fn lemma_step_truthful(l: Seq<u128>, r: Seq<u128>, i: nat, j: nat)
    requires
        l.len() <= usize::MAX,
        r.len() <= usize::MAX,
        strictly_sorted(l),
        strictly_sorted(r),
        merge_frontier(l, r, i, j),
    ensures
        step_at(l, r, i, j) matches Some(c) ==> match c {
            CompareResult::Equal(a, b) => a < l.len() && b < r.len() && l[a as int] == r[b as int],
            CompareResult::MissesLeft(b) => b < r.len() && !l.contains(r[b as int]),
            CompareResult::MissesRight(a) => a < l.len() && !r.contains(l[a as int]),
        },
{
    match step_at(l, r, i, j) {
        None => {},
        Some(c) => {
            match c {
                CompareResult::Equal(a, b) => {},
                CompareResult::MissesLeft(b) => {
                    assert(b as nat == j);
                    assert(j < r.len());
                    assert forall|a: int| 0 <= a < l.len() implies l[a] != r[j as int] by {
                        if a < i {
                            assert(l[a] < r[j as int]);
                        } else {
                            assert(i < l.len());
                            assert(l[i as int] > r[j as int]);
                            if a > i {
                                assert(l[i as int] < l[a]);
                            }
                        }
                    }
                },
                CompareResult::MissesRight(a) => {
                    assert(a as nat == i);
                    assert(i < l.len());
                    assert forall|b: int| 0 <= b < r.len() implies r[b] != l[i as int] by {
                        if b < j {
                            assert(r[b] < l[i as int]);
                        } else {
                            assert(j < r.len());
                            assert(l[i as int] < r[j as int]);
                            if b > j {
                                assert(r[j as int] < r[b]);
                            }
                        }
                    }
                },
            }
        },
    }
}

proof fn lemma_frontier_advances(l: Seq<u128>, r: Seq<u128>, i: nat, j: nat)
    requires
        l.len() <= usize::MAX,
        r.len() <= usize::MAX,
        strictly_sorted(l),
        strictly_sorted(r),
        merge_frontier(l, r, i, j),
    ensures
        step_at(l, r, i, j) matches Some(c) ==> merge_frontier(
            l,
            r,
            if left_of(c) is Some { i + 1 } else { i },
            if right_of(c) is Some { j + 1 } else { j },
        ),
{
    match step_at(l, r, i, j) {
        None => {},
        Some(c) => {
            let i2: nat = if left_of(c) is Some { i + 1 } else { i };
            let j2: nat = if right_of(c) is Some { j + 1 } else { j };
            assert forall|a: int, b: int| 0 <= a < i2 && j2 <= b < r.len() implies l[a] < r[b] by {
                if a == i && left_of(c) is Some {
                    if j < r.len() {
                        assert(r[j as int] <= r[b]) by {
                            if j as int != b {
                                assert(r[j as int] < r[b]);
                            }
                        }
                    }
                }
            }
            assert forall|a: int, b: int| 0 <= b < j2 && i2 <= a < l.len() implies r[b] < l[a] by {
                if b == j && right_of(c) is Some {
                    if i < l.len() {
                        assert(l[i as int] <= l[a]) by {
                            if i as int != a {
                                assert(l[i as int] < l[a]);
                            }
                        }
                    }
                }
            }
        },
    }
}

proof fn lemma_prefix_cover_extends(steps: Seq<CompareResult>, c: CompareResult, i: nat, j: nat)
    requires
        prefix_cover(steps, i, j),
        left_of(c) is Some ==> left_of(c)->0 == i,
        right_of(c) is Some ==> right_of(c)->0 == j,
    ensures
        prefix_cover(
            steps.push(c),
            if left_of(c) is Some { i + 1 } else { i },
            if right_of(c) is Some { j + 1 } else { j },
        ),
{
    let s2 = steps.push(c);
    let i2: nat = if left_of(c) is Some { i + 1 } else { i };
    let j2: nat = if right_of(c) is Some { j + 1 } else { j };
    assert forall|a: int| 0 <= a < i2 implies #[trigger] left_consumed(s2, a) by {
        if a < i {
            assert(left_consumed(steps, a));
            let k = choose|k: int| 0 <= k < steps.len() && left_of(#[trigger] steps[k]) == Some(a as usize);
            assert(s2[k] == steps[k]);
        } else {
            assert(left_of(s2[steps.len() as int]) == Some(a as usize));
        }
    }
    assert forall|b: int| 0 <= b < j2 implies #[trigger] right_consumed(s2, b) by {
        if b < j {
            assert(right_consumed(steps, b));
            let k = choose|k: int| 0 <= k < steps.len() && right_of(#[trigger] steps[k]) == Some(b as usize);
            assert(s2[k] == steps[k]);
        } else {
            assert(right_of(s2[steps.len() as int]) == Some(b as usize));
        }
    }
    assert forall|k1: int, k2: int|
        0 <= k1 < k2 < s2.len() && left_of(#[trigger] s2[k1]) is Some && left_of(#[trigger] s2[k2]) is Some
        implies left_of(s2[k1])->0 < left_of(s2[k2])->0 by {
        if k2 < steps.len() {
            assert(s2[k1] == steps[k1] && s2[k2] == steps[k2]);
        } else {
            assert(s2[k1] == steps[k1]);
            assert(left_of(steps[k1])->0 < i);
        }
    }
    assert forall|k1: int, k2: int|
        0 <= k1 < k2 < s2.len() && right_of(#[trigger] s2[k1]) is Some && right_of(#[trigger] s2[k2]) is Some
        implies right_of(s2[k1])->0 < right_of(s2[k2])->0 by {
        if k2 < steps.len() {
            assert(s2[k1] == steps[k1] && s2[k2] == steps[k2]);
        } else {
            assert(s2[k1] == steps[k1]);
            assert(right_of(steps[k1])->0 < j);
        }
    }
    assert forall|k: int| 0 <= k < s2.len() implies (left_of(#[trigger] s2[k]) matches Some(a) ==> a < i2) by {
        if k < steps.len() {
            assert(s2[k] == steps[k]);
        }
    }
    assert forall|k: int| 0 <= k < s2.len() implies (right_of(#[trigger] s2[k]) matches Some(b) ==> b < j2) by {
        if k < steps.len() {
            assert(s2[k] == steps[k]);
        }
    }
}

proof fn lemma_prefix_cover_full(steps: Seq<CompareResult>, n: nat, m: nat)
    requires
        prefix_cover(steps, n, m),
    ensures
        steps_cover(steps, n, m),
{
}

} // verus!

verus! {

proof fn lemma_walk(l: Seq<u128>, r: Seq<u128>, i: nat, j: nat, prefix: Seq<CompareResult>)
    requires
        l.len() <= usize::MAX,
        r.len() <= usize::MAX,
        i <= l.len(),
        j <= r.len(),
        prefix_cover(prefix, i, j),
        strictly_sorted(l) && strictly_sorted(r) ==> steps_truthful(l, r, prefix),
        strictly_sorted(l) && strictly_sorted(r) ==> merge_frontier(l, r, i, j),
    ensures
        steps_cover(prefix + steps_from(l, r, i, j), l.len(), r.len()),
        strictly_sorted(l) && strictly_sorted(r) ==> steps_truthful(l, r, prefix + steps_from(l, r, i, j)),
    decreases (l.len() - i) + (r.len() - j),
{
    match step_at(l, r, i, j) {
        None => {
            assert(prefix + steps_from(l, r, i, j) =~= prefix);
        },
        Some(c) => {
            let i2: nat = if left_of(c) is Some { i + 1 } else { i };
            let j2: nat = if right_of(c) is Some { j + 1 } else { j };
            let next = prefix.push(c);
            lemma_prefix_cover_extends(prefix, c, i, j);
            if strictly_sorted(l) && strictly_sorted(r) {
                lemma_step_truthful(l, r, i, j);
                lemma_frontier_advances(l, r, i, j);
                assert forall|k: int| 0 <= k < next.len() implies match #[trigger] next[k] {
                    CompareResult::Equal(a, b) => a < l.len() && b < r.len() && l[a as int] == r[b as int],
                    CompareResult::MissesLeft(b) => b < r.len() && !l.contains(r[b as int]),
                    CompareResult::MissesRight(a) => a < l.len() && !r.contains(l[a as int]),
                } by {
                    if k < prefix.len() {
                        assert(next[k] == prefix[k]);
                    }
                }
            }
            lemma_walk(l, r, i2, j2, next);
            assert(steps_from(l, r, i, j) == seq![c] + steps_from(l, r, i2, j2));
            assert(prefix + steps_from(l, r, i, j) =~= next + steps_from(l, r, i2, j2));
        },
    }
}

/// The walk over two lists reports each left and each right index once,
/// in order; over lists whose keys strictly ascend, each report is true.
pub proof fn lemma_compare_steps_laws(l: Seq<u128>, r: Seq<u128>)
    requires
        l.len() <= usize::MAX,
        r.len() <= usize::MAX,
    ensures
        steps_cover(compare_steps(l, r), l.len(), r.len()),
        strictly_sorted(l) && strictly_sorted(r) ==> steps_truthful(l, r, compare_steps(l, r)),
{
    lemma_walk(l, r, 0, 0, Seq::empty());
    assert(Seq::<CompareResult>::empty() + steps_from(l, r, 0, 0) =~= compare_steps(l, r));
}

/// The key a step reports: the left key where it consumes a left index,
/// else the right key.
pub open spec fn step_key(l: Seq<u128>, r: Seq<u128>, c: CompareResult) -> u128 {
    match c {
        CompareResult::Equal(i, _) => l[i as int],
        CompareResult::MissesRight(i) => l[i as int],
        CompareResult::MissesLeft(j) => r[j as int],
    }
}

/// How many steps report a key that both lists hold.
pub open spec fn equal_count(steps: Seq<CompareResult>) -> nat
    decreases steps.len(),
{
    if steps.len() == 0 {
        0
    } else {
        (if steps[0] is Equal { 1nat } else { 0nat }) + equal_count(steps.drop_first())
    }
}

proof fn lemma_steps_from_merge(l: Seq<u128>, r: Seq<u128>, i: nat, j: nat)
    requires
        l.len() <= usize::MAX,
        r.len() <= usize::MAX,
        i <= l.len(),
        j <= r.len(),
    ensures
        steps_from(l, r, i, j).len() + equal_count(steps_from(l, r, i, j)) == (l.len() - i) + (r.len() - j),
        forall|k: int| 0 <= k < steps_from(l, r, i, j).len() ==> (left_of(#[trigger] steps_from(l, r, i, j)[k]) matches Some(a) ==> i <= a < l.len()),
        forall|k: int| 0 <= k < steps_from(l, r, i, j).len() ==> (right_of(#[trigger] steps_from(l, r, i, j)[k]) matches Some(b) ==> j <= b < r.len()),
        strictly_sorted(l) && strictly_sorted(r) ==> forall|k1: int, k2: int| 0 <= k1 < k2 < steps_from(l, r, i, j).len()
            ==> step_key(l, r, #[trigger] steps_from(l, r, i, j)[k1]) < step_key(l, r, #[trigger] steps_from(l, r, i, j)[k2]),
    decreases (l.len() - i) + (r.len() - j),
{
    let s = steps_from(l, r, i, j);
    match step_at(l, r, i, j) {
        None => {},
        Some(c) => {
            let i2: nat = if left_of(c) is Some { i + 1 } else { i };
            let j2: nat = if right_of(c) is Some { j + 1 } else { j };
            lemma_steps_from_merge(l, r, i2, j2);
            let rest = steps_from(l, r, i2, j2);
            assert(s == seq![c] + rest);
            assert(s.drop_first() =~= rest);
            assert(s[0] == c);
            assert forall|k: int| 0 < k < s.len() implies #[trigger] s[k] == rest[k - 1] by {}
            if strictly_sorted(l) && strictly_sorted(r) {
                assert forall|k: int| 0 <= k < rest.len() implies step_key(l, r, c) < step_key(l, r, #[trigger] rest[k]) by {
                    let d = rest[k];
                    match d {
                        CompareResult::Equal(a, _) => {
                            assert(left_of(d) == Some(a));
                            assert(i2 <= a < l.len());
                        },
                        CompareResult::MissesRight(a) => {
                            assert(left_of(d) == Some(a));
                            assert(i2 <= a < l.len());
                        },
                        CompareResult::MissesLeft(b) => {
                            assert(right_of(d) == Some(b));
                            assert(j2 <= b < r.len());
                        },
                    }
                    match c {
                        CompareResult::Equal(_, _) => {},
                        CompareResult::MissesRight(_) => {
                            if j < r.len() {
                                assert(l[i as int] < r[j as int]);
                                match d {
                                    CompareResult::MissesLeft(b) => {
                                        if b as int != j as int {
                                            assert(r[j as int] < r[b as int]);
                                        }
                                    },
                                    _ => {},
                                }
                            }
                        },
                        CompareResult::MissesLeft(_) => {
                            if i < l.len() {
                                assert(l[i as int] > r[j as int]);
                                match d {
                                    CompareResult::Equal(a, _) => {
                                        if a as int != i as int {
                                            assert(l[i as int] < l[a as int]);
                                        }
                                    },
                                    CompareResult::MissesRight(a) => {
                                        if a as int != i as int {
                                            assert(l[i as int] < l[a as int]);
                                        }
                                    },
                                    _ => {},
                                }
                            }
                        },
                    }
                }
                assert forall|k1: int, k2: int| 0 <= k1 < k2 < s.len()
                    implies step_key(l, r, #[trigger] s[k1]) < step_key(l, r, #[trigger] s[k2]) by {
                    if k1 == 0 {
                        assert(s[k2] == rest[k2 - 1]);
                    } else {
                        assert(s[k1] == rest[k1 - 1]);
                        assert(s[k2] == rest[k2 - 1]);
                    }
                }
            }
        },
    }
}

/// The walk over two lists is their merge: it reports as many keys as the
/// two lists hold, counting a key that both hold once; and over lists
/// whose keys strictly ascend, it reports the keys in strictly ascending
/// order.
pub proof fn lemma_walk_is_merge(l: Seq<u128>, r: Seq<u128>)
    requires
        l.len() <= usize::MAX,
        r.len() <= usize::MAX,
    ensures
        compare_steps(l, r).len() + equal_count(compare_steps(l, r)) == l.len() + r.len(),
        strictly_sorted(l) && strictly_sorted(r) ==> forall|k1: int, k2: int| 0 <= k1 < k2 < compare_steps(l, r).len()
            ==> step_key(l, r, #[trigger] compare_steps(l, r)[k1]) < step_key(l, r, #[trigger] compare_steps(l, r)[k2]),
{
    lemma_steps_from_merge(l, r, 0, 0);
}

proof fn lemma_steps_from_self(l: Seq<u128>, i: nat)
    requires
        l.len() <= usize::MAX,
        i <= l.len(),
    ensures
        steps_from(l, l, i, i).len() == l.len() - i,
        forall|k: int| 0 <= k < steps_from(l, l, i, i).len()
            ==> #[trigger] steps_from(l, l, i, i)[k] == CompareResult::Equal((i + k) as usize, (i + k) as usize),
    decreases l.len() - i,
{
    if i < l.len() {
        lemma_steps_from_self(l, i + 1);
        let rest = steps_from(l, l, i + 1, i + 1);
        assert(steps_from(l, l, i, i) == seq![CompareResult::Equal(i as usize, i as usize)] + rest);
    }
}

/// Walking a list side by side with itself finds every key on both sides:
/// the `k`-th step pairs index `k` with index `k`.
pub proof fn lemma_walk_with_itself(l: Seq<u128>)
    requires
        l.len() <= usize::MAX,
    ensures
        compare_steps(l, l).len() == l.len(),
        forall|k: int| 0 <= k < l.len() ==> #[trigger] compare_steps(l, l)[k] == CompareResult::Equal(k as usize, k as usize),
{
    lemma_steps_from_self(l, 0);
}

} // verus!
