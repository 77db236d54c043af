use vstd::prelude::*;
use crate::text::{decimal, decimal_string};

verus! {

/// Where "next match" goes from `current` among `n` matches: one further,
/// wrapping from the last to the first; the first when none is selected.
pub open spec fn next_target(n: nat, current: Option<nat>) -> nat {
    match current {
        Some(c) => if c == n - 1 { 0 } else { (c + 1) as nat },
        None => 0,
    }
}

/// Where "previous match" goes from `current` among `n` matches: one back,
/// wrapping from the first to the last; the last when none is selected.
pub open spec fn prev_target(n: nat, current: Option<nat>) -> nat {
    match current {
        Some(c) => if c == 0 { (n - 1) as nat } else { (c - 1) as nat },
        None => if n > 0 { (n - 1) as nat } else { 0 },
    }
}

/// The search matches of a log view and the one that is selected.
pub struct SearchCursor {
    matches: usize,
    current: Option<usize>,
}

/// What a search cursor holds: how many matches, and which is selected.
pub struct CursorView {
    pub matches: nat,
    pub current: Option<nat>,
}

/// A selection points at a match.
pub open spec fn cursor_wf(v: CursorView) -> bool {
    v.current matches Some(c) ==> c < v.matches
}

/// The cursor after moving to `target`: the match is selected where it
/// exists, and the selection stays as it was otherwise.
pub open spec fn moved_to(v: CursorView, target: nat) -> CursorView {
    if target < v.matches {
        CursorView { matches: v.matches, current: Some(target) }
    } else {
        v
    }
}

/// The cursor after "next match".
pub open spec fn after_next(v: CursorView) -> CursorView {
    moved_to(v, next_target(v.matches, v.current))
}

/// The cursor after "previous match".
pub open spec fn after_prev(v: CursorView) -> CursorView {
    moved_to(v, prev_target(v.matches, v.current))
}

/// The text of the label that counts the matches: empty for none.
pub open spec fn search_label_text(n: nat) -> Seq<char> {
    if n == 0 { Seq::<char>::empty() } else { decimal(n) + " matches"@ }
}

impl SearchCursor {
    /// What the cursor holds.
    pub closed spec fn view(&self) -> CursorView {
        CursorView {
            matches: self.matches as nat,
            current: match self.current {
                Some(c) => Some(c as nat),
                None => None,
            },
        }
    }

    /// No matches, none selected.
    pub fn new() -> (s: Self)
        ensures
            s.view() == (CursorView { matches: 0, current: None }),
    {
        SearchCursor { matches: 0, current: None }
    }

    /// Forgets all matches and the selection.
    pub fn clear(&mut self)
        ensures
            final(self).view() == (CursorView { matches: 0, current: None }),
    {
        self.matches = 0;
        self.current = None;
    }

    /// Takes note of one more match.
    pub fn add_match(&mut self)
        requires
            old(self).view().matches < usize::MAX,
        ensures
            final(self).view() == (CursorView { matches: old(self).view().matches + 1, current: old(self).view().current }),
    {
        self.matches = self.matches + 1;
    }

    /// How many matches there are.
    pub fn matches(&self) -> (n: usize)
        ensures
            n == self.view().matches,
    {
        self.matches
    }

    /// The selected match.
    pub fn current(&self) -> (c: Option<usize>)
        ensures
            self.view().current == (match c {
                Some(x) => Some(x as nat),
                None => None,
            }),
    {
        self.current
    }

    /// Moves to `target` where it is a match; returns the match selected.
    fn move_to(&mut self, target: usize) -> (r: Option<usize>)
        ensures
            final(self).view() == moved_to(old(self).view(), target as nat),
            r == (if target < old(self).view().matches { Some(target) } else { None }),
    {
        if target < self.matches {
            self.current = Some(target);
            Some(target)
        } else {
            None
        }
    }

    /// Selects the next match, wrapping to the first; returns the match that
    /// was selected, or `None` where there is none to select.
    pub fn select_next(&mut self) -> (r: Option<usize>)
        requires
            cursor_wf(old(self).view()),
        ensures
            cursor_wf(final(self).view()),
            final(self).view() == after_next(old(self).view()),
            r == (if old(self).view().matches > 0 { Some(next_target(old(self).view().matches, old(self).view().current) as usize) } else { None }),
    {
        let target = match self.current {
            Some(c) => if c == self.matches - 1 { 0 } else { c + 1 },
            None => 0,
        };
        self.move_to(target)
    }

    /// Selects the previous match, wrapping to the last; returns the match
    /// that was selected, or `None` where there is none to select.
    pub fn select_prev(&mut self) -> (r: Option<usize>)
        requires
            cursor_wf(old(self).view()),
        ensures
            cursor_wf(final(self).view()),
            final(self).view() == after_prev(old(self).view()),
            r == (if old(self).view().matches > 0 { Some(prev_target(old(self).view().matches, old(self).view().current) as usize) } else { None }),
    {
        let target = match self.current {
            Some(c) => if c == 0 { self.matches - 1 } else { c - 1 },
            None => if self.matches > 0 { self.matches - 1 } else { 0 },
        };
        self.move_to(target)
    }
}

/// "Previous match" undoes "next match", and "next match" undoes "previous
/// match", once a match is selected.
pub proof fn lemma_next_prev_undo(v: CursorView)
    requires
        cursor_wf(v),
        v.current is Some,
    ensures
        after_prev(after_next(v)) == v,
        after_next(after_prev(v)) == v,
{
}

/// With no match selected, "next match" selects the first and "previous
/// match" the last, where there are matches.
pub proof fn lemma_first_selection(v: CursorView)
    requires
        v.current is None,
        v.matches > 0,
    ensures
        after_next(v).current == Some(0nat),
        after_prev(v).current == Some((v.matches - 1) as nat),
{
}

/// "Next match" from a selection moves one step round the ring of matches.
pub proof fn lemma_next_is_successor(v: CursorView)
    requires
        cursor_wf(v),
        v.current is Some,
    ensures
        after_next(v).current == Some(((v.current.unwrap() + 1) as nat) % v.matches),
{
    let c = v.current.unwrap();
    let n = v.matches;
    let s = (c + 1) as nat;
    if s < n {
        assert(s % n == s) by (nonlinear_arith)
            requires s < n;
    } else {
        assert(s % n == 0) by (nonlinear_arith)
            requires s == n, n > 0;
    }
}

/// The label that counts the search matches.
pub fn search_label(n: usize) -> (s: String)
    ensures
        s@ == search_label_text(n as nat),
{
    if n == 0 {
        String::new()
    } else {
        let mut s = decimal_string(n);
        s.append(" matches");
        s
    }
}

/// The position "next" or "previous" moves to among `len` positions of an
/// extracted group: one step, wrapping round at either end.
pub open spec fn step_pos(len: nat, pos: nat, forward: bool) -> nat {
    if forward {
        if pos == len - 1 { 0 } else { (pos + 1) as nat }
    } else {
        if pos > 0 { (pos - 1) as nat } else { (len - 1) as nat }
    }
}

/// Steps from `pos` among `len` positions, wrapping round.
pub fn get_next_pos(len: usize, pos: usize, forward: bool) -> (next: usize)
    requires
        len > 0 || (!forward && pos > 0),
        forward && pos != len - 1 ==> pos < usize::MAX,
    ensures
        next == step_pos(len as nat, pos as nat, forward),
{
    if forward {
        if pos == len - 1 { 0 } else { pos + 1 }
    } else {
        if pos > 0 { pos - 1 } else { len - 1 }
    }
}

} // verus!
