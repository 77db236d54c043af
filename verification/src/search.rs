use vstd::prelude::*;
use crate::log_worker::LogData;
use crate::regex_ops::{regex_is_match, regex_is_valid, spec_regex_is_match, spec_regex_valid};
use crate::text::{chars_of, split_on, split_str, string_of, views};

verus! {

/// A named pattern that every incoming log chunk is checked against.
pub struct SearchData {
    name: String,
    search: String,
}

impl SearchData {
    /// The name the matches are tagged with.
    pub closed spec fn name_view(&self) -> Seq<char> {
        self.name@
    }

    /// The pattern.
    pub closed spec fn pattern_view(&self) -> Seq<char> {
        self.search@
    }

    /// The pattern compiles.
    pub closed spec fn wf(&self) -> bool {
        spec_regex_valid(self.search@)
    }

    /// A search for `pattern` tagged `name`, when the pattern compiles.
    pub fn new(name: String, pattern: String) -> (r: Option<Self>)
        ensures
            r is Some == spec_regex_valid(pattern@),
            r matches Some(d) ==> d.wf() && d.name_view() == name@ && d.pattern_view() == pattern@,
    {
        if regex_is_valid(pattern.as_str()) {
            Some(SearchData { name, search: pattern })
        } else {
            None
        }
    }

    /// The name the matches are tagged with.
    pub fn name(&self) -> (n: &str)
        ensures
            n@ == self.name_view(),
    {
        self.name.as_str()
    }

    /// Whether the pattern matches somewhere in `text`.
    pub fn is_match(&self, text: &str) -> (b: bool)
        requires
            self.wf(),
        ensures
            b == spec_regex_is_match(self.pattern_view(), text@),
    {
        regex_is_match(self.search.as_str(), text)
    }

    /// A copy of this search.
    pub fn copy(&self) -> (r: Self)
        ensures
            r.name_view() == self.name_view(),
            r.pattern_view() == self.pattern_view(),
            r.wf() == self.wf(),
    {
        SearchData { name: self.name.clone(), search: self.search.clone() }
    }
}

/// The names of the searches that match `text`, in order.
pub open spec fn matching_names(searches: Seq<SearchData>, text: Seq<char>) -> Seq<Seq<char>>
    decreases searches.len(),
{
    if searches.len() == 0 {
        Seq::empty()
    } else {
        let rest = matching_names(searches.drop_last(), text);
        if spec_regex_is_match(searches.last().pattern_view(), text) {
            rest.push(searches.last().name_view())
        } else {
            rest
        }
    }
}

/// The searches built from `(name, pattern)` pairs: those whose pattern
/// compiles, in order.
pub open spec fn valid_searches(pairs: Seq<(Seq<char>, Seq<char>)>) -> Seq<(Seq<char>, Seq<char>)> {
    pairs.filter(|p: (Seq<char>, Seq<char>)| spec_regex_valid(p.1))
}

/// The names and patterns of searches.
pub open spec fn searches_view(s: Seq<SearchData>) -> Seq<(Seq<char>, Seq<char>)> {
    s.map_values(|d: SearchData| (d.name_view(), d.pattern_view()))
}

/// Builds the searches for the configured highlighters, skipping those
/// whose pattern does not compile.
pub fn searches_from(names: &Vec<String>, patterns: &Vec<String>) -> (r: Vec<SearchData>)
    requires
        names.len() == patterns.len(),
    ensures
        forall|k: int| 0 <= k < r.len() ==> (#[trigger] r@[k]).wf(),
        searches_view(r@) == valid_searches(views(names@).zip_with(views(patterns@))),
{
    let ghost pairs = views(names@).zip_with(views(patterns@));
    let mut r: Vec<SearchData> = Vec::new();
    let mut i: usize = 0;
    while i < names.len()
        invariant
            i <= names.len(),
            names.len() == patterns.len(),
            pairs == views(names@).zip_with(views(patterns@)),
            forall|k: int| 0 <= k < r.len() ==> (#[trigger] r@[k]).wf(),
            searches_view(r@) == valid_searches(pairs.take(i as int)),
        decreases names.len() - i,
    {
        let ghost before = r@;
        assert(pairs.take(i + 1).drop_last() =~= pairs.take(i as int));
        assert(pairs.take(i + 1).last() == (names@[i as int]@, patterns@[i as int]@));
        proof {
            reveal(Seq::filter);
        }
        match SearchData::new(names[i].clone(), patterns[i].clone()) {
            Some(d) => {
                r.push(d);
                assert(searches_view(r@) =~= searches_view(before).push((d.name_view(), d.pattern_view())));
            },
            None => {},
        }
        i = i + 1;
    }
    assert(pairs.take(names.len() as int) =~= pairs);
    r
}

/// Which highlighters matched one chunk of log data.
pub struct HighlightResultData {
    pub text_marker_id: String,
    pub timestamp: i64,
    pub matching_highlighters: Vec<String>,
}

/// Checks one chunk of log data against every search; the result carries
/// the chunk's time and the marker of the line it was written to.
pub fn process_highlighters(searches: &Vec<SearchData>, data: &LogData, text_marker_id: String) -> (res: HighlightResultData)
    requires
        forall|k: int| 0 <= k < searches.len() ==> (#[trigger] searches@[k]).wf(),
    ensures
        res.text_marker_id@ == text_marker_id@,
        res.timestamp == data.timestamp,
        views(res.matching_highlighters@) == matching_names(searches@, data.text@),
{
    let mut names: Vec<String> = Vec::new();
    let mut i: usize = 0;
    while i < searches.len()
        invariant
            i <= searches.len(),
            forall|k: int| 0 <= k < searches.len() ==> (#[trigger] searches@[k]).wf(),
            views(names@) == matching_names(searches@.take(i as int), data.text@),
        decreases searches.len() - i,
    {
        assert(searches@.take(i + 1).drop_last() =~= searches@.take(i as int));
        assert(searches@.take(i + 1).last() == searches@[i as int]);
        if searches[i].is_match(data.text.as_str()) {
            let ghost before = names@;
            let n = searches[i].name().to_owned();
            names.push(n);
            assert(views(names@) =~= views(before).push(n@));
        }
        i = i + 1;
    }
    assert(searches@.take(searches.len() as int) =~= searches@);
    HighlightResultData { text_marker_id, timestamp: data.timestamp, matching_highlighters: names }
}

/// The pattern of a free-text search: none for an empty query, else the
/// query matched without regard to case, when that compiles.
pub open spec fn search_pattern_of(query: Seq<char>) -> Option<Seq<char>> {
    if query.len() == 0 {
        None
    } else {
        let p = seq!['(', '?', 'i', ')'] + query;
        if spec_regex_valid(p) { Some(p) } else { None }
    }
}

/// The pattern for a free-text search.
pub fn search_pattern(query: &str) -> (r: Option<String>)
    ensures
        crate::text::opt_view(r) == search_pattern_of(query@),
{
    if query.is_empty() {
        return None;
    }
    let mut p = String::new();
    p.push('(');
    p.push('?');
    p.push('i');
    p.push(')');
    p.append(query);
    assert(p@ =~= seq!['(', '?', 'i', ')'] + query@);
    if regex_is_valid(p.as_str()) {
        Some(p)
    } else {
        None
    }
}

/// `line` without one trailing carriage return.
pub open spec fn strip_cr(line: Seq<char>) -> Seq<char> {
    if line.len() > 0 && line.last() == '\r' { line.drop_last() } else { line }
}

/// The lines of `text` as `str::lines` yields them: split at `\n`, a `\r`
/// right before a `\n` dropped, and no empty line after a final `\n`.
pub open spec fn std_lines(text: Seq<char>) -> Seq<Seq<char>> {
    let pieces = split_on(text, '\n');
    let n = if pieces.last().len() == 0 { pieces.len() - 1 } else { pieces.len() as int };
    Seq::new(n as nat, |k: int| if k < pieces.len() - 1 { strip_cr(pieces[k]) } else { pieces[k] })
}

/// The lines the text view shows for `text`: its lines, each split again
/// at every remaining `\r`.
pub open spec fn view_lines(text: Seq<char>) -> Seq<Seq<char>> {
    std_lines(text).map_values(|l: Seq<char>| split_on(l, '\r')).flatten()
}

/// The positions of the lines of `lines` that `pattern` matches.
pub open spec fn matching_lines(pattern: Seq<char>, lines: Seq<Seq<char>>) -> Seq<usize>
    decreases lines.len(),
{
    if lines.len() == 0 {
        Seq::empty()
    } else {
        let rest = matching_lines(pattern, lines.drop_last());
        if spec_regex_is_match(pattern, lines.last()) {
            rest.push((lines.len() - 1) as usize)
        } else {
            rest
        }
    }
}

/// `s` without its last character.
fn drop_last_char(s: &str) -> (r: String)
    requires
        s@.len() > 0,
    ensures
        r@ == s@.drop_last(),
{
    let c = chars_of(s);
    let mut r = String::new();
    let mut i: usize = 0;
    while i + 1 < c.len()
        invariant
            c@ == s@,
            c@.len() > 0,
            i + 1 <= c.len(),
            r@ == c@.take(i as int),
        decreases c.len() - i,
    {
        r.push(c[i]);
        i = i + 1;
        assert(r@ =~= c@.take(i as int));
    }
    assert(c@.take(i as int) =~= s@.drop_last());
    r
}

/// The lines of `text`, as `str::lines` yields them.
pub fn lines_of(text: &str) -> (lines: Vec<String>)
    ensures
        views(lines@) == std_lines(text@),
{
    let pieces = split_str(text, '\n');
    proof {
        crate::text::lemma_split_on_nonempty(text@, '\n');
    }
    let ghost pv = views(pieces@);
    let last_empty = pieces[pieces.len() - 1].as_str().is_empty();
    let n = if last_empty { pieces.len() - 1 } else { pieces.len() };
    let mut lines: Vec<String> = Vec::new();
    let mut k: usize = 0;
    while k < n
        invariant
            k <= n,
            n <= pieces.len(),
            pv == views(pieces@),
            pv == split_on(text@, '\n'),
            n == (if pv.last().len() == 0 { pv.len() - 1 } else { pv.len() as int }),
            views(lines@) =~= std_lines(text@).take(k as int),
        decreases n - k,
    {
        let piece = &pieces[k];
        let ghost expect = if k < pv.len() - 1 { strip_cr(pv[k as int]) } else { pv[k as int] };
        let line = if k + 1 < pieces.len() {
            let c = chars_of(piece.as_str());
            if c.len() > 0 && c[c.len() - 1] == '\r' {
                drop_last_char(piece.as_str())
            } else {
                piece.clone()
            }
        } else {
            piece.clone()
        };
        assert(line@ == expect);
        let ghost before = lines@;
        lines.push(line);
        assert(views(lines@) =~= views(before).push(line@));
        k = k + 1;
    }
    lines
}

proof fn lemma_flatten_prefix_len(s: Seq<Seq<Seq<char>>>, n: int)
    requires
        0 <= n <= s.len(),
    ensures
        s.take(n).flatten().len() <= s.flatten().len(),
    decreases s.len() - n,
{
    if n < s.len() {
        lemma_flatten_prefix_len(s, n + 1);
        assert(s.take(n + 1) =~= s.take(n).push(s[n]));
        s.take(n).lemma_flatten_push(s[n]);
    } else {
        assert(s.take(n) =~= s);
    }
}

/// The positions of the lines the text view shows for `text` that the
/// pattern matches, counting every line.
pub fn search_lines(pattern: &str, text: &str) -> (found: Vec<usize>)
    requires
        spec_regex_valid(pattern@),
        view_lines(text@).len() <= usize::MAX,
    ensures
        found@ == matching_lines(pattern@, view_lines(text@)),
{
    let lines = lines_of(text);
    let ghost all = view_lines(text@);
    let ghost nested = std_lines(text@).map_values(|l: Seq<char>| split_on(l, '\r'));
    let mut found: Vec<usize> = Vec::new();
    let mut idx: usize = 0;
    let mut i: usize = 0;
    while i < lines.len()
        invariant
            i <= lines.len(),
            views(lines@) == std_lines(text@),
            spec_regex_valid(pattern@),
            nested == std_lines(text@).map_values(|l: Seq<char>| split_on(l, '\r')),
            idx == nested.take(i as int).flatten().len(),
            nested.flatten().len() <= usize::MAX,
            found@ == matching_lines(pattern@, nested.take(i as int).flatten()),
        decreases lines.len() - i,
    {
        let subs = split_str(lines[i].as_str(), '\r');
        let ghost base = nested.take(i as int).flatten();
        assert(nested[i as int] == views(subs@));
        assert(nested.take(i + 1) =~= nested.take(i as int).push(views(subs@)));
        proof {
            nested.take(i as int).lemma_flatten_push(views(subs@));
            lemma_flatten_prefix_len(nested, i + 1);
        }
        let mut j: usize = 0;
        while j < subs.len()
            invariant
                j <= subs.len(),
                spec_regex_valid(pattern@),
                idx == base.len() + j,
                base.len() + subs@.len() <= usize::MAX,
                found@ == matching_lines(pattern@, base + views(subs@).take(j as int)),
            decreases subs.len() - j,
        {
            let ghost cur = base + views(subs@).take(j as int);
            let ghost next = base + views(subs@).take(j + 1);
            assert(next.drop_last() =~= cur);
            assert(next.last() == subs@[j as int]@);
            if regex_is_match(pattern, subs[j].as_str()) {
                found.push(idx);
            }
            idx = idx + 1;
            j = j + 1;
        }
        assert(views(subs@).take(subs.len() as int) =~= views(subs@));
        i = i + 1;
    }
    assert(nested.take(lines.len() as int) =~= nested);
    found
}

/// The number of lines the text view shows for `text`, where it fits in a
/// `usize`.
pub fn view_line_count(text: &str) -> (r: Option<usize>)
    ensures
        match r {
            Some(n) => n == view_lines(text@).len(),
            None => view_lines(text@).len() > usize::MAX,
        },
{
    let lines = lines_of(text);
    let ghost nested = std_lines(text@).map_values(|l: Seq<char>| split_on(l, '\r'));
    let mut count: usize = 0;
    let mut i: usize = 0;
    while i < lines.len()
        invariant
            i <= lines.len(),
            views(lines@) == std_lines(text@),
            nested == std_lines(text@).map_values(|l: Seq<char>| split_on(l, '\r')),
            count == nested.take(i as int).flatten().len(),
        decreases lines.len() - i,
    {
        let subs = split_str(lines[i].as_str(), '\r');
        assert(nested[i as int] == views(subs@));
        assert(nested.take(i + 1) =~= nested.take(i as int).push(views(subs@)));
        proof {
            nested.take(i as int).lemma_flatten_push(views(subs@));
        }
        match count.checked_add(subs.len()) {
            Some(c) => {
                count = c;
            },
            None => {
                proof {
                    lemma_flatten_prefix_len(nested, i + 1);
                }
                return None;
            },
        }
        i = i + 1;
    }
    assert(nested.take(lines.len() as int) =~= nested);
    Some(count)
}

/// The positions of the lines the text view shows for `text` that
/// `pattern` matches; `None` where the pattern does not compile or the
/// lines cannot be counted.
pub fn try_search_lines(pattern: &str, text: &str) -> (r: Option<Vec<usize>>)
    ensures
        r is Some == (spec_regex_valid(pattern@) && view_lines(text@).len() <= usize::MAX),
        r matches Some(found) ==> found@ == matching_lines(pattern@, view_lines(text@)),
{
    if !regex_is_valid(pattern) {
        return None;
    }
    match view_line_count(text) {
        Some(_) => Some(search_lines(pattern, text)),
        None => None,
    }
}

} // verus!
