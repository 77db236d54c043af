use vstd::prelude::*;

verus! {

/// Whether `regex::Regex::new` accepts `pattern`.
pub uninterp spec fn spec_regex_valid(pattern: Seq<char>) -> bool;

/// Whether the regular expression `pattern` matches somewhere in `text`,
/// as `regex::Regex::is_match` tells.
pub uninterp spec fn spec_regex_is_match(pattern: Seq<char>, text: Seq<char>) -> bool;

/// Where the regular expression `pattern` matches in `text`, as the start and
/// end byte offsets that `regex::Regex::find_iter` yields, in order.
pub uninterp spec fn spec_regex_find_spans(pattern: Seq<char>, text: Seq<char>) -> Seq<(usize, usize)>;

/// Compiles `pattern` with `regex::Regex::new` and tells whether that
/// succeeded. The result depends on the pattern alone.
#[verifier::external_body]
pub(crate) fn regex_is_valid(pattern: &str) -> (r: bool)
    ensures
        r == spec_regex_valid(pattern@),
{
    regex::Regex::new(pattern).is_ok()
}

/// Compiles the valid `pattern` and asks `regex::Regex::is_match` whether it
/// matches somewhere in `text`. The result depends on the two strings alone.
#[verifier::external_body]
pub(crate) fn regex_is_match(pattern: &str, text: &str) -> (r: bool)
    requires
        spec_regex_valid(pattern@),
    ensures
        r == spec_regex_is_match(pattern@, text@),
{
    match regex::Regex::new(pattern) {
        Ok(re) => re.is_match(text),
        Err(_) => false,
    }
}

/// Compiles the valid `pattern` and lists the start and end offsets of the
/// matches that `regex::Regex::find_iter` yields in `text`. The result
/// depends on the two strings alone. As `find_iter` documents, the matches
/// are successive and do not overlap: each lies within the text's UTF-8
/// bytes, and each ends at or before the next one starts.
#[verifier::external_body]
pub(crate) fn regex_find_spans(pattern: &str, text: &str) -> (r: Vec<(usize, usize)>)
    requires
        spec_regex_valid(pattern@),
    ensures
        r@ == spec_regex_find_spans(pattern@, text@),
        forall|k: int| 0 <= k < r@.len() ==> (#[trigger] r@[k]).0 <= r@[k].1 <= vstd::utf8::encode_utf8(text@).len(),
        forall|k1: int, k2: int| 0 <= k1 < k2 < r@.len() ==> (#[trigger] r@[k1]).1 <= (#[trigger] r@[k2]).0,
{
    match regex::Regex::new(pattern) {
        Ok(re) => re.find_iter(text).map(|m| (m.start(), m.end())).collect(),
        Err(_) => Vec::new(),
    }
}

/// A pattern as a running search keeps it: only when it compiles.
pub open spec fn compiled_view(p: Option<Seq<char>>) -> Option<Seq<char>> {
    match p {
        Some(s) => if spec_regex_valid(s) { Some(s) } else { None },
        None => None,
    }
}

/// Keeps `pattern` when it compiles, as `Regex::new(..).ok()` does.
pub fn compile_pattern(pattern: &Option<String>) -> (r: Option<String>)
    ensures
        crate::text::opt_view(r) == compiled_view(crate::text::opt_view(*pattern)),
{
    match pattern {
        Some(p) => {
            if regex_is_valid(p.as_str()) {
                Some(p.clone())
            } else {
                None
            }
        },
        None => None,
    }
}

} // verus!
