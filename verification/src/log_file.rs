use vstd::prelude::*;
use encoding::Encoding;
use crate::model::LogState;
use crate::regex_ops::{regex_find_spans, regex_is_valid, spec_regex_find_spans, spec_regex_valid};
use crate::text::{opt_view, split_on, split_str, views};

verus! {

/// What a followed log file tells on a check: where it is gone or empty the
/// check is skipped; where it shrank below what was read it is read again
/// from the start; else reading goes on. `len` is the file's length, where
/// its metadata could be read.
pub open spec fn file_check(exists: bool, len: Option<u64>, offset: u64) -> LogState {
    if !exists {
        LogState::Skip
    } else {
        match len {
            Some(l) => if l == 0 {
                LogState::Skip
            } else if l < offset {
                LogState::Reload
            } else {
                LogState::Proceed
            },
            None => LogState::Proceed,
        }
    }
}

/// How far a followed log file has been read, and whether the file must be
/// read again from its first byte.
pub struct LogFileState {
    offset: u64,
    rewind: bool,
}

impl LogFileState {
    /// The number of bytes read so far.
    pub closed spec fn offset_view(&self) -> u64 {
        self.offset
    }

    /// The file started over and nothing of it has been read since.
    pub closed spec fn rewind_view(&self) -> bool {
        self.rewind
    }

    /// Nothing read yet.
    pub fn new() -> (s: Self)
        ensures
            s.offset_view() == 0,
            !s.rewind_view(),
    {
        LogFileState { offset: 0, rewind: false }
    }

    /// The number of bytes read so far.
    pub fn offset(&self) -> (o: u64)
        ensures
            o == self.offset_view(),
    {
        self.offset
    }

    /// Checks the file's state; where it shrank, reading starts over from
    /// the first byte.
    pub fn check_changes(&mut self, exists: bool, len: Option<u64>) -> (r: LogState)
        ensures
            r == file_check(exists, len, old(self).offset_view()),
            final(self).offset_view() == (if r == LogState::Reload { 0 } else { old(self).offset_view() }),
            final(self).rewind_view() == (r == LogState::Reload || old(self).rewind_view()),
    {
        if !exists {
            return LogState::Skip;
        }
        match len {
            Some(l) => {
                if l == 0 {
                    return LogState::Skip;
                }
                if l < self.offset {
                    self.offset = 0;
                    self.rewind = true;
                    return LogState::Reload;
                }
                LogState::Proceed
            },
            None => LogState::Proceed,
        }
    }

    /// Where to seek before the next read: to what was read so far; to the
    /// first byte after the file started over; nowhere before anything of
    /// it has been read.
    pub fn seek_offset(&self) -> (r: Option<u64>)
        ensures
            r == (if self.offset_view() > 0 {
                Some(self.offset_view())
            } else if self.rewind_view() {
                Some(0u64)
            } else {
                None
            }),
    {
        if self.offset > 0 {
            Some(self.offset)
        } else if self.rewind {
            Some(0)
        } else {
            None
        }
    }

    /// Takes note of `n` more bytes read, from where `seek_offset` pointed.
    pub fn record_read(&mut self, n: u64)
        requires
            old(self).offset_view() + n <= u64::MAX,
        ensures
            final(self).offset_view() == old(self).offset_view() + n,
            !final(self).rewind_view(),
    {
        self.offset = self.offset + n;
        self.rewind = false;
    }
}

/// The lines counted so far by a file watcher, so that the matches of each
/// new chunk are numbered on from them.
pub struct FileWatcher {
    line_offset: u64,
}

/// What a watcher does after a check: read on, or not, and whether the view
/// is cleared first.
#[derive(Clone, Copy, Debug, PartialEq, Eq, Structural)]
pub enum WatchAction {
    Read,
    Wait,
    ClearAndWait,
}

impl FileWatcher {
    /// The lines counted so far.
    pub closed spec fn line_offset_view(&self) -> u64 {
        self.line_offset
    }

    /// No lines counted yet.
    pub fn new() -> (w: Self)
        ensures
            w.line_offset_view() == 0,
    {
        FileWatcher { line_offset: 0 }
    }

    /// The lines counted so far.
    pub fn line_offset(&self) -> (o: u64)
        ensures
            o == self.line_offset_view(),
    {
        self.line_offset
    }

    /// Decides on the outcome of a check: where the source starts over the
    /// count does too and the view is cleared.
    pub fn on_check(&mut self, state: LogState) -> (a: WatchAction)
        ensures
            a == (match state {
                LogState::Proceed => WatchAction::Read,
                LogState::Skip => WatchAction::Wait,
                LogState::Reload => WatchAction::ClearAndWait,
            }),
            final(self).line_offset_view() == (if state == LogState::Reload { 0 } else { old(self).line_offset_view() }),
    {
        match state {
            LogState::Proceed => WatchAction::Read,
            LogState::Skip => WatchAction::Wait,
            LogState::Reload => {
                self.line_offset = 0;
                WatchAction::ClearAndWait
            },
        }
    }

    /// Takes note of `lines` more lines searched.
    pub fn on_searched(&mut self, lines: u64)
        requires
            old(self).line_offset_view() + lines <= u64::MAX,
        ensures
            final(self).line_offset_view() == old(self).line_offset_view() + lines,
    {
        self.line_offset = self.line_offset + lines;
    }
}

/// What decoding `bytes` as UTF-16LE with replacement of bad sequences
/// gives, as `encoding::all::UTF_16LE.decode(.., DecoderTrap::Replace)`
/// returns it; `None` for an error.
pub uninterp spec fn spec_utf16le_decoded(bytes: Seq<u8>) -> Option<Seq<char>>;

/// Decodes `bytes` as UTF-16LE, replacing bad sequences, with the
/// `encoding` crate. The result depends on the bytes alone.
#[verifier::external_body]
pub(crate) fn decode_utf16le(bytes: &[u8]) -> (r: Option<String>)
    ensures
        opt_view(r) == spec_utf16le_decoded(bytes@),
{
    encoding::all::UTF_16LE.decode(bytes, encoding::DecoderTrap::Replace).ok()
}

/// A chunk read from a followed file: how many bytes, and their text.
pub struct FileChunk {
    pub read: u64,
    pub text: String,
}

/// Decodes the bytes read from a followed file and takes note of how many
/// were read; `None` where they do not decode.
pub fn read_chunk(state: &mut LogFileState, bytes: &[u8]) -> (r: Option<FileChunk>)
    requires
        old(state).offset_view() + bytes@.len() <= u64::MAX,
    ensures
        match spec_utf16le_decoded(bytes@) {
            Some(t) => r matches Some(c) && c.read == bytes@.len() && c.text@ == t
                && final(state).offset_view() == old(state).offset_view() + bytes@.len()
                && !final(state).rewind_view(),
            None => r is None && final(state).offset_view() == old(state).offset_view()
                && final(state).rewind_view() == old(state).rewind_view(),
        },
{
    match decode_utf16le(bytes) {
        Some(text) => {
            let n = bytes.len() as u64;
            state.record_read(n);
            Some(FileChunk { read: n, text })
        },
        None => None,
    }
}

/// The matches of `pattern` in `lines`, each as its line number and its
/// start and end within the line.
pub open spec fn line_matches(pattern: Seq<char>, lines: Seq<Seq<char>>) -> Seq<(nat, usize, usize)>
    decreases lines.len(),
{
    if lines.len() == 0 {
        Seq::empty()
    } else {
        let n = (lines.len() - 1) as nat;
        line_matches(pattern, lines.drop_last())
            + spec_regex_find_spans(pattern, lines.last()).map_values(|p: (usize, usize)| (n, p.0, p.1))
    }
}

/// Matches come line by line and, within a line, one after the other
/// without overlap.
pub open spec fn matches_ordered(v: Seq<(usize, usize, usize)>) -> bool {
    forall|k1: int, k2: int| 0 <= k1 < k2 < v.len() ==>
        (#[trigger] v[k1]).0 < (#[trigger] v[k2]).0 || (v[k1].0 == v[k2].0 && v[k1].2 <= v[k2].1)
}

/// Each match lies within the UTF-8 bytes of its line of `lines`.
pub open spec fn matches_within(v: Seq<(usize, usize, usize)>, lines: Seq<Seq<char>>) -> bool {
    forall|k: int| 0 <= k < v.len() ==> (#[trigger] v[k]).0 < lines.len()
        && v[k].1 <= v[k].2 <= vstd::utf8::encode_utf8(lines[v[k].0 as int]).len()
}

/// The matches of `pattern` in the lines of `text`; `None` where the pattern
/// does not compile. They come ordered by line, then by start, and each
/// lies within its line.
pub fn search_text(text: &str, pattern: &str) -> (r: Option<Vec<(usize, usize, usize)>>)
    ensures
        r is None == !spec_regex_valid(pattern@),
        r matches Some(v) ==> v@.map_values(|m: (usize, usize, usize)| (m.0 as nat, m.1, m.2))
            == line_matches(pattern@, split_on(text@, '\n')),
        r matches Some(v) ==> matches_ordered(v@) && matches_within(v@, split_on(text@, '\n')),
{
    if !regex_is_valid(pattern) {
        return None;
    }
    let lines = split_str(text, '\n');
    let ghost lv = views(lines@);
    let mut out: Vec<(usize, usize, usize)> = Vec::new();
    let mut n: usize = 0;
    while n < lines.len()
        invariant
            n <= lines.len(),
            lv == views(lines@),
            spec_regex_valid(pattern@),
            out@.map_values(|m: (usize, usize, usize)| (m.0 as nat, m.1, m.2)) == line_matches(pattern@, lv.take(n as int)),
            matches_ordered(out@),
            matches_within(out@, lv),
            forall|q: int| 0 <= q < out@.len() ==> (#[trigger] out@[q]).0 < n,
        decreases lines.len() - n,
    {
        let spans = regex_find_spans(pattern, lines[n].as_str());
        let ghost before = out@;
        let mut k: usize = 0;
        while k < spans.len()
            invariant
                k <= spans.len(),
                n < lines.len(),
                lv == views(lines@),
                lines@[n as int]@ == lv[n as int],
                out@ == before + spans@.take(k as int).map_values(|p: (usize, usize)| (n, p.0, p.1)),
                forall|q: int| 0 <= q < before.len() ==> (#[trigger] before[q]).0 < n,
                matches_ordered(before),
                matches_within(before, lv),
                forall|q: int| 0 <= q < spans@.len() ==> (#[trigger] spans@[q]).0 <= spans@[q].1
                    <= vstd::utf8::encode_utf8(lines@[n as int]@).len(),
                forall|q1: int, q2: int| 0 <= q1 < q2 < spans@.len() ==> (#[trigger] spans@[q1]).1 <= (#[trigger] spans@[q2]).0,
                matches_ordered(out@),
                matches_within(out@, lv),
                forall|q: int| 0 <= q < out@.len() ==> (#[trigger] out@[q]).0 <= n,
            decreases spans.len() - k,
        {
            let ghost prev = out@;
            out.push((n, spans[k].0, spans[k].1));
            k = k + 1;
            assert(out@ =~= before + spans@.take(k as int).map_values(|p: (usize, usize)| (n, p.0, p.1)));
            proof {
                let b = before.len() as int;
                assert forall|q: int| b <= q < out@.len() implies #[trigger] out@[q] == (n, spans@[q - b].0, spans@[q - b].1) by {
                    assert(out@[q] == spans@.take(k as int).map_values(|p: (usize, usize)| (n, p.0, p.1))[q - b]);
                }
                assert forall|q: int| 0 <= q < b implies #[trigger] out@[q] == before[q] by {}
                assert forall|k1: int, k2: int| 0 <= k1 < k2 < out@.len() implies
                    (#[trigger] out@[k1]).0 < (#[trigger] out@[k2]).0 || (out@[k1].0 == out@[k2].0 && out@[k1].2 <= out@[k2].1) by {
                    if k2 < b {
                        assert(before[k1] == out@[k1] && before[k2] == out@[k2]);
                    } else if k1 < b {
                        assert(before[k1] == out@[k1]);
                        assert(before[k1].0 < n);
                    } else {
                        assert(spans@[k1 - b].1 <= spans@[k2 - b].0);
                    }
                }
                assert forall|q: int| 0 <= q < out@.len() implies (#[trigger] out@[q]).0 < lv.len()
                    && out@[q].1 <= out@[q].2 <= vstd::utf8::encode_utf8(lv[out@[q].0 as int]).len() by {
                    if q < b {
                        assert(before[q] == out@[q]);
                    } else {
                        let sp = spans@[q - b];
                        assert(sp.0 <= sp.1 <= vstd::utf8::encode_utf8(lines@[n as int]@).len());
                    }
                }
                assert forall|q: int| 0 <= q < out@.len() implies (#[trigger] out@[q]).0 <= n by {
                    if q < b {
                        assert(before[q] == out@[q]);
                    }
                }
            }
        }
        assert(spans@.take(spans.len() as int) =~= spans@);
        proof {
            let t1 = lv.take(n + 1);
            assert(t1.drop_last() =~= lv.take(n as int));
            assert(t1.last() == lines@[n as int]@);
            let f = |m: (usize, usize, usize)| (m.0 as nat, m.1, m.2);
            assert(out@.map_values(f) =~= before.map_values(f)
                + spec_regex_find_spans(pattern@, t1.last()).map_values(|p: (usize, usize)| (n as nat, p.0, p.1)));
        }
        n = n + 1;
        assert forall|q: int| 0 <= q < out@.len() implies (#[trigger] out@[q]).0 < n by {}
    }
    assert(lv.take(lines.len() as int) =~= lv);
    Some(out)
}

} // verus!

verus! {

/// A followed file starts over only when it shrank below what was read:
/// the check answers `Reload` exactly for a file that is there, not empty
/// and shorter than the bytes read so far. A file that is as long as what
/// was read, or longer, is read on.
pub proof fn lemma_reload_only_when_shrunk(exists: bool, len: Option<u64>, offset: u64)
    ensures
        (file_check(exists, len, offset) == LogState::Reload) <==> (exists && (len matches Some(l) && 0 < l < offset)),
        forall|l: u64| exists && len == Some(l) && l > 0 && l >= offset ==> file_check(exists, len, offset) == LogState::Proceed,
        !exists ==> file_check(exists, len, offset) == LogState::Skip,
{
}

} // verus!
