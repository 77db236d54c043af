use vstd::prelude::*;
use vstd::utf8::{decode_utf8, valid_utf8};
use crate::log_worker::LogData;
use crate::pods::PodViewData;
use crate::regex_ops::{spec_regex_valid, regex_is_valid};
use crate::text::{split_on, views};

verus! {

/// The capture groups of the first match of the regular expression
/// `pattern` in `text`, as `regex::Regex::captures` gives them (the whole
/// match first); `None` where it does not match.
pub uninterp spec fn spec_regex_captures(pattern: Seq<char>, text: Seq<char>) -> Option<Seq<Option<Seq<char>>>>;

/// Compiles the valid `pattern` and takes the groups of its first match in
/// `text` with `regex::Regex::captures`. The result depends on the two
/// strings alone.
#[verifier::external_body]
fn regex_captures(pattern: &str, text: &str) -> (r: Option<Vec<Option<String>>>)
    requires
        spec_regex_valid(pattern@),
    ensures
        match r {
            Some(g) => spec_regex_captures(pattern@, text@)
                == Some(g@.map_values(|x: Option<String>| crate::text::opt_view(x))),
            None => spec_regex_captures(pattern@, text@) is None,
        },
{
    match regex::Regex::new(pattern) {
        Ok(re) => re.captures(text).map(|c| c.iter().map(|m| m.map(|m| m.as_str().to_owned())).collect()),
        Err(_) => None,
    }
}

/// The time, in nanoseconds since the epoch, that an RFC 3339 timestamp
/// names, as `chrono::DateTime::parse_from_rfc3339` reads it; `None` where
/// it is no such timestamp or the time does not fit in nanoseconds.
pub uninterp spec fn spec_rfc3339_nanos(text: Seq<char>) -> Option<i64>;

/// Reads an RFC 3339 timestamp with `chrono` as nanoseconds since the
/// epoch. The result depends on the text alone.
#[verifier::external_body]
fn rfc3339_nanos(text: &str) -> (r: Option<i64>)
    ensures
        r == spec_rfc3339_nanos(text@),
{
    match chrono::DateTime::parse_from_rfc3339(text) {
        Ok(dt) => dt.with_timezone(&chrono::Utc).timestamp_nanos_opt(),
        Err(_) => None,
    }
}

/// The text of `bytes` with every bad UTF-8 sequence replaced, as
/// `String::from_utf8_lossy` gives it.
pub uninterp spec fn spec_utf8_lossy(bytes: Seq<u8>) -> Seq<char>;

/// `String::from_utf8_lossy`: the text of `bytes`, bad sequences replaced.
/// Valid UTF-8 is decoded as it stands.
#[verifier::external_body]
fn utf8_lossy(bytes: &[u8]) -> (r: String)
    ensures
        r@ == spec_utf8_lossy(bytes@),
        valid_utf8(bytes@) ==> r@ == decode_utf8(bytes@),
{
    String::from_utf8_lossy(bytes).into_owned()
}

/// The shape of a line of a pod's log as the API streams it: an RFC 3339
/// timestamp with nanoseconds, a blank, and the rest of the line.
pub open spec fn log_line_pattern() -> Seq<char> {
    "(?P<timestamp>\\d{4}-\\d{2}-\\d{2}T\\d{2}:\\d{2}:\\d{2}.\\d{9}Z)\\s(?P<data>.*\\n)"@
}

/// What arrived bytes make of a pod's stream: nothing yet, a line, or a
/// line whose timestamp could not be read.
pub enum LineEvent {
    Pending,
    Line(LogData),
    Invalid,
}

/// The bytes of a pod's stream that do not form a whole line yet.
pub struct LineAssembler {
    buffer: Vec<u8>,
}

/// What arrived bytes make of a stream, as plain values: `None` while no
/// line is whole; else the time and text of the line, where its timestamp
/// can be read.
pub open spec fn line_outcome(buffered: Seq<u8>) -> Option<Option<(i64, Seq<char>)>> {
    match spec_regex_captures(log_line_pattern(), spec_utf8_lossy(buffered)) {
        None => None,
        Some(groups) => Some(
            if groups.len() >= 3 && groups[1] is Some && groups[2] is Some {
                match spec_rfc3339_nanos(groups[1].unwrap()) {
                    Some(t) => Some((t, groups[2].unwrap())),
                    None => None,
                }
            } else {
                None
            },
        ),
    }
}

/// What taking in `bytes` of the stream of `container` of `pod` does, with
/// `before` held first and `after` held then, and `e` handed out.
pub open spec fn pushed(
    before: Seq<u8>,
    bytes: Seq<u8>,
    pod: Seq<char>,
    container: Seq<char>,
    after: Seq<u8>,
    e: LineEvent,
) -> bool {
    match line_outcome(before + bytes) {
        None => e is Pending && after == before + bytes,
        Some(o) => after == Seq::<u8>::empty() && match o {
            Some((t, text)) => e matches LineEvent::Line(d)
                && d.timestamp == t && d.text@ == text && d.pod@ == pod && d.container@ == container,
            None => e is Invalid,
        },
    }
}

impl LineAssembler {
    /// The bytes held.
    pub closed spec fn buffered(&self) -> Seq<u8> {
        self.buffer@
    }

    /// Nothing held.
    pub fn new() -> (a: Self)
        ensures
            a.buffered() == Seq::<u8>::empty(),
    {
        LineAssembler { buffer: Vec::new() }
    }

    /// Takes in `bytes` of the stream of `container` of `pod`. Once the bytes
    /// held hold a whole line, they are let go, and the line is handed out
    /// where its timestamp can be read. The two groups of the pattern take
    /// part in every match, so a line is only missing them in name.
    pub fn push(&mut self, bytes: &[u8], pod: &str, container: &str) -> (e: LineEvent)
        requires
            spec_regex_valid(log_line_pattern()),
        ensures
            pushed(old(self).buffered(), bytes@, pod@, container@, final(self).buffered(), e),
    {
        let mut k: usize = 0;
        let ghost b0 = self.buffer@;
        while k < bytes.len()
            invariant
                k <= bytes.len(),
                self.buffer@ == b0 + bytes@.take(k as int),
            decreases bytes.len() - k,
        {
            self.buffer.push(bytes[k]);
            k = k + 1;
            assert(self.buffer@ =~= b0 + bytes@.take(k as int));
        }
        assert(bytes@.take(bytes.len() as int) =~= bytes@);
        let data = utf8_lossy(self.buffer.as_slice());
        let caps = regex_captures(
            "(?P<timestamp>\\d{4}-\\d{2}-\\d{2}T\\d{2}:\\d{2}:\\d{2}.\\d{9}Z)\\s(?P<data>.*\\n)",
            data.as_str(),
        );
        match caps {
            None => LineEvent::Pending,
            Some(groups) => {
                self.buffer.clear();
                let ghost gv = groups@.map_values(|x: Option<String>| crate::text::opt_view(x));
                if groups.len() >= 3 {
                    match (&groups[1], &groups[2]) {
                        (Some(ts), Some(text)) => {
                            assert(gv[1] == Some(ts@) && gv[2] == Some(text@));
                            match rfc3339_nanos(ts.as_str()) {
                                Some(t) => LineEvent::Line(LogData {
                                    text: text.clone(),
                                    pod: pod.to_owned(),
                                    container: container.to_owned(),
                                    timestamp: t,
                                }),
                                None => LineEvent::Invalid,
                            }
                        },
                        _ => {
                            assert(!(gv[1] is Some && gv[2] is Some));
                            LineEvent::Invalid
                        },
                    }
                } else {
                    LineEvent::Invalid
                }
            },
        }
    }
}

impl LineAssembler {
    /// Takes in `bytes` as `push` does where the pattern of a streamed line
    /// compiles; where it does not, holds nothing more and hands out `None`.
    pub fn try_push(&mut self, bytes: &[u8], pod: &str, container: &str) -> (r: Option<LineEvent>)
        ensures
            spec_regex_valid(log_line_pattern()) ==> (r matches Some(e)
                && pushed(old(self).buffered(), bytes@, pod@, container@, final(self).buffered(), e)),
            !spec_regex_valid(log_line_pattern()) ==> r is None && final(self).buffered() == old(self).buffered(),
    {
        if line_pattern_compiles() {
            Some(self.push(bytes, pod, container))
        } else {
            None
        }
    }
}

/// Whether the pattern of a streamed log line compiles.
pub fn line_pattern_compiles() -> (b: bool)
    ensures
        b == spec_regex_valid(log_line_pattern()),
{
    regex_is_valid("(?P<timestamp>\\d{4}-\\d{2}-\\d{2}T\\d{2}:\\d{2}:\\d{2}.\\d{9}Z)\\s(?P<data>.*\\n)")
}

/// The streams to tail for `pods`: each pod's name with each of its
/// containers, in order.
pub open spec fn stream_targets_of(pods: Seq<PodViewData>) -> Seq<(Seq<char>, Seq<char>)>
    decreases pods.len(),
{
    if pods.len() == 0 {
        Seq::empty()
    } else {
        let p = pods.last();
        stream_targets_of(pods.drop_last())
            + split_on(p.container_names@, ';').map_values(|c: Seq<char>| (p.name@, c))
    }
}

/// The streams to tail for `pods`: a pod name and a container name each.
pub fn stream_targets(pods: &Vec<PodViewData>) -> (r: Vec<(String, String)>)
    ensures
        r@.map_values(|t: (String, String)| (t.0@, t.1@)) == stream_targets_of(pods@),
{
    let mut r: Vec<(String, String)> = Vec::new();
    let mut i: usize = 0;
    while i < pods.len()
        invariant
            i <= pods.len(),
            r@.map_values(|t: (String, String)| (t.0@, t.1@)) == stream_targets_of(pods@.take(i as int)),
        decreases pods.len() - i,
    {
        let p = &pods[i];
        let containers = p.containers();
        let ghost before = r@.map_values(|t: (String, String)| (t.0@, t.1@));
        let ghost cv = views(containers@);
        let mut k: usize = 0;
        while k < containers.len()
            invariant
                k <= containers.len(),
                cv == views(containers@),
                r@.map_values(|t: (String, String)| (t.0@, t.1@)) == before + cv.take(k as int).map_values(|c: Seq<char>| (p.name@, c)),
            decreases containers.len() - k,
        {
            let ghost prev = r@;
            let n = p.name.clone();
            let c = containers[k].clone();
            r.push((n, c));
            proof {
                let f = |t: (String, String)| (t.0@, t.1@);
                let g = |c: Seq<char>| (p.name@, c);
                assert(r@.map_values(f) =~= prev.map_values(f).push((n@, c@)));
                assert(cv.take(k + 1).map_values(g) =~= cv.take(k as int).map_values(g).push((p.name@, cv[k as int])));
                assert(cv[k as int] == containers@[k as int]@);
            }
            k = k + 1;
        }
        proof {
            assert(cv.take(containers.len() as int) =~= cv);
            assert(pods@.take(i + 1).drop_last() =~= pods@.take(i as int));
            assert(pods@.take(i + 1).last() == pods@[i as int]);
        }
        i = i + 1;
    }
    assert(pods@.take(pods.len() as int) =~= pods@);
    r
}

/// Every container of every chosen pod is streamed, and nothing else: a
/// stream is a pod with one of its containers.
pub proof fn lemma_every_container_streamed(pods: Seq<PodViewData>, pod: Seq<char>, container: Seq<char>)
    ensures
        stream_targets_of(pods).contains((pod, container)) <==> exists|i: int| 0 <= i < pods.len()
            && (#[trigger] pods[i]).name@ == pod && split_on(pods[i].container_names@, ';').contains(container),
    decreases pods.len(),
{
    if pods.len() > 0 {
        let init = pods.drop_last();
        let p = pods.last();
        let f = |c: Seq<char>| (p.name@, c);
        let mine = split_on(p.container_names@, ';').map_values(f);
        lemma_every_container_streamed(init, pod, container);
        let all = stream_targets_of(pods);
        assert(all == stream_targets_of(init) + mine);
        if all.contains((pod, container)) {
            let k = choose|k: int| 0 <= k < all.len() && all[k] == (pod, container);
            if k < stream_targets_of(init).len() {
                assert(stream_targets_of(init)[k] == (pod, container));
                let i = choose|i: int| 0 <= i < init.len() && (#[trigger] init[i]).name@ == pod
                    && split_on(init[i].container_names@, ';').contains(container);
                assert(pods[i] == init[i]);
            } else {
                let q = k - stream_targets_of(init).len();
                assert(mine[q] == (pod, container));
                assert(split_on(p.container_names@, ';')[q] == container);
                assert(pods[pods.len() - 1] == p);
            }
        }
        if exists|i: int| 0 <= i < pods.len() && (#[trigger] pods[i]).name@ == pod
            && split_on(pods[i].container_names@, ';').contains(container) {
            let i = choose|i: int| 0 <= i < pods.len() && (#[trigger] pods[i]).name@ == pod
                && split_on(pods[i].container_names@, ';').contains(container);
            if i < init.len() {
                assert(init[i] == pods[i]);
                assert(stream_targets_of(init).contains((pod, container)));
                let k = choose|k: int| 0 <= k < stream_targets_of(init).len() && stream_targets_of(init)[k] == (pod, container);
                assert(all[k] == (pod, container));
            } else {
                assert(pods[i] == p);
                let q = choose|q: int| 0 <= q < split_on(p.container_names@, ';').len() && split_on(p.container_names@, ';')[q] == container;
                assert(mine[q] == (pod, container));
                assert(all[stream_targets_of(init).len() + q] == (pod, container));
            }
        }
    }
}

} // verus!
