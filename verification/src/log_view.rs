use vstd::prelude::*;
use crate::config::LogViewSettings;
use crate::log_worker::LogData;
use crate::navigation::{after_next, after_prev, cursor_wf, search_label, search_label_text, CursorView, SearchCursor};
use crate::pods::PodViewData;
use crate::regex_ops::spec_regex_valid;
use crate::search::{search_pattern, search_pattern_of, searches_view, SearchData};
use crate::text::{opt_view, str_eq, views};
use vstd::string::StringSliceAdditionalSpecFns;

verus! {

/// The time `nanos` (since the epoch) as `chrono` shows a UTC date and time.
pub uninterp spec fn spec_utc_text(nanos: i64) -> Seq<char>;

/// Shows the time `nanos` (since the epoch) as a UTC date and time with
/// `chrono`'s `Display`. The result depends on the time alone.
#[verifier::external_body]
fn utc_text(nanos: i64) -> (r: String)
    ensures
        r@ == spec_utc_text(nanos),
{
    chrono::DateTime::from_timestamp_nanos(nanos).to_string()
}

/// A log line as the log view writes it: the pod, the container and the
/// time where the settings show them, then the text, each after a blank
/// but the pod.
pub open spec fn log_line_text(s: LogViewSettings, d: LogData) -> Seq<char> {
    (if s.show_pod_names { d.pod@ } else { Seq::empty() })
        + (if s.show_container_names { " "@ + d.container@ } else { Seq::empty() })
        + (if s.show_timestamps { " "@ + spec_utc_text(d.timestamp) } else { Seq::empty() })
        + " "@ + d.text@
}

/// Writes a log line as the log view shows it.
pub fn format_log_line(settings: &LogViewSettings, data: &LogData) -> (line: String)
    ensures
        line@ == log_line_text(*settings, *data),
{
    let mut line = String::new();
    if settings.show_pod_names {
        line.append(data.pod.as_str());
    }
    let ghost a = line@;
    if settings.show_container_names {
        line.append(" ");
        line.append(data.container.as_str());
    }
    let ghost b = line@;
    if settings.show_timestamps {
        let t = utc_text(data.timestamp);
        line.append(" ");
        line.append(t.as_str());
    }
    let ghost c = line@;
    line.append(" ");
    line.append(data.text.as_str());
    proof {
        assert(a == (if settings.show_pod_names { data.pod@ } else { Seq::<char>::empty() }));
        assert(b =~= a + (if settings.show_container_names { " "@ + data.container@ } else { Seq::<char>::empty() }));
        assert(c =~= b + (if settings.show_timestamps { " "@ + spec_utc_text(data.timestamp) } else { Seq::<char>::empty() }));
        assert(line@ =~= c + " "@ + data.text@);
    }
    line
}

/// The namespace a log view reads from: its name, and the kubeconfig file
/// and context it was found with.
pub struct NamespaceViewData {
    pub name: String,
    pub config_path: String,
    pub context: String,
}

/// A namespace as plain values.
pub open spec fn namespace_view(n: NamespaceViewData) -> (Seq<char>, Seq<char>, Seq<char>) {
    (n.name@, n.config_path@, n.context@)
}

/// Pods as plain values.
pub open spec fn pods_view(p: Seq<PodViewData>) -> Seq<(Seq<char>, Seq<char>)> {
    p.map_values(|x: PodViewData| (x.name@, x.container_names@))
}

/// What to stream: the pods of a namespace, from some seconds back.
pub struct LoadRequest {
    pub context: NamespaceViewData,
    pub pods: Vec<PodViewData>,
    pub since_seconds: u32,
}

/// A setting of the log view that can be switched.
#[derive(Clone, Copy, Debug, PartialEq, Eq, Structural)]
pub enum SettingToggle {
    WrapText,
    ShowPodNames,
    ShowContainerNames,
    ShowTimestamps,
}

/// The name the matches of the free-text search are tagged with.
pub open spec fn search_tag() -> Seq<char> {
    "SEARCH"@
}

/// The decisions of a log view: what it shows, what it streams, and its
/// free-text search.
pub struct LogViewState {
    settings: LogViewSettings,
    since_seconds: u32,
    active_search: Option<String>,
    cursor: SearchCursor,
    selected_pods: Option<Vec<PodViewData>>,
    selected_context: Option<NamespaceViewData>,
}

/// What a log view's state holds.
pub struct LogViewStateView {
    pub since_seconds: u32,
    pub active_search: Option<Seq<char>>,
    pub cursor: CursorView,
    pub selected_pods: Option<Seq<(Seq<char>, Seq<char>)>>,
    pub selected_context: Option<(Seq<char>, Seq<char>, Seq<char>)>,
}

/// A load request as plain values.
pub open spec fn request_view(r: LoadRequest) -> ((Seq<char>, Seq<char>, Seq<char>), Seq<(Seq<char>, Seq<char>)>, u32) {
    (namespace_view(r.context), pods_view(r.pods@), r.since_seconds)
}

fn copy_namespace(n: &NamespaceViewData) -> (r: NamespaceViewData)
    ensures
        namespace_view(r) == namespace_view(*n),
{
    NamespaceViewData { name: n.name.clone(), config_path: n.config_path.clone(), context: n.context.clone() }
}

fn copy_pods(p: &Vec<PodViewData>) -> (r: Vec<PodViewData>)
    ensures
        pods_view(r@) == pods_view(p@),
{
    let mut r: Vec<PodViewData> = Vec::new();
    let mut i: usize = 0;
    while i < p.len()
        invariant
            i <= p.len(),
            pods_view(r@) == pods_view(p@.take(i as int)),
        decreases p.len() - i,
    {
        let ghost before = r@;
        let x = PodViewData { name: p[i].name.clone(), container_names: p[i].container_names.clone() };
        r.push(x);
        proof {
            assert(pods_view(r@) =~= pods_view(before).push((x.name@, x.container_names@)));
            assert(pods_view(p@.take(i + 1)) =~= pods_view(p@.take(i as int)).push((p@[i as int].name@, p@[i as int].container_names@)));
        }
        i = i + 1;
    }
    assert(p@.take(p.len() as int) =~= p@);
    r
}

impl LogViewState {
    /// What the state holds, but the settings.
    pub closed spec fn view(&self) -> LogViewStateView {
        LogViewStateView {
            since_seconds: self.since_seconds,
            active_search: opt_view(self.active_search),
            cursor: self.cursor.view(),
            selected_pods: match self.selected_pods {
                Some(p) => Some(pods_view(p@)),
                None => None,
            },
            selected_context: match self.selected_context {
                Some(c) => Some(namespace_view(c)),
                None => None,
            },
        }
    }

    /// How the view shows lines.
    pub closed spec fn shown(&self) -> LogViewSettings {
        self.settings
    }

    /// How the view shows lines.
    pub fn settings(&self) -> (s: &LogViewSettings)
        ensures
            *s == self.shown(),
    {
        &self.settings
    }

    /// The search cursor points at a match, and the free-text search
    /// compiles.
    pub closed spec fn wf(&self) -> bool {
        &&& cursor_wf(self.cursor.view())
        &&& opt_view(self.active_search) matches Some(p) ==> spec_regex_valid(p)
    }

    /// A fresh log view with `settings`: ten minutes back, no search, nothing
    /// selected.
    pub fn new(settings: LogViewSettings) -> (s: Self)
        ensures
            s.wf(),
            s.shown() == settings,
            s.view() == (LogViewStateView {
                since_seconds: 600,
                active_search: None,
                cursor: CursorView { matches: 0, current: None },
                selected_pods: None,
                selected_context: None,
            }),
    {
        LogViewState {
            settings,
            since_seconds: 600,
            active_search: None,
            cursor: SearchCursor::new(),
            selected_pods: None,
            selected_context: None,
        }
    }

    /// Takes note of the namespace chosen.
    pub fn context_selected(&mut self, ctx: NamespaceViewData)
        ensures
            final(self).wf() == old(self).wf(),
            final(self).shown() == old(self).shown(),
            final(self).view() == (LogViewStateView { selected_context: Some(namespace_view(ctx)), ..old(self).view() }),
    {
        self.selected_context = Some(ctx);
    }

    fn request(&self) -> (r: LoadRequest)
        requires
            self.selected_context is Some,
            self.selected_pods is Some,
        ensures
            request_view(r) == (self.view().selected_context.unwrap(), self.view().selected_pods.unwrap(), self.view().since_seconds),
    {
        let ctx = match &self.selected_context {
            Some(c) => copy_namespace(c),
            None => NamespaceViewData { name: String::new(), config_path: String::new(), context: String::new() },
        };
        let pods = match &self.selected_pods {
            Some(p) => copy_pods(p),
            None => Vec::new(),
        };
        LoadRequest { context: ctx, pods, since_seconds: self.since_seconds }
    }

    /// Takes note of the pods chosen; the view starts over, its search marks
    /// gone, and streams them from the namespace chosen, which must be known.
    pub fn pods_selected(&mut self, pods: Vec<PodViewData>) -> (r: LoadRequest)
        requires
            old(self).wf(),
            old(self).view().selected_context is Some,
        ensures
            final(self).wf(),
            final(self).shown() == old(self).shown(),
            final(self).view() == (LogViewStateView {
                selected_pods: Some(pods_view(pods@)),
                cursor: CursorView { matches: 0, current: None },
                ..old(self).view()
            }),
            request_view(r) == (old(self).view().selected_context.unwrap(), pods_view(pods@), old(self).view().since_seconds),
    {
        self.selected_pods = Some(pods);
        self.cursor.clear();
        self.request()
    }

    /// Streams the chosen pods again from the start, where pods are chosen;
    /// the view starts over. The namespace must then be known.
    pub fn reload(&mut self) -> (r: Option<LoadRequest>)
        requires
            old(self).wf(),
            old(self).view().selected_pods is Some ==> old(self).view().selected_context is Some,
        ensures
            final(self).wf(),
            final(self).shown() == old(self).shown(),
            match old(self).view().selected_pods {
                Some(p) => {
                    &&& final(self).view() == (LogViewStateView { cursor: CursorView { matches: 0, current: None }, ..old(self).view() })
                    &&& r matches Some(q)
                    &&& request_view(q) == (old(self).view().selected_context.unwrap(), p, old(self).view().since_seconds)
                },
                None => final(self).view() == old(self).view() && r is None,
            },
    {
        if self.selected_pods.is_some() {
            self.cursor.clear();
            Some(self.request())
        } else {
            None
        }
    }

    /// Switches a setting to `value`; every setting but line wrapping is
    /// shown by streaming again.
    pub fn toggle_setting(&mut self, which: SettingToggle, value: bool) -> (r: Option<LoadRequest>)
        requires
            old(self).wf(),
            old(self).view().selected_pods is Some ==> old(self).view().selected_context is Some,
        ensures
            final(self).wf(),
            final(self).shown().wrap_text == (if which == SettingToggle::WrapText { value } else { old(self).shown().wrap_text }),
            final(self).shown().show_pod_names == (if which == SettingToggle::ShowPodNames { value } else { old(self).shown().show_pod_names }),
            final(self).shown().show_container_names == (if which == SettingToggle::ShowContainerNames { value } else { old(self).shown().show_container_names }),
            final(self).shown().show_timestamps == (if which == SettingToggle::ShowTimestamps { value } else { old(self).shown().show_timestamps }),
            final(self).shown().font == old(self).shown().font,
            which == SettingToggle::WrapText ==> r is None && final(self).view() == old(self).view(),
            which != SettingToggle::WrapText ==> match old(self).view().selected_pods {
                Some(p) => {
                    &&& final(self).view() == (LogViewStateView { cursor: CursorView { matches: 0, current: None }, ..old(self).view() })
                    &&& r matches Some(q)
                    &&& request_view(q) == (old(self).view().selected_context.unwrap(), p, old(self).view().since_seconds)
                },
                None => final(self).view() == old(self).view() && r is None,
            },
    {
        match which {
            SettingToggle::WrapText => {
                self.settings.wrap_text = value;
                None
            },
            SettingToggle::ShowPodNames => {
                self.settings.show_pod_names = value;
                self.reload()
            },
            SettingToggle::ShowContainerNames => {
                self.settings.show_container_names = value;
                self.reload()
            },
            SettingToggle::ShowTimestamps => {
                self.settings.show_timestamps = value;
                self.reload()
            },
        }
    }

    /// Sets how many seconds back to stream, and streams again.
    pub fn since_changed(&mut self, seconds: u32) -> (r: Option<LoadRequest>)
        requires
            old(self).wf(),
            old(self).view().selected_pods is Some ==> old(self).view().selected_context is Some,
        ensures
            final(self).wf(),
            final(self).shown() == old(self).shown(),
            match old(self).view().selected_pods {
                Some(p) => {
                    &&& final(self).view() == (LogViewStateView {
                        since_seconds: seconds,
                        cursor: CursorView { matches: 0, current: None },
                        ..old(self).view()
                    })
                    &&& r matches Some(q)
                    &&& request_view(q) == (old(self).view().selected_context.unwrap(), p, seconds)
                },
                None => final(self).view() == (LogViewStateView { since_seconds: seconds, ..old(self).view() }) && r is None,
            },
    {
        self.since_seconds = seconds;
        self.reload()
    }

    /// Starts a free-text search for `query`: the marks of the last search
    /// go; returns the pattern to search the text with, none for an empty
    /// query or one that does not compile.
    pub fn search(&mut self, query: &str) -> (r: Option<String>)
        ensures
            final(self).wf(),
            final(self).shown() == old(self).shown(),
            opt_view(r) == search_pattern_of(query@),
            final(self).view() == (LogViewStateView {
                active_search: search_pattern_of(query@),
                cursor: CursorView { matches: 0, current: None },
                ..old(self).view()
            }),
    {
        self.cursor.clear();
        let p = search_pattern(query);
        self.active_search = match &p {
            Some(s) => Some(s.clone()),
            None => None,
        };
        p
    }

    /// Takes note of one more line marked as a search match.
    pub fn add_search_match(&mut self)
        requires
            old(self).wf(),
            old(self).view().cursor.matches < usize::MAX,
        ensures
            final(self).wf(),
            final(self).shown() == old(self).shown(),
            final(self).view() == (LogViewStateView {
                cursor: CursorView { matches: old(self).view().cursor.matches + 1, current: old(self).view().cursor.current },
                ..old(self).view()
            }),
    {
        self.cursor.add_match();
    }

    /// Takes in which highlighters matched a line: where the line is still
    /// there (`line_found`), returns the tags to mark it with, and each
    /// match of the free-text search among them marks one more match.
    pub fn highlight_result(&mut self, names: &Vec<String>, line_found: bool) -> (tags: Vec<String>)
        requires
            old(self).wf(),
            old(self).view().cursor.matches + names.len() <= usize::MAX,
        ensures
            final(self).wf(),
            final(self).shown() == old(self).shown(),
            views(tags@) == (if line_found { views(names@) } else { Seq::empty() }),
            final(self).view() == (LogViewStateView {
                cursor: CursorView {
                    matches: old(self).view().cursor.matches
                        + (if line_found { views(names@).filter(|n: Seq<char>| n == search_tag()).len() } else { 0 }),
                    current: old(self).view().cursor.current,
                },
                ..old(self).view()
            }),
    {
        let mut tags: Vec<String> = Vec::new();
        if !line_found {
            assert(views(tags@) =~= Seq::<Seq<char>>::empty());
            return tags;
        }
        let ghost nv = views(names@);
        let ghost m0 = self.view().cursor.matches;
        let mut i: usize = 0;
        while i < names.len()
            invariant
                i <= names.len(),
                nv == views(names@),
                self.wf(),
                self.settings == old(self).shown(),
                m0 == old(self).view().cursor.matches,
                m0 + names.len() <= usize::MAX,
                views(tags@) == nv.take(i as int),
                self.view() == (LogViewStateView {
                    cursor: CursorView {
                        matches: m0 + nv.take(i as int).filter(|n: Seq<char>| n == search_tag()).len(),
                        current: old(self).view().cursor.current,
                    },
                    ..old(self).view()
                }),
            decreases names.len() - i,
        {
            let ghost t0 = nv.take(i as int);
            let ghost t1 = nv.take(i + 1);
            assert(t1.drop_last() =~= t0);
            assert(t1.last() == names@[i as int]@);
            proof {
                reveal(Seq::filter);
                lemma_filter_len_bound(t0);
            }
            tags.push(names[i].clone());
            assert(views(tags@) =~= t1);
            if str_eq(names[i].as_str(), "SEARCH") {
                self.cursor.add_match();
            }
            i = i + 1;
        }
        assert(nv.take(names.len() as int) =~= nv);
        tags
    }

    /// Selects the next search match; returns the match to highlight.
    pub fn select_next_match(&mut self) -> (r: Option<usize>)
        requires
            old(self).wf(),
        ensures
            final(self).wf(),
            final(self).shown() == old(self).shown(),
            final(self).view() == (LogViewStateView { cursor: after_next(old(self).view().cursor), ..old(self).view() }),
            r == (if old(self).view().cursor.matches > 0 {
                Some(crate::navigation::next_target(old(self).view().cursor.matches, old(self).view().cursor.current) as usize)
            } else {
                None
            }),
    {
        self.cursor.select_next()
    }

    /// Selects the previous search match; returns the match to highlight.
    pub fn select_prev_match(&mut self) -> (r: Option<usize>)
        requires
            old(self).wf(),
        ensures
            final(self).wf(),
            final(self).shown() == old(self).shown(),
            final(self).view() == (LogViewStateView { cursor: after_prev(old(self).view().cursor), ..old(self).view() }),
            r == (if old(self).view().cursor.matches > 0 {
                Some(crate::navigation::prev_target(old(self).view().cursor.matches, old(self).view().cursor.current) as usize)
            } else {
                None
            }),
    {
        self.cursor.select_prev()
    }

    /// The label counting the search matches.
    pub fn search_label(&self) -> (s: String)
        ensures
            s@ == search_label_text(self.view().cursor.matches),
    {
        search_label(self.cursor.matches())
    }

    /// The searches to check a new line against: the configured ones, and the
    /// free-text search, tagged `SEARCH`, where one is active.
    pub fn line_searches(&self, configured: &Vec<SearchData>) -> (r: Vec<SearchData>)
        requires
            self.wf(),
            forall|k: int| 0 <= k < configured.len() ==> (#[trigger] configured@[k]).wf(),
        ensures
            forall|k: int| 0 <= k < r.len() ==> (#[trigger] r@[k]).wf(),
            searches_view(r@) == match self.view().active_search {
                Some(p) => searches_view(configured@).push((search_tag(), p)),
                None => searches_view(configured@),
            },
    {
        let mut r: Vec<SearchData> = Vec::new();
        let mut i: usize = 0;
        while i < configured.len()
            invariant
                i <= configured.len(),
                forall|k: int| 0 <= k < configured.len() ==> (#[trigger] configured@[k]).wf(),
                forall|k: int| 0 <= k < r.len() ==> (#[trigger] r@[k]).wf(),
                searches_view(r@) == searches_view(configured@.take(i as int)),
            decreases configured.len() - i,
        {
            let ghost before = r@;
            let d = configured[i].copy();
            r.push(d);
            proof {
                assert(searches_view(r@) =~= searches_view(before).push((d.name_view(), d.pattern_view())));
                assert(configured@.take(i + 1) =~= configured@.take(i as int).push(configured@[i as int]));
                assert(searches_view(configured@.take(i + 1)) =~= searches_view(configured@.take(i as int)).push(
                    (configured@[i as int].name_view(), configured@[i as int].pattern_view()),
                ));
            }
            i = i + 1;
        }
        assert(configured@.take(configured.len() as int) =~= configured@);
        match &self.active_search {
            Some(p) => {
                let ghost before = r@;
                match SearchData::new("SEARCH".to_owned(), p.clone()) {
                    Some(d) => {
                        r.push(d);
                        assert(searches_view(r@) =~= searches_view(before).push((d.name_view(), d.pattern_view())));
                    },
                    None => {},
                }
            },
            None => {},
        }
        r
    }
}

proof fn lemma_filter_len_bound(s: Seq<Seq<char>>)
    ensures
        s.filter(|n: Seq<char>| n == search_tag()).len() <= s.len(),
    decreases s.len(),
{
    reveal(Seq::filter);
    if s.len() > 0 {
        lemma_filter_len_bound(s.drop_last());
    }
}

/// The seconds that a choice of the since list stands for, as
/// `str::parse::<u32>` reads it.
pub fn parse_since(id: &str) -> (r: Option<u32>)
    ensures
        r == crate::color::parse_u32_text(id.spec_bytes()),
{
    crate::color::parse_u32(id.as_bytes())
}

/// The first line of `text`, as `str::lines` yields it, or nothing.
pub open spec fn first_line_text(text: Seq<char>) -> Seq<char> {
    if crate::search::std_lines(text).len() > 0 { crate::search::std_lines(text)[0] } else { Seq::empty() }
}

/// A row of the search results: the first line of the text, and the time.
pub fn search_result_item(data: &LogData) -> (r: (String, String))
    ensures
        r.0@ == first_line_text(data.text@),
        r.1@ == spec_utc_text(data.timestamp),
{
    let lines = crate::search::lines_of(data.text.as_str());
    let first = if lines.len() > 0 { lines[0].clone() } else { String::new() };
    (first, utc_text(data.timestamp))
}

/// The choices of how far back to stream: seconds, and the label shown.
pub open spec fn since_choice_list() -> Seq<(u32, Seq<char>)> {
    seq![
        (300u32, "5 min"@),
        (600u32, "10 min"@),
        (1800u32, "30 min"@),
        (3600u32, "1 hour"@),
        (7200u32, "2 hours"@),
        (14400u32, "4 hours"@),
        (21600u32, "6 hours"@),
        (28800u32, "8 hours"@),
        (36000u32, "10 hours"@),
        (43200u32, "12 hours"@),
        (86400u32, "24 hours"@),
    ]
}

/// The choices of how far back to stream, in the order they are offered;
/// ten minutes is chosen at first.
pub fn since_choices() -> (v: Vec<(u32, String)>)
    ensures
        v@.map_values(|c: (u32, String)| (c.0, c.1@)) == since_choice_list(),
{
    let mut v: Vec<(u32, String)> = Vec::new();
    v.push((300, "5 min".to_owned()));
    v.push((600, "10 min".to_owned()));
    v.push((1800, "30 min".to_owned()));
    v.push((3600, "1 hour".to_owned()));
    v.push((7200, "2 hours".to_owned()));
    v.push((14400, "4 hours".to_owned()));
    v.push((21600, "6 hours".to_owned()));
    v.push((28800, "8 hours".to_owned()));
    v.push((36000, "10 hours".to_owned()));
    v.push((43200, "12 hours".to_owned()));
    v.push((86400, "24 hours".to_owned()));
    assert(v@.map_values(|c: (u32, String)| (c.0, c.1@)) =~= since_choice_list());
    v
}

} // verus!

verus! {

/// The pod part of a log line: the pod's name where pods are shown.
pub open spec fn pod_part(s: LogViewSettings, d: LogData) -> Seq<char> {
    if s.show_pod_names { d.pod@ } else { Seq::<char>::empty() }
}

/// A log line begins with the pod's name where the settings show pods and
/// ends with a blank and the text; where container names are shown, a
/// blank and the container's name follow the pod part, whether pods are
/// shown or not.
pub proof fn lemma_log_line_parts(s: LogViewSettings, d: LogData)
    ensures
        pod_part(s, d).len() <= log_line_text(s, d).len(),
        log_line_text(s, d).take(pod_part(s, d).len() as int) == pod_part(s, d),
        d.text@.len() + 1 <= log_line_text(s, d).len(),
        log_line_text(s, d).skip(log_line_text(s, d).len() - (d.text@.len() + 1)) == " "@ + d.text@,
        s.show_container_names ==> log_line_text(s, d).subrange(
            pod_part(s, d).len() as int,
            (pod_part(s, d).len() + 1 + d.container@.len()) as int,
        ) == " "@ + d.container@,
{
    reveal_strlit(" ");
    let p = pod_part(s, d);
    let c = if s.show_container_names { " "@ + d.container@ } else { Seq::<char>::empty() };
    let t = if s.show_timestamps { " "@ + spec_utc_text(d.timestamp) } else { Seq::<char>::empty() };
    let tail = " "@ + d.text@;
    let line = log_line_text(s, d);
    assert(line == p + c + t + tail);
    assert(line.take(p.len() as int) =~= p);
    assert(line.skip(line.len() - (d.text@.len() + 1)) =~= tail);
    if s.show_container_names {
        assert(line.subrange(p.len() as int, (p.len() + 1 + d.container@.len()) as int) =~= c);
    }
}

/// Turning container names on puts exactly a blank and the container's
/// name after the pod part of the line and leaves the rest as it was.
pub proof fn lemma_log_line_container_toggle(s: LogViewSettings, d: LogData)
    ensures
        log_line_text(LogViewSettings { show_container_names: true, ..s }, d) == pod_part(s, d) + " "@ + d.container@
            + log_line_text(LogViewSettings { show_container_names: false, ..s }, d).skip(pod_part(s, d).len() as int),
{
    let p = pod_part(s, d);
    let t = if s.show_timestamps { " "@ + spec_utc_text(d.timestamp) } else { Seq::<char>::empty() };
    let tail = " "@ + d.text@;
    let on = LogViewSettings { show_container_names: true, ..s };
    let off = LogViewSettings { show_container_names: false, ..s };
    assert(log_line_text(on, d) == p + (" "@ + d.container@) + t + tail);
    assert(log_line_text(off, d) == p + Seq::<char>::empty() + t + tail);
    assert(log_line_text(off, d).skip(p.len() as int) =~= t + tail);
    assert(log_line_text(on, d) =~= p + " "@ + d.container@ + log_line_text(off, d).skip(p.len() as int));
}

} // verus!
