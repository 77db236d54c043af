use vstd::prelude::*;
use crate::rules::Highlighter;
use crate::text::{join_strs, join_with, views};

verus! {

/// What to tail in a Kubernetes log view: pods by name prefix, in which
/// cluster and namespace, from how many seconds back.
pub struct CreateKubeLogData {
    pub pods: Vec<String>,
    pub cluster: String,
    pub namespace: String,
    pub since: u32,
}

/// The source of a log view: a file (by its path) or pods of a cluster.
pub enum LogViewData {
    File(String),
    Kube(CreateKubeLogData),
}

/// A log view to open: its source, and the highlighting rules it starts
/// with where they were chosen together with the source.
pub struct CreateLogView {
    pub rules: Option<Vec<Highlighter>>,
    pub data: LogViewData,
}

impl CreateLogView {
    /// A view of `data` with the rules it would have anyway.
    pub fn new(data: LogViewData) -> (v: Self)
        ensures
            v.data == data,
            v.rules is None,
    {
        CreateLogView { rules: None, data }
    }

    /// A view of `data` that starts with the rules `rules`.
    pub fn with_rules(data: LogViewData, rules: Vec<Highlighter>) -> (v: Self)
        ensures
            v.data == data,
            v.rules == Some(rules),
    {
        CreateLogView { rules: Some(rules), data }
    }
}

/// The last component of `path`, as `std::path::Path::file_name` gives it;
/// none when the path ends in `..` or is a root or empty.
pub uninterp spec fn spec_file_name(path: Seq<char>) -> Option<Seq<char>>;

/// The file name of `path` by `std::path::Path::file_name`. It depends on
/// the path alone.
#[verifier::external_body]
fn path_file_name(path: &str) -> (r: Option<String>)
    ensures
        crate::text::opt_view(r) == spec_file_name(path@),
{
    std::path::Path::new(path).file_name().and_then(|n| n.to_str()).map(|n| n.to_owned())
}

/// The title of a Kubernetes log view: cluster, namespace and pods.
pub open spec fn kube_title(d: CreateKubeLogData) -> Seq<char> {
    d.cluster@ + " > "@ + d.namespace@ + " > "@ + join_with(views(d.pods@), ", "@)
}

impl LogViewData {
    /// The title of a view of this source, when it has one: a file's
    /// name, or the cluster, namespace and pods.
    pub open spec fn title(&self) -> Option<Seq<char>> {
        match self {
            LogViewData::File(p) => spec_file_name(p@),
            LogViewData::Kube(d) => Some(kube_title(*d)),
        }
    }

    /// The title of a view of this source. A file must have a name.
    pub fn get_name(&self) -> (name: String)
        requires
            self.title() is Some,
        ensures
            name@ == self.title()->0,
    {
        match self.try_get_name() {
            Some(n) => n,
            None => String::new(),
        }
    }

    /// The title of a view of this source; none for a path without a
    /// file name.
    pub fn try_get_name(&self) -> (name: Option<String>)
        ensures
            crate::text::opt_view(name) == self.title(),
    {
        match self {
            LogViewData::File(p) => path_file_name(p.as_str()),
            LogViewData::Kube(d) => {
                let mut s = d.cluster.clone();
                s.append(" > ");
                s.append(d.namespace.as_str());
                s.append(" > ");
                let pods = join_strs(&d.pods, ", ");
                s.append(pods.as_str());
                Some(s)
            },
        }
    }
}

/// What the pod selector dialog reports.
pub enum PodSelectorMsg {
    Show,
    ToggleIncludeReplicas(bool),
    ToggleSeparateTabs(bool),
    SinceUnitChanged(String),
    SinceChanged(u32),
    ClusterChanged(String),
    NamespaceChanged(String),
    /// The dialog was confirmed.
    Confirm,
    Close,
}

/// What the toolbar of a log view reports.
pub enum LogViewToolbarMsg {
    TextChange(String),
    SearchPressed,
    ClearSearchPressed,
    ShowRules,
    ToggleAutoScroll(bool),
    Clear,
}

/// A row picked in the table of extracted matches: a rule's group, or the
/// matches of one extracted text (by its checksum) within a rule.
pub enum ExtractSelection {
    SearchGroup(String),
    TextGroup(String, u32),
}

/// One match of a rule: where in the text it is and what it extracted.
pub struct SearchResultMatch {
    pub name: Option<String>,
    pub line: usize,
    pub start: usize,
    pub end: usize,
    pub extracted_text: Option<String>,
}

/// The matches of one rule.
pub struct RuleSearchResultData {
    pub name: Option<String>,
    pub matches: Vec<SearchResultMatch>,
}

/// What a log source reports when asked whether it changed.
#[derive(Clone, Copy, Debug, PartialEq, Eq, Structural)]
pub enum LogState {
    /// Nothing stands in the way of reading on.
    Proceed,
    Skip,
    Reload,
}

} // verus!
