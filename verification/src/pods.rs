use vstd::prelude::*;
use vstd::string::StringSliceAdditionalSpecFns;
use crate::model::{CreateKubeLogData, CreateLogView, LogViewData};
use crate::rules::Highlighter;
use crate::text::{
    copy_strings, join_strs, join_with, lemma_split_join, split_on, split_str, str_eq, views,
};

verus! {

/// A pod as the pod list shows it: its name and its containers' names
/// joined with `;`.
pub struct PodViewData {
    pub name: String,
    pub container_names: String,
}

impl PodViewData {
    /// The joined container names.
    pub open spec fn joined_containers(&self) -> Seq<char> {
        self.container_names@
    }

    /// The pod `name` with the containers `containers`.
    pub fn new(name: String, containers: &Vec<String>) -> (p: Self)
        ensures
            p.name@ == name@,
            p.joined_containers() == join_with(views(containers@), seq![';']),
    {
        let joined = join_strs(containers, ";");
        proof {
            reveal_strlit(";");
            assert(";"@ =~= seq![';']);
        }
        PodViewData { name, container_names: joined }
    }

    /// The container names, split at `;`.
    pub fn containers(&self) -> (c: Vec<String>)
        ensures
            views(c@) == split_on(self.joined_containers(), ';'),
    {
        split_str(self.container_names.as_str(), ';')
    }
}

/// A pod listed with at least one container and no `;` in any container
/// name gives its containers back unchanged.
pub proof fn lemma_pod_containers_roundtrip(containers: Seq<Seq<char>>)
    requires
        containers.len() >= 1,
        forall|i: int| 0 <= i < containers.len() ==> !(#[trigger] containers[i]).contains(';'),
    ensures
        split_on(join_with(containers, seq![';']), ';') == containers,
{
    lemma_split_join(containers, ';');
}

/// What the pod selector knows of a pod: its name and its containers.
pub struct PodSummary {
    pub name: Option<String>,
    pub containers: Vec<String>,
}

/// The name a pod is listed under: its first container when replicas are
/// grouped, else its own name; empty when missing.
pub open spec fn listed_name(p: PodSummary, include_replicas: bool) -> Seq<char> {
    if include_replicas {
        if p.containers.len() > 0 { p.containers@[0]@ } else { Seq::empty() }
    } else {
        match p.name {
            Some(n) => n@,
            None => Seq::empty(),
        }
    }
}

/// `s` with every entry after its first occurrence dropped.
pub open spec fn dedup(s: Seq<Seq<char>>) -> Seq<Seq<char>>
    decreases s.len(),
{
    if s.len() == 0 {
        Seq::empty()
    } else {
        let d = dedup(s.drop_last());
        if d.contains(s.last()) { d } else { d.push(s.last()) }
    }
}

/// The listed names of all pods.
pub open spec fn listed_names(pods: Seq<PodSummary>, include_replicas: bool) -> Seq<Seq<char>> {
    pods.map_values(|p: PodSummary| listed_name(p, include_replicas))
}

/// Dropping repeats keeps every name once.
pub proof fn lemma_dedup(s: Seq<Seq<char>>)
    ensures
        dedup(s).no_duplicates(),
        forall|x: Seq<char>| dedup(s).contains(x) <==> s.contains(x),
    decreases s.len(),
{
    if s.len() > 0 {
        let p = s.drop_last();
        lemma_dedup(p);
        let d = dedup(p);
        assert forall|x: Seq<char>| s.contains(x) <==> p.contains(x) || x == s.last() by {
            if s.contains(x) {
                let k = choose|k: int| 0 <= k < s.len() && s[k] == x;
                if k < p.len() {
                    assert(p[k] == x);
                }
            }
            if p.contains(x) {
                let k = choose|k: int| 0 <= k < p.len() && p[k] == x;
                assert(s[k] == x);
            }
            if x == s.last() {
                assert(s[s.len() - 1] == x);
            }
        }
        if !d.contains(s.last()) {
            let e = d.push(s.last());
            assert forall|a: int, b: int| 0 <= a < b < e.len() implies e[a] != e[b] by {
                if b == d.len() {
                    assert(e[a] == d[a]);
                }
            }
            assert forall|x: Seq<char>| e.contains(x) <==> d.contains(x) || x == s.last() by {
                if e.contains(x) {
                    let k = choose|k: int| 0 <= k < e.len() && e[k] == x;
                    if k < d.len() {
                        assert(d[k] == x);
                    }
                }
                if d.contains(x) {
                    let k = choose|k: int| 0 <= k < d.len() && d[k] == x;
                    assert(e[k] == x);
                }
                if x == s.last() {
                    assert(e[d.len() as int] == x);
                }
            }
        }
    }
}

/// The names the pod selector lists, each once, in the order in which
/// they first occur.
pub fn pod_list_names(pods: &Vec<PodSummary>, include_replicas: bool) -> (names: Vec<String>)
    ensures
        views(names@) == dedup(listed_names(pods@, include_replicas)),
        views(names@).no_duplicates(),
        forall|x: Seq<char>| views(names@).contains(x) <==> listed_names(pods@, include_replicas).contains(x),
{
    let ghost all = listed_names(pods@, include_replicas);
    let mut names: Vec<String> = Vec::new();
    let mut i: usize = 0;
    while i < pods.len()
        invariant
            i <= pods.len(),
            all == listed_names(pods@, include_replicas),
            views(names@) == dedup(all.take(i as int)),
        decreases pods.len() - i,
    {
        let pod = &pods[i];
        let name = if include_replicas {
            if pod.containers.len() > 0 { pod.containers[0].clone() } else { String::new() }
        } else {
            match &pod.name {
                Some(n) => n.clone(),
                None => String::new(),
            }
        };
        assert(name@ == all[i as int]);
        assert(all.take(i + 1).drop_last() =~= all.take(i as int));
        assert(all.take(i + 1).last() == all[i as int]);
        let mut seen = false;
        let mut k: usize = 0;
        while k < names.len()
            invariant
                k <= names.len(),
                seen == views(names@).take(k as int).contains(name@),
            decreases names.len() - k,
        {
            let ghost t0 = views(names@).take(k as int);
            let ghost t1 = t0.push(names@[k as int]@);
            assert(views(names@).take(k + 1) =~= t1);
            let same = str_eq(names[k].as_str(), name.as_str());
            proof {
                if same {
                    assert(t1[k as int] == name@);
                }
                if t1.contains(name@) && !same {
                    let q = choose|q: int| 0 <= q < t1.len() && t1[q] == name@;
                    assert(t0[q] == name@);
                }
                if t0.contains(name@) {
                    let q = choose|q: int| 0 <= q < t0.len() && t0[q] == name@;
                    assert(t1[q] == name@);
                }
            }
            if same {
                seen = true;
            }
            k = k + 1;
        }
        assert(views(names@).take(names.len() as int) =~= views(names@));
        if !seen {
            let ghost before = names@;
            names.push(name);
            assert(views(names@) =~= views(before).push(name@));
        }
        i = i + 1;
    }
    assert(all.take(pods.len() as int) =~= all);
    proof {
        lemma_dedup(all);
    }
    names
}

/// The unit in which the since field of the pod selector counts minutes.
pub open spec fn unit_minutes() -> Seq<char> {
    seq!['U', 'N', 'I', 'T', '_', 'M', 'I', 'N', 'U', 'T', 'E', 'S']
}

/// Seconds per unit of the since field: a minute for the minutes unit,
/// an hour for anything else.
pub fn since_multiplier(unit: &str) -> (m: u32)
    ensures
        m == if unit@ == unit_minutes() { 60u32 } else { 3600u32 },
{
    let minutes = str_eq(unit, "UNIT_MINUTES");
    proof {
        reveal_strlit("UNIT_MINUTES");
        assert("UNIT_MINUTES"@ =~= unit_minutes());
    }
    if minutes { 60 } else { 3600 }
}

/// The log views the pod selector opens for the chosen pods: one per pod
/// when logs go to separate tabs, else one for all; none unless a cluster
/// and a namespace are chosen. Since is counted in seconds.
pub fn log_requests(
    models: &Vec<String>,
    cluster: &Option<String>,
    namespace: &Option<String>,
    since: u32,
    multiplier: u32,
    separate_tabs: bool,
) -> (reqs: Vec<CreateKubeLogData>)
    requires
        since * multiplier <= u32::MAX,
    ensures
        match (cluster, namespace) {
            (Some(c), Some(n)) => {
                &&& forall|k: int| 0 <= k < reqs.len() ==> {
                    &&& (#[trigger] reqs@[k]).cluster@ == c@
                    &&& reqs@[k].namespace@ == n@
                    &&& reqs@[k].since == since * multiplier
                }
                &&& if separate_tabs {
                    &&& reqs.len() == models.len()
                    &&& forall|k: int| 0 <= k < reqs.len() ==> views((#[trigger] reqs@[k]).pods@) == seq![models@[k]@]
                } else {
                    &&& reqs.len() == 1
                    &&& views(reqs@[0].pods@) == views(models@)
                }
            },
            _ => reqs.len() == 0,
        },
{
    let total = since * multiplier;
    let mut reqs: Vec<CreateKubeLogData> = Vec::new();
    match (cluster, namespace) {
        (Some(c), Some(n)) => {
            if separate_tabs {
                let mut i: usize = 0;
                while i < models.len()
                    invariant
                        i <= models.len(),
                        reqs.len() == i,
                        total == since * multiplier,
                        forall|k: int| 0 <= k < reqs.len() ==> {
                            &&& (#[trigger] reqs@[k]).cluster@ == c@
                            &&& reqs@[k].namespace@ == n@
                            &&& reqs@[k].since == total
                            &&& views(reqs@[k].pods@) == seq![models@[k]@]
                        },
                    decreases models.len() - i,
                {
                    let mut pods: Vec<String> = Vec::new();
                    pods.push(models[i].clone());
                    assert(views(pods@) =~= seq![models@[i as int]@]);
                    reqs.push(CreateKubeLogData { pods, cluster: c.clone(), namespace: n.clone(), since: total });
                    i = i + 1;
                }
            } else {
                reqs.push(CreateKubeLogData { pods: copy_strings(models), cluster: c.clone(), namespace: n.clone(), since: total });
            }
        },
        _ => {},
    }
    reqs
}

/// The name a pod is shown under in the pod list: its own, or `failed`
/// where it has none.
pub open spec fn shown_name(p: PodSummary) -> Seq<char> {
    match p.name {
        Some(n) => n@,
        None => "failed"@,
    }
}

/// The pod list's rows for the pods of a namespace: each pod's name and its
/// containers, in order.
pub fn pod_views(pods: &Vec<PodSummary>) -> (r: Vec<PodViewData>)
    ensures
        r.len() == pods.len(),
        forall|k: int| 0 <= k < r.len() ==> {
            &&& (#[trigger] r@[k]).name@ == shown_name(pods@[k])
            &&& r@[k].joined_containers() == join_with(views(pods@[k].containers@), seq![';'])
        },
{
    let mut r: Vec<PodViewData> = Vec::new();
    let mut i: usize = 0;
    while i < pods.len()
        invariant
            i <= pods.len(),
            r.len() == i,
            forall|k: int| 0 <= k < r.len() ==> {
                &&& (#[trigger] r@[k]).name@ == shown_name(pods@[k])
                &&& r@[k].joined_containers() == join_with(views(pods@[k].containers@), seq![';'])
            },
        decreases pods.len() - i,
    {
        let p = &pods[i];
        let name = match &p.name {
            Some(n) => n.clone(),
            None => "failed".to_owned(),
        };
        r.push(PodViewData::new(name, &p.containers));
        i = i + 1;
    }
    r
}

/// The seconds back that the kube action's dialog asks for: the number in
/// its since field, ten where it is none, times the seconds of its unit.
pub open spec fn since_from_text(text: Seq<u8>, unit: Seq<char>) -> int {
    (match crate::color::parse_u32_text(text) {
        Some(n) => n as int,
        None => 10,
    }) * (if unit == unit_minutes() { 60int } else { 3600int })
}

/// The seconds back that the since field `text` in `unit` asks for.
pub fn since_seconds_from(text: &str, unit: &str) -> (s: u32)
    requires
        since_from_text(text.spec_bytes(), unit@) <= u32::MAX,
    ensures
        s == since_from_text(text.spec_bytes(), unit@),
{
    let n = match crate::color::parse_u32(text.as_bytes()) {
        Some(n) => n,
        None => 10,
    };
    let m = since_multiplier(unit);
    n * m
}

/// What the pod selector keeps between its messages.
pub struct PodSelectorState {
    pub separate_tabs: bool,
    pub since_multiplier: u32,
    pub since: u32,
    pub selected_namespace: Option<String>,
    pub selected_cluster: Option<String>,
    pub include_replicas: bool,
}

impl PodSelectorState {
    /// A fresh selector: separate tabs, ten minutes back, replicas grouped,
    /// nothing chosen.
    pub fn new() -> (s: Self)
        ensures
            s.separate_tabs,
            s.since_multiplier == 60,
            s.since == 10,
            s.selected_namespace is None,
            s.selected_cluster is None,
            s.include_replicas,
    {
        PodSelectorState {
            separate_tabs: true,
            since_multiplier: 60,
            since: 10,
            selected_namespace: None,
            selected_cluster: None,
            include_replicas: true,
        }
    }

    /// Chooses the cluster `cluster`; returns whether it is another one than
    /// before, in which case its namespaces are to be loaded.
    pub fn cluster_changed(&mut self, cluster: String) -> (changed: bool)
        ensures
            changed == (crate::text::opt_view(old(self).selected_cluster) != Some(cluster@)),
            crate::text::opt_view(final(self).selected_cluster) == Some(cluster@),
            final(self).selected_namespace == old(self).selected_namespace,
            final(self).since == old(self).since,
            final(self).since_multiplier == old(self).since_multiplier,
            final(self).separate_tabs == old(self).separate_tabs,
            final(self).include_replicas == old(self).include_replicas,
    {
        let same = match &self.selected_cluster {
            Some(c) => str_eq(c.as_str(), cluster.as_str()),
            None => false,
        };
        if !same {
            self.selected_cluster = Some(cluster);
        }
        !same
    }

    /// The cluster the selector shows as chosen: the one chosen, else the
    /// current context of the kubeconfig file.
    pub fn cluster_to_select(&self, current_context: &str) -> (c: String)
        ensures
            c@ == match crate::text::opt_view(self.selected_cluster) {
                Some(s) => s,
                None => current_context@,
            },
    {
        match &self.selected_cluster {
            Some(c) => c.clone(),
            None => current_context.to_owned(),
        }
    }

    /// The namespace whose pods are listed: the one chosen, else `default`.
    pub fn pods_namespace(&self) -> (n: String)
        ensures
            n@ == match crate::text::opt_view(self.selected_namespace) {
                Some(s) => s,
                None => "default"@,
            },
    {
        match &self.selected_namespace {
            Some(n) => n.clone(),
            None => "default".to_owned(),
        }
    }

    /// Chooses the unit of the since field.
    pub fn since_unit_changed(&mut self, unit: &str)
        ensures
            final(self).since_multiplier == (if unit@ == unit_minutes() { 60u32 } else { 3600u32 }),
            final(self).since == old(self).since,
            final(self).separate_tabs == old(self).separate_tabs,
            final(self).include_replicas == old(self).include_replicas,
            final(self).selected_cluster == old(self).selected_cluster,
            final(self).selected_namespace == old(self).selected_namespace,
    {
        self.since_multiplier = since_multiplier(unit);
    }

    /// The log views to open for the pods `models` ticked in the list.
    pub fn confirm(&self, models: &Vec<String>) -> (reqs: Vec<CreateKubeLogData>)
        requires
            self.since * self.since_multiplier <= u32::MAX,
        ensures
            match (self.selected_cluster, self.selected_namespace) {
                (Some(c), Some(n)) => {
                    &&& forall|k: int| 0 <= k < reqs.len() ==> {
                        &&& (#[trigger] reqs@[k]).cluster@ == c@
                        &&& reqs@[k].namespace@ == n@
                        &&& reqs@[k].since == self.since * self.since_multiplier
                    }
                    &&& if self.separate_tabs {
                        &&& reqs.len() == models.len()
                        &&& forall|k: int| 0 <= k < reqs.len() ==> views((#[trigger] reqs@[k]).pods@) == seq![models@[k]@]
                    } else {
                        &&& reqs.len() == 1
                        &&& views(reqs@[0].pods@) == views(models@)
                    }
                },
                _ => reqs.len() == 0,
            },
    {
        log_requests(models, &self.selected_cluster, &self.selected_namespace, self.since, self.since_multiplier, self.separate_tabs)
    }
}

/// The requests for the pods `models` ticked in the selector `s`: one per
/// pod with separate tabs, else one for all; each for the chosen cluster
/// and namespace and `since` minutes or hours back in seconds; none unless
/// a cluster and a namespace are chosen.
pub open spec fn requests_for(s: PodSelectorState, models: Seq<String>, reqs: Seq<CreateKubeLogData>) -> bool {
    match (s.selected_cluster, s.selected_namespace) {
        (Some(c), Some(n)) => {
            &&& forall|k: int| 0 <= k < reqs.len() ==> {
                &&& (#[trigger] reqs[k]).cluster@ == c@
                &&& reqs[k].namespace@ == n@
                &&& reqs[k].since == s.since * s.since_multiplier
            }
            &&& if s.separate_tabs {
                &&& reqs.len() == models.len()
                &&& forall|k: int| 0 <= k < reqs.len() ==> views((#[trigger] reqs[k]).pods@) == seq![models[k]@]
            } else {
                &&& reqs.len() == 1
                &&& views(reqs[0].pods@) == views(models)
            }
        },
        _ => reqs.len() == 0,
    }
}

/// Copies of the rules `rules`.
fn copy_rules(rules: &Vec<Highlighter>) -> (r: Vec<Highlighter>)
    ensures
        r@ == rules@,
{
    let mut r: Vec<Highlighter> = Vec::new();
    let mut i: usize = 0;
    while i < rules.len()
        invariant
            i <= rules.len(),
            r@ == rules@.take(i as int),
        decreases rules.len() - i,
    {
        r.push(rules[i].copy());
        i = i + 1;
        assert(r@ =~= rules@.take(i as int));
    }
    assert(rules@.take(rules.len() as int) =~= rules@);
    r
}

impl PodSelectorState {
    /// The log views to open for the pods `models` ticked in the list, each
    /// starting with the rules `rules` chosen in the dialog.
    pub fn confirm_with_rules(&self, models: &Vec<String>, rules: &Vec<Highlighter>) -> (views: Vec<CreateLogView>)
        requires
            self.since * self.since_multiplier <= u32::MAX,
        ensures
            forall|k: int| 0 <= k < views.len() ==> (#[trigger] views@[k]).data is Kube,
            requests_for(*self, models@, views@.map_values(|v: CreateLogView| v.data->Kube_0)),
            forall|k: int| 0 <= k < views.len() ==> ((#[trigger] views@[k]).rules matches Some(rs) && rs@ == rules@),
    {
        let mut reqs = self.confirm(models);
        let ghost all = reqs@;
        assert(requests_for(*self, models@, all));
        let mut views: Vec<CreateLogView> = Vec::new();
        while reqs.len() > 0
            invariant
                views.len() + reqs.len() == all.len(),
                reqs@ == all.skip(views.len() as int),
                forall|k: int| 0 <= k < views.len() ==> (#[trigger] views@[k]).data == LogViewData::Kube(all[k]),
                forall|k: int| 0 <= k < views.len() ==> ((#[trigger] views@[k]).rules matches Some(rs) && rs@ == rules@),
            decreases reqs.len(),
        {
            let r = reqs.remove(0);
            assert(r == all[views.len() as int]);
            let v = CreateLogView::with_rules(LogViewData::Kube(r), copy_rules(rules));
            views.push(v);
            assert(reqs@ =~= all.skip(views.len() as int));
        }
        assert(views@.map_values(|v: CreateLogView| v.data->Kube_0) =~= all);
        views
    }
}

/// What the pod selector does for a message of its dialog.
pub enum SelectorAction {
    /// List the contexts and show the dialog.
    ShowDialog,
    /// Hide the dialog.
    HideDialog,
    /// Hide the dialog and open views for the ticked pods.
    OpenViews,
    /// List the pods of the chosen namespace again.
    ReloadPods,
    /// Build a client for the chosen cluster and list its namespaces.
    LoadNamespaces,
    /// Nothing to do beyond the state change.
    Nothing,
}

impl PodSelectorState {
    /// Takes one message of the dialog.
    pub fn update(&mut self, msg: crate::model::PodSelectorMsg) -> (a: SelectorAction)
        ensures
            match msg {
                crate::model::PodSelectorMsg::Show => a is ShowDialog && *final(self) == *old(self),
                crate::model::PodSelectorMsg::Close => a is HideDialog && *final(self) == *old(self),
                crate::model::PodSelectorMsg::Confirm => a is OpenViews && *final(self) == *old(self),
                crate::model::PodSelectorMsg::ToggleIncludeReplicas(b) => a is ReloadPods
                    && *final(self) == (PodSelectorState { include_replicas: b, ..*old(self) }),
                crate::model::PodSelectorMsg::ToggleSeparateTabs(b) => a is Nothing
                    && *final(self) == (PodSelectorState { separate_tabs: b, ..*old(self) }),
                crate::model::PodSelectorMsg::SinceUnitChanged(u) => a is Nothing
                    && final(self).since_multiplier == (if u@ == unit_minutes() { 60u32 } else { 3600u32 })
                    && *final(self) == (PodSelectorState { since_multiplier: final(self).since_multiplier, ..*old(self) }),
                crate::model::PodSelectorMsg::SinceChanged(n) => a is Nothing
                    && *final(self) == (PodSelectorState { since: n, ..*old(self) }),
                crate::model::PodSelectorMsg::ClusterChanged(c) => {
                    &&& (a is LoadNamespaces) == (crate::text::opt_view(old(self).selected_cluster) != Some(c@))
                    &&& (a is Nothing) == (crate::text::opt_view(old(self).selected_cluster) == Some(c@))
                    &&& crate::text::opt_view(final(self).selected_cluster) == Some(c@)
                    &&& *final(self) == (PodSelectorState { selected_cluster: final(self).selected_cluster, ..*old(self) })
                },
                crate::model::PodSelectorMsg::NamespaceChanged(n) => a is ReloadPods
                    && *final(self) == (PodSelectorState { selected_namespace: Some(n), ..*old(self) }),
            },
    {
        match msg {
            crate::model::PodSelectorMsg::Show => SelectorAction::ShowDialog,
            crate::model::PodSelectorMsg::Close => SelectorAction::HideDialog,
            crate::model::PodSelectorMsg::Confirm => SelectorAction::OpenViews,
            crate::model::PodSelectorMsg::ToggleIncludeReplicas(b) => {
                self.include_replicas = b;
                SelectorAction::ReloadPods
            },
            crate::model::PodSelectorMsg::ToggleSeparateTabs(b) => {
                self.separate_tabs = b;
                SelectorAction::Nothing
            },
            crate::model::PodSelectorMsg::SinceUnitChanged(u) => {
                self.since_unit_changed(u.as_str());
                SelectorAction::Nothing
            },
            crate::model::PodSelectorMsg::SinceChanged(n) => {
                self.since = n;
                SelectorAction::Nothing
            },
            crate::model::PodSelectorMsg::ClusterChanged(c) => {
                if self.cluster_changed(c) { SelectorAction::LoadNamespaces } else { SelectorAction::Nothing }
            },
            crate::model::PodSelectorMsg::NamespaceChanged(n) => {
                self.selected_namespace = Some(n);
                SelectorAction::ReloadPods
            },
        }
    }
}

} // verus!

verus! {

/// The pod list: with replicas grouped, every pod with a container is
/// listed under its first container and nothing else is listed but those
/// names (and the empty name of a pod without containers); with replicas
/// shown, every named pod is listed under its own name. Each name once.
pub proof fn lemma_pod_list_shows(pods: Seq<PodSummary>)
    ensures
        forall|i: int| 0 <= i < pods.len() && pods[i].containers.len() > 0
            ==> #[trigger] dedup(listed_names(pods, true)).contains(pods[i].containers@[0]@),
        forall|x: Seq<char>| #[trigger] dedup(listed_names(pods, true)).contains(x) ==> exists|i: int|
            0 <= i < pods.len() && (if pods[i].containers.len() > 0 {
                x == pods[i].containers@[0]@
            } else {
                x == Seq::<char>::empty()
            }),
        forall|i: int| 0 <= i < pods.len() && pods[i].name is Some
            ==> #[trigger] dedup(listed_names(pods, false)).contains(pods[i].name->0@),
        dedup(listed_names(pods, true)).no_duplicates(),
        dedup(listed_names(pods, false)).no_duplicates(),
{
    lemma_dedup(listed_names(pods, true));
    lemma_dedup(listed_names(pods, false));
    assert forall|i: int| 0 <= i < pods.len() && pods[i].containers.len() > 0
        implies #[trigger] dedup(listed_names(pods, true)).contains(pods[i].containers@[0]@) by {
        let ln = listed_names(pods, true);
        assert(ln.len() == pods.len());
        assert(ln[i] == listed_name(pods[i], true));
        assert(ln[i] == pods[i].containers@[0]@);
        assert(ln.contains(pods[i].containers@[0]@));
    }
    assert forall|x: Seq<char>| #[trigger] dedup(listed_names(pods, true)).contains(x) implies exists|i: int|
        0 <= i < pods.len() && (if pods[i].containers.len() > 0 {
            x == pods[i].containers@[0]@
        } else {
            x == Seq::<char>::empty()
        }) by {
        let ln = listed_names(pods, true);
        assert(ln.contains(x));
        let k = choose|k: int| 0 <= k < ln.len() && ln[k] == x;
        assert(ln.len() == pods.len());
        assert(ln[k] == listed_name(pods[k], true));
    }
    assert forall|i: int| 0 <= i < pods.len() && pods[i].name is Some
        implies #[trigger] dedup(listed_names(pods, false)).contains(pods[i].name->0@) by {
        let ln = listed_names(pods, false);
        assert(ln.len() == pods.len());
        assert(ln[i] == listed_name(pods[i], false));
        assert(ln.contains(pods[i].name->0@));
    }
}

} // verus!
