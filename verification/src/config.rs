use vstd::prelude::*;
use crate::assoc::{assoc_map, keys_of, lemma_assoc_lookup, unique_keys};
use crate::search::{searches_from, searches_view, valid_searches, SearchData};
use crate::text::{str_eq, views};

verus! {

/// How the log view shows lines.
pub struct LogViewSettings {
    pub wrap_text: bool,
    pub show_pod_names: bool,
    pub show_container_names: bool,
    pub show_timestamps: bool,
    pub font: String,
}

/// A configured highlighter: the pattern of the lines it marks, and the
/// colour it marks them with.
pub struct Highlighter {
    pub search: String,
    pub color: String,
}

/// The viewer's configuration: the kubeconfig files it knows, the
/// highlighters by name, and the log view settings.
pub struct Config {
    pub k8s_configs: Vec<String>,
    pub highlighters: Vec<(String, Highlighter)>,
    pub log_view_settings: LogViewSettings,
}

/// A platform the viewer picks its default font for.
#[derive(Clone, Copy, Debug, PartialEq, Eq, Structural)]
pub enum Platform {
    Linux,
    Windows,
    MacOs,
}

/// The default font of the log view on a platform.
pub open spec fn default_font_text(p: Platform) -> Seq<char> {
    match p {
        Platform::Linux => "13px Monospace"@,
        Platform::Windows => "15px Consolas"@,
        Platform::MacOs => "14px Courier"@,
    }
}

/// The default font of the log view on a platform.
pub fn default_font(p: Platform) -> (f: String)
    ensures
        f@ == default_font_text(p),
{
    match p {
        Platform::Linux => "13px Monospace".to_owned(),
        Platform::Windows => "15px Consolas".to_owned(),
        Platform::MacOs => "14px Courier".to_owned(),
    }
}

/// The pattern of the highlighter for warnings.
pub open spec fn warnings_search() -> Seq<char> {
    ".*\\s((?i)warn(?-i))\\s.*"@
}

/// The pattern of the highlighter for errors.
pub open spec fn errors_search() -> Seq<char> {
    ".*\\s((?i)error|fatal|failed(?-i))\\s.*"@
}

/// A highlighter as its name, pattern and colour.
pub open spec fn highlighter_view(h: (String, Highlighter)) -> (Seq<char>, Seq<char>, Seq<char>) {
    (h.0@, h.1.search@, h.1.color@)
}

/// The highlighters of a configuration, as the map from name to pattern and
/// colour.
pub open spec fn highlighter_pairs(v: Seq<(String, Highlighter)>) -> Seq<(Seq<char>, (Seq<char>, Seq<char>))> {
    v.map_values(|h: (String, Highlighter)| (h.0@, (h.1.search@, h.1.color@)))
}

impl Config {
    /// The highlighters by name, as pattern and colour.
    pub closed spec fn highlighters_view(&self) -> Map<Seq<char>, (Seq<char>, Seq<char>)> {
        assoc_map(highlighter_pairs(self.highlighters@))
    }

    /// The highlighters in the order they are kept.
    pub closed spec fn highlighter_list(&self) -> Seq<(Seq<char>, Seq<char>, Seq<char>)> {
        self.highlighters@.map_values(|h: (String, Highlighter)| highlighter_view(h))
    }

    /// No highlighter name occurs twice.
    pub closed spec fn wf(&self) -> bool {
        unique_keys(highlighter_pairs(self.highlighters@))
    }

    /// The configuration of a first start on `platform`: no kubeconfig
    /// files, highlighters for warnings and errors, and every display
    /// option off.
    pub fn default_for(platform: Platform) -> (c: Self)
        ensures
            c.wf(),
            c.k8s_configs@.len() == 0,
            c.highlighters_view() == Map::<Seq<char>, (Seq<char>, Seq<char>)>::empty()
                .insert("Warnings"@, (warnings_search(), "rgb(207,111,57)"@))
                .insert("Errors"@, (errors_search(), "rgb(244,94,94)"@)),
            !c.log_view_settings.wrap_text,
            !c.log_view_settings.show_pod_names,
            !c.log_view_settings.show_container_names,
            !c.log_view_settings.show_timestamps,
            c.log_view_settings.font@ == default_font_text(platform),
    {
        let mut highlighters: Vec<(String, Highlighter)> = Vec::new();
        highlighters.push((
            "Warnings".to_owned(),
            Highlighter { search: ".*\\s((?i)warn(?-i))\\s.*".to_owned(), color: "rgb(207,111,57)".to_owned() },
        ));
        highlighters.push((
            "Errors".to_owned(),
            Highlighter { search: ".*\\s((?i)error|fatal|failed(?-i))\\s.*".to_owned(), color: "rgb(244,94,94)".to_owned() },
        ));
        let c = Config {
            k8s_configs: Vec::new(),
            highlighters,
            log_view_settings: LogViewSettings {
                wrap_text: false,
                show_pod_names: false,
                show_container_names: false,
                show_timestamps: false,
                font: default_font(platform),
            },
        };
        proof {
            reveal_strlit("Warnings");
            reveal_strlit("Errors");
            let p = highlighter_pairs(c.highlighters@);
            assert(p[0].0 == "Warnings"@);
            assert(p[1].0 == "Errors"@);
            assert(p[0].0.len() != p[1].0.len());
            assert(p[0].0 != p[1].0);
            assert(p[0].1 == (warnings_search(), "rgb(207,111,57)"@));
            assert(p[1].1 == (errors_search(), "rgb(244,94,94)"@));
            assert(p.drop_last().drop_last() =~= Seq::<(Seq<char>, (Seq<char>, Seq<char>))>::empty());
            assert(assoc_map(p.drop_last().drop_last()) == Map::<Seq<char>, (Seq<char>, Seq<char>)>::empty());
            assert(p.drop_last().last() == p[0]);
            assert(assoc_map(p.drop_last()) == Map::<Seq<char>, (Seq<char>, Seq<char>)>::empty().insert(p[0].0, p[0].1));
            assert(p.last() == p[1]);
            assert(assoc_map(p) == assoc_map(p.drop_last()).insert(p[1].0, p[1].1));
        }
        c
    }

    /// Adds the kubeconfig file `path`.
    pub fn add_k8s_config(&mut self, path: String)
        ensures
            final(self).k8s_configs@ == old(self).k8s_configs@.push(path),
            final(self).highlighters_view() == old(self).highlighters_view(),
            final(self).wf() == old(self).wf(),
    {
        self.k8s_configs.push(path);
    }

    /// Removes the first entry of the kubeconfig file `path`, if any.
    pub fn remove_k8s_config(&mut self, path: &str)
        ensures
            match first_index_of(views(old(self).k8s_configs@), path@) {
                Some(i) => final(self).k8s_configs@ == old(self).k8s_configs@.remove(i),
                None => final(self).k8s_configs@ == old(self).k8s_configs@,
            },
            final(self).highlighters_view() == old(self).highlighters_view(),
            final(self).wf() == old(self).wf(),
    {
        let mut i: usize = 0;
        while i < self.k8s_configs.len()
            invariant
                i <= self.k8s_configs.len(),
                self.k8s_configs@ == old(self).k8s_configs@,
                self.highlighters@ == old(self).highlighters@,
                first_index_of(views(self.k8s_configs@).take(i as int), path@) is None,
            decreases self.k8s_configs.len() - i,
        {
            assert(views(self.k8s_configs@).take(i + 1).drop_last() =~= views(self.k8s_configs@).take(i as int));
            if str_eq(self.k8s_configs[i].as_str(), path) {
                proof {
                    lemma_first_index_prefix(views(self.k8s_configs@), path@, (i + 1) as nat);
                }
                self.k8s_configs.remove(i);
                return;
            }
            i = i + 1;
        }
        assert(views(self.k8s_configs@).take(self.k8s_configs.len() as int) =~= views(self.k8s_configs@));
    }

    /// The highlighter named `name`.
    pub fn highlighter(&self, name: &str) -> (r: Option<&Highlighter>)
        requires
            self.wf(),
        ensures
            match r {
                Some(h) => self.highlighters_view().contains_key(name@)
                    && self.highlighters_view()[name@] == (h.search@, h.color@),
                None => !self.highlighters_view().contains_key(name@),
            },
    {
        let ghost pairs = highlighter_pairs(self.highlighters@);
        proof {
            lemma_assoc_lookup(pairs);
        }
        let mut i: usize = 0;
        while i < self.highlighters.len()
            invariant
                i <= self.highlighters.len(),
                pairs == highlighter_pairs(self.highlighters@),
                forall|q: int| 0 <= q < pairs.len() ==> #[trigger] assoc_map(pairs)[pairs[q].0] == pairs[q].1,
                forall|k: Seq<char>| #[trigger] assoc_map(pairs).contains_key(k) <==> keys_of(pairs).contains(k),
                forall|q: int| 0 <= q < i ==> pairs[q].0 != name@,
            decreases self.highlighters.len() - i,
        {
            if str_eq(self.highlighters[i].0.as_str(), name) {
                assert(keys_of(pairs)[i as int] == name@);
                assert(assoc_map(pairs)[pairs[i as int].0] == pairs[i as int].1);
                return Some(&self.highlighters[i].1);
            }
            i = i + 1;
        }
        assert(!keys_of(pairs).contains(name@)) by {
            if keys_of(pairs).contains(name@) {
                let q = choose|q: int| 0 <= q < keys_of(pairs).len() && keys_of(pairs)[q] == name@;
                assert(pairs[q].0 == name@);
            }
        }
        None
    }

    /// The names of the highlighters, in the order they are kept.
    pub fn highlighter_names(&self) -> (names: Vec<String>)
        ensures
            views(names@) == self.highlighter_list().map_values(|h: (Seq<char>, Seq<char>, Seq<char>)| h.0),
    {
        let mut names: Vec<String> = Vec::new();
        let mut i: usize = 0;
        while i < self.highlighters.len()
            invariant
                i <= self.highlighters.len(),
                views(names@) == self.highlighter_list().take(i as int).map_values(|h: (Seq<char>, Seq<char>, Seq<char>)| h.0),
            decreases self.highlighters.len() - i,
        {
            let ghost before = views(names@);
            let n = self.highlighters[i].0.clone();
            names.push(n);
            proof {
                let f = |h: (Seq<char>, Seq<char>, Seq<char>)| h.0;
                let l = self.highlighter_list();
                assert(views(names@) =~= before.push(n@));
                assert(l.take(i + 1).map_values(f) =~= l.take(i as int).map_values(f).push(l[i as int].0));
                assert(l[i as int].0 == self.highlighters@[i as int].0@);
            }
            i = i + 1;
        }
        assert(self.highlighter_list().take(i as int) =~= self.highlighter_list());
        names
    }

    /// The searches of the highlighters whose pattern compiles, in the order
    /// the highlighters are kept.
    pub fn searches(&self) -> (r: Vec<SearchData>)
        ensures
            forall|k: int| 0 <= k < r.len() ==> (#[trigger] r@[k]).wf(),
            searches_view(r@) == valid_searches(
                self.highlighter_list().map_values(|h: (Seq<char>, Seq<char>, Seq<char>)| (h.0, h.1)),
            ),
    {
        let mut names: Vec<String> = Vec::new();
        let mut patterns: Vec<String> = Vec::new();
        let mut i: usize = 0;
        while i < self.highlighters.len()
            invariant
                i <= self.highlighters.len(),
                names.len() == i,
                patterns.len() == i,
                views(names@).zip_with(views(patterns@))
                    == self.highlighter_list().take(i as int).map_values(|h: (Seq<char>, Seq<char>, Seq<char>)| (h.0, h.1)),
            decreases self.highlighters.len() - i,
        {
            let ghost before = views(names@).zip_with(views(patterns@));
            let n = self.highlighters[i].0.clone();
            let q = self.highlighters[i].1.search.clone();
            names.push(n);
            patterns.push(q);
            proof {
                let f = |h: (Seq<char>, Seq<char>, Seq<char>)| (h.0, h.1);
                let l = self.highlighter_list();
                assert(views(names@).zip_with(views(patterns@)) =~= before.push((n@, q@)));
                assert(l.take(i + 1).map_values(f) =~= l.take(i as int).map_values(f).push((l[i as int].0, l[i as int].1)));
                assert(l[i as int].0 == self.highlighters@[i as int].0@);
                assert(l[i as int].1 == self.highlighters@[i as int].1.search@);
            }
            i = i + 1;
        }
        assert(self.highlighter_list().take(i as int) =~= self.highlighter_list());
        searches_from(&names, &patterns)
    }
}

/// Where `x` first occurs in `s`.
pub open spec fn first_index_of<A>(s: Seq<A>, x: A) -> Option<int>
    decreases s.len(),
{
    if s.len() == 0 {
        None
    } else {
        match first_index_of(s.drop_last(), x) {
            Some(i) => Some(i),
            None => if s.last() == x { Some(s.len() - 1) } else { None },
        }
    }
}

proof fn lemma_first_index_prefix<A>(s: Seq<A>, x: A, k: nat)
    requires
        k <= s.len(),
        first_index_of(s.take(k as int), x) is Some,
    ensures
        first_index_of(s, x) == first_index_of(s.take(k as int), x),
    decreases s.len() - k,
{
    if k < s.len() {
        assert(s.take(k + 1 as int).drop_last() =~= s.take(k as int));
        lemma_first_index_prefix(s, x, k + 1);
    } else {
        assert(s.take(k as int) =~= s);
    }
}

/// The fonts of the log view and of the minimap.
pub struct Settings {
    pub log_view_font: String,
    pub minimap_font: String,
}

impl Default for Settings {
    /// Monospace fonts of 13 pixels for the log view and one pixel for the
    /// minimap.
    fn default() -> (s: Self)
        ensures
            s.log_view_font@ == "13px Monospace"@,
            s.minimap_font@ == "1px Monospace"@,
    {
        Settings { log_view_font: "13px Monospace".to_owned(), minimap_font: "1px Monospace".to_owned() }
    }
}

} // verus!
