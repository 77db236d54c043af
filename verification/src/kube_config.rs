use vstd::prelude::*;
use crate::text::{copy_opt, opt_view, str_eq};

verus! {

/// An extension entry of a kubeconfig file.
pub struct Extension {
    pub extension: String,
}

impl View for Extension {
    type V = Seq<char>;

    open spec fn view(&self) -> Seq<char> {
        self.extension@
    }
}

impl Extension {
    /// A copy of this extension.
    pub fn copy(&self) -> (r: Self)
        ensures
            r@ == self@,
    {
        Extension { extension: self.extension.clone() }
    }
}

/// An extension with the name it is filed under.
pub struct NamedExtension {
    pub name: String,
    pub extension: Extension,
}

impl View for NamedExtension {
    type V = (Seq<char>, Seq<char>);

    open spec fn view(&self) -> (Seq<char>, Seq<char>) {
        (self.name@, self.extension@)
    }
}

impl NamedExtension {
    /// A copy of this entry.
    pub fn copy(&self) -> (r: Self)
        ensures
            r@ == self@,
    {
        NamedExtension { name: self.name.clone(), extension: self.extension.copy() }
    }
}

/// The views of optional named extensions.
pub open spec fn named_extensions_view(e: Option<Vec<NamedExtension>>) -> Option<Seq<(Seq<char>, Seq<char>)>> {
    match e {
        Some(v) => Some(v@.map_values(|x: NamedExtension| x@)),
        None => None,
    }
}

/// A copy of optional named extensions.
pub fn copy_named_extensions(e: &Option<Vec<NamedExtension>>) -> (r: Option<Vec<NamedExtension>>)
    ensures
        named_extensions_view(r) == named_extensions_view(*e),
{
    match e {
        None => None,
        Some(v) => {
            let mut out: Vec<NamedExtension> = Vec::new();
            let mut i: usize = 0;
            while i < v.len()
                invariant
                    i <= v.len(),
                    out@.map_values(|x: NamedExtension| x@) =~= v@.map_values(|x: NamedExtension| x@).take(i as int),
                decreases v.len() - i,
            {
                let ghost before = out@;
                let c = v[i].copy();
                out.push(c);
                assert(out@.map_values(|x: NamedExtension| x@) =~= before.map_values(|x: NamedExtension| x@).push(c@));
                i = i + 1;
            }
            assert(v@.map_values(|x: NamedExtension| x@).take(v.len() as int) =~= v@.map_values(|x: NamedExtension| x@));
            Some(out)
        },
    }
}

/// Display preferences of a kubeconfig file.
pub struct Preferences {
    pub colors: Option<bool>,
    pub extensions: Option<Vec<NamedExtension>>,
}

/// What a cluster's entry of a kubeconfig file reads.
pub struct ClusterView {
    pub server: Seq<char>,
    pub insecure_tls: Option<bool>,
    pub ca_file: Option<Seq<char>>,
    pub ca_data: Option<Seq<char>>,
    pub extensions: Option<Seq<(Seq<char>, Seq<char>)>>,
}

/// How to reach one cluster. The server address is kept as written.
pub struct Cluster {
    pub server: String,
    pub insecure_tls: Option<bool>,
    pub ca_file: Option<String>,
    pub ca_data: Option<String>,
    pub extensions: Option<Vec<NamedExtension>>,
}

impl View for Cluster {
    type V = ClusterView;

    open spec fn view(&self) -> ClusterView {
        ClusterView {
            server: self.server@,
            insecure_tls: self.insecure_tls,
            ca_file: opt_view(self.ca_file),
            ca_data: opt_view(self.ca_data),
            extensions: named_extensions_view(self.extensions),
        }
    }
}

impl Cluster {
    /// A copy of this cluster entry.
    pub fn copy(&self) -> (r: Self)
        ensures
            r@ == self@,
    {
        Cluster {
            server: self.server.clone(),
            insecure_tls: self.insecure_tls,
            ca_file: copy_opt(&self.ca_file),
            ca_data: copy_opt(&self.ca_data),
            extensions: copy_named_extensions(&self.extensions),
        }
    }
}

/// A cluster entry with the name it is filed under.
pub struct NamedCluster {
    pub name: String,
    pub cluster: Cluster,
}

/// What a user's entry of a kubeconfig file reads.
pub struct AuthInfoView {
    pub username: Option<Seq<char>>,
    pub password: Option<Seq<char>>,
    pub token: Option<Seq<char>>,
    pub token_file: Option<Seq<char>>,
    pub client_certificate_file: Option<Seq<char>>,
    pub client_certificate_data: Option<Seq<char>>,
    pub client_key_file: Option<Seq<char>>,
    pub client_key_data: Option<Seq<char>>,
    pub impersonate: Option<Seq<char>>,
}

/// The credentials of one user.
pub struct AuthInfo {
    pub username: Option<String>,
    pub password: Option<String>,
    pub token: Option<String>,
    pub token_file: Option<String>,
    pub client_certificate_file: Option<String>,
    pub client_certificate_data: Option<String>,
    pub client_key_file: Option<String>,
    pub client_key_data: Option<String>,
    pub impersonate: Option<String>,
}

impl View for AuthInfo {
    type V = AuthInfoView;

    open spec fn view(&self) -> AuthInfoView {
        AuthInfoView {
            username: opt_view(self.username),
            password: opt_view(self.password),
            token: opt_view(self.token),
            token_file: opt_view(self.token_file),
            client_certificate_file: opt_view(self.client_certificate_file),
            client_certificate_data: opt_view(self.client_certificate_data),
            client_key_file: opt_view(self.client_key_file),
            client_key_data: opt_view(self.client_key_data),
            impersonate: opt_view(self.impersonate),
        }
    }
}

impl AuthInfo {
    /// A copy of these credentials.
    pub fn copy(&self) -> (r: Self)
        ensures
            r@ == self@,
    {
        AuthInfo {
            username: copy_opt(&self.username),
            password: copy_opt(&self.password),
            token: copy_opt(&self.token),
            token_file: copy_opt(&self.token_file),
            client_certificate_file: copy_opt(&self.client_certificate_file),
            client_certificate_data: copy_opt(&self.client_certificate_data),
            client_key_file: copy_opt(&self.client_key_file),
            client_key_data: copy_opt(&self.client_key_data),
            impersonate: copy_opt(&self.impersonate),
        }
    }
}

/// A user entry with the name it is filed under.
pub struct NamedAuthInfo {
    pub name: String,
    pub user: AuthInfo,
}

/// A context: which cluster to talk to, as which user, in which namespace.
pub struct Context {
    pub cluster: String,
    pub user: String,
    pub namespace: Option<String>,
    pub extensions: Option<Vec<Extension>>,
}

/// A context with the name it is filed under.
pub struct NamedContext {
    pub name: String,
    pub context: Context,
}

/// A kubeconfig file.
pub struct KubeConfig {
    pub kind: Option<String>,
    pub api_version: Option<String>,
    pub preferences: Option<Preferences>,
    pub clusters: Vec<NamedCluster>,
    pub users: Vec<NamedAuthInfo>,
    pub contexts: Vec<NamedContext>,
    pub current_context: String,
    pub extensions: Option<Vec<NamedExtension>>,
}

/// Everything needed to build a client for one context.
pub struct ClusterContext {
    pub name: String,
    pub cluster: Cluster,
    pub user: AuthInfo,
    pub namespace: Option<String>,
    pub extensions: Option<Vec<Extension>>,
}

/// Why a context could not be resolved; each carries the context name
/// that was asked for.
pub enum ContextError {
    UnknownContext(String),
    AmbiguousContext(String),
    UnknownCluster(String),
    AmbiguousCluster(String),
    UnknownAuthInfo(String),
    AmbiguousAuthInfo(String),
}

/// How many entries of `names` equal `x`.
pub open spec fn name_count(names: Seq<Seq<char>>, x: Seq<char>) -> nat
    decreases names.len(),
{
    if names.len() == 0 {
        0
    } else {
        name_count(names.drop_last(), x) + (if names.last() == x { 1nat } else { 0nat })
    }
}

/// The outcome of looking a name up in a list of named entries.
pub enum Lookup {
    Missing,
    Ambiguous,
    Found(usize),
}

/// Looking `x` up in `names`: missing, ambiguous, or found exactly once.
pub open spec fn lookup_ok(names: Seq<Seq<char>>, x: Seq<char>, r: Lookup) -> bool {
    match r {
        Lookup::Missing => name_count(names, x) == 0,
        Lookup::Ambiguous => name_count(names, x) > 1,
        Lookup::Found(i) => name_count(names, x) == 1 && i < names.len() && names[i as int] == x,
    }
}

/// Finds the one entry of `names` that equals `name`.
pub fn lookup(names: &Vec<String>, name: &str) -> (r: Lookup)
    ensures
        lookup_ok(names@.map_values(|s: String| s@), name@, r),
{
    let ghost ns = names@.map_values(|s: String| s@);
    let mut count: usize = 0;
    let mut found: usize = 0;
    let mut i: usize = 0;
    while i < names.len()
        invariant
            i <= names.len(),
            ns == names@.map_values(|s: String| s@),
            count <= 2,
            count == 0 ==> name_count(ns.take(i as int), name@) == 0,
            count == 1 ==> name_count(ns.take(i as int), name@) == 1 && found < i && ns[found as int] == name@,
            count == 2 ==> name_count(ns.take(i as int), name@) >= 2,
        decreases names.len() - i,
    {
        assert(ns.take(i + 1).drop_last() =~= ns.take(i as int));
        assert(ns.take(i + 1).last() == names@[i as int]@);
        if str_eq(names[i].as_str(), name) {
            if count == 0 {
                found = i;
            }
            if count < 2 {
                count = count + 1;
            }
        }
        i = i + 1;
    }
    assert(ns.take(names.len() as int) =~= ns);
    if count == 0 {
        Lookup::Missing
    } else if count == 1 {
        Lookup::Found(found)
    } else {
        Lookup::Ambiguous
    }
}

/// The names the contexts are filed under.
pub open spec fn context_names(cfg: &KubeConfig) -> Seq<Seq<char>> {
    cfg.contexts@.map_values(|c: NamedContext| c.name@)
}

/// The names the clusters are filed under.
pub open spec fn cluster_names(cfg: &KubeConfig) -> Seq<Seq<char>> {
    cfg.clusters@.map_values(|c: NamedCluster| c.name@)
}

/// The names the users are filed under.
pub open spec fn user_names(cfg: &KubeConfig) -> Seq<Seq<char>> {
    cfg.users@.map_values(|c: NamedAuthInfo| c.name@)
}

impl ContextError {
    /// The message shown for this error.
    pub fn message(&self) -> (m: String)
        ensures
            m@ == self.message_text(),
    {
        let (prefix, name) = match self {
            ContextError::UnknownContext(n) => ("unknown context ", n),
            ContextError::AmbiguousContext(n) => ("ambiguous context ", n),
            ContextError::UnknownCluster(n) => ("unknown cluster ", n),
            ContextError::AmbiguousCluster(n) => ("ambiguous cluster ", n),
            ContextError::UnknownAuthInfo(n) => ("unknown auth-info ", n),
            ContextError::AmbiguousAuthInfo(n) => ("ambiguous auth-info ", n),
        };
        let mut m = prefix.to_owned();
        m.append(name.as_str());
        m
    }

    /// The message text: what went wrong, then the context name.
    pub open spec fn message_text(&self) -> Seq<char> {
        match self {
            ContextError::UnknownContext(n) => "unknown context "@ + n@,
            ContextError::AmbiguousContext(n) => "ambiguous context "@ + n@,
            ContextError::UnknownCluster(n) => "unknown cluster "@ + n@,
            ContextError::AmbiguousCluster(n) => "ambiguous cluster "@ + n@,
            ContextError::UnknownAuthInfo(n) => "unknown auth-info "@ + n@,
            ContextError::AmbiguousAuthInfo(n) => "ambiguous auth-info "@ + n@,
        }
    }
}

impl KubeConfig {
    /// The names of the contexts, in file order.
    pub fn context_name_list(&self) -> (names: Vec<String>)
        ensures
            names@.map_values(|s: String| s@) == context_names(self),
    {
        let mut names: Vec<String> = Vec::new();
        let mut i: usize = 0;
        while i < self.contexts.len()
            invariant
                i <= self.contexts.len(),
                names@.map_values(|s: String| s@) =~= context_names(self).take(i as int),
            decreases self.contexts.len() - i,
        {
            let ghost before = names@;
            let c = self.contexts[i].name.clone();
            names.push(c);
            assert(names@.map_values(|s: String| s@) =~= before.map_values(|s: String| s@).push(c@));
            i = i + 1;
        }
        assert(context_names(self).take(self.contexts.len() as int) =~= context_names(self));
        names
    }

    /// Resolves the context `name` into its cluster and user. Each of the
    /// three lookups must find exactly one entry.
    pub fn context(&self, name: &str) -> (r: Result<ClusterContext, ContextError>)
        ensures
            ({
                let cn = context_names(self);
                match r {
                    Err(ContextError::UnknownContext(n)) => n@ == name@ && name_count(cn, name@) == 0,
                    Err(ContextError::AmbiguousContext(n)) => n@ == name@ && name_count(cn, name@) > 1,
                    Err(ContextError::UnknownCluster(n)) => n@ == name@ && name_count(cn, name@) == 1
                        && exists|ci: int| 0 <= ci < cn.len() && cn[ci] == name@
                            && name_count(cluster_names(self), self.contexts@[ci].context.cluster@) == 0,
                    Err(ContextError::AmbiguousCluster(n)) => n@ == name@ && name_count(cn, name@) == 1
                        && exists|ci: int| 0 <= ci < cn.len() && cn[ci] == name@
                            && name_count(cluster_names(self), self.contexts@[ci].context.cluster@) > 1,
                    Err(ContextError::UnknownAuthInfo(n)) => n@ == name@ && name_count(cn, name@) == 1
                        && exists|ci: int| 0 <= ci < cn.len() && cn[ci] == name@
                            && name_count(cluster_names(self), self.contexts@[ci].context.cluster@) == 1
                            && name_count(user_names(self), self.contexts@[ci].context.user@) == 0,
                    Err(ContextError::AmbiguousAuthInfo(n)) => n@ == name@ && name_count(cn, name@) == 1
                        && exists|ci: int| 0 <= ci < cn.len() && cn[ci] == name@
                            && name_count(cluster_names(self), self.contexts@[ci].context.cluster@) == 1
                            && name_count(user_names(self), self.contexts@[ci].context.user@) > 1,
                    Ok(c) => c.name@ == name@ && c.extensions is None && name_count(cn, name@) == 1
                        && exists|ci: int, ki: int, ui: int|
                            0 <= ci < cn.len() && cn[ci] == name@
                            && 0 <= ki < self.clusters.len() && 0 <= ui < self.users.len()
                            && name_count(cluster_names(self), self.contexts@[ci].context.cluster@) == 1
                            && self.clusters@[ki].name@ == self.contexts@[ci].context.cluster@
                            && name_count(user_names(self), self.contexts@[ci].context.user@) == 1
                            && self.users@[ui].name@ == self.contexts@[ci].context.user@
                            && c.cluster@ == self.clusters@[ki].cluster@
                            && c.user@ == self.users@[ui].user@
                            && opt_view(c.namespace) == opt_view(self.contexts@[ci].context.namespace),
                }
            }),
    {
        let names = self.context_name_list();
        let ci = match lookup(&names, name) {
            Lookup::Missing => return Err(ContextError::UnknownContext(name.to_owned())),
            Lookup::Ambiguous => return Err(ContextError::AmbiguousContext(name.to_owned())),
            Lookup::Found(i) => i,
        };
        let ctx = &self.contexts[ci].context;

        let mut cluster_list: Vec<String> = Vec::new();
        let mut i: usize = 0;
        while i < self.clusters.len()
            invariant
                i <= self.clusters.len(),
                cluster_list@.map_values(|s: String| s@) =~= cluster_names(self).take(i as int),
            decreases self.clusters.len() - i,
        {
            let ghost before = cluster_list@;
            let c = self.clusters[i].name.clone();
            cluster_list.push(c);
            assert(cluster_list@.map_values(|s: String| s@) =~= before.map_values(|s: String| s@).push(c@));
            i = i + 1;
        }
        assert(cluster_names(self).take(self.clusters.len() as int) =~= cluster_names(self));
        let ki = match lookup(&cluster_list, ctx.cluster.as_str()) {
            Lookup::Missing => return Err(ContextError::UnknownCluster(name.to_owned())),
            Lookup::Ambiguous => return Err(ContextError::AmbiguousCluster(name.to_owned())),
            Lookup::Found(k) => k,
        };

        let mut user_list: Vec<String> = Vec::new();
        let mut j: usize = 0;
        while j < self.users.len()
            invariant
                j <= self.users.len(),
                user_list@.map_values(|s: String| s@) =~= user_names(self).take(j as int),
            decreases self.users.len() - j,
        {
            let ghost before = user_list@;
            let c = self.users[j].name.clone();
            user_list.push(c);
            assert(user_list@.map_values(|s: String| s@) =~= before.map_values(|s: String| s@).push(c@));
            j = j + 1;
        }
        assert(user_names(self).take(self.users.len() as int) =~= user_names(self));
        let ui = match lookup(&user_list, ctx.user.as_str()) {
            Lookup::Missing => return Err(ContextError::UnknownAuthInfo(name.to_owned())),
            Lookup::Ambiguous => return Err(ContextError::AmbiguousAuthInfo(name.to_owned())),
            Lookup::Found(u) => u,
        };

        Ok(ClusterContext {
            name: name.to_owned(),
            cluster: self.clusters[ki].cluster.copy(),
            user: self.users[ui].user.copy(),
            namespace: copy_opt(&ctx.namespace),
            extensions: None,
        })
    }
}

} // verus!
