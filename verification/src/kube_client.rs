use vstd::prelude::*;
use base64::Engine;
use vstd::utf8::{decode_utf8, valid_utf8};
use crate::dirs::spec_path_join;
use crate::kube_config::{AuthInfo, ClusterContext};
use crate::text::{decimal, decimal_string, opt_view};

verus! {

/// How to ask for a pod's log: whether to follow it, and from how many
/// seconds back.
pub struct LogOptions {
    pub follow: Option<bool>,
    pub since_seconds: Option<u32>,
}

/// A list that the Kubernetes API answers with.
pub struct ListResult<T> {
    pub kind: String,
    pub api_version: String,
    pub items: Vec<T>,
}

impl<T> ListResult<T> {
    /// A list of `items` of the given kind and API version.
    pub fn new(kind: String, api_version: String, items: Vec<T>) -> (r: Self)
        ensures
            r.items@ == items@,
    {
        ListResult { kind, api_version, items }
    }

    /// The items of the list.
    pub fn into_items(self) -> (v: Vec<T>)
        ensures
            v@ == self.items@,
    {
        self.items
    }
}

/// How a client talks to the API: how many seconds a request may take.
pub struct ClientOptions {
    pub timeout: Option<u64>,
}

/// The address of the pods of `namespace`.
pub open spec fn pods_url_text(base: Seq<char>, namespace: Seq<char>) -> Seq<char> {
    base + "api/v1/namespaces/"@ + namespace + "/pods"@
}

/// The address of the namespaces.
pub open spec fn namespaces_url_text(base: Seq<char>) -> Seq<char> {
    base + "api/v1/namespaces"@
}

/// The query of a log request: `follow=true` when following, then the
/// seconds back, joined by `&` behind a `?`.
pub open spec fn log_query(follow: bool, since: Option<u32>) -> Seq<char> {
    match (follow, since) {
        (true, Some(s)) => "?follow=true&sinceSeconds="@ + decimal(s as nat),
        (true, None) => "?follow=true"@,
        (false, Some(s)) => "?sinceSeconds="@ + decimal(s as nat),
        (false, None) => Seq::empty(),
    }
}

/// The address of the log of `pod` in `namespace`, with its query.
pub open spec fn logs_url_text(base: Seq<char>, namespace: Seq<char>, pod: Seq<char>, follow: bool, since: Option<u32>) -> Seq<char> {
    base + "api/v1/namespaces/"@ + namespace + "/pods/"@ + pod + "/log"@ + log_query(follow, since)
}

/// The address of the pods of `namespace`, for a server at `base`.
pub fn pods_url(base: &str, namespace: &str) -> (u: String)
    ensures
        u@ == pods_url_text(base@, namespace@),
{
    let mut u = base.to_owned();
    u.append("api/v1/namespaces/");
    u.append(namespace);
    u.append("/pods");
    u
}

/// The address of the namespaces, for a server at `base`.
pub fn namespaces_url(base: &str) -> (u: String)
    ensures
        u@ == namespaces_url_text(base@),
{
    let mut u = base.to_owned();
    u.append("api/v1/namespaces");
    u
}

/// The address of the log of `pod` in `namespace`, for a server at `base`:
/// followed where `options` ask for it, from the seconds back they give.
pub fn logs_url(base: &str, namespace: &str, pod: &str, options: &Option<LogOptions>) -> (u: String)
    ensures
        u@ == match options {
            Some(o) => logs_url_text(base@, namespace@, pod@, o.follow == Some(true), o.since_seconds),
            None => logs_url_text(base@, namespace@, pod@, false, None),
        },
{
    let mut u = base.to_owned();
    u.append("api/v1/namespaces/");
    u.append(namespace);
    u.append("/pods/");
    u.append(pod);
    u.append("/log");
    let ghost stem = u@;
    match options {
        Some(o) => {
            let follow = match o.follow {
                Some(f) => f,
                None => false,
            };
            if follow {
                u.append("?follow=true");
            }
            match o.since_seconds {
                Some(s) => {
                    if follow {
                        u.append("&sinceSeconds=");
                    } else {
                        u.append("?sinceSeconds=");
                    }
                    let d = decimal_string(s as usize);
                    u.append(d.as_str());
                    proof {
                        if follow {
                            assert("?follow=true&sinceSeconds="@ =~= "?follow=true"@ + "&sinceSeconds="@) by {
                                reveal_strlit("?follow=true&sinceSeconds=");
                                reveal_strlit("?follow=true");
                                reveal_strlit("&sinceSeconds=");
                            }
                            assert(u@ =~= stem + ("?follow=true&sinceSeconds="@ + decimal(s as nat)));
                        } else {
                            assert(u@ =~= stem + ("?sinceSeconds="@ + decimal(s as nat)));
                        }
                    }
                },
                None => {
                    proof {
                        if !follow {
                            assert(u@ =~= stem + Seq::<char>::empty());
                        }
                    }
                },
            }
        },
        None => {
            assert(u@ =~= stem + Seq::<char>::empty());
        },
    }
    u
}

/// The value of the authorization header for a bearer `token`.
pub fn bearer_header(token: &str) -> (h: String)
    ensures
        h@ == "Bearer "@ + token@,
{
    let mut h = "Bearer ".to_owned();
    h.append(token);
    h
}

/// The bytes that `text` stands for in standard base64, as the `base64`
/// crate's `STANDARD` engine decodes it; `None` where it is no valid
/// base64.
pub uninterp spec fn spec_base64_decoded(text: Seq<char>) -> Option<Seq<u8>>;

/// Decodes standard base64 with the `base64` crate. The result depends on
/// the text alone.
#[verifier::external_body]
fn base64_decode(text: &str) -> (r: Option<Vec<u8>>)
    ensures
        match r {
            Some(b) => spec_base64_decoded(text@) == Some(b@),
            None => spec_base64_decoded(text@) is None,
        },
{
    base64::engine::general_purpose::STANDARD.decode(text).ok()
}

/// `String::from_utf8`: the text that `bytes` encode, where they are
/// UTF-8.
#[verifier::external_body]
fn utf8_text(bytes: Vec<u8>) -> (r: Option<String>)
    ensures
        r is Some == valid_utf8(bytes@),
        r matches Some(s) ==> s@ == decode_utf8(bytes@),
{
    String::from_utf8(bytes).ok()
}

/// The text that base64 `data` stands for, where it is base64 of UTF-8.
pub open spec fn inline_text(data: Seq<char>) -> Option<Seq<char>> {
    match spec_base64_decoded(data) {
        Some(b) => if valid_utf8(b) { Some(decode_utf8(b)) } else { None },
        None => None,
    }
}

/// Decodes credential data given inline in a kubeconfig file.
pub fn decode_inline(data: &str) -> (r: Option<String>)
    ensures
        opt_view(r) == inline_text(data@),
{
    match base64_decode(data) {
        Some(bytes) => utf8_text(bytes),
        None => None,
    }
}

/// Where a certificate or key comes from: decoded inline data, a file to
/// read, or nowhere.
pub enum CredentialSource {
    Inline(String),
    File(String),
    Missing,
}

/// A credential source as plain values.
pub open spec fn source_view(s: CredentialSource) -> (nat, Seq<char>) {
    match s {
        CredentialSource::Inline(t) => (0, t@),
        CredentialSource::File(p) => (1, p@),
        CredentialSource::Missing => (2, Seq::empty()),
    }
}

/// Where a credential given as inline `data` or as a `file` comes from:
/// the data first.
pub open spec fn source_of(data: Option<Seq<char>>, file: Option<Seq<char>>) -> (nat, Seq<char>) {
    match data {
        Some(d) => (0, inline_text(d).unwrap()),
        None => match file {
            Some(f) => (1, f),
            None => (2, Seq::empty()),
        },
    }
}

/// The inline data, where given, decodes.
pub open spec fn inline_ok(data: Option<Seq<char>>) -> bool {
    data matches Some(d) ==> inline_text(d) is Some
}

/// Where a credential comes from: its inline data, decoded, else its file.
/// Inline data must be base64 of UTF-8.
pub fn credential_source(data: &Option<String>, file: &Option<String>) -> (r: CredentialSource)
    requires
        inline_ok(opt_view(*data)),
    ensures
        source_view(r) == source_of(opt_view(*data), opt_view(*file)),
{
    match data {
        Some(d) => match decode_inline(d.as_str()) {
            Some(t) => CredentialSource::Inline(t),
            None => CredentialSource::Missing,
        },
        None => match file {
            Some(f) => CredentialSource::File(f.clone()),
            None => CredentialSource::Missing,
        },
    }
}

/// Where a credential comes from, or `None` where its inline data is no
/// base64 of UTF-8.
pub fn try_credential_source(data: &Option<String>, file: &Option<String>) -> (r: Option<CredentialSource>)
    ensures
        r is Some == inline_ok(opt_view(*data)),
        r matches Some(s) ==> source_view(s) == source_of(opt_view(*data), opt_view(*file)),
{
    let ok = match data {
        Some(d) => decode_inline(d.as_str()).is_some(),
        None => true,
    };
    if ok {
        Some(credential_source(data, file))
    } else {
        None
    }
}

/// A credential is given, inline or as a file.
pub open spec fn is_given(data: Option<Seq<char>>, file: Option<Seq<char>>) -> bool {
    data is Some || file is Some
}

/// How to build the client for a context: its server, its timeout, the
/// certificate authority, the client identity (certificate and key), and
/// the authorization header.
pub struct ClientPlan {
    pub base_url: String,
    pub timeout: Option<u64>,
    pub ca_cert: CredentialSource,
    pub identity: Option<(CredentialSource, CredentialSource)>,
    pub authorization: Option<String>,
}

/// The inline credentials of a context that building its client decodes
/// all decode: the authority's and the client certificate's, and the
/// client key's where a client certificate is given.
pub open spec fn plan_ok(ctx: ClusterContext) -> bool {
    let u = ctx.user@;
    &&& inline_ok(ctx.cluster@.ca_data)
    &&& inline_ok(u.client_certificate_data)
    &&& is_given(u.client_certificate_data, u.client_certificate_file) ==> inline_ok(u.client_key_data)
}

/// The client plan as plain values.
pub open spec fn plan_view(p: ClientPlan) -> (Seq<char>, Option<u64>, (nat, Seq<char>), Option<((nat, Seq<char>), (nat, Seq<char>))>, Option<Seq<char>>) {
    (
        p.base_url@,
        p.timeout,
        source_view(p.ca_cert),
        match p.identity {
            Some((c, k)) => Some((source_view(c), source_view(k))),
            None => None,
        },
        opt_view(p.authorization),
    )
}

/// The client plan of a context, as `KubeClient::with_options` builds it.
pub open spec fn plan_of(ctx: ClusterContext, timeout: Option<u64>) -> (Seq<char>, Option<u64>, (nat, Seq<char>), Option<((nat, Seq<char>), (nat, Seq<char>))>, Option<Seq<char>>) {
    let u = ctx.user@;
    (
        ctx.cluster@.server,
        timeout,
        source_of(ctx.cluster@.ca_data, ctx.cluster@.ca_file),
        if is_given(u.client_certificate_data, u.client_certificate_file) && is_given(u.client_key_data, u.client_key_file) {
            Some((source_of(u.client_certificate_data, u.client_certificate_file), source_of(u.client_key_data, u.client_key_file)))
        } else {
            None
        },
        match u.token {
            Some(t) => Some("Bearer "@ + t),
            None => None,
        },
    )
}

/// The timeout that the options ask for.
pub open spec fn timeout_of(options: Option<ClientOptions>) -> Option<u64> {
    match options {
        Some(o) => o.timeout,
        None => None,
    }
}

/// How to build the client for `ctx` with `options`. Inline credentials
/// must decode.
pub fn client_plan(ctx: &ClusterContext, options: &Option<ClientOptions>) -> (p: ClientPlan)
    requires
        plan_ok(*ctx),
    ensures
        plan_view(p) == plan_of(*ctx, timeout_of(*options)),
{
    let timeout = match options {
        Some(o) => o.timeout,
        None => None,
    };
    let user: &AuthInfo = &ctx.user;
    let ca_cert = credential_source(&ctx.cluster.ca_data, &ctx.cluster.ca_file);
    let has_cert = user.client_certificate_data.is_some() || user.client_certificate_file.is_some();
    let has_key = user.client_key_data.is_some() || user.client_key_file.is_some();
    let identity = if has_cert && has_key {
        Some((
            credential_source(&user.client_certificate_data, &user.client_certificate_file),
            credential_source(&user.client_key_data, &user.client_key_file),
        ))
    } else {
        None
    };
    let authorization = match &user.token {
        Some(t) => Some(bearer_header(t.as_str())),
        None => None,
    };
    ClientPlan { base_url: ctx.cluster.server.clone(), timeout, ca_cert, identity, authorization }
}

/// How to build the client for `ctx`, or `None` where inline credentials
/// that building it decodes do not decode.
pub fn try_client_plan(ctx: &ClusterContext, options: &Option<ClientOptions>) -> (p: Option<ClientPlan>)
    ensures
        p is Some == plan_ok(*ctx),
        p matches Some(q) ==> plan_view(q) == plan_of(*ctx, timeout_of(*options)),
{
    let user: &AuthInfo = &ctx.user;
    let ca_ok = try_credential_source(&ctx.cluster.ca_data, &ctx.cluster.ca_file).is_some();
    let cert_ok = try_credential_source(&user.client_certificate_data, &user.client_certificate_file).is_some();
    let has_cert = user.client_certificate_data.is_some() || user.client_certificate_file.is_some();
    let key_ok = !has_cert || try_credential_source(&user.client_key_data, &user.client_key_file).is_some();
    if ca_ok && cert_ok && key_ok {
        Some(client_plan(ctx, options))
    } else {
        None
    }
}

/// The kubeconfig file to read: the one given on the command line, else the
/// one that `KUBECONFIG` names, else `config` in `.kube` of the home
/// directory.
pub open spec fn config_path_of(arg: Option<Seq<char>>, env: Option<Seq<char>>, home: Option<Seq<char>>) -> Seq<char> {
    match arg {
        Some(a) => a,
        None => match env {
            Some(e) => e,
            None => spec_path_join(spec_path_join(home.unwrap(), ".kube"@), "config"@),
        },
    }
}

/// The kubeconfig file to read. Without a path given, a home directory must
/// be known.
pub fn config_path_from(arg: Option<String>, env: Option<String>, home: Option<String>) -> (p: String)
    requires
        arg is None && env is None ==> home is Some,
    ensures
        p@ == config_path_of(opt_view(arg), opt_view(env), opt_view(home)),
{
    match arg {
        Some(a) => a,
        None => match env {
            Some(e) => e,
            None => match home {
                Some(h) => {
                    let kube = crate::dirs::join_path(h.as_str(), ".kube");
                    crate::dirs::join_path(kube.as_str(), "config")
                },
                None => String::new(),
            },
        },
    }
}

} // verus!
