use ktail::kube_config::{
    lookup, AuthInfo, Cluster, Context, ContextError, KubeConfig, Lookup, NamedAuthInfo, NamedCluster, NamedContext,
};
use ktail::kube_reader::{
    label_width, line_prefix, prefixed_chunk, select_streams, wanted_match, KubeReaderState, PodContainerData, PodInfo,
    ReaderMsg,
};

fn user() -> AuthInfo {
    AuthInfo {
        username: None,
        password: None,
        token: Some("abc".to_string()),
        token_file: None,
        client_certificate_file: None,
        client_certificate_data: None,
        client_key_file: None,
        client_key_data: None,
        impersonate: None,
    }
}

fn cluster(server: &str) -> Cluster {
    Cluster { server: server.to_string(), insecure_tls: None, ca_file: None, ca_data: None, extensions: None }
}

fn config() -> KubeConfig {
    KubeConfig {
        kind: Some("Config".to_string()),
        api_version: Some("v1".to_string()),
        preferences: None,
        clusters: vec![
            NamedCluster { name: "dev".to_string(), cluster: cluster("https://dev:6443/") },
            NamedCluster { name: "twin".to_string(), cluster: cluster("https://a/") },
            NamedCluster { name: "twin".to_string(), cluster: cluster("https://b/") },
        ],
        users: vec![NamedAuthInfo { name: "admin".to_string(), user: user() }],
        contexts: vec![
            NamedContext {
                name: "dev-ctx".to_string(),
                context: Context { cluster: "dev".to_string(), user: "admin".to_string(), namespace: Some("web".to_string()), extensions: None },
            },
            NamedContext {
                name: "lost".to_string(),
                context: Context { cluster: "nowhere".to_string(), user: "admin".to_string(), namespace: None, extensions: None },
            },
            NamedContext {
                name: "twin-ctx".to_string(),
                context: Context { cluster: "twin".to_string(), user: "admin".to_string(), namespace: None, extensions: None },
            },
            NamedContext {
                name: "nobody".to_string(),
                context: Context { cluster: "dev".to_string(), user: "ghost".to_string(), namespace: None, extensions: None },
            },
        ],
        current_context: "dev-ctx".to_string(),
        extensions: None,
    }
}

#[test]
fn context_resolves_cluster_and_user() {
    let cfg = config();
    let ctx = cfg.context("dev-ctx").ok().unwrap();
    assert_eq!(ctx.name, "dev-ctx");
    assert_eq!(ctx.cluster.server, "https://dev:6443/");
    assert_eq!(ctx.user.token.as_deref(), Some("abc"));
    assert_eq!(ctx.namespace.as_deref(), Some("web"));
}

fn error_message(r: Result<ktail::kube_config::ClusterContext, ContextError>) -> String {
    match r {
        Ok(_) => panic!("expected an error"),
        Err(e) => e.message(),
    }
}

#[test]
fn context_errors_name_the_context() {
    let cfg = config();
    assert_eq!(error_message(cfg.context("missing")), "unknown context missing");
    assert_eq!(error_message(cfg.context("lost")), "unknown cluster lost");
    assert_eq!(error_message(cfg.context("twin-ctx")), "ambiguous cluster twin-ctx");
    assert_eq!(error_message(cfg.context("nobody")), "unknown auth-info nobody");
}

#[test]
fn ambiguous_context_and_user() {
    let mut cfg = config();
    let dup = NamedContext {
        name: "dev-ctx".to_string(),
        context: Context { cluster: "dev".to_string(), user: "admin".to_string(), namespace: None, extensions: None },
    };
    cfg.contexts.push(dup);
    assert_eq!(error_message(cfg.context("dev-ctx")), "ambiguous context dev-ctx");
    let mut cfg = config();
    cfg.users.push(NamedAuthInfo { name: "admin".to_string(), user: user() });
    assert_eq!(error_message(cfg.context("dev-ctx")), "ambiguous auth-info dev-ctx");
}

#[test]
fn context_names_in_file_order() {
    assert_eq!(config().context_name_list(), vec!["dev-ctx", "lost", "twin-ctx", "nobody"]);
}

#[test]
fn lookup_counts_entries() {
    let names: Vec<String> = vec!["a".into(), "b".into(), "a".into()];
    assert!(matches!(lookup(&names, "b"), Lookup::Found(1)));
    assert!(matches!(lookup(&names, "a"), Lookup::Ambiguous));
    assert!(matches!(lookup(&names, "c"), Lookup::Missing));
}

#[test]
fn pod_container_key_and_prefix() {
    let d = PodContainerData::new("nginx-7d9f-x2z".to_string(), "web".to_string());
    assert_eq!(d.key(), "nginx-7d9f-x2z#web");
    assert_eq!(d.prefix(), "web-x2z");
    assert_eq!(d.pod(), "nginx-7d9f-x2z");
    assert_eq!(d.container(), "web");
    let plain = PodContainerData::new("db".to_string(), "pg".to_string());
    assert_eq!(plain.prefix(), "pg-db");
}

fn pod(name: &str, ready: Option<bool>, containers: &[&str]) -> PodInfo {
    PodInfo { name: Some(name.to_string()), ready, containers: containers.iter().map(|c| c.to_string()).collect() }
}

#[test]
fn select_streams_of_ready_wanted_pods() {
    let pods = vec![
        pod("api-1", Some(true), &["api", "proxy"]),
        pod("db-1", Some(true), &["pg"]),
        pod("api-2", Some(false), &["api"]),
        PodInfo { name: None, ready: Some(true), containers: vec!["x".to_string()] },
    ];
    let (streams, not_ready) = select_streams(&pods, &vec!["api".to_string()]);
    let keys: Vec<String> = streams.iter().map(|s| s.key().to_string()).collect();
    assert_eq!(keys, vec!["api-1#api", "api-1#proxy"]);
    assert!(not_ready);
    assert!(wanted_match("api-9", &vec!["db".to_string(), "api".to_string()]));
    assert!(!wanted_match("web", &vec!["db".to_string()]));
}

#[test]
fn labels_are_padded_to_the_widest() {
    let pods = vec![
        PodContainerData::new("a-1".to_string(), "web".to_string()),
        PodContainerData::new("b-22".to_string(), "sidecar".to_string()),
    ];
    let width = label_width(&pods);
    assert_eq!(width, "sidecar-22".len() + 3);
    assert_eq!(line_prefix("web-1", width), format!("[web-1]{}", " ".repeat(7)));
    assert_eq!(line_prefix("sidecar-22", width), format!("[sidecar-22]{}", " ".repeat(2)));
    assert_eq!(line_prefix("full", 4), "[full]");
    assert_eq!(label_width(&vec![]), 3);
    assert_eq!(prefixed_chunk(true, "[x] ", b"log".to_vec()), b"[x] log".to_vec());
    assert_eq!(prefixed_chunk(false, "[x] ", b"log".to_vec()), b"log".to_vec());
}

#[test]
fn reader_state_streams_and_stop() {
    let mut s = KubeReaderState::new();
    assert!(s.should_init());
    s.finish_init(true, false);
    assert!(!s.should_init());
    s.add_stream("p#c");
    s.add_stream("p#c");
    s.add_stream("q#c");
    assert!(s.has_stream("p#c"));
    let mut out = Vec::new();
    assert!(s.on_message(Some(ReaderMsg::Data(b"ab".to_vec())), &mut out));
    assert!(!s.on_message(Some(ReaderMsg::Data(vec![])), &mut out));
    assert_eq!(out, b"ab".to_vec());
    assert!(!s.on_message(Some(ReaderMsg::ReInit("p#c".to_string())), &mut out));
    assert!(!s.has_stream("p#c"));
    assert!(s.should_init());
    assert!(!s.on_message(None, &mut out));
    let keys = s.stop();
    assert_eq!(keys, vec!["q#c"]);
    assert!(!s.should_init());
    assert!(!s.has_stream("q#c"));
}

#[test]
fn failed_client_leaves_setup_state() {
    let mut s = KubeReaderState::new();
    s.finish_init(false, false);
    assert!(s.should_init());
    s.finish_init(true, true);
    assert!(s.should_init());
}
