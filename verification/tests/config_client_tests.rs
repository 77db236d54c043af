use ktail::config::{default_font, Config, Highlighter, Platform, Settings};
use ktail::dirs::{config_file_from, log_dir, log_dir_from};
use ktail::error::AppError;
use ktail::kube_client::{
    bearer_header, client_plan, config_path_from, decode_inline, logs_url, namespaces_url, pods_url, try_client_plan,
    try_credential_source, ClientOptions, CredentialSource, ListResult, LogOptions,
};
use ktail::kube_config::{AuthInfo, Cluster, ClusterContext, ContextError};

#[test]
fn default_config() {
    let c = Config::default_for(Platform::Linux);
    assert!(c.k8s_configs.is_empty());
    assert_eq!(c.log_view_settings.font, "13px Monospace");
    assert!(!c.log_view_settings.wrap_text && !c.log_view_settings.show_timestamps);
    let w = c.highlighter("Warnings").unwrap();
    assert_eq!(w.search, r".*\s((?i)warn(?-i))\s.*");
    assert_eq!(w.color, "rgb(207,111,57)");
    assert_eq!(c.highlighter("Errors").unwrap().color, "rgb(244,94,94)");
    assert!(c.highlighter("Other").is_none());
    assert_eq!(c.highlighter_names(), vec!["Warnings", "Errors"]);
    assert_eq!(c.searches().len(), 2);
    assert_eq!(default_font(Platform::Windows), "15px Consolas");
    assert_eq!(default_font(Platform::MacOs), "14px Courier");
    let s = Settings::default();
    assert_eq!(s.log_view_font, "13px Monospace");
    assert_eq!(s.minimap_font, "1px Monospace");
}

#[test]
fn kubeconfig_files_added_and_removed() {
    let mut c = Config::default_for(Platform::Linux);
    c.add_k8s_config("/a".to_string());
    c.add_k8s_config("/b".to_string());
    c.add_k8s_config("/a".to_string());
    c.remove_k8s_config("/a");
    assert_eq!(c.k8s_configs, vec!["/b", "/a"]);
    c.remove_k8s_config("/none");
    assert_eq!(c.k8s_configs, vec!["/b", "/a"]);
}

#[test]
fn broken_highlighter_patterns_are_skipped() {
    let mut c = Config::default_for(Platform::Linux);
    c.highlighters.push(("Bad".to_string(), Highlighter { search: "(".to_string(), color: "rgb(1,1,1)".to_string() }));
    assert_eq!(c.searches().len(), 2);
}

#[test]
fn log_dir_choices() {
    assert_eq!(log_dir_from(None), ".");
    let d = log_dir_from(Some("/home/u/.local/share/ktail".to_string()));
    assert_eq!(d, "/home/u/.local/share/ktail/logs");
    let l = log_dir();
    assert!(l == "." || l.ends_with("logs"));
}

#[test]
fn config_file_choices() {
    assert_eq!(config_file_from(None), None);
    assert_eq!(
        config_file_from(Some("/home/u/.config/ktail".to_string())).as_deref(),
        Some("/home/u/.config/ktail/config.json")
    );
}

#[test]
fn app_errors_carry_messages() {
    assert_eq!(AppError::Msg("boom".to_string()).message(), "boom");
    let e = AppError::from_context_error(&ContextError::UnknownCluster("dev".to_string()));
    assert_eq!(e.message(), "unknown cluster dev");
}

#[test]
fn api_addresses() {
    assert_eq!(pods_url("https://k:6443/", "web"), "https://k:6443/api/v1/namespaces/web/pods");
    assert_eq!(namespaces_url("https://k/"), "https://k/api/v1/namespaces");
    let base = "https://k/";
    assert_eq!(logs_url(base, "ns", "p", &None), "https://k/api/v1/namespaces/ns/pods/p/log");
    let follow = Some(LogOptions { follow: Some(true), since_seconds: Some(600) });
    assert_eq!(logs_url(base, "ns", "p", &follow), "https://k/api/v1/namespaces/ns/pods/p/log?follow=true&sinceSeconds=600");
    let since = Some(LogOptions { follow: Some(false), since_seconds: Some(60) });
    assert_eq!(logs_url(base, "ns", "p", &since), "https://k/api/v1/namespaces/ns/pods/p/log?sinceSeconds=60");
    let only = Some(LogOptions { follow: Some(true), since_seconds: None });
    assert_eq!(logs_url(base, "ns", "p", &only), "https://k/api/v1/namespaces/ns/pods/p/log?follow=true");
    assert_eq!(bearer_header("t0k"), "Bearer t0k");
}

#[test]
fn list_results_hand_out_items() {
    let l = ListResult::new("PodList".to_string(), "v1".to_string(), vec![1, 2, 3]);
    assert_eq!(l.into_items(), vec![1, 2, 3]);
}

fn user(cert: Option<&str>, key_file: Option<&str>, token: Option<&str>) -> AuthInfo {
    AuthInfo {
        username: None,
        password: None,
        token: token.map(|t| t.to_string()),
        token_file: None,
        client_certificate_file: None,
        client_certificate_data: cert.map(|c| c.to_string()),
        client_key_file: key_file.map(|k| k.to_string()),
        client_key_data: None,
        impersonate: None,
    }
}

fn context(ca_data: Option<&str>, user: AuthInfo) -> ClusterContext {
    ClusterContext {
        name: "c".to_string(),
        cluster: Cluster {
            server: "https://k/".to_string(),
            insecure_tls: None,
            ca_file: Some("/etc/ca.pem".to_string()),
            ca_data: ca_data.map(|d| d.to_string()),
            extensions: None,
        },
        user,
        namespace: None,
        extensions: None,
    }
}

#[test]
fn credentials_decode_from_base64() {
    assert_eq!(decode_inline("aGVsbG8=").as_deref(), Some("hello"));
    assert_eq!(decode_inline("not base64!"), None);
    // valid base64 of bytes that are no UTF-8
    assert_eq!(decode_inline("/w=="), None);
    match try_credential_source(&None, &Some("/k.pem".to_string())).unwrap() {
        CredentialSource::File(p) => assert_eq!(p, "/k.pem"),
        _ => panic!("expected a file"),
    }
    assert!(matches!(try_credential_source(&None, &None), Some(CredentialSource::Missing)));
    assert!(try_credential_source(&Some("%%%".to_string()), &None).is_none());
}

#[test]
fn client_plans() {
    let ctx = context(Some("Q0E="), user(Some("Q0VSVA=="), Some("/key.pem"), Some("tok")));
    let plan = client_plan(&ctx, &Some(ClientOptions { timeout: Some(5) }));
    assert_eq!(plan.base_url, "https://k/");
    assert_eq!(plan.timeout, Some(5));
    assert!(matches!(&plan.ca_cert, CredentialSource::Inline(t) if t == "CA"));
    match &plan.identity {
        Some((CredentialSource::Inline(c), CredentialSource::File(k))) => {
            assert_eq!(c, "CERT");
            assert_eq!(k, "/key.pem");
        }
        _ => panic!("expected an identity"),
    }
    assert_eq!(plan.authorization.as_deref(), Some("Bearer tok"));
    let no_key = context(None, user(Some("Q0VSVA=="), None, None));
    let plan = try_client_plan(&no_key, &None).unwrap();
    assert!(plan.identity.is_none());
    assert!(matches!(&plan.ca_cert, CredentialSource::File(p) if p == "/etc/ca.pem"));
    assert!(plan.authorization.is_none());
    assert!(try_client_plan(&context(Some("???"), user(None, None, None)), &None).is_none());
}

#[test]
fn kubeconfig_path_priority() {
    let arg = Some("/x/config".to_string());
    let env = Some("/env/config".to_string());
    let home = Some("/home/u".to_string());
    assert_eq!(config_path_from(arg.clone(), env.clone(), home.clone()), "/x/config");
    assert_eq!(config_path_from(None, env, home.clone()), "/env/config");
    assert_eq!(config_path_from(None, None, home), "/home/u/.kube/config");
}
