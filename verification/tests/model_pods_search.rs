use ktail::log_worker::LogData;
use ktail::model::{CreateKubeLogData, LogViewData};
use ktail::pods::{log_requests, pod_list_names, pod_views, since_multiplier, PodSummary, PodViewData};
use ktail::search::{lines_of, process_highlighters, search_lines, search_pattern, searches_from, SearchData};

fn s(v: &[&str]) -> Vec<String> {
    v.iter().map(|x| x.to_string()).collect()
}

#[test]
fn view_names() {
    let kube = LogViewData::Kube(CreateKubeLogData {
        pods: s(&["api", "db"]),
        cluster: "prod".to_string(),
        namespace: "shop".to_string(),
        since: 600,
    });
    assert_eq!(kube.get_name(), "prod > shop > api, db");
    let file = LogViewData::File("/var/log/app/server.log".to_string());
    assert_eq!(file.get_name(), "server.log");
    assert_eq!(LogViewData::File("/".to_string()).try_get_name(), None);
}

#[test]
fn pod_view_data_joins_and_splits_containers() {
    let p = PodViewData::new("api-1".to_string(), &s(&["api", "proxy"]));
    assert_eq!(p.container_names, "api;proxy");
    assert_eq!(p.containers(), s(&["api", "proxy"]));
}

#[test]
fn pod_rows_fall_back_to_failed() {
    let rows = pod_views(&vec![
        PodSummary { name: Some("api-1".to_string()), containers: s(&["api"]) },
        PodSummary { name: None, containers: s(&["a", "b"]) },
    ]);
    assert_eq!(rows[0].name, "api-1");
    assert_eq!(rows[1].name, "failed");
    assert_eq!(rows[1].container_names, "a;b");
}

#[test]
fn pod_list_groups_replicas() {
    let pods = vec![
        PodSummary { name: Some("api-1".to_string()), containers: s(&["api"]) },
        PodSummary { name: Some("api-2".to_string()), containers: s(&["api"]) },
        PodSummary { name: Some("db-0".to_string()), containers: s(&["pg"]) },
    ];
    assert_eq!(pod_list_names(&pods, true), s(&["api", "pg"]));
    assert_eq!(pod_list_names(&pods, false), s(&["api-1", "api-2", "db-0"]));
}

#[test]
fn since_units_and_requests() {
    assert_eq!(since_multiplier("UNIT_MINUTES"), 60);
    assert_eq!(since_multiplier("UNIT_HOURS"), 3600);
    let models = s(&["api", "db"]);
    let cluster = Some("prod".to_string());
    let ns = Some("shop".to_string());
    let separate = log_requests(&models, &cluster, &ns, 10, 60, true);
    assert_eq!(separate.len(), 2);
    assert_eq!(separate[1].pods, s(&["db"]));
    assert_eq!(separate[0].since, 600);
    let together = log_requests(&models, &cluster, &ns, 2, 3600, false);
    assert_eq!(together.len(), 1);
    assert_eq!(together[0].pods, models);
    assert_eq!(together[0].since, 7200);
    assert!(log_requests(&models, &None, &ns, 1, 60, true).is_empty());
}

#[test]
fn searches_skip_bad_patterns() {
    let found = searches_from(&s(&["Errors", "Broken", "Warnings"]), &s(&["error", "(", "warn"]));
    let names: Vec<&str> = found.iter().map(|d| d.name()).collect();
    assert_eq!(names, vec!["Errors", "Warnings"]);
    assert!(SearchData::new("x".to_string(), "[".to_string()).is_none());
}

#[test]
fn highlighters_that_match_a_line() {
    let searches = searches_from(&s(&["Errors", "Warnings"]), &s(&["error", "warn"]));
    let data = LogData { text: "an error here".to_string(), pod: "p".to_string(), container: "c".to_string(), timestamp: 5 };
    let res = process_highlighters(&searches, &data, "marker-1".to_string());
    assert_eq!(res.matching_highlighters, s(&["Errors"]));
    assert_eq!(res.timestamp, 5);
    assert_eq!(res.text_marker_id, "marker-1");
}

#[test]
fn free_text_search_is_case_blind() {
    assert_eq!(search_pattern("Error").as_deref(), Some("(?i)Error"));
    assert_eq!(search_pattern(""), None);
    assert_eq!(search_pattern("("), None);
}

#[test]
fn lines_and_search_lines() {
    assert_eq!(lines_of("a\r\nb\nc"), s(&["a", "b", "c"]));
    assert_eq!(lines_of("a\n"), s(&["a"]));
    assert_eq!(lines_of(""), Vec::<String>::new());
    // a bare carriage return starts a new shown line
    assert_eq!(search_lines("(?i)x", "a\rX\nb\nx"), vec![1, 3]);
}
