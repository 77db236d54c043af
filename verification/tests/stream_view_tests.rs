use ktail::config::{LogViewSettings, Platform, Config};
use ktail::log_stream::{line_pattern_compiles, stream_targets, LineAssembler, LineEvent};
use ktail::log_view::{
    format_log_line, parse_since, search_result_item, LogViewState, NamespaceViewData, SettingToggle,
};
use ktail::log_worker::LogData;
use ktail::pods::PodViewData;
use ktail::rule_list::{get_default_rules, search_rule_regex, toolbar_changes, HighlighterList, SEARCH_ID};
use ktail::rules::Highlighter;

fn settings(pod: bool, container: bool, ts: bool) -> LogViewSettings {
    LogViewSettings {
        wrap_text: false,
        show_pod_names: pod,
        show_container_names: container,
        show_timestamps: ts,
        font: "13px Monospace".to_string(),
    }
}

fn data(text: &str) -> LogData {
    LogData { text: text.to_string(), pod: "api-1".to_string(), container: "web".to_string(), timestamp: 1_662_921_288_000_000_000 }
}

#[test]
fn log_lines_show_what_the_settings_ask() {
    assert_eq!(format_log_line(&settings(false, false, false), &data("hello\n")), " hello\n");
    assert_eq!(format_log_line(&settings(true, true, false), &data("hello\n")), "api-1 web hello\n");
    assert_eq!(
        format_log_line(&settings(true, false, true), &data("x")),
        "api-1 2022-09-11 18:34:48 UTC x"
    );
}

#[test]
fn search_result_rows() {
    let (text, date) = search_result_item(&data("first\r\nsecond"));
    assert_eq!(text, "first");
    assert_eq!(date, "2022-09-11 18:34:48 UTC");
    assert_eq!(search_result_item(&data("")).0, "");
}

#[test]
fn streamed_lines_are_assembled() {
    assert!(line_pattern_compiles());
    let mut a = LineAssembler::new();
    assert!(matches!(a.push(b"2022-09-11T18:34:48.000000001Z hel", "api-1", "web"), LineEvent::Pending));
    match a.push(b"lo\n", "api-1", "web") {
        LineEvent::Line(d) => {
            assert_eq!(d.text, "hello\n");
            assert_eq!(d.timestamp, 1_662_921_288_000_000_001);
            assert_eq!(d.pod, "api-1");
            assert_eq!(d.container, "web");
        }
        _ => panic!("expected a line"),
    }
    assert!(matches!(a.push(b"2022-13-45T99:99:99.000000000Z bad\n", "p", "c"), LineEvent::Invalid));
    assert!(matches!(a.push(b"no timestamp\n", "p", "c"), LineEvent::Pending));
}

#[test]
fn streamed_lines_through_the_checked_push() {
    let mut a = LineAssembler::new();
    assert!(matches!(a.try_push(b"2022-09-11T18:34:48.000000001Z a", "p", "c"), Some(LineEvent::Pending)));
    match a.try_push(b"b\n", "p", "c") {
        Some(LineEvent::Line(d)) => {
            assert_eq!(d.text, "ab\n");
            assert_eq!(d.timestamp, 1_662_921_288_000_000_001);
        }
        _ => panic!("a whole line"),
    }
}

#[test]
fn every_container_is_streamed() {
    let pods = vec![
        PodViewData::new("api-1".to_string(), &vec!["api".to_string(), "proxy".to_string()]),
        PodViewData::new("db-0".to_string(), &vec!["pg".to_string()]),
    ];
    let t = stream_targets(&pods);
    let expected: Vec<(String, String)> = vec![
        ("api-1".to_string(), "api".to_string()),
        ("api-1".to_string(), "proxy".to_string()),
        ("db-0".to_string(), "pg".to_string()),
    ];
    assert_eq!(t, expected);
}

fn ns() -> NamespaceViewData {
    NamespaceViewData { name: "shop".to_string(), config_path: "/k".to_string(), context: "prod".to_string() }
}

#[test]
fn log_view_state_streams_and_reloads() {
    let mut s = LogViewState::new(Config::default_for(Platform::Linux).log_view_settings);
    assert!(s.reload().is_none());
    s.context_selected(ns());
    let pods = vec![PodViewData::new("api-1".to_string(), &vec!["api".to_string()])];
    let r = s.pods_selected(pods);
    assert_eq!(r.since_seconds, 600);
    assert_eq!(r.context.name, "shop");
    assert_eq!(r.pods[0].name, "api-1");
    let r = s.since_changed(3600).unwrap();
    assert_eq!(r.since_seconds, 3600);
    assert!(s.toggle_setting(SettingToggle::WrapText, true).is_none());
    assert!(s.settings().wrap_text);
    let r = s.toggle_setting(SettingToggle::ShowPodNames, true);
    assert!(r.is_some());
    assert!(s.settings().show_pod_names);
    assert_eq!(parse_since("7200"), Some(7200));
    assert_eq!(parse_since("ten"), None);
}

#[test]
fn log_view_search_flow() {
    let mut s = LogViewState::new(settings(false, false, false));
    assert_eq!(s.search("Err").as_deref(), Some("(?i)Err"));
    s.add_search_match();
    let tags = s.highlight_result(&vec!["Errors".to_string(), "SEARCH".to_string()], true);
    assert_eq!(tags, vec!["Errors", "SEARCH"]);
    assert!(s.highlight_result(&vec!["SEARCH".to_string()], false).is_empty());
    assert_eq!(s.search_label(), "2 matches");
    assert_eq!(s.select_next_match(), Some(0));
    assert_eq!(s.select_next_match(), Some(1));
    assert_eq!(s.select_prev_match(), Some(0));
    let searches = s.line_searches(&vec![]);
    assert_eq!(searches.len(), 1);
    assert_eq!(searches[0].name(), "SEARCH");
    assert_eq!(s.search(""), None);
    assert_eq!(s.search_label(), "");
    assert!(s.line_searches(&vec![]).is_empty());
}

#[test]
fn default_file_rules() {
    let rules = get_default_rules();
    assert_eq!(rules.len(), 3);
    assert_eq!(rules[0].id, SEARCH_ID);
    assert_eq!(rules[0].name.as_deref(), Some("Search"));
    assert!(rules[0].is_system && rules[0].regex.is_none());
    assert_eq!(rules[1].name.as_deref(), Some("Error"));
    assert_eq!(rules[2].color.as_deref(), Some("rgba(207,111,57,1)"));
    assert_ne!(rules[1].id, rules[2].id);
    assert_eq!(format!("{:x}", SEARCH_ID), "ba5b70bb57b94f5c95c9e80953ae113e");
}

#[test]
fn rule_list_roundtrip_and_search_regex() {
    let mut l = HighlighterList::new();
    let mut h = Highlighter::new("highlight");
    h.name = Some("Errors".to_string());
    h.regex = Some("error".to_string());
    h.color = Some("red".to_string());
    l.add_highlighters(&vec![h.copy(), Highlighter::new("exclude")]);
    let back = l.get_highlighters();
    assert_eq!(back.len(), 2);
    assert_eq!(back[0].id, h.id);
    assert_eq!(back[0].name.as_deref(), Some("Errors"));
    assert_eq!(back[0].regex.as_deref(), Some("error"));
    assert_eq!(back[0].color.as_deref(), Some("red"));
    assert!(back[1].name.is_none() && back[1].regex.is_none());
    assert_eq!(back[1].rule_type, "exclude");
    l.set_regex(h.id, "");
    assert!(l.get_highlighters()[0].regex.is_none());
    l.set_regex(h.id, &search_rule_regex("warn"));
    assert_eq!(l.get_highlighters()[0].regex.as_deref(), Some("(?i)warn"));
    assert_eq!(search_rule_regex(""), "");
    l.delete_rule(h.id);
    assert_eq!(l.get_highlighters().len(), 1);
}

#[test]
fn toolbar_follows_rule_changes() {
    let mut a = Highlighter::new("highlight");
    a.id = 1;
    a.name = Some("A".to_string());
    a.regex = Some("a".to_string());
    let mut b = Highlighter::new("highlight");
    b.id = 2;
    let mut a2 = a.copy();
    a2.name = None;
    a2.regex = Some("aa".to_string());
    let mut c = Highlighter::new("highlight");
    c.id = 3;
    let (sorted, ch) = toolbar_changes(&vec![a.copy(), b.copy()], vec![c.copy(), a2.copy()], &vec![1, 2]);
    assert_eq!(sorted.iter().map(|r| r.id).collect::<Vec<_>>(), vec![1, 3]);
    assert_eq!(ch.add.iter().map(|r| r.id).collect::<Vec<_>>(), vec![3]);
    assert_eq!(ch.delete, vec![2]);
    assert!(ch.clear_counts);
    assert_eq!(ch.renames, vec![(1, "Unamed rule".to_string())]);
    let (_, ch) = toolbar_changes(&vec![a.copy()], vec![a2.copy()], &vec![]);
    assert!(!ch.clear_counts && ch.renames.is_empty());
}
