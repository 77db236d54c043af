use ktail::model::{CreateLogView, LogViewData, LogViewToolbarMsg, PodSelectorMsg};
use ktail::pods::SelectorAction;
use ktail::rule_list::{WorkbenchAction, WorkbenchState};
use ktail::log_view::since_choices;
use ktail::overview::ChartData;
use ktail::pods::{since_seconds_from, PodSelectorState};
use ktail::rule_list::RuleSelector;
use ktail::rules::Highlighter;
use ktail::search::{try_search_lines, view_line_count};

const MIN: i64 = 60_000_000_000;

#[test]
fn chart_series_points_in_time_order() {
    let mut c = ChartData::new();
    c.add_matches(3 * MIN, &vec!["Errors".to_string()]);
    c.add_matches(MIN, &vec!["Errors".to_string()]);
    c.add_matches(MIN + 7, &vec!["Errors".to_string()]);
    c.add_timestamps(&vec![2 * MIN + 1]);
    assert_eq!(c.series_points("Errors"), vec![(MIN, 2), (2 * MIN, 0), (3 * MIN, 1)]);
    assert_eq!(c.series_points("Warnings"), vec![]);
}

#[test]
fn since_text_and_units() {
    assert_eq!(since_seconds_from("15", "UNIT_MINUTES"), 900);
    assert_eq!(since_seconds_from("2", "UNIT_HOURS"), 7200);
    // a since field that holds no number counts as ten
    assert_eq!(since_seconds_from("", "UNIT_MINUTES"), 600);
    assert_eq!(since_seconds_from("x", "UNIT_HOURS"), 36000);
}

#[test]
fn pod_selector_state() {
    let mut s = PodSelectorState::new();
    assert!(s.separate_tabs && s.include_replicas);
    assert_eq!(s.since * s.since_multiplier, 600);
    assert_eq!(s.cluster_to_select("ctx-a"), "ctx-a");
    assert_eq!(s.pods_namespace(), "default");
    assert!(s.confirm(&vec!["api".to_string()]).is_empty());
    assert!(s.cluster_changed("prod".to_string()));
    assert!(!s.cluster_changed("prod".to_string()));
    assert_eq!(s.cluster_to_select("ctx-a"), "prod");
    s.selected_namespace = Some("shop".to_string());
    assert_eq!(s.pods_namespace(), "shop");
    s.since_unit_changed("UNIT_HOURS");
    s.since = 2;
    let reqs = s.confirm(&vec!["api".to_string(), "db".to_string()]);
    assert_eq!(reqs.len(), 2);
    assert_eq!(reqs[0].since, 7200);
    assert_eq!(reqs[1].cluster, "prod");
    s.separate_tabs = false;
    assert_eq!(s.confirm(&vec!["api".to_string(), "db".to_string()]).len(), 1);
}

#[test]
fn rule_selector_rows() {
    let mut a = Highlighter::new("highlight");
    a.id = 1;
    a.name = Some("Errors".to_string());
    let mut b = Highlighter::new("highlight");
    b.id = 2;
    let mut s = RuleSelector::new(&vec![a.copy(), b.copy()]);
    assert_eq!(s.ids(), vec![1, 2]);
    s.update_rule(2, "Warnings");
    s.delete_rule(1);
    s.delete_rule(9);
    assert_eq!(s.ids(), vec![2]);
    let mut c = Highlighter::new("exclude");
    c.id = 3;
    s.add_rule(&c);
    assert_eq!(s.ids(), vec![2, 3]);
}

#[test]
fn since_choice_table() {
    let v = since_choices();
    assert_eq!(v.len(), 11);
    assert_eq!(v[1], (600, "10 min".to_string()));
    assert_eq!(v[10], (86400, "24 hours".to_string()));
    // every choice is written and read back as its seconds
    for (secs, _) in &v {
        assert_eq!(ktail::log_view::parse_since(&secs.to_string()), Some(*secs));
    }
}

#[test]
fn shown_lines_are_counted_and_searched() {
    assert_eq!(view_line_count("a\rb\nc\n"), Some(3));
    assert_eq!(view_line_count(""), Some(0));
    assert_eq!(try_search_lines("b|c", "a\rb\nc\n"), Some(vec![1, 2]));
    assert_eq!(try_search_lines("(", "a"), None);
}

#[test]
fn pod_selector_messages() {
    let mut s = PodSelectorState::new();
    assert!(matches!(s.update(PodSelectorMsg::Show), SelectorAction::ShowDialog));
    assert!(matches!(s.update(PodSelectorMsg::ClusterChanged("prod".to_string())), SelectorAction::LoadNamespaces));
    assert!(matches!(s.update(PodSelectorMsg::ClusterChanged("prod".to_string())), SelectorAction::Nothing));
    assert!(matches!(s.update(PodSelectorMsg::NamespaceChanged("shop".to_string())), SelectorAction::ReloadPods));
    assert!(matches!(s.update(PodSelectorMsg::ToggleIncludeReplicas(false)), SelectorAction::ReloadPods));
    assert!(!s.include_replicas);
    assert!(matches!(s.update(PodSelectorMsg::ToggleSeparateTabs(false)), SelectorAction::Nothing));
    assert!(matches!(s.update(PodSelectorMsg::SinceUnitChanged("UNIT_HOURS".to_string())), SelectorAction::Nothing));
    assert!(matches!(s.update(PodSelectorMsg::SinceChanged(3)), SelectorAction::Nothing));
    assert_eq!(s.since * s.since_multiplier, 10800);
    assert!(matches!(s.update(PodSelectorMsg::Confirm), SelectorAction::OpenViews));
    let reqs = s.confirm(&vec!["api".to_string()]);
    assert_eq!(reqs.len(), 1);
    assert_eq!(reqs[0].namespace, "shop");
    assert!(matches!(s.update(PodSelectorMsg::Close), SelectorAction::HideDialog));
}

#[test]
fn workbench_toolbar_messages() {
    let mut w = WorkbenchState::new();
    assert!(matches!(w.update(LogViewToolbarMsg::SearchPressed), WorkbenchAction::SetSearchRegex(r) if r.is_empty()));
    assert!(matches!(w.update(LogViewToolbarMsg::TextChange("Err".to_string())), WorkbenchAction::Nothing));
    assert!(matches!(w.update(LogViewToolbarMsg::SearchPressed), WorkbenchAction::SetSearchRegex(r) if r == "(?i)Err"));
    assert!(matches!(w.update(LogViewToolbarMsg::ClearSearchPressed), WorkbenchAction::SetSearchRegex(r) if r.is_empty()));
    assert_eq!(w.search_text, "Err");
    assert!(matches!(w.update(LogViewToolbarMsg::ShowRules), WorkbenchAction::ShowRules));
    assert!(matches!(w.update(LogViewToolbarMsg::ToggleAutoScroll(true)), WorkbenchAction::AutoScroll(true)));
    assert!(matches!(w.update(LogViewToolbarMsg::Clear), WorkbenchAction::ClearLog));
}

#[test]
fn pod_selector_hands_its_rules_to_each_view() {
    let mut s = PodSelectorState::new();
    s.update(PodSelectorMsg::ClusterChanged("prod".to_string()));
    s.update(PodSelectorMsg::NamespaceChanged("shop".to_string()));
    let mut r = Highlighter::new("highlight");
    r.regex = Some("ERROR".to_string());
    let rules = vec![r];
    let views = s.confirm_with_rules(&vec!["api".to_string(), "web".to_string()], &rules);
    assert_eq!(views.len(), 2);
    for (v, pod) in views.iter().zip(["api", "web"]) {
        match &v.data {
            LogViewData::Kube(d) => {
                assert_eq!(d.pods, vec![pod.to_string()]);
                assert_eq!(d.cluster, "prod");
                assert_eq!(d.namespace, "shop");
                assert_eq!(d.since, 600);
            }
            _ => panic!("a Kubernetes view"),
        }
        let got = v.rules.as_ref().unwrap();
        assert_eq!(got.len(), 1);
        assert_eq!(got[0].id, rules[0].id);
        assert_eq!(got[0].regex.as_deref(), Some("ERROR"));
    }
    let plain = CreateLogView::new(LogViewData::File("app.log".to_string()));
    assert!(plain.rules.is_none());
    let with = CreateLogView::with_rules(LogViewData::File("app.log".to_string()), vec![]);
    assert!(matches!(with.rules, Some(v) if v.is_empty()));
}
