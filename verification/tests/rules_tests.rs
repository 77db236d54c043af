use ktail::rules::{apply_rule_changes, diff_rules, position_of, sort_by_id, ActiveRule, Highlighter};

fn rule(id: u128, regex: Option<&str>) -> Highlighter {
    let mut h = Highlighter::new("highlight");
    h.id = id;
    h.regex = regex.map(|r| r.to_string());
    h.name = Some(format!("rule {}", id));
    h
}

#[test]
fn new_rule_has_only_its_type() {
    let a = Highlighter::new("exclude");
    let b = Highlighter::new("highlight");
    assert!(a.is_exclude());
    assert!(!b.is_exclude());
    assert!(a.name.is_none() && a.regex.is_none() && a.color.is_none());
    assert!(!a.is_system);
    // each rule gets a fresh random id
    assert_ne!(a.id, b.id);
}

#[test]
fn sort_by_id_orders_rules() {
    let sorted = sort_by_id(vec![rule(3, None), rule(1, None), rule(2, None)]);
    let ids: Vec<u128> = sorted.iter().map(|h| h.id).collect();
    assert_eq!(ids, vec![1, 2, 3]);
}

#[test]
fn sort_by_id_keeps_order_of_equal_ids() {
    let sorted = sort_by_id(vec![
        rule(2, Some("first")),
        rule(1, None),
        rule(2, Some("second")),
        rule(2, Some("third")),
    ]);
    let got: Vec<(u128, Option<String>)> = sorted.iter().map(|h| (h.id, h.regex.clone())).collect();
    assert_eq!(
        got,
        vec![
            (1, None),
            (2, Some("first".to_string())),
            (2, Some("second".to_string())),
            (2, Some("third".to_string())),
        ]
    );
}

#[test]
fn diff_finds_added_removed_and_changed_rules() {
    let current = vec![rule(1, Some("a")), rule(2, Some("b")), rule(4, Some("d"))];
    let given = vec![rule(4, Some("d")), rule(3, Some("c")), rule(2, Some("B"))];
    let (sorted, diff) = diff_rules(&current, given);
    let ids: Vec<u128> = sorted.iter().map(|h| h.id).collect();
    assert_eq!(ids, vec![2, 3, 4]);
    assert_eq!(diff.add.iter().map(|h| h.id).collect::<Vec<_>>(), vec![3]);
    assert_eq!(diff.remove, vec![1]);
    assert_eq!(diff.update.iter().map(|h| h.id).collect::<Vec<_>>(), vec![2]);
    assert!(diff.has_changes);
    assert!(diff.clear_data);
}

#[test]
fn applying_the_same_rules_again_changes_nothing() {
    let given = || vec![rule(5, Some("e")), rule(2, Some("b")), rule(9, None)];
    let (current, first) = diff_rules(&vec![], given());
    assert!(first.has_changes);
    // a view without rules has searched nothing that could be stale
    assert!(!first.search_again);
    let (again, diff) = diff_rules(&current, given());
    assert_eq!(again.iter().map(|h| h.id).collect::<Vec<_>>(), vec![2, 5, 9]);
    assert!(diff.add.is_empty() && diff.remove.is_empty() && diff.update.is_empty());
    assert!(!diff.has_changes);
    assert!(!diff.clear_data);
    assert!(!diff.search_again);
    let (_, changed) = diff_rules(&current, vec![rule(5, Some("E")), rule(2, Some("b")), rule(9, None)]);
    assert!(changed.has_changes && changed.search_again);
}

#[test]
fn diff_of_equal_rules_is_empty() {
    let current = vec![rule(1, Some("a"))];
    let (_, diff) = diff_rules(&current, vec![rule(1, Some("a"))]);
    assert!(diff.add.is_empty() && diff.remove.is_empty() && diff.update.is_empty());
    assert!(!diff.has_changes);
    assert!(!diff.clear_data);
}

#[test]
fn rule_changes_update_active_rules() {
    let mut active: Vec<ActiveRule> = vec![];
    apply_rule_changes(&mut active, &vec![rule(1, Some("err")), rule(2, Some("(")), rule(3, Some("warn"))], &vec![], &vec![]);
    assert_eq!(active.len(), 3);
    // a pattern that does not compile is dropped
    assert_eq!(active[0].regex.as_deref(), Some("err"));
    assert!(active[1].regex.is_none());
    apply_rule_changes(&mut active, &vec![], &vec![2], &vec![rule(3, Some("WARN")), rule(1, None)]);
    assert_eq!(active.iter().map(|a| a.id).collect::<Vec<_>>(), vec![1, 3]);
    assert!(active[0].regex.is_none());
    assert_eq!(active[1].regex.as_deref(), Some("WARN"));
    assert!(active[1].is_dirty);
    assert_eq!(active[1].line_offset, 0);
    assert_eq!(position_of(&active, 3), Some(1));
    assert_eq!(position_of(&active, 2), None);
}
