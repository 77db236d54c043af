use ktail::extract::{data_offset, text_selection, Bookmarks, ExtractIndex};
use ktail::model::{ExtractSelection, RuleSearchResultData, SearchResultMatch};

fn m(line: usize, text: Option<&str>) -> SearchResultMatch {
    SearchResultMatch { name: None, line, start: 0, end: 1, extracted_text: text.map(|t| t.to_string()) }
}

fn result(name: &str, matches: Vec<SearchResultMatch>) -> RuleSearchResultData {
    RuleSearchResultData { name: Some(name.to_string()), matches }
}

#[test]
fn checksums_are_crc32() {
    // the well-known check value of CRC-32 (IEEE)
    match text_selection("err", "123456789") {
        ExtractSelection::TextGroup(id, t) => {
            assert_eq!(id, "err");
            assert_eq!(t, 0xCBF4_3926);
        }
        _ => panic!("a text row"),
    }
    let checksum = |text: &str| match text_selection("err", text) {
        ExtractSelection::TextGroup(_, t) => t,
        _ => panic!("a text row"),
    };
    assert_ne!(checksum("a"), checksum("b"));
}

#[test]
fn groups_collect_lines_by_rule_and_text() {
    let mut x = ExtractIndex::new();
    assert!(x.has_room("err", 3));
    x.add_results("err", &result("Errors", vec![m(0, Some("E1")), m(2, None), m(5, Some("E1"))]), 10);
    // the rule counts its three matches, the extracted text its two
    assert_eq!(x.count(&ExtractSelection::SearchGroup("err".to_string())), Some(3));
    assert_eq!(x.count(&text_selection("err", "E1")), Some(2));
    assert_eq!(x.count(&ExtractSelection::SearchGroup("none".to_string())), None);
    assert_eq!(x.select(ExtractSelection::SearchGroup("err".to_string())), Some(10));
    assert_eq!(x.step(true), Some(12));
    assert_eq!(x.step(true), Some(15));
    assert_eq!(x.step(true), Some(10));
    assert_eq!(x.step(false), Some(15));
    assert_eq!(x.select(text_selection("err", "E1")), Some(10));
    assert_eq!(x.step(true), Some(15));
    assert_eq!(x.step(true), Some(10));
    // unknown rows select nothing and keep the selection
    assert_eq!(x.select(ExtractSelection::SearchGroup("none".to_string())), None);
    assert_eq!(x.step(true), Some(15));
}

#[test]
fn later_chunks_extend_groups() {
    let mut x = ExtractIndex::new();
    x.add_results("err", &result("Errors", vec![m(1, None)]), 0);
    x.add_results("err", &result("Renamed", vec![m(0, None)]), 7);
    assert_eq!(x.select(ExtractSelection::SearchGroup("err".to_string())), Some(1));
    assert_eq!(x.step(true), Some(7));
}

#[test]
fn forgetting_rules_drops_groups_and_selection() {
    let mut x = ExtractIndex::new();
    x.add_results("err", &result("Errors", vec![m(1, None)]), 0);
    x.add_results("warn", &result("Warnings", vec![m(3, None)]), 0);
    x.select(ExtractSelection::SearchGroup("warn".to_string()));
    x.forget_rules(&vec![]);
    assert_eq!(x.step(true), Some(3));
    x.forget_rules(&vec!["err".to_string()]);
    assert_eq!(x.step(true), None);
    assert_eq!(x.select(ExtractSelection::SearchGroup("err".to_string())), None);
    assert_eq!(x.select(ExtractSelection::SearchGroup("warn".to_string())), Some(3));
}

#[test]
fn counts_leave_room() {
    let x = ExtractIndex::new();
    assert!(!x.has_room("err", i32::MAX as usize + 1));
    assert!(x.has_room("err", i32::MAX as usize));
}

#[test]
fn chunk_offsets() {
    assert_eq!(data_offset(true, 50), 0);
    assert_eq!(data_offset(false, 50), 49);
    assert_eq!(data_offset(false, 0), 0);
}

#[test]
fn bookmarks_toggle() {
    let mut b = Bookmarks::new();
    let t = b.toggle(1, 10);
    assert!(!t.removed && t.added && t.any_left);
    assert_eq!(b.line(1), Some(10));
    // toggling at another line moves the mark
    let t = b.toggle(1, 20);
    assert!(t.removed && t.added);
    assert_eq!(b.line(1), Some(20));
    // toggling at the same line removes it: twice restores
    let t = b.toggle(1, 20);
    assert!(t.removed && !t.added && !t.any_left);
    assert_eq!(b.line(1), None);
    b.toggle(2, 5);
    b.toggle(2, 5);
    assert_eq!(b.line(2), None);
}
