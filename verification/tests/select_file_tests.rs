use ktail::log_file::{read_chunk, search_text, FileWatcher, LogFileState, WatchAction};
use ktail::match_select::{MatchSelection, MatchSpan, MatchTable};
use ktail::model::LogState;

fn span(line: usize, start: usize) -> MatchSpan {
    MatchSpan { line, start, end: start + 1 }
}

fn changes(v: Vec<ktail::match_select::HighlightChange>) -> Vec<(String, usize, bool)> {
    v.into_iter().map(|c| (c.rule, c.index, c.selected)).collect()
}

#[test]
fn match_table_appends_per_rule() {
    let mut t = MatchTable::new();
    t.add_matches("err", &vec![span(1, 0), span(4, 2)]);
    t.add_matches("warn", &vec![span(2, 0)]);
    t.add_matches("err", &vec![span(9, 1)]);
    assert_eq!(t.next_from_pos((0, 0), "err"), Some(0));
    assert_eq!(t.next_from_pos((4, 2), "err"), Some(2));
    assert_eq!(t.next_from_pos((4, 1), "err"), Some(1));
    // nothing after the cursor: the last match
    assert_eq!(t.next_from_pos((20, 0), "err"), Some(2));
    assert_eq!(t.next_from_pos((0, 0), "none"), None);
}

#[test]
fn selecting_matches_of_one_rule() {
    let mut t = MatchTable::new();
    t.add_matches("err", &vec![span(1, 0), span(4, 2), span(9, 1)]);
    let mut s = MatchSelection::new("err");
    assert_eq!(changes(s.select_next_match(&t, "err")), vec![("err".to_string(), 0, true)]);
    assert_eq!(
        changes(s.select_next_match(&t, "err")),
        vec![("err".to_string(), 0, false), ("err".to_string(), 1, true)]
    );
    assert_eq!(
        changes(s.select_prev_match(&t, "err")),
        vec![("err".to_string(), 1, false), ("err".to_string(), 0, true)]
    );
    // previous from the first stays on the first
    assert_eq!(
        changes(s.select_prev_match(&t, "err")),
        vec![("err".to_string(), 0, false), ("err".to_string(), 0, true)]
    );
    assert_eq!(changes(s.select_next_match(&t, "missing")), vec![]);
}

#[test]
fn switching_rules_goes_on_from_the_selected_match() {
    let mut t = MatchTable::new();
    t.add_matches("err", &vec![span(1, 0), span(4, 2)]);
    t.add_matches("warn", &vec![span(2, 0), span(5, 0)]);
    let mut s = MatchSelection::new("err");
    s.select_next_match(&t, "err");
    s.select_next_match(&t, "err");
    let c = changes(s.select_next_match(&t, "warn"));
    assert_eq!(
        c,
        vec![("err".to_string(), 1, false), ("warn".to_string(), 1, false), ("warn".to_string(), 1, true)]
    );
}

#[test]
fn cursor_sets_where_next_goes() {
    let mut t = MatchTable::new();
    t.add_matches("err", &vec![span(1, 0), span(4, 2), span(9, 1)]);
    let mut s = MatchSelection::new("err");
    s.cursor_changed(&t, (5, 0));
    assert_eq!(changes(s.select_next_match(&t, "err")), vec![("err".to_string(), 2, true)]);
    let cleared = changes(s.clear(&mut t));
    assert_eq!(cleared, vec![("err".to_string(), 2, false)]);
    assert_eq!(t.next_from_pos((0, 0), "err"), None);
}

#[test]
fn file_state_checks() {
    let mut f = LogFileState::new();
    assert_eq!(f.check_changes(false, Some(10)), LogState::Skip);
    assert_eq!(f.check_changes(true, Some(0)), LogState::Skip);
    assert_eq!(f.check_changes(true, Some(10)), LogState::Proceed);
    assert_eq!(f.seek_offset(), None);
    f.record_read(10);
    assert_eq!(f.seek_offset(), Some(10));
    assert_eq!(f.check_changes(true, None), LogState::Proceed);
    assert_eq!(f.check_changes(true, Some(4)), LogState::Reload);
    assert_eq!(f.offset(), 0);
}

#[test]
fn reload_reads_again_from_the_first_byte() {
    let mut f = LogFileState::new();
    f.record_read(10);
    assert_eq!(f.check_changes(true, Some(4)), LogState::Reload);
    // the shrunk file is read again from its start
    assert_eq!(f.seek_offset(), Some(0));
    assert_eq!(f.check_changes(true, Some(4)), LogState::Proceed);
    assert_eq!(f.seek_offset(), Some(0));
    f.record_read(4);
    assert_eq!(f.seek_offset(), Some(4));
}

#[test]
fn watcher_counts_lines_and_starts_over() {
    let mut w = FileWatcher::new();
    assert_eq!(w.on_check(LogState::Proceed), WatchAction::Read);
    w.on_searched(12);
    assert_eq!(w.line_offset(), 12);
    assert_eq!(w.on_check(LogState::Skip), WatchAction::Wait);
    assert_eq!(w.line_offset(), 12);
    assert_eq!(w.on_check(LogState::Reload), WatchAction::ClearAndWait);
    assert_eq!(w.line_offset(), 0);
}

#[test]
fn utf16_chunks_decode() {
    let bytes: Vec<u8> = "hé\n".encode_utf16().flat_map(|u| u.to_le_bytes()).collect();
    let mut f = LogFileState::new();
    let c = read_chunk(&mut f, &bytes).unwrap();
    assert_eq!(c.read, 6);
    assert_eq!(c.text, "hé\n");
    assert_eq!(f.offset(), 6);
}

#[test]
fn text_search_numbers_lines() {
    let found = search_text("ok\nerror one error\nfine\nerror", "error").unwrap();
    assert_eq!(found, vec![(1, 0, 5), (1, 10, 15), (3, 0, 5)]);
    assert!(search_text("x", "(").is_none());
    assert_eq!(search_text("", "a").unwrap(), vec![]);
    // matches come by line, then start, without overlap, within the line
    let found = search_text("aaa a\nbb", "a+|b").unwrap();
    assert_eq!(found, vec![(0, 0, 3), (0, 4, 5), (1, 0, 1), (1, 1, 2)]);
}
