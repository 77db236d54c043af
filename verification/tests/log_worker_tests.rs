use ktail::log_worker::{search_offset, LogData, LogTimeline};

fn data(ts: i64, text: &str) -> LogData {
    LogData { text: text.to_string(), pod: "pod".to_string(), container: "main".to_string(), timestamp: ts }
}

#[test]
fn search_offset_finds_first_not_before() {
    let times = vec![1i64, 3, 3, 7];
    assert_eq!(search_offset(&times, 0), 0);
    assert_eq!(search_offset(&times, 3), 1);
    assert_eq!(search_offset(&times, 4), 3);
    assert_eq!(search_offset(&times, 9), 4);
    assert_eq!(search_offset(&vec![], 5), 0);
}

#[test]
fn entries_with_equal_time_go_after_earlier_ones() {
    let mut t = LogTimeline::new();
    assert_eq!(t.insert_entry(10, "a\n"), 0);
    assert_eq!(t.insert_entry(5, "b\n"), 0);
    assert_eq!(t.insert_entry(10, "c\n"), 2);
    assert_eq!(t.insert_entry(7, "d\n"), 1);
}

#[test]
fn leading_line_break_takes_an_extra_line() {
    let mut t = LogTimeline::new();
    assert_eq!(t.insert_entry(1, "\nspaced"), 0);
    // two lines are taken by the chunk above
    assert_eq!(t.insert_entry(2, "x\n"), 2);
    // a bare line break takes one line
    assert_eq!(t.insert_entry(3, "\n"), 3);
    assert_eq!(t.insert_entry(4, "y\n"), 4);
}

#[test]
fn process_log_data_hands_back_lines() {
    let mut t = LogTimeline::new();
    let res = t.process_log_data(vec![data(20, "late\n"), data(10, "early\n"), data(20, "later\n")]);
    let offsets: Vec<usize> = res.iter().map(|(o, _)| *o).collect();
    assert_eq!(offsets, vec![0, 0, 2]);
    assert_eq!(res[1].1.text, "early\n");
}

#[test]
fn offset_for_seconds_and_clear() {
    let mut t = LogTimeline::new();
    t.process_log_data(vec![data(1_000_000_000, "a\n"), data(2_500_000_000, "b\n"), data(3_000_000_000, "c\n")]);
    assert_eq!(t.offset_for_seconds(0), 0);
    assert_eq!(t.offset_for_seconds(2), 1);
    assert_eq!(t.offset_for_seconds(3), 2);
    assert_eq!(t.offset_for_seconds(4), 3);
    t.clear();
    assert_eq!(t.offset_for_seconds(2), 0);
}
