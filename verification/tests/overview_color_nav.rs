use ktail::color::{parse_rgb, parse_u32, parse_u8};
use ktail::navigation::{get_next_pos, search_label, SearchCursor};
use ktail::overview::{minute_of, ChartData};

const MIN: i64 = 60_000_000_000;

#[test]
fn minutes_round_down() {
    assert_eq!(minute_of(0), 0);
    assert_eq!(minute_of(MIN + 5), MIN);
    assert_eq!(minute_of(2 * MIN - 1), MIN);
    assert_eq!(minute_of(-1), -MIN);
}

#[test]
fn chart_counts_matches_per_minute() {
    let mut c = ChartData::new();
    let names = vec!["Errors".to_string(), "Warnings".to_string()];
    assert_eq!(c.max_count(&names), 0);
    c.add_matches(MIN + 1, &vec!["Errors".to_string()]);
    c.add_matches(MIN + 2, &vec!["Errors".to_string(), "Warnings".to_string()]);
    c.add_matches(3 * MIN, &vec!["Errors".to_string()]);
    assert_eq!(c.max_count(&names), 2);
    assert_eq!(c.max_count(&vec!["Warnings".to_string()]), 1);
    assert_eq!(c.max_count(&vec!["Other".to_string()]), 0);
    c.add_timestamps(&vec![5 * MIN]);
    assert_eq!(c.max_count(&names), 2);
    c.clear();
    assert_eq!(c.max_count(&names), 0);
}

#[test]
fn rgb_strings_parse_to_colours() {
    assert_eq!(parse_rgb("rgb(207,111,57)"), Some((207, 111, 57)));
    assert_eq!(parse_rgb("rgb(+1,02,3,9)"), Some((1, 2, 3)));
    assert_eq!(parse_rgb("rgb(256,0,0)"), None);
    assert_eq!(parse_rgb("rgb(1,2)"), None);
    assert_eq!(parse_rgb("rgb( 1,2,3)"), None);
    // the prefix is skipped, whatever it holds
    assert_eq!(parse_rgb("xyz(4,5,6)"), Some((4, 5, 6)));
}

#[test]
fn numbers_parse_as_std_does() {
    for text in ["0", "255", "+7", "007", "256", "", "+", "-1", "1a"] {
        assert_eq!(parse_u8(text.as_bytes()), text.parse::<u8>().ok(), "{}", text);
    }
    for text in ["600", "4294967295", "4294967296", "+3600", "x"] {
        assert_eq!(parse_u32(text.as_bytes()), text.parse::<u32>().ok(), "{}", text);
    }
}

#[test]
fn next_and_previous_match_wrap_round() {
    let mut c = SearchCursor::new();
    assert_eq!(c.select_next(), None);
    for _ in 0..3 {
        c.add_match();
    }
    assert_eq!(c.select_next(), Some(0));
    assert_eq!(c.select_next(), Some(1));
    assert_eq!(c.select_next(), Some(2));
    assert_eq!(c.select_next(), Some(0));
    assert_eq!(c.select_prev(), Some(2));
    // previous then next comes back
    assert_eq!(c.select_next(), Some(0));
    assert_eq!(c.current(), Some(0));
    c.clear();
    assert_eq!(c.matches(), 0);
    assert_eq!(c.current(), None);
}

#[test]
fn previous_without_selection_goes_to_last() {
    let mut c = SearchCursor::new();
    c.add_match();
    c.add_match();
    assert_eq!(c.select_prev(), Some(1));
    assert_eq!(c.select_prev(), Some(0));
    assert_eq!(c.select_prev(), Some(1));
}

#[test]
fn label_counts_matches() {
    assert_eq!(search_label(0), "");
    assert_eq!(search_label(1), "1 matches");
    assert_eq!(search_label(42), "42 matches");
}

#[test]
fn extract_positions_wrap() {
    assert_eq!(get_next_pos(3, 0, true), 1);
    assert_eq!(get_next_pos(3, 2, true), 0);
    assert_eq!(get_next_pos(3, 0, false), 2);
    assert_eq!(get_next_pos(3, 2, false), 1);
}
