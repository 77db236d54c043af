use ktail::compare::{compare_all, CompareResult, SortedListCompare};
use ktail::text::{decimal_string, join_strs, split_str, starts_with, str_eq};

fn strings(v: &[&str]) -> Vec<String> {
    v.iter().map(|s| s.to_string()).collect()
}

#[test]
fn split_str_keeps_empty_pieces() {
    assert_eq!(split_str("a;b;;c", ';'), strings(&["a", "b", "", "c"]));
    assert_eq!(split_str("", ';'), strings(&[""]));
    assert_eq!(split_str(";", ';'), strings(&["", ""]));
}

#[test]
fn join_then_split_gives_parts_back() {
    let parts = strings(&["web", "sidecar", "init"]);
    let joined = join_strs(&parts, ";");
    assert_eq!(joined, "web;sidecar;init");
    assert_eq!(split_str(&joined, ';'), parts);
}

#[test]
fn decimal_string_writes_numbers() {
    assert_eq!(decimal_string(0), "0");
    assert_eq!(decimal_string(7), "7");
    assert_eq!(decimal_string(600), "600");
    assert_eq!(decimal_string(86400), "86400");
}

#[test]
fn string_comparisons() {
    assert!(str_eq("pod", "pod"));
    assert!(!str_eq("pod", "pods"));
    assert!(starts_with("nginx-7d9f", "nginx"));
    assert!(!starts_with("nginx", "nginx-7d9f"));
    assert!(starts_with("anything", ""));
}

fn steps(l: &[u128], r: &[u128]) -> Vec<CompareResult> {
    compare_all(&l.to_vec(), &r.to_vec())
}

#[test]
fn compare_reports_each_key_once() {
    let s = steps(&[1, 3, 5], &[2, 3, 6]);
    assert_eq!(
        s,
        vec![
            CompareResult::MissesRight(0),
            CompareResult::MissesLeft(0),
            CompareResult::Equal(1, 1),
            CompareResult::MissesRight(2),
            CompareResult::MissesLeft(2),
        ]
    );
}

#[test]
fn compare_empty_sides() {
    assert_eq!(steps(&[], &[]), vec![]);
    assert_eq!(steps(&[4], &[]), vec![CompareResult::MissesRight(0)]);
    assert_eq!(steps(&[], &[4, 8]), vec![CompareResult::MissesLeft(0), CompareResult::MissesLeft(1)]);
}

#[test]
fn sorted_list_compare_steps_one_at_a_time() {
    let l = vec![10u128, 20];
    let r = vec![20u128];
    let mut walk = SortedListCompare::new(&l, &r);
    assert_eq!(walk.next(), Some(CompareResult::MissesRight(0)));
    assert_eq!(walk.next(), Some(CompareResult::Equal(1, 0)));
    assert_eq!(walk.next(), None);
    assert_eq!(walk.next(), None);
}

#[test]
fn compare_walk_is_the_sorted_merge() {
    let l = [1u128, 4, 7, 9];
    let r = [2u128, 4, 9, 12];
    let s = steps(&l, &r);
    let keys: Vec<u128> = s
        .iter()
        .map(|c| match c {
            CompareResult::Equal(i, _) | CompareResult::MissesRight(i) => l[*i],
            CompareResult::MissesLeft(j) => r[*j],
        })
        .collect();
    assert_eq!(keys, vec![1, 2, 4, 7, 9, 12]);
    let equal = s.iter().filter(|c| matches!(c, CompareResult::Equal(_, _))).count();
    assert_eq!(s.len(), l.len() + r.len() - equal);
}

#[test]
fn compare_with_itself_pairs_every_index() {
    let l = [3u128, 8, 11];
    assert_eq!(
        steps(&l, &l),
        vec![CompareResult::Equal(0, 0), CompareResult::Equal(1, 1), CompareResult::Equal(2, 2)]
    );
}
