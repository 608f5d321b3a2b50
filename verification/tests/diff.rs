use std::collections::HashMap;

use difflog::file_change_log::{
    common_lines, get_file_change_log, get_file_diff_log, lcs_table, unshared_lines,
    FileChangeLog, FileDiffLog,
};

fn lines(items: &[&str]) -> Vec<String> {
    items.iter().map(|s| s.to_string()).collect()
}

fn at(items: &[(i32, &str)]) -> HashMap<i32, String> {
    items.iter().map(|(k, s)| (*k, s.to_string())).collect()
}

#[test]
fn one_line_dropped_and_one_line_inserted() {
    let diff = get_file_diff_log(lines(&["x", "a", "b", "c"]), lines(&["a", "b", "y", "c"]));
    assert_eq!(diff.com, lines(&["a", "b", "c"]));
    assert_eq!(diff.add, at(&[(2, "y")]));
    assert_eq!(diff.del, at(&[(0, "x")]));
}

#[test]
fn every_line_of_a_new_file_is_added() {
    let diff = get_file_diff_log(lines(&[]), lines(&["a", "b"]));
    assert_eq!(diff.com, lines(&[]));
    assert_eq!(diff.add, at(&[(0, "a"), (1, "b")]));
    assert_eq!(diff.del, at(&[]));
}

#[test]
fn every_line_of_a_removed_file_is_deleted() {
    let diff = get_file_diff_log(lines(&["a", "b", "c"]), lines(&[]));
    assert_eq!(diff.com, lines(&[]));
    assert_eq!(diff.add, at(&[]));
    assert_eq!(diff.del, at(&[(0, "a"), (1, "b"), (2, "c")]));
}

#[test]
fn two_empty_files_have_an_empty_diff() {
    let diff = get_file_diff_log(lines(&[]), lines(&[]));
    assert!(diff.com.is_empty());
    assert!(diff.add.is_empty());
    assert!(diff.del.is_empty());
}

#[test]
fn a_file_compared_with_itself_has_no_changes() {
    let text = lines(&["fn main() {", "    println!();", "}", "", "}"]);
    let diff = get_file_diff_log(text.clone(), text.clone());
    assert_eq!(diff.com, text);
    assert!(diff.add.is_empty());
    assert!(diff.del.is_empty());
}

#[test]
fn files_without_a_common_line_change_completely() {
    let diff = get_file_diff_log(lines(&["a", "b", "c"]), lines(&["x", "y"]));
    assert!(diff.com.is_empty());
    assert_eq!(diff.add, at(&[(0, "x"), (1, "y")]));
    assert_eq!(diff.del, at(&[(0, "a"), (1, "b"), (2, "c")]));
}

#[test]
fn on_a_tie_the_walk_drops_the_line_of_the_new_file() {
    // Both "a" and "b" are longest common subsequences; the walk keeps "b".
    let diff = get_file_diff_log(lines(&["a", "b"]), lines(&["b", "a"]));
    assert_eq!(diff.com, lines(&["b"]));
    assert_eq!(diff.add, at(&[(1, "a")]));
    assert_eq!(diff.del, at(&[(0, "a")]));
}

#[test]
fn a_line_can_be_added_and_deleted_at_different_positions() {
    let diff = get_file_diff_log(lines(&["a", "b"]), lines(&["b", "a"]));
    assert_eq!(diff.add.get(&1), Some(&"a".to_string()));
    assert_eq!(diff.del.get(&0), Some(&"a".to_string()));
}

#[test]
fn repeated_lines_are_matched_from_the_front() {
    // The scan matches the first "a" of the old file with the common line,
    // so the later "a" counts as deleted.
    let diff = get_file_diff_log(lines(&["a", "x", "a"]), lines(&["a"]));
    assert_eq!(diff.com, lines(&["a"]));
    assert!(diff.add.is_empty());
    assert_eq!(diff.del, at(&[(1, "x"), (2, "a")]));
}

#[test]
fn several_lines_deleted_and_one_appended() {
    let diff =
        get_file_diff_log(lines(&["a", "b", "c", "d", "e"]), lines(&["a", "c", "e", "f"]));
    assert_eq!(diff.com, lines(&["a", "c", "e"]));
    assert_eq!(diff.add, at(&[(3, "f")]));
    assert_eq!(diff.del, at(&[(1, "b"), (3, "d")]));
}

#[test]
fn lines_are_compared_exactly() {
    let diff = get_file_diff_log(lines(&["a", "B", " c"]), lines(&["a ", "b", "c"]));
    assert!(diff.com.is_empty());
    assert_eq!(diff.add.len(), 3);
    assert_eq!(diff.del.len(), 3);
}

#[test]
fn the_table_holds_the_lengths_for_all_prefixes() {
    let old = lines(&["x", "a", "b", "c"]);
    let new = lines(&["a", "b", "y", "c"]);
    let dp = lcs_table(&old, &new);
    let expected: Vec<Vec<usize>> = vec![
        vec![0, 0, 0, 0, 0],
        vec![0, 0, 0, 0, 0],
        vec![0, 1, 1, 1, 1],
        vec![0, 1, 2, 2, 2],
        vec![0, 1, 2, 2, 3],
    ];
    assert_eq!(dp, expected);
}

#[test]
fn the_table_of_two_empty_files_is_a_single_zero() {
    let dp = lcs_table(&lines(&[]), &lines(&[]));
    assert_eq!(dp, vec![vec![0usize]]);
}

#[test]
fn the_common_lines_number_as_many_as_the_last_table_entry() {
    let cases = [
        (lines(&["x", "a", "b", "c"]), lines(&["a", "b", "y", "c"])),
        (lines(&["a", "b", "a", "b"]), lines(&["b", "a", "b", "a", "c"])),
        (lines(&[]), lines(&["a"])),
        (lines(&["q"]), lines(&["q"])),
    ];
    for (old, new) in cases {
        let dp = lcs_table(&old, &new);
        let com = common_lines(&old, &new);
        assert_eq!(com.len(), dp[old.len()][new.len()]);
        assert!(com.len() <= old.len().min(new.len()));
    }
}

#[test]
fn every_line_is_either_common_or_changed() {
    let old = lines(&["a", "b", "a", "b", "z"]);
    let new = lines(&["b", "a", "b", "a", "c", "z"]);
    let diff = get_file_diff_log(old.clone(), new.clone());
    assert_eq!(diff.add.len() + diff.com.len(), new.len());
    assert_eq!(diff.del.len() + diff.com.len(), old.len());
    for (k, line) in &diff.add {
        assert!(0 <= *k && (*k as usize) < new.len());
        assert_eq!(&new[*k as usize], line);
    }
    for (k, line) in &diff.del {
        assert!(0 <= *k && (*k as usize) < old.len());
        assert_eq!(&old[*k as usize], line);
    }
    let kept: Vec<String> = (0..new.len())
        .filter(|k| !diff.add.contains_key(&(*k as i32)))
        .map(|k| new[k].clone())
        .collect();
    assert_eq!(kept, diff.com);
}

#[test]
fn comparing_twice_gives_the_same_diff() {
    let old = lines(&["a", "b", "a", "c", "b"]);
    let new = lines(&["b", "a", "c", "a", "b", "b"]);
    let first = get_file_diff_log(old.clone(), new.clone());
    let second = get_file_diff_log(old, new);
    assert_eq!(first.com, second.com);
    assert_eq!(first.add, second.add);
    assert_eq!(first.del, second.del);
}

#[test]
fn the_common_lines_are_read_back_in_order() {
    let com = common_lines(&lines(&["1", "2", "3", "4"]), &lines(&["0", "2", "4", "5"]));
    assert_eq!(com, lines(&["2", "4"]));
}

#[test]
fn the_scan_leaves_over_what_it_cannot_match() {
    let left = unshared_lines(&lines(&["a", "b", "c", "b"]), &lines(&["b", "b"]));
    assert_eq!(left, at(&[(0, "a"), (2, "c")]));
}

#[test]
fn the_scan_stops_matching_when_the_common_lines_run_out() {
    let left = unshared_lines(&lines(&["a", "a", "a"]), &lines(&["a"]));
    assert_eq!(left, at(&[(1, "a"), (2, "a")]));
}

#[test]
fn a_diff_is_put_together_from_its_parts() {
    let diff = FileDiffLog::new(at(&[(1, "n")]), lines(&["c"]), at(&[(0, "o")]));
    assert_eq!(diff.add, at(&[(1, "n")]));
    assert_eq!(diff.com, lines(&["c"]));
    assert_eq!(diff.del, at(&[(0, "o")]));
}

#[test]
fn a_change_record_drops_the_common_lines() {
    let diff = FileDiffLog::new(at(&[(1, "n")]), lines(&["c"]), at(&[(0, "o")]));
    let change = FileChangeLog::from_diff(diff);
    assert_eq!(change.add, at(&[(1, "n")]));
    assert_eq!(change.del, at(&[(0, "o")]));
}

#[test]
fn the_change_record_of_two_files_holds_the_changed_lines() {
    let change = get_file_change_log(lines(&["x", "a", "b", "c"]), lines(&["a", "b", "y", "c"]));
    assert_eq!(change.add, at(&[(2, "y")]));
    assert_eq!(change.del, at(&[(0, "x")]));
}
