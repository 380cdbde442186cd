use rolling_lines::history::simulate;

#[test]
fn single_line_overwrite_basic() {
    let input = ["aaaaaa", "bbb", "cccccccc", "ddd"];
    let out = simulate(&input, 1, None);
    assert_eq!(out, vec!["ddd"]);
}

#[test]
fn single_line_with_skip_marker() {
    let input = ["first", "second", "MARK", "third", "fourth"];
    let out = simulate(&input, 1, Some("MARK"));
    assert_eq!(out, vec!["second", "", "fourth"]);
}

#[test]
fn rolling_window_basic() {
    let input = ["L1", "L2", "L3", "L4", "L5"];
    let out = simulate(&input, 3, None);
    assert_eq!(out, vec!["L3", "L4", "L5"]);
}

#[test]
fn rolling_window_with_skip() {
    let input = ["A1", "A2", "A3", "SKIP", "B1", "B2"];
    let out = simulate(&input, 3, Some("SKIP"));
    assert_eq!(out, vec!["A1", "A2", "A3", "", "B1", "B2"]);
}

#[test]
fn rolling_window_multiple_skips() {
    let input = ["X1", "X2", "SKIP", "Y1", "Y2", "Y3", "Y4", "SKIP", "Z1"];
    let out = simulate(&input, 2, Some("SKIP"));
    assert_eq!(out, vec!["X1", "X2", "", "Y3", "Y4", "", "Z1"]);
}

#[test]
fn window_of_no_lines_passes_every_line_through() {
    let input = ["a", "b", "SKIP", "", "c"];
    assert_eq!(simulate(&input, 0, None), vec!["a", "b", "SKIP", "", "c"]);
    assert_eq!(simulate(&input, 0, Some("SKIP")), vec!["a", "b", "SKIP", "", "c"]);
    assert_eq!(simulate(&input, 0, Some("")), vec!["a", "b", "SKIP", "", "c"]);
}

#[test]
fn empty_input_has_no_output() {
    let input: [&str; 0] = [];
    assert_eq!(simulate(&input, 0, None), Vec::<String>::new());
    assert_eq!(simulate(&input, 1, None), Vec::<String>::new());
    assert_eq!(simulate(&input, 4, Some("SKIP")), Vec::<String>::new());
}

#[test]
fn fewer_lines_than_the_window_are_all_kept() {
    let input = ["one", "two"];
    assert_eq!(simulate(&input, 5, None), vec!["one", "two"]);
}

#[test]
fn exactly_as_many_lines_as_the_window() {
    let input = ["one", "two", "three"];
    assert_eq!(simulate(&input, 3, None), vec!["one", "two", "three"]);
}

#[test]
fn marker_matches_anywhere_in_the_line() {
    let input = ["a", "before SKIP after", "b"];
    assert_eq!(simulate(&input, 2, Some("SKIP")), vec!["a", "", "b"]);
}

#[test]
fn marker_is_case_sensitive() {
    let input = ["a", "skip", "b"];
    assert_eq!(simulate(&input, 2, Some("SKIP")), vec!["skip", "b"]);
}

#[test]
fn marker_line_first_gives_a_lone_separator() {
    let input = ["SKIP", "a"];
    assert_eq!(simulate(&input, 3, Some("SKIP")), vec!["", "a"]);
}

#[test]
fn consecutive_markers_give_consecutive_separators() {
    let input = ["a", "SKIP", "SKIP", "b"];
    assert_eq!(simulate(&input, 1, Some("SKIP")), vec!["a", "", "", "b"]);
}

#[test]
fn marker_line_last_leaves_nothing_after_the_separator() {
    let input = ["a", "b", "SKIP"];
    assert_eq!(simulate(&input, 2, Some("SKIP")), vec!["a", "b", ""]);
}

#[test]
fn empty_marker_is_found_in_every_line() {
    let input = ["a", "b"];
    assert_eq!(simulate(&input, 2, Some("")), vec!["", ""]);
}

#[test]
fn reset_lines_never_reach_the_output() {
    let input = ["keep 1", "drop SKIP", "keep 2", "SKIP drop", "keep 3"];
    let out = simulate(&input, 4, Some("SKIP"));
    assert_eq!(out, vec!["keep 1", "", "keep 2", "", "keep 3"]);
    assert!(out.iter().all(|line| !line.contains("SKIP")));
}

#[test]
fn output_is_the_last_lines_in_input_order() {
    let input = ["1", "2", "3", "4", "5", "6", "7"];
    for n in 1..=7usize {
        let out = simulate(&input, n, None);
        assert_eq!(out, input[input.len() - n..].to_vec());
    }
}
