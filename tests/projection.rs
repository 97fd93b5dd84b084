use csv::split::split_line;
use csv::{takes_row, Csv};

fn strings(v: &[&str]) -> Vec<String> {
    v.iter().map(|s| s.to_string()).collect()
}

fn five_rows() -> Vec<String> {
    strings(&["1,a", "2,b", "3,c", "4,d", "5,e"])
}

#[test]
fn split_on_comma() {
    assert_eq!(split_line("id,name,age", ","), strings(&["id", "name", "age"]));
}

#[test]
fn split_keeps_empty_fields() {
    assert_eq!(split_line(",a,,b,", ","), strings(&["", "a", "", "b", ""]));
    assert_eq!(split_line("", ","), strings(&[""]));
}

#[test]
fn split_on_longer_delimiter() {
    assert_eq!(split_line("a::b:::c", "::"), strings(&["a", "b", ":c"]));
    assert_eq!(split_line("a\u{7}b", "\u{7}"), strings(&["a", "b"]));
}

#[test]
fn split_on_empty_delimiter() {
    assert_eq!(split_line("ab", ""), strings(&["", "a", "b", ""]));
    assert_eq!(split_line("", ""), strings(&["", ""]));
}

#[test]
fn split_on_multibyte_characters() {
    assert_eq!(split_line("é;ü;ß", ";"), strings(&["é", "ü", "ß"]));
}

#[test]
fn empty_selection_takes_every_column() {
    let csv = Csv::from(Some("a,b,c,d"), ",");
    assert_eq!(csv.get_indexes(&[]), vec![0, 1, 2, 3]);
}

#[test]
fn selection_keeps_its_order() {
    let csv = Csv::from(Some("a,b,c"), ",");
    assert_eq!(csv.get_indexes(&strings(&["c", "a"])), vec![2, 0]);
}

#[test]
fn duplicate_header_names_all_match() {
    let csv = Csv::from(Some("x,y,x"), ",");
    assert_eq!(csv.get_indexes(&strings(&["x", "y"])), vec![0, 2, 1]);
}

#[test]
fn single_column_gives_that_field() {
    let csv = Csv::from(Some("a,b,c"), ",");
    let out = csv.list_columns(&strings(&["b"]), None, &strings(&["1,2,3", "4,5,6", "7"]));
    assert_eq!(out, strings(&["b", "2", "5", ""]));
}

#[test]
fn short_row_gives_empty_fields() {
    let csv = Csv::from(Some("a,b,c"), ",");
    let idx = csv.get_indexes(&strings(&["a", "c"]));
    assert_eq!(csv.project_line("x", &idx), "x\t");
}

#[test]
fn two_runs_give_the_same_output() {
    let csv = Csv::from(Some("a,b"), ",");
    let sel = strings(&["b", "a"]);
    let first = csv.list_columns(&sel, Some(3), &five_rows());
    let second = csv.list_columns(&sel, Some(3), &five_rows());
    assert_eq!(first, second);
}

#[test]
fn row_limit_zero_keeps_only_titles() {
    let csv = Csv::from(Some("n,l"), ",");
    let out = csv.list_columns(&[], Some(0), &five_rows());
    assert_eq!(out, strings(&["n\tl"]));
}

#[test]
fn row_limit_two_of_five() {
    let csv = Csv::from(Some("n,l"), ",");
    let out = csv.list_columns(&strings(&["l"]), Some(2), &five_rows());
    assert_eq!(out, strings(&["l", "a", "b"]));
}

#[test]
fn no_row_limit_keeps_all_rows() {
    let csv = Csv::from(Some("n,l"), ",");
    let out = csv.list_columns(&strings(&["l"]), None, &five_rows());
    assert_eq!(out, strings(&["l", "a", "b", "c", "d", "e"]));
}

#[test]
fn row_limit_above_row_count() {
    let csv = Csv::from(Some("n,l"), ",");
    let out = csv.list_columns(&strings(&["n"]), Some(9), &five_rows());
    assert_eq!(out.len(), 6);
}

#[test]
fn takes_row_follows_the_limit() {
    assert!(takes_row(None, 1000));
    assert!(!takes_row(Some(0), 1));
    assert!(takes_row(Some(2), 2));
    assert!(!takes_row(Some(2), 3));
}

#[test]
fn list_mode_prints_header_names() {
    let csv = Csv::from(Some("id,name,age"), ",");
    assert_eq!(csv.list_header(), strings(&["id", "name", "age"]));
    assert_eq!(csv.column_count(), 3);
}

#[test]
fn unknown_column_gives_empty_lines() {
    let csv = Csv::from(Some("a,b"), ",");
    assert_eq!(csv.get_indexes(&strings(&["nope"])), Vec::<usize>::new());
    let out = csv.list_columns(&strings(&["nope"]), None, &strings(&["1,2", "3,4"]));
    assert_eq!(out, strings(&["", "", ""]));
}

#[test]
fn example_name_and_id() {
    let csv = Csv::from(Some("id,name,age"), ",");
    let out = csv.list_columns(&strings(&["name", "id"]), None, &strings(&["1,alice,30", "2,bob,25"]));
    assert_eq!(out.join("\n") + "\n", "name\tid\nalice\t1\nbob\t2\n");
}

#[test]
fn empty_file_gives_no_output() {
    let csv = Csv::from(None, "\u{7}");
    assert_eq!(csv.column_count(), 0);
    assert!(csv.list_header().is_empty());
    assert!(csv.list_columns(&[], None, &[]).is_empty());
    assert!(csv.list_columns(&strings(&["a"]), Some(1), &[]).is_empty());
}

#[test]
fn title_line_joins_with_tabs() {
    let csv = Csv::from(Some("p|q|r"), "|");
    let idx = csv.get_indexes(&[]);
    assert_eq!(csv.title_line(&idx), "p\tq\tr");
    assert_eq!(csv.project_line("1|2|3", &idx), "1\t2\t3");
}
