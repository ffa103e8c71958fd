use emit::params::group_params;
use emit::source_lines::LineIndex;

fn params(list: &[(&str, &str)]) -> Vec<(String, String)> {
    list.iter().map(|(n, t)| (n.to_string(), t.to_string())).collect()
}

#[test]
fn consecutive_parameters_of_one_type_are_grouped() {
    assert_eq!(group_params(&params(&[])), "");
    assert_eq!(group_params(&params(&[("a", "int")])), "a int");
    assert_eq!(group_params(&params(&[("a", "int"), ("b", "int"), ("c", "string")])), "a, b int, c string");
    assert_eq!(group_params(&params(&[("a", "int"), ("b", "string"), ("c", "int")])), "a int, b string, c int");
}

#[test]
fn source_lines_and_columns_count_from_one() {
    let index = LineIndex::from_source("main.lis".to_string(), "ab\ncd\n\nx");
    assert_eq!(index.path(), "main.lis");
    assert_eq!(index.line_for_offset(0), 1);
    assert_eq!(index.col_for_offset(0), 1);
    assert_eq!(index.line_for_offset(1), 1);
    assert_eq!(index.col_for_offset(1), 2);
    assert_eq!(index.line_for_offset(3), 2);
    assert_eq!(index.col_for_offset(4), 2);
    assert_eq!(index.line_for_offset(6), 3);
    assert_eq!(index.line_for_offset(7), 4);
    assert_eq!(index.col_for_offset(7), 1);
    assert_eq!(index.line_for_offset(100), 4);
}
