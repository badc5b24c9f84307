use stoolap::vector_text::{bracket_list, vector_str_parts};

fn strings(v: &[&str]) -> Vec<String> {
    v.iter().map(|s| s.to_string()).collect()
}

#[test]
fn vector_parts_are_trimmed_components() {
    assert_eq!(vector_str_parts("  [1.0, 2.5 ,3]  "), Some(strings(&["1.0", "2.5", "3"])));
    assert_eq!(vector_str_parts("[x]"), Some(strings(&["x"])));
    assert_eq!(vector_str_parts("[,]"), Some(strings(&["", ""])));
}

#[test]
fn vector_parts_of_blank_inside_are_empty() {
    assert_eq!(vector_str_parts("[]"), Some(Vec::new()));
    assert_eq!(vector_str_parts(" [ \t ] "), Some(Vec::new()));
}

#[test]
fn vector_parts_need_both_brackets() {
    assert_eq!(vector_str_parts("1.0, 2.0"), None);
    assert_eq!(vector_str_parts("[1.0, 2.0"), None);
    assert_eq!(vector_str_parts("1.0]"), None);
    assert_eq!(vector_str_parts("["), None);
    assert_eq!(vector_str_parts(""), None);
}

#[test]
fn bracket_list_joins_with_comma_space() {
    assert_eq!(bracket_list(&strings(&["1.0", "2.5", "-3.0"])), "[1.0, 2.5, -3.0]");
    assert_eq!(bracket_list(&strings(&["7"])), "[7]");
    assert_eq!(bracket_list(&[]), "[]");
}

#[test]
fn bracket_list_then_parts_round_trip() {
    let items = strings(&["1.5", "abc", "0"]);
    assert_eq!(vector_str_parts(&bracket_list(&items)), Some(items));
}
