use candbc_parser::strings::{
    accumulate_until_two_unescaped_quotes, collect_all_quoted, count_unescaped_quotes,
    has_complete_quoted_segment,
};

#[test]
fn test_count_unescaped_quotes() {
    assert_eq!(count_unescaped_quotes("\"a\""), 2);
    assert_eq!(count_unescaped_quotes("\\\"a\\\""), 0);
    assert!(has_complete_quoted_segment("before \"x\" after"));
    assert!(!has_complete_quoted_segment("before \"x without end"));
}

#[test]
fn test_accumulate_until_two_unescaped_quotes() {
    let lines = vec!["CM_ SG_ 123 Sig \"part1".to_string(), "continues\";".to_string()];
    let mut acc = lines[0].clone();
    let mut i = 0usize;
    accumulate_until_two_unescaped_quotes(&mut acc, &lines, &mut i);
    assert!(has_complete_quoted_segment(&acc));
    assert_eq!(i, 1);
}

#[test]
fn quoted_segments_are_collected_in_order() {
    let q = collect_all_quoted(r#"BA_DEF_ "A" ENUM "x","y";"#);
    assert_eq!(q, vec!["A".to_string(), "x".to_string(), "y".to_string()]);
}

#[test]
fn collect_all_quoted_stops_at_an_unmatched_quote() {
    assert_eq!(collect_all_quoted(r#"a "x" "y"#), vec!["x".to_string()]);
}
