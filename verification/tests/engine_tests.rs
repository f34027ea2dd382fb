use renamer::engine::{replace_with_count, validate_pattern};

fn marker(x: &str, ordinal: usize) -> String {
    format!("<span class=\"highlight\">{}<<span><sup>{}<<sup>", x, ordinal)
}

#[test]
fn count_zero_replaces_every_match() {
    let (hi, rep, hirep) = replace_with_count(false, "abcabc", "abc", "x", 0).unwrap();
    assert_eq!(rep, "xx");
    assert_eq!(hi, format!("{}{}", marker("abc", 1), marker("abc", 2)));
    assert_eq!(hirep, format!("{}{}", marker("x", 1), marker("x", 2)));
}

#[test]
fn count_zero_leaves_leftover_text() {
    let (hi, rep, _) = replace_with_count(false, "xaxbxc", "x", "-", 0).unwrap();
    assert_eq!(rep, "-a-b-c");
    assert_eq!(
        hi,
        format!("{}a{}b{}c", marker("x", 1), marker("x", 2), marker("x", 3))
    );
}

#[test]
fn positive_count_takes_first_matches_left_to_right() {
    let (hi, rep, _) = replace_with_count(false, "aaa", "a", "b", 2).unwrap();
    assert_eq!(rep, "bba");
    assert_eq!(hi, format!("{}{}a", marker("a", 1), marker("a", 2)));
}

#[test]
fn positive_count_larger_than_total_takes_all() {
    let (_, rep, _) = replace_with_count(false, "aba", "a", "c", 100).unwrap();
    assert_eq!(rep, "cbc");
}

#[test]
fn negative_count_takes_last_matches_with_descending_ordinals() {
    let (hi, rep, _) = replace_with_count(false, "aaa", "a", "b", -2).unwrap();
    assert_eq!(rep, "abb");
    assert_eq!(hi, format!("a{}{}", marker("a", 2), marker("a", 1)));
}

#[test]
fn negative_count_larger_than_total_takes_all() {
    let (hi, rep, _) = replace_with_count(false, "xay", "a", "b", -5).unwrap();
    assert_eq!(rep, "xby");
    assert_eq!(hi, format!("x{}y", marker("a", 1)));
}

#[test]
fn empty_literal_pattern_is_a_no_op() {
    let (hi, rep, hirep) = replace_with_count(false, "abc", "", "x", 0).unwrap();
    assert_eq!((hi.as_str(), rep.as_str(), hirep.as_str()), ("abc", "abc", "abc"));
}

#[test]
fn pattern_absent_returns_text_unchanged() {
    let (hi, rep, hirep) = replace_with_count(false, "hello", "zzz", "x", 0).unwrap();
    assert_eq!((hi.as_str(), rep.as_str(), hirep.as_str()), ("hello", "hello", "hello"));
}

#[test]
fn rerunning_on_match_free_output_is_idempotent() {
    let (_, rep, _) = replace_with_count(false, "abcabc", "abc", "x", 0).unwrap();
    let (hi2, rep2, hirep2) = replace_with_count(false, &rep, "abc", "x", 0).unwrap();
    assert_eq!(hi2, rep);
    assert_eq!(rep2, rep);
    assert_eq!(hirep2, rep);
}

#[test]
fn regex_forward_replacement() {
    let (_, rep, _) = replace_with_count(true, "img1", "^img", "photo_", 0).unwrap();
    assert_eq!(rep, "photo_1");
}

#[test]
fn regex_negative_count_takes_last_match() {
    let (hi, rep, _) = replace_with_count(true, "a1b2c3", r"\d", "#", -1).unwrap();
    assert_eq!(rep, "a1b2c#");
    assert_eq!(hi, format!("a1b2c{}", marker("3", 1)));
}

#[test]
fn regex_zero_width_match_at_start_terminates() {
    let (_, rep, _) = replace_with_count(true, "bab", "a*", "x", 0).unwrap();
    assert_eq!(rep, "xbab");
}

#[test]
fn invalid_regex_is_a_soft_no_op() {
    let (hi, rep, hirep) = replace_with_count(true, "abc", "(", "x", 0).unwrap();
    assert_eq!((hi.as_str(), rep.as_str(), hirep.as_str()), ("abc", "abc", "abc"));
}

#[test]
fn validate_pattern_reports_compilability() {
    assert!(validate_pattern(r"^img\d+$"));
    assert!(!validate_pattern("("));
    assert!(validate_pattern(""));
}

#[test]
fn three_outputs_are_positionally_consistent() {
    let (hi, rep, hirep) = replace_with_count(false, "a-b-c", "-", "_", 0).unwrap();
    assert_eq!(rep, "a_b_c");
    assert_eq!(hi, format!("a{}b{}c", marker("-", 1), marker("-", 2)));
    assert_eq!(hirep, format!("a{}b{}c", marker("_", 1), marker("_", 2)));
}

#[test]
fn multibyte_text_is_replaced_on_character_boundaries() {
    let (hi, rep, _) = replace_with_count(false, "日本語", "本", "~", 0).unwrap();
    assert_eq!(rep, "日~語");
    assert_eq!(hi, format!("日{}語", marker("本", 1)));
}

#[test]
fn multibyte_regex_replacement() {
    let (_, rep, _) = replace_with_count(true, "héllo wörld", "[äöü]", "o", 0).unwrap();
    assert_eq!(rep, "héllo world");
}

#[test]
fn most_negative_count_selects_all_from_the_right() {
    let (_, rep, _) = replace_with_count(false, "aa", "a", "b", -128).unwrap();
    assert_eq!(rep, "bb");
}
