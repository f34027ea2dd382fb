use renamer::engine::replace_with_count;
use renamer::groups::replace_with_captures;
use renamer::serial::{pad, replacement_handler};

#[test]
fn bare_serial_token_expands_unpadded() {
    assert_eq!(replacement_handler("<enum>", 7).unwrap(), "7");
}

#[test]
fn zero_padded_serial_token_right_aligns() {
    assert_eq!(replacement_handler("<0enum3>", 7).unwrap(), "007");
}

#[test]
fn negative_width_serial_token_left_aligns() {
    assert_eq!(replacement_handler("<0enum-3>", 7).unwrap(), "700");
}

#[test]
fn escaped_serial_token_is_kept_without_sigil() {
    assert_eq!(replacement_handler("@<enum>", 7).unwrap(), "<enum>");
}

#[test]
fn serial_expansion_replaces_every_literal_occurrence() {
    assert_eq!(replacement_handler("<enum>-<enum>", 7).unwrap(), "7-7");
}

#[test]
fn serial_token_with_custom_pad_character() {
    assert_eq!(replacement_handler("n<_enum3>", 7).unwrap(), "n__7");
}

#[test]
fn pad_character_alone_defaults_to_width_one() {
    assert_eq!(replacement_handler("<xenum>", 7).unwrap(), "7");
}

#[test]
fn template_without_token_is_unchanged() {
    assert_eq!(replacement_handler("photo", 3).unwrap(), "photo");
}

#[test]
fn serial_token_in_surrounding_text() {
    assert_eq!(replacement_handler("photo_<enum-2>", 1).unwrap(), "photo_10");
}

#[test]
fn negative_serial_number_keeps_its_sign() {
    assert_eq!(replacement_handler("<enum>", -3).unwrap(), "-3");
}

#[test]
fn pad_left_aligns_on_negative_width() {
    assert_eq!(pad("7", -3, '0'), "700");
}

#[test]
fn pad_right_aligns_on_positive_width() {
    assert_eq!(pad("7", 3, '0'), "007");
}

#[test]
fn pad_keeps_wide_enough_values() {
    assert_eq!(pad("1234", 3, '0'), "1234");
    assert_eq!(pad("12", 2, 'x'), "12");
}

#[test]
fn pad_width_zero_changes_nothing() {
    assert_eq!(pad("7", 0, '0'), "7");
}

#[test]
fn capture_backreference_swaps_groups() {
    let (_, rep, _) =
        replace_with_count(true, "file-42", r"(\w+)-(\d+)", "<:2>_<:1>", 1).unwrap();
    assert_eq!(rep, "42_file");
}

#[test]
fn escaped_capture_token_is_literal() {
    let (_, rep, _) = replace_with_count(true, "file-42", r"(\w+)-(\d+)", "@<:1>", 1).unwrap();
    assert_eq!(rep, "<:1>");
}

#[test]
fn capture_group_zero_is_the_whole_match() {
    let groups = vec![Some("file-42".chars().collect::<Vec<char>>())];
    assert_eq!(replace_with_captures("[<:0>]", &groups), "[file-42]");
}

#[test]
fn out_of_range_capture_index_yields_sentinel() {
    let groups = vec![Some("m".chars().collect::<Vec<char>>())];
    assert_eq!(replace_with_captures("<:9>", &groups), "<:invalid_index>");
}

#[test]
fn absent_capture_group_yields_empty_text() {
    let groups: Vec<Option<Vec<char>>> =
        vec![Some("b".chars().collect()), None, Some("b".chars().collect())];
    assert_eq!(replace_with_captures("[<:1>][<:2>]", &groups), "[][b]");
}

#[test]
fn two_digit_capture_index_is_taken_greedily() {
    let mut groups: Vec<Option<Vec<char>>> = Vec::new();
    for _ in 0..12 {
        groups.push(Some("g".chars().collect()));
    }
    groups[11] = Some("eleven".chars().collect());
    assert_eq!(replace_with_captures("<:11>", &groups), "eleven");
}

#[test]
fn malformed_capture_token_stays_literal() {
    let groups = vec![Some("m".chars().collect::<Vec<char>>())];
    assert_eq!(replace_with_captures("<:123>", &groups), "<:123>");
    assert_eq!(replace_with_captures("<:>", &groups), "<:>");
}

#[test]
fn extreme_serial_numbers_are_formatted_exactly() {
    assert_eq!(
        replacement_handler("<enum>", i64::MIN).unwrap(),
        "-9223372036854775808"
    );
    assert_eq!(
        replacement_handler("<enum>", i64::MAX).unwrap(),
        "9223372036854775807"
    );
}

#[test]
fn width_digit_zero_is_not_part_of_the_token_grammar() {
    assert_eq!(replacement_handler("<enum0>", 7).unwrap(), "<enum0>");
}
