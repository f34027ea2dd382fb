use renamer::paths::with_stem;
use renamer::resolve::{foresight, foresight_with_serial, RenameTarget};

#[test]
fn stem_round_trip_restores_the_original_name() {
    let (_, _, target, _) = foresight("aaa.txt", "a", "b", false, RenameTarget::STEM, 1, true)
        .unwrap();
    assert_eq!(target, "baa.txt");
    let (_, _, back, _) = foresight(&target, "b", "a", false, RenameTarget::STEM, 1, true)
        .unwrap();
    assert_eq!(back, "aaa.txt");
}

#[test]
fn stem_rename_keeps_extension_and_directory() {
    let (orig, _, target, _) =
        foresight("dir/img1.png", "^img", "photo_", true, RenameTarget::STEM, 0, true).unwrap();
    assert_eq!(orig, "dir/img1.png");
    assert_eq!(target, "dir/photo_1.png");
}

#[test]
fn name_rename_replaces_the_whole_file_name() {
    let (_, _, target, _) =
        foresight("dir/a.txt", "a.txt", "b.md", false, RenameTarget::NAME, 0, true).unwrap();
    assert_eq!(target, "dir/b.md");
}

#[test]
fn suffix_rename_touches_only_the_extension() {
    let (_, _, target, _) =
        foresight("dir/a.txt", "txt", "md", false, RenameTarget::SUFFIX, 0, true).unwrap();
    assert_eq!(target, "dir/a.md");
}

#[test]
fn missing_extension_leaves_the_entry_unchanged() {
    let (orig, orig_name, target, target_name) =
        foresight("dir/Makefile", "a", "b", false, RenameTarget::SUFFIX, 0, true).unwrap();
    assert_eq!(orig, "dir/Makefile");
    assert_eq!(orig_name, "Makefile");
    assert_eq!(target, "dir/Makefile");
    assert_eq!(target_name, "Makefile");
}

#[test]
fn vanished_source_leaves_the_entry_unchanged() {
    let (orig, _, target, _) =
        foresight("gone.txt", "g", "x", false, RenameTarget::NAME, 0, false).unwrap();
    assert_eq!(orig, "gone.txt");
    assert_eq!(target, "gone.txt");
}

#[test]
fn highlighted_names_carry_closed_tags() {
    let (_, orig_name, _, target_name) =
        foresight("a.txt", "a", "b", false, RenameTarget::NAME, 1, true).unwrap();
    assert_eq!(
        orig_name,
        "<span class=\"highlight\">a</span><sup>1</sup>.txt"
    );
    assert_eq!(
        target_name,
        "<span class=\"highlight\">b</span><sup>1</sup>.txt"
    );
}

#[test]
fn foresight_with_serial_expands_the_token_first() {
    let (_, _, target, _) = foresight_with_serial(
        "dir/img1.png",
        "^img",
        "photo_<enum-2>",
        true,
        RenameTarget::STEM,
        0,
        1,
        true,
    )
    .unwrap();
    assert_eq!(target, "dir/photo_101.png");
}

#[test]
fn with_stem_rebuilds_under_the_parent() {
    assert_eq!(with_stem("dir/a.txt", "b").unwrap(), "dir/b.txt");
    assert_eq!(with_stem("/a.txt", "b").unwrap(), "/b.txt");
    assert_eq!(with_stem("a", "b").unwrap(), "b");
    assert_eq!(with_stem("dir/noext", "other").unwrap(), "dir/other");
}

#[test]
fn target_selector_parses_the_three_fields() {
    assert_eq!(RenameTarget::from_str("NAME").unwrap(), RenameTarget::NAME);
    assert_eq!(RenameTarget::from_str("STEM").unwrap(), RenameTarget::STEM);
    assert_eq!(RenameTarget::from_str("SUFFIX").unwrap(), RenameTarget::SUFFIX);
}

#[test]
fn target_selector_rejects_other_values() {
    let err = RenameTarget::from_str("stem").unwrap_err();
    assert_eq!(err, "Invalid RenameTarget value: stem");
}
