use renamer::plan::{filter_matches, rename_precheck, Planner, VEC_LENGTH_LIMIT};
use renamer::resolve::RenameTarget;

#[test]
fn filter_star_admits_everything() {
    assert!(filter_matches("*", true, false, "a.txt"));
    assert!(filter_matches("*", false, true, "dir"));
}

#[test]
fn filter_question_mark_admits_files_only() {
    assert!(filter_matches("?", true, false, "a.txt"));
    assert!(!filter_matches("?", false, true, "dir"));
}

#[test]
fn filter_slash_admits_directories_only() {
    assert!(!filter_matches("/", true, false, "a.txt"));
    assert!(filter_matches("/", false, true, "dir"));
}

#[test]
fn extension_filter_is_case_insensitive_and_strips_the_dot() {
    assert!(filter_matches(".png", true, false, "root/img1.png"));
    assert!(filter_matches("png", true, false, "root/img1.PNG"));
    assert!(filter_matches(".PNG", true, false, "root/img1.png"));
    assert!(!filter_matches(".png", true, false, "root/doc.txt"));
    assert!(!filter_matches(".png", true, false, "root/noext"));
}

#[test]
fn extension_filter_folds_case_beyond_ascii() {
    assert!(filter_matches("Ö", true, false, "a.ö"));
    assert!(filter_matches(".ö", true, false, "a.Ö"));
    assert!(filter_matches("İ", true, false, "a.i̇"));
    assert!(!filter_matches("ö", true, false, "a.o"));
}

#[test]
fn no_op_plan_keeps_the_serial_counter_at_one() {
    let mut planner = Planner::new();
    for path in ["root/a.txt", "root/b.txt", "root/c.txt"] {
        let flushed = planner.plan_entry(path, "zzz", "x", false, RenameTarget::STEM, 0, true);
        assert!(flushed.is_none());
    }
    assert_eq!(planner.serial, 1);
    let rest = planner.finish();
    assert_eq!(rest.len(), 3);
    for entry in &rest {
        assert_eq!(entry.original_path, entry.target_path);
    }
}

#[test]
fn genuine_renames_advance_the_serial_counter() {
    let mut planner = Planner::new();
    planner.plan_entry("root/img1.png", "^img", "photo_<enum>", true, RenameTarget::STEM, 0, true);
    assert_eq!(planner.serial, 2);
    planner.plan_entry("root/img2.png", "^img", "photo_<enum>", true, RenameTarget::STEM, 0, true);
    assert_eq!(planner.serial, 3);
    let rest = planner.finish();
    assert_eq!(rest[0].target_path, "root/photo_11.png");
    assert_eq!(rest[1].target_path, "root/photo_22.png");
}

#[test]
fn planned_end_to_end_scenario_excludes_filtered_entries() {
    let files = ["root/img1.png", "root/img2.png", "root/doc.txt"];
    let mut planner = Planner::new();
    let mut planned: Vec<String> = Vec::new();
    for path in files {
        if !filter_matches(".png", true, false, path) {
            continue;
        }
        planner.plan_entry(path, "^img", "photo_<enum-2>", true, RenameTarget::STEM, 0, true);
    }
    for entry in planner.finish() {
        planned.push(entry.target_path);
    }
    assert_eq!(planned, vec!["root/photo_101.png", "root/photo_202.png"]);
    assert!(!planned.iter().any(|p| p.contains("doc")));
}

#[test]
fn batches_flush_at_the_capacity_limit() {
    assert_eq!(VEC_LENGTH_LIMIT, 100);
    let mut planner = Planner::new();
    let mut flushed_at: Option<usize> = None;
    for i in 0..105usize {
        let path = format!("root/file{}.txt", i);
        let flushed = planner.plan_entry(&path, "zzz", "x", false, RenameTarget::STEM, 0, true);
        if let Some(batch) = flushed {
            assert_eq!(batch.len(), 100);
            assert!(flushed_at.is_none());
            flushed_at = Some(i);
        }
    }
    assert_eq!(flushed_at, Some(99));
    let rest = planner.finish();
    assert_eq!(rest.len(), 5);
}

#[test]
fn no_op_entries_do_not_consume_serial_values() {
    let mut planner = Planner::new();
    planner.plan_entry("root/img1.png", "^img", "n<enum>", true, RenameTarget::STEM, 0, true);
    planner.plan_entry("root/doc1.txt", "^img", "n<enum>", true, RenameTarget::STEM, 0, true);
    planner.plan_entry("root/img2.png", "^img", "n<enum>", true, RenameTarget::STEM, 0, true);
    let rest = planner.finish();
    assert_eq!(rest[0].target_path, "root/n11.png");
    assert_eq!(rest[1].target_path, "root/doc1.txt");
    assert_eq!(rest[2].target_path, "root/n22.png");
}

#[test]
fn apply_precheck_reports_each_failure() {
    assert_eq!(
        rename_precheck(false, false).unwrap_err(),
        "Original path does not exist."
    );
    assert_eq!(
        rename_precheck(true, true).unwrap_err(),
        "Target path already exists."
    );
    assert!(rename_precheck(true, false).is_ok());
}
