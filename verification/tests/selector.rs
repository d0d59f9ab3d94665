use malfs::partitions::SelectionStep;
use malfs::partitions::SessionResult;
use malfs::partitions::extract_device_path;
use malfs::partitions::confirm_selection;
use malfs::partitions::line_has_dev_entry;
use malfs::partitions::prepare_partition_listing;
use malfs::partitions::render_menu;
use malfs::partitions::select_all_patitions;
use malfs::partitions::select_step;

fn listing() -> Vec<String> {
    vec![
        "/dev/sda1  2048  1050623  1048576  512M EFI System".to_string(),
        "/dev/sda2  1050624  500117503  499066880  238G Linux filesystem".to_string(),
    ]
}

fn strings(xs: &[&str]) -> Vec<String> {
    xs.iter().map(|s| s.to_string()).collect()
}

#[test]
fn extraction_matches_substring() {
    // The extracted path is exactly the /dev/... token, whatever stands
    // around it.
    let line = "Disk /dev/sda1  2048 sectors";
    assert_eq!(extract_device_path(line).unwrap(), "/dev/sda1");
    let line2 = "boot on /dev/nvme0n1 (primary)";
    assert_eq!(extract_device_path(line2).unwrap(), "/dev/nvme0n1");
    assert_eq!(extract_device_path("/dev/sda2 tail").unwrap(), "/dev/sda2");
    assert!(extract_device_path("no device here").is_none());
    assert!(extract_device_path("/dev/ (empty name)").is_none());
}

#[test]
fn extraction_is_leftmost() {
    let line = "see /dev/sda1 before /dev/sdb2";
    assert_eq!(extract_device_path(line).unwrap(), "/dev/sda1");
}

#[test]
fn entry_needs_trailing_space() {
    assert!(line_has_dev_entry("/dev/sda1  2048"));
    assert!(!line_has_dev_entry("/dev/sda1"));
    assert!(!line_has_dev_entry("plain text"));
}

#[test]
fn listing_filters_and_keeps_order() {
    let raw = strings(&[
        "Disk model: Foo",
        "/dev/sda1  2048 a",
        "header",
        "/dev/sda2  4096 b",
    ]);
    let parts = prepare_partition_listing(&raw).unwrap();
    assert_eq!(parts, strings(&["/dev/sda1  2048 a", "/dev/sda2  4096 b"]));
}

#[test]
fn empty_listing_is_fatal() {
    let err = prepare_partition_listing(&Vec::new()).unwrap_err();
    assert_eq!(err, "No partitions available.");
    let err2 = prepare_partition_listing(&strings(&["no entries here"])).unwrap_err();
    assert_eq!(err2, "No partitions available.");
}

#[test]
fn menu_is_one_indexed() {
    let menu = render_menu(&listing());
    assert_eq!(menu.len(), 2);
    assert!(menu[0].starts_with("1: /dev/sda1"));
    assert!(menu[1].starts_with("2: /dev/sda2"));
}

#[test]
fn boundary_indices() {
    let parts = listing();
    // 0 and len+1 are rejected; 1 and len succeed.
    assert!(matches!(select_step(&parts, "0"), SelectionStep::Rejected));
    assert!(matches!(select_step(&parts, "3"), SelectionStep::Rejected));
    match select_step(&parts, "1") {
        SelectionStep::Chosen(p) => assert_eq!(p, "/dev/sda1"),
        _ => panic!("index 1 must choose"),
    }
    match select_step(&parts, "2") {
        SelectionStep::Chosen(p) => assert_eq!(p, "/dev/sda2"),
        _ => panic!("index len must choose"),
    }
}

#[test]
fn malformed_answers_are_rejected() {
    let parts = listing();
    assert!(matches!(select_step(&parts, ""), SelectionStep::Rejected));
    assert!(matches!(select_step(&parts, "two"), SelectionStep::Rejected));
    assert!(matches!(select_step(&parts, "1.5"), SelectionStep::Rejected));
    assert!(matches!(select_step(&parts, "-1"), SelectionStep::Rejected));
    assert!(matches!(select_step(&parts, "99999999999999999999999999"), SelectionStep::Rejected));
    // A leading plus sign is what the numeral grammar accepts.
    assert!(matches!(select_step(&parts, "+2"), SelectionStep::Chosen(_)));
    assert!(matches!(select_step(&parts, "exit"), SelectionStep::Cancelled));
}

#[test]
fn confirmation_accepts_only_y() {
    assert!(confirm_selection("y"));
    assert!(confirm_selection("Y"));
    assert!(!confirm_selection("yes"));
    assert!(!confirm_selection("n"));
    assert!(!confirm_selection(""));
    assert!(!confirm_selection("yy"));
}

#[test]
fn cancellation_at_boot_prompt() {
    // "exit" first: no selection, and the main prompt is never reached.
    let r = select_all_patitions(&listing(), &strings(&["exit", "1", "y"]));
    assert!(matches!(r, SessionResult::CancelledBoot));
}

#[test]
fn cancellation_at_main_prompt() {
    let r = select_all_patitions(&listing(), &strings(&["1", "exit"]));
    assert!(matches!(r, SessionResult::CancelledMain));
}

#[test]
fn decline_yields_no_selection() {
    // Anything but exactly "y" at confirmation declines, valid selections
    // notwithstanding.
    let r = select_all_patitions(&listing(), &strings(&["1", "2", "yes"]));
    assert!(matches!(r, SessionResult::Declined));
    let r2 = select_all_patitions(&listing(), &strings(&["1", "2", "n"]));
    assert!(matches!(r2, SessionResult::Declined));
}

#[test]
fn full_selection_scenario() {
    let r = select_all_patitions(&listing(), &strings(&["1", "2", "y"]));
    match r {
        SessionResult::Completed(sel) => {
            assert_eq!(sel.boot, "/dev/sda1");
            assert_eq!(sel.main, "/dev/sda2");
        },
        _ => panic!("the dialogue must complete"),
    }
}

#[test]
fn rejected_answers_repeat_the_prompt() {
    let r = select_all_patitions(&listing(), &strings(&["0", "junk", "2", "7", "1", "Y"]));
    match r {
        SessionResult::Completed(sel) => {
            assert_eq!(sel.boot, "/dev/sda2");
            assert_eq!(sel.main, "/dev/sda1");
        },
        _ => panic!("rejected answers must only repeat the prompt"),
    }
}

#[test]
fn script_can_run_out() {
    let r = select_all_patitions(&listing(), &strings(&["1", "2"]));
    assert!(matches!(r, SessionResult::NeedsInput));
}
