use pictures_organizer::control::{
    on_tick, start_state, OrganizationCommand, TickAction, TERMINATION_SENTINEL,
};
use pictures_organizer::notify::should_notify;
use pictures_organizer::scan::{
    extract_candidates, report_for_outcomes, run_cycle, Candidate, FsEntry, ScanBucket,
};
use pictures_organizer::settings::SettingsStruct;

fn file_entry(name: &str, modified: Option<u64>) -> FsEntry {
    FsEntry { name: name.to_string(), is_dir: false, modified_epoch_secs: modified }
}

fn dir_entry(name: &str) -> FsEntry {
    FsEntry { name: name.to_string(), is_dir: true, modified_epoch_secs: None }
}

#[test]
fn sentinel_is_minus_one() {
    assert_eq!(TERMINATION_SENTINEL, -1);
}

#[test]
fn first_tick_scans_immediately() {
    let mut state = start_state(60);
    assert_eq!(on_tick(&mut state, None), TickAction::RunScan);
}

#[test]
fn scan_runs_every_interval_ticks() {
    let mut state = start_state(3);
    let mut actions = Vec::new();
    for _ in 0..7 {
        actions.push(on_tick(&mut state, None));
    }
    assert_eq!(
        actions,
        vec![
            TickAction::RunScan,
            TickAction::KeepWaiting,
            TickAction::KeepWaiting,
            TickAction::RunScan,
            TickAction::KeepWaiting,
            TickAction::KeepWaiting,
            TickAction::RunScan,
        ]
    );
}

#[test]
fn terminate_wins_at_any_tick() {
    // Mid-wait between scans: the very next tick emits the sentinel and no
    // scan runs, whatever the counter held.
    let mut state = start_state(5);
    assert_eq!(on_tick(&mut state, None), TickAction::RunScan);
    assert_eq!(on_tick(&mut state, None), TickAction::KeepWaiting);
    let before = state;
    assert_eq!(
        on_tick(&mut state, Some(OrganizationCommand::Terminate)),
        TickAction::EmitSentinel
    );
    assert_eq!(state, before);
}

#[test]
fn terminate_on_a_scan_tick_still_wins() {
    let mut state = start_state(1);
    assert_eq!(
        on_tick(&mut state, Some(OrganizationCommand::Terminate)),
        TickAction::EmitSentinel
    );
}

#[test]
fn notification_mode_none_is_silent() {
    assert!(!should_notify("none", 0));
    assert!(!should_notify("none", 5));
}

#[test]
fn notification_mode_on_success_skips_empty_cycles() {
    assert!(!should_notify("onSuccess", 0));
    assert!(should_notify("onSuccess", 3));
}

#[test]
fn notification_mode_always_always_notifies() {
    assert!(should_notify("always", 0));
    assert!(should_notify("always", 7));
}

#[test]
fn settings_round_trip_through_getters() {
    let s = SettingsStruct::new(30, "06:30".to_string(), "always".to_string());
    assert_eq!(s.get_interval_sec(), 30);
    assert_eq!(s.get_date_line(), "06:30");
    assert_eq!(s.get_notification_mode(), "always");
}

#[test]
fn settings_defaults() {
    let s = SettingsStruct::default();
    assert_eq!(s.get_interval_sec(), 60);
    assert_eq!(s.get_date_line(), "12:00");
    assert_eq!(s.get_notification_mode(), "onSuccess");
}

#[test]
fn empty_root_reports_zero_not_sentinel() {
    let buckets: Vec<ScanBucket> = Vec::new();
    let candidates = extract_candidates(&buckets);
    assert_eq!(candidates.len(), 0);
    let report = run_cycle(&candidates, "12:00");
    assert_eq!(report, 0);
    assert_ne!(report, TERMINATION_SENTINEL);
}

#[test]
fn extraction_skips_directories_and_keeps_order() {
    let buckets = vec![
        ScanBucket {
            path: "root/2024-03".to_string(),
            entries: vec![
                dir_entry("2024-03-09"),
                file_entry("a.png", Some(1_700_000_000)),
                file_entry("b.png", None),
            ],
        },
        ScanBucket {
            path: "root/2024-04".to_string(),
            entries: vec![file_entry("c.png", Some(1_700_000_000))],
        },
    ];
    let candidates = extract_candidates(&buckets);
    assert_eq!(candidates.len(), 3);
    assert_eq!(candidates[0].parent_dir, "root/2024-03");
    assert_eq!(candidates[0].file_name, "a.png");
    assert_eq!(candidates[1].file_name, "b.png");
    assert_eq!(candidates[1].modified_epoch_secs, None);
    assert_eq!(candidates[2].parent_dir, "root/2024-04");
    assert_eq!(candidates[2].file_name, "c.png");
}

#[test]
fn date_folders_are_never_candidates() {
    // A file moved into a date folder sits under a directory entry of its
    // bucket; only the two modeled levels are ever listed, so it cannot be
    // offered again.
    let buckets = vec![ScanBucket {
        path: "root/2024-03".to_string(),
        entries: vec![dir_entry("2024-03-09"), dir_entry("2024-03-10")],
    }];
    let candidates = extract_candidates(&buckets);
    assert_eq!(candidates.len(), 0);
}

#[test]
fn report_counts_only_successes() {
    assert_eq!(report_for_outcomes(&vec![]), 0);
    assert_eq!(report_for_outcomes(&vec![true, false, true, true, false]), 3);
    assert_eq!(report_for_outcomes(&vec![false, false]), 0);
}

#[test]
fn report_saturates_at_its_maximum() {
    let outcomes = vec![true; 200];
    assert_eq!(report_for_outcomes(&outcomes), 127);
}

#[test]
fn cycle_reports_exactly_the_successful_moves() {
    let root = "/tmp/orgtest_cycle";
    let bucket = format!("{}/2024-03", root);
    let _ = fs_extra::dir::remove(root);
    fs_extra::dir::create_all(&bucket, false).unwrap();
    fs_extra::file::write_all(format!("{}/a.png", bucket), "a").unwrap();
    fs_extra::file::write_all(format!("{}/stays.png", bucket), "s").unwrap();

    let candidates = vec![
        // A real file with a classifiable time: its move succeeds.
        Candidate {
            parent_dir: bucket.clone(),
            file_name: "a.png".to_string(),
            modified_epoch_secs: Some(1_700_000_000),
        },
        // A real file without a reported time: skipped, left in place.
        Candidate {
            parent_dir: bucket.clone(),
            file_name: "stays.png".to_string(),
            modified_epoch_secs: None,
        },
        // A candidate whose file is gone by move time: the move fails.
        Candidate {
            parent_dir: bucket.clone(),
            file_name: "missing.png".to_string(),
            modified_epoch_secs: Some(1_700_000_000),
        },
    ];
    let report = run_cycle(&candidates, "12:00");

    let moved_away = fs_extra::file::read_to_string(format!("{}/a.png", bucket)).is_err();
    let stayed = fs_extra::file::read_to_string(format!("{}/stays.png", bucket)).is_ok();
    // The moved file now lives one level deeper, in a date folder.
    let content = fs_extra::dir::get_dir_content(&bucket).unwrap();
    let relocated = content
        .files
        .iter()
        .any(|f| f.ends_with("a.png") && f.len() > format!("{}/a.png", bucket).len());
    let _ = fs_extra::dir::remove(root);

    assert_eq!(report, 1);
    assert!(moved_away);
    assert!(stayed);
    assert!(relocated);
}

#[test]
fn failed_candidates_are_offered_again_next_cycle() {
    let root = "/tmp/orgtest_retry";
    let bucket = format!("{}/2024-05", root);
    let _ = fs_extra::dir::remove(root);
    fs_extra::dir::create_all(&bucket, false).unwrap();
    fs_extra::file::write_all(format!("{}/keep.png", bucket), "k").unwrap();

    // The file's time is unreportable, so the first cycle moves nothing.
    let entries = vec![FsEntry {
        name: "keep.png".to_string(),
        is_dir: false,
        modified_epoch_secs: None,
    }];
    let buckets = vec![ScanBucket { path: bucket.clone(), entries }];
    let candidates = extract_candidates(&buckets);
    let first = run_cycle(&candidates, "12:00");

    // The next cycle lists the same file again, now with a usable time.
    let entries = vec![FsEntry {
        name: "keep.png".to_string(),
        is_dir: false,
        modified_epoch_secs: Some(1_700_000_000),
    }];
    let buckets = vec![ScanBucket { path: bucket.clone(), entries }];
    let candidates = extract_candidates(&buckets);
    let second = run_cycle(&candidates, "12:00");

    let _ = fs_extra::dir::remove(root);
    assert_eq!(first, 0);
    assert_eq!(second, 1);
}
