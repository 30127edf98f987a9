use server::clock::CivilTime;
use server::naming::archive_name;
use server::rotation::{should_roll, CustomLogRoller, RotationState, FILE_SIZE_LIMIT};

fn jan_first_2024() -> CivilTime {
    CivilTime { year: 2024, month: 1, day: 1, ordinal: 1, hour: 12, minute: 0, second: 0 }
}

fn names(list: &[&str]) -> Vec<String> {
    list.iter().map(|s| s.to_string()).collect()
}

#[test]
fn recovery_scan_skips_malformed_names() {
    let archive = names(&["2024-01-01-1.log.gz", "2024-01-01-3.log.gz", "2024-01-01-foo.log.gz"]);
    let mut state = RotationState::recover(&archive, &jan_first_2024());
    assert_eq!(state.day_of_year, 1);
    assert_eq!(state.sequence_count, 3);
    assert_eq!(state.advance(1), 4);
}

#[test]
fn recovery_scan_ignores_other_days_and_files() {
    let archive = names(&[
        "2023-12-31-9.log.gz",
        "latest.log",
        "latest-tmp.log",
        "2024-01-01-2.log.gz",
        "2024-01-01-.log.gz",
    ]);
    let state = RotationState::recover(&archive, &jan_first_2024());
    assert_eq!(state.sequence_count, 2);
}

#[test]
fn recovery_of_empty_directory_starts_at_zero() {
    let state = RotationState::recover(&Vec::new(), &jan_first_2024());
    assert_eq!(state.sequence_count, 0);
    assert_eq!(state.day_of_year, 1);
}

#[test]
fn same_day_rotations_count_up_by_one() {
    let archive = names(&["2024-01-01-5.log.gz"]);
    let mut state = RotationState::recover(&archive, &jan_first_2024());
    assert_eq!(state.advance(1), 6);
    assert_eq!(state.advance(1), 7);
    assert_eq!(state.advance(1), 8);
}

#[test]
fn new_day_restarts_numbering() {
    let mut state = RotationState { day_of_year: 41, sequence_count: 17 };
    assert_eq!(state.advance(42), 1);
    assert_eq!(state.day_of_year, 42);
    assert_eq!(state.advance(42), 2);
    let mut other = RotationState { day_of_year: 300, sequence_count: 2 };
    assert_eq!(other.advance(7), 1);
}

#[test]
fn size_trigger_fires_at_threshold() {
    assert!(should_roll(FILE_SIZE_LIMIT, FILE_SIZE_LIMIT));
    assert!(should_roll(FILE_SIZE_LIMIT + 1, FILE_SIZE_LIMIT));
    assert!(!should_roll(FILE_SIZE_LIMIT - 1, FILE_SIZE_LIMIT));
    assert_eq!(FILE_SIZE_LIMIT, 50_000_000);
}

#[test]
fn plan_roll_names_the_next_archive() {
    let mut roller = CustomLogRoller { name_info: RotationState { day_of_year: 1, sequence_count: 3 }, recovered_at: jan_first_2024() };
    let plan = roller.plan_roll(&jan_first_2024(), true);
    assert_eq!(plan.sequence_number, 4);
    assert_eq!(plan.archive_path, "./logs/2024-01-01-4.log.gz");
    assert_eq!(plan.transient_path, "./logs/latest-tmp.log");
    assert!(plan.threaded);
    assert_eq!(plan.rolled_at.ordinal, 1);
    let plan = roller.plan_roll(&jan_first_2024(), false);
    assert_eq!(plan.sequence_number, 5);
    assert_eq!(plan.archive_path, "./logs/2024-01-01-5.log.gz");
    assert!(!plan.threaded);
}

#[test]
fn plan_roll_on_a_new_day() {
    let mut roller = CustomLogRoller { name_info: RotationState { day_of_year: 366, sequence_count: 9 }, recovered_at: jan_first_2024() };
    let plan = roller.plan_roll(&jan_first_2024(), false);
    assert_eq!(plan.sequence_number, 1);
    assert_eq!(plan.archive_path, "./logs/2024-01-01-1.log.gz");
    assert_eq!(roller.name_info.day_of_year, 1);
}

#[test]
fn roller_from_empty_directory_numbers_first_rotation_one() {
    let mut roller = CustomLogRoller::new(&Vec::new());
    assert_eq!(roller.name_info.sequence_count, 0);
    let plan = roller.roll_threaded(false);
    assert_eq!(plan.sequence_number, 1);
    assert_eq!(roller.name_info.day_of_year, plan.rolled_at.ordinal);
    assert_eq!(roller.recovered_at.ordinal, roller.name_info.day_of_year);
    assert_eq!(plan.transient_path, "./logs/latest-tmp.log");
    assert!(plan.archive_path.starts_with("./logs/"));
    assert!(plan.archive_path.ends_with("-1.log.gz"));
}

#[test]
fn recovery_counts_archives_this_library_wrote() {
    let today = jan_first_2024();
    let archive = vec![archive_name(&today, 2), archive_name(&today, 11), archive_name(&today, 7)];
    let mut state = RotationState::recover(&archive, &today);
    assert_eq!(state.sequence_count, 11);
    assert_eq!(state.advance(today.ordinal), 12);
}

#[test]
fn name_of_date_alone_carries_no_index() {
    let archive = names(&["2024-01-01.log.gz", "2024-01-01-x2.log.gz"]);
    let state = RotationState::recover(&archive, &jan_first_2024());
    assert_eq!(state.day_of_year, 1);
    assert_eq!(state.sequence_count, 0);
}

#[test]
fn same_day_rolls_continue_from_recovered_index() {
    let today = jan_first_2024();
    let archive = names(&["2024-01-01-2.log.gz"]);
    let mut roller = CustomLogRoller { name_info: RotationState::recover(&archive, &today), recovered_at: today };
    for expected in 3..6 {
        let plan = roller.plan_roll(&today, true);
        assert_eq!(plan.sequence_number, expected);
        assert_eq!(plan.archive_path, format!("./logs/2024-01-01-{}.log.gz", expected));
    }
}
