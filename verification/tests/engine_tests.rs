use menu_engine::scheduler::{
    calculate_next_occurrence, check_and_execute_schedules, has_schedule_conflict,
    is_schedule_due, SECONDS_PER_DAY, SECONDS_PER_WEEK,
};
use menu_engine::storage::{
    JsonStorage, MenuCategory, MenuItem, MenuPreset, MenuSchedule, ScheduleRecurrence,
    ScheduleStatus,
};

fn item(id: u128, name: &str, available: bool) -> MenuItem {
    MenuItem {
        id,
        name: name.to_string(),
        category: MenuCategory::Mains,
        description: String::new(),
        allergens: Vec::new(),
        is_available: available,
    }
}

fn preset(id: u128, name: &str, item_ids: Vec<u128>) -> MenuPreset {
    MenuPreset {
        id,
        name: name.to_string(),
        description: String::new(),
        menu_item_ids: item_ids,
        created_at: 0,
        updated_at: 0,
    }
}

fn schedule(
    id: u128,
    preset_id: u128,
    name: &str,
    start: i64,
    end: i64,
    recurrence: ScheduleRecurrence,
    status: ScheduleStatus,
) -> MenuSchedule {
    MenuSchedule {
        id,
        preset_id,
        name: name.to_string(),
        description: String::new(),
        start_time: start,
        end_time: end,
        recurrence,
        status,
        created_at: 0,
        updated_at: 0,
        error_message: None,
    }
}

#[test]
fn due_check_follows_start_time() {
    let s = schedule(1, 1, "s", 100, 200, ScheduleRecurrence::Custom, ScheduleStatus::Pending);
    assert!(!is_schedule_due(&s, 99));
    assert!(is_schedule_due(&s, 100));
    assert!(is_schedule_due(&s, 101));
}

#[test]
fn conflict_detection_skips_self_and_finds_overlap() {
    let a = schedule(1, 1, "a", 0, 100, ScheduleRecurrence::Custom, ScheduleStatus::Pending);
    let b = schedule(2, 1, "b", 50, 150, ScheduleRecurrence::Custom, ScheduleStatus::Pending);
    let c = schedule(3, 1, "c", 200, 300, ScheduleRecurrence::Custom, ScheduleStatus::Pending);
    let existing = vec![a.clone(), c.clone()];
    // `a` only conflicts with itself in the list, which does not count.
    assert!(has_schedule_conflict(&a, &existing).is_none());
    // `b` overlaps `a`.
    let hit = has_schedule_conflict(&b, &existing).expect("overlap expected");
    assert_eq!(hit.id, 1);
    // closed-interval boundary: touching intervals conflict.
    let d = schedule(4, 1, "d", 100, 120, ScheduleRecurrence::Custom, ScheduleStatus::Pending);
    let hit = has_schedule_conflict(&d, &existing).expect("boundary overlap expected");
    assert_eq!(hit.id, 1);
}

#[test]
fn next_occurrence_daily_weekly_monthly_custom() {
    let base = 1706695200; // a Jan 31st, 10:00 UTC
    let mk = |rec| schedule(1, 1, "s", base, base + 100 * SECONDS_PER_DAY, rec, ScheduleStatus::Pending);
    assert_eq!(
        calculate_next_occurrence(&mk(ScheduleRecurrence::Daily)),
        Some(base + SECONDS_PER_DAY)
    );
    assert_eq!(
        calculate_next_occurrence(&mk(ScheduleRecurrence::Weekly)),
        Some(base + SECONDS_PER_WEEK)
    );
    // Calendar-aware: Jan 31st + 1 month lands on Feb 29th in a leap year.
    assert_eq!(
        calculate_next_occurrence(&mk(ScheduleRecurrence::Monthly)),
        Some(1709200800)
    );
    assert_eq!(calculate_next_occurrence(&mk(ScheduleRecurrence::Custom)), None);
}

#[test]
fn end_to_end_preset_activation() {
    // Preset P selects items A and B; items A, B, C exist, all unavailable.
    let mut storage = JsonStorage::new();
    storage.add_menu_item(item(1, "A", false));
    storage.add_menu_item(item(2, "B", false));
    storage.add_menu_item(item(3, "C", false));
    storage.add_menu_preset(preset(10, "P", vec![1, 2]));
    let now = 1_000_000;
    storage.add_menu_schedule(schedule(
        100,
        10,
        "S",
        now,
        now + 7200,
        ScheduleRecurrence::Custom,
        ScheduleStatus::Pending,
    ));

    check_and_execute_schedules(&mut storage, now);

    let items = storage.get_menu_items();
    assert!(items[0].is_available);
    assert!(items[1].is_available);
    assert!(!items[2].is_available);
    let s = &storage.get_menu_schedules()[0];
    assert_eq!(s.status, ScheduleStatus::Active);

    // After a tick following the end time, the schedule has ended.
    check_and_execute_schedules(&mut storage, now + 7200);
    let s = &storage.get_menu_schedules()[0];
    assert_eq!(s.status, ScheduleStatus::Ended);
    assert_eq!(s.error_message, None);
}

#[test]
fn overlapping_due_schedules_one_executes_other_conflicts() {
    let mut storage = JsonStorage::new();
    storage.add_menu_item(item(1, "A", false));
    storage.add_menu_item(item(2, "B", false));
    storage.add_menu_preset(preset(10, "P1", vec![1]));
    storage.add_menu_preset(preset(11, "P2", vec![2]));
    // S1 spans 0..2h, S2 spans 1h..3h; both pending and due at 1h.
    storage.add_menu_schedule(schedule(
        100,
        10,
        "S1",
        0,
        7200,
        ScheduleRecurrence::Custom,
        ScheduleStatus::Pending,
    ));
    storage.add_menu_schedule(schedule(
        101,
        11,
        "S2",
        3600,
        10800,
        ScheduleRecurrence::Custom,
        ScheduleStatus::Pending,
    ));

    check_and_execute_schedules(&mut storage, 3600);

    let schedules = storage.get_menu_schedules();
    assert_eq!(schedules[0].status, ScheduleStatus::Active);
    assert_eq!(schedules[1].status, ScheduleStatus::Conflicted);
    assert_eq!(
        schedules[1].error_message,
        Some("Conflicts with schedule 'S1' (100)".to_string())
    );
    // The menu reflects only P1's effect.
    let items = storage.get_menu_items();
    assert!(items[0].is_available);
    assert!(!items[1].is_available);
}

#[test]
fn daily_schedule_rearms_to_next_day() {
    let mut storage = JsonStorage::new();
    storage.add_menu_preset(preset(10, "P", vec![]));
    let start = 1710460800; // far from any end boundary
    storage.add_menu_schedule(schedule(
        100,
        10,
        "S",
        start,
        start + 365 * SECONDS_PER_DAY,
        ScheduleRecurrence::Daily,
        ScheduleStatus::Pending,
    ));

    check_and_execute_schedules(&mut storage, start);

    let s = &storage.get_menu_schedules()[0];
    assert_eq!(s.status, ScheduleStatus::Pending);
    assert_eq!(s.start_time, start + SECONDS_PER_DAY);
    assert_eq!(s.error_message, None);
}

#[test]
fn recurring_schedule_ends_when_next_occurrence_is_past_end() {
    let mut storage = JsonStorage::new();
    storage.add_menu_preset(preset(10, "P", vec![]));
    let start = 1710460800;
    // The window closes before the next daily occurrence fits.
    storage.add_menu_schedule(schedule(
        100,
        10,
        "S",
        start,
        start + 7200,
        ScheduleRecurrence::Daily,
        ScheduleStatus::Pending,
    ));

    check_and_execute_schedules(&mut storage, start);

    let s = &storage.get_menu_schedules()[0];
    assert_eq!(s.status, ScheduleStatus::Ended);
    assert_eq!(
        s.error_message,
        Some("Next occurrence is after schedule end time".to_string())
    );
}

#[test]
fn schedule_ending_exactly_now_ends_and_never_stays_active() {
    let mut storage = JsonStorage::new();
    storage.add_menu_preset(preset(10, "P", vec![]));
    // An active schedule whose end time is exactly now.
    storage.add_menu_schedule(schedule(
        100,
        10,
        "S",
        0,
        5000,
        ScheduleRecurrence::Custom,
        ScheduleStatus::Active,
    ));
    // A pending due schedule whose end time is exactly now.
    storage.add_menu_schedule(schedule(
        101,
        10,
        "T",
        20000,
        30000,
        ScheduleRecurrence::Custom,
        ScheduleStatus::Pending,
    ));

    check_and_execute_schedules(&mut storage, 5000);
    assert_eq!(storage.get_menu_schedules()[0].status, ScheduleStatus::Ended);

    check_and_execute_schedules(&mut storage, 30000);
    assert_eq!(storage.get_menu_schedules()[1].status, ScheduleStatus::Ended);
}

#[test]
fn missing_preset_fails_the_schedule_but_not_the_tick() {
    let mut storage = JsonStorage::new();
    storage.add_menu_item(item(1, "A", false));
    storage.add_menu_preset(preset(10, "P", vec![1]));
    // First schedule points at a preset that does not exist.
    storage.add_menu_schedule(schedule(
        100,
        99,
        "broken",
        0,
        1000,
        ScheduleRecurrence::Custom,
        ScheduleStatus::Pending,
    ));
    // Second schedule is fine and does not overlap the first one's range...
    // it does overlap, but a failed schedule does not claim its range.
    storage.add_menu_schedule(schedule(
        101,
        10,
        "good",
        0,
        1000,
        ScheduleRecurrence::Custom,
        ScheduleStatus::Pending,
    ));

    check_and_execute_schedules(&mut storage, 500);

    let schedules = storage.get_menu_schedules();
    assert_eq!(schedules[0].status, ScheduleStatus::Failed);
    assert_eq!(
        schedules[0].error_message,
        Some("Preset with id 99 not found for schedule 100".to_string())
    );
    assert_eq!(schedules[1].status, ScheduleStatus::Active);
    assert!(storage.get_menu_items()[0].is_available);
}

#[test]
fn execution_pass_is_idempotent() {
    let mut storage = JsonStorage::new();
    storage.add_menu_item(item(1, "A", false));
    storage.add_menu_item(item(2, "B", true));
    storage.add_menu_item(item(3, "C", false));
    let selected = vec![1u128, 3u128];
    storage.apply_preset_selection(&selected);
    let once = storage.get_menu_items();
    storage.apply_preset_selection(&selected);
    let twice = storage.get_menu_items();
    assert_eq!(once, twice);
    assert!(once[0].is_available);
    assert!(!once[1].is_available);
    assert!(once[2].is_available);
}

#[test]
fn tick_skips_terminal_schedules() {
    let mut storage = JsonStorage::new();
    storage.add_menu_preset(preset(10, "P", vec![]));
    for (id, status) in [
        (1u128, ScheduleStatus::Ended),
        (2, ScheduleStatus::Conflicted),
        (3, ScheduleStatus::Failed),
    ] {
        storage.add_menu_schedule(schedule(
            id,
            10,
            "t",
            0,
            10,
            ScheduleRecurrence::Custom,
            status,
        ));
    }
    check_and_execute_schedules(&mut storage, 100);
    let schedules = storage.get_menu_schedules();
    assert_eq!(schedules[0].status, ScheduleStatus::Ended);
    assert_eq!(schedules[1].status, ScheduleStatus::Conflicted);
    assert_eq!(schedules[2].status, ScheduleStatus::Failed);
}
