use menu_engine::error_handler::{AppError, ResultExt};
use menu_engine::handlers::{
    create_menu_item, create_menu_preset, create_menu_schedule, create_notice,
    get_menu_preset, get_menu_schedule, get_upcoming_schedules, update_menu_item,
    update_menu_preset, update_menu_schedule, update_notice, validate_schedule,
    active_notices, available_menu_items, ApiErrorType, CreateMenuItemRequest,
    CreateMenuPresetRequest, CreateMenuScheduleRequest, CreateNoticeRequest,
    UpdateMenuItemRequest, UpdateMenuPresetRequest, UpdateMenuScheduleRequest,
    UpdateNoticeRequest, ValidateScheduleRequest,
};
use menu_engine::storage::{
    JsonStorage, MenuCategory, ScheduleRecurrence, ScheduleStatus, StorageError,
};

fn item_request(name: &str, category: &str) -> CreateMenuItemRequest {
    CreateMenuItemRequest {
        name: name.to_string(),
        category: category.to_string(),
        description: "d".to_string(),
        allergens: vec!["soy".to_string()],
        is_available: false,
    }
}

fn schedule_request(preset_id: u128, start: i64, end: i64) -> CreateMenuScheduleRequest {
    CreateMenuScheduleRequest {
        preset_id,
        name: "S".to_string(),
        description: "d".to_string(),
        start_time: start,
        end_time: end,
        recurrence: "Daily".to_string(),
    }
}

fn seeded_storage() -> (JsonStorage, u128, u128) {
    let mut storage = JsonStorage::new();
    let a = create_menu_item(&mut storage, item_request("A", "Mains")).unwrap();
    let b = create_menu_item(&mut storage, item_request("B", "Sides")).unwrap();
    (storage, a.id, b.id)
}

#[test]
fn create_menu_item_validates_category() {
    let mut storage = JsonStorage::new();
    let created = create_menu_item(&mut storage, item_request("cake", "Desserts")).unwrap();
    assert_eq!(created.name, "cake");
    assert_eq!(created.category, MenuCategory::Desserts);
    let err = create_menu_item(&mut storage, item_request("x", "Drinks")).unwrap_err();
    match err {
        ApiErrorType::Validation(m) => assert_eq!(m, "Invalid category"),
        other => panic!("unexpected {other:?}"),
    }
    assert_eq!(storage.get_menu_items().len(), 1);
}

#[test]
fn update_menu_item_merges_missing_fields() {
    let (mut storage, a, _) = seeded_storage();
    let updated = update_menu_item(
        &mut storage,
        a,
        UpdateMenuItemRequest {
            name: Some("A2".to_string()),
            category: None,
            description: None,
            allergens: None,
            is_available: Some(true),
        },
    )
    .unwrap();
    assert_eq!(updated.name, "A2");
    assert_eq!(updated.category, MenuCategory::Mains);
    assert_eq!(updated.description, "d");
    assert!(updated.is_available);
    assert_eq!(storage.get_menu_items()[0], updated);

    let missing = update_menu_item(
        &mut storage,
        999,
        UpdateMenuItemRequest {
            name: None,
            category: None,
            description: None,
            allergens: None,
            is_available: None,
        },
    )
    .unwrap_err();
    match missing {
        ApiErrorType::NotFound(m) => assert_eq!(m, "Menu item with id 999 not found"),
        other => panic!("unexpected {other:?}"),
    }
}

#[test]
fn notices_create_update_and_filter() {
    let mut storage = JsonStorage::new();
    let n = create_notice(
        &mut storage,
        CreateNoticeRequest {
            title: "t".to_string(),
            content: "c".to_string(),
            is_active: true,
        },
        50,
    );
    assert_eq!(n.created_at, 50);
    let updated = update_notice(
        &mut storage,
        n.id,
        UpdateNoticeRequest { title: None, content: None, is_active: Some(false) },
        60,
    )
    .unwrap();
    assert_eq!(updated.created_at, 50);
    assert_eq!(updated.updated_at, 60);
    assert!(!updated.is_active);
    assert!(active_notices(&storage).is_empty());
}

#[test]
fn available_menu_items_filters_by_flag() {
    let (mut storage, a, _) = seeded_storage();
    update_menu_item(
        &mut storage,
        a,
        UpdateMenuItemRequest {
            name: None,
            category: None,
            description: None,
            allergens: None,
            is_available: Some(true),
        },
    )
    .unwrap();
    let shown = available_menu_items(&storage);
    assert_eq!(shown.len(), 1);
    assert_eq!(shown[0].id, a);
}

#[test]
fn preset_creation_requires_existing_items() {
    let (mut storage, a, b) = seeded_storage();
    let p = create_menu_preset(
        &mut storage,
        CreateMenuPresetRequest {
            name: "P".to_string(),
            description: String::new(),
            menu_item_ids: vec![a, b],
        },
        7,
    )
    .unwrap();
    assert_eq!(p.created_at, 7);
    assert_eq!(get_menu_preset(&storage, p.id).unwrap(), p);

    let err = create_menu_preset(
        &mut storage,
        CreateMenuPresetRequest {
            name: "Q".to_string(),
            description: String::new(),
            menu_item_ids: vec![a, 424242],
        },
        8,
    )
    .unwrap_err();
    match err {
        ApiErrorType::Validation(m) => assert_eq!(m, "Menu item with id 424242 not found"),
        other => panic!("unexpected {other:?}"),
    }
}

#[test]
fn preset_update_merges_and_validates() {
    let (mut storage, a, b) = seeded_storage();
    let p = create_menu_preset(
        &mut storage,
        CreateMenuPresetRequest {
            name: "P".to_string(),
            description: "old".to_string(),
            menu_item_ids: vec![a],
        },
        7,
    )
    .unwrap();
    let updated = update_menu_preset(
        &mut storage,
        p.id,
        UpdateMenuPresetRequest {
            name: None,
            description: Some("new".to_string()),
            menu_item_ids: Some(vec![b]),
        },
        9,
    )
    .unwrap();
    assert_eq!(updated.name, "P");
    assert_eq!(updated.description, "new");
    assert_eq!(updated.menu_item_ids, vec![b]);
    assert_eq!(updated.updated_at, 9);
}

#[test]
fn schedule_creation_yields_pending() {
    let (mut storage, a, _) = seeded_storage();
    let p = create_menu_preset(
        &mut storage,
        CreateMenuPresetRequest {
            name: "P".to_string(),
            description: String::new(),
            menu_item_ids: vec![a],
        },
        0,
    )
    .unwrap();
    let s = create_menu_schedule(&mut storage, schedule_request(p.id, 100, 200), 42).unwrap();
    assert_eq!(s.status, ScheduleStatus::Pending);
    assert_eq!(s.recurrence, ScheduleRecurrence::Daily);
    assert_eq!(s.created_at, 42);
    assert_eq!(s.error_message, None);
    assert_eq!(get_menu_schedule(&storage, s.id).unwrap(), s);
}

#[test]
fn schedule_creation_rejections() {
    let (mut storage, a, _) = seeded_storage();
    let p = create_menu_preset(
        &mut storage,
        CreateMenuPresetRequest {
            name: "P".to_string(),
            description: String::new(),
            menu_item_ids: vec![a],
        },
        0,
    )
    .unwrap();

    let err = create_menu_schedule(&mut storage, schedule_request(p.id, 200, 200), 0).unwrap_err();
    match err {
        AppError::Validation(m) => assert_eq!(m, "End time must be after start time"),
        other => panic!("unexpected {other:?}"),
    }

    let err = create_menu_schedule(&mut storage, schedule_request(31337, 100, 200), 0).unwrap_err();
    match err {
        AppError::Validation(m) => assert_eq!(m, "Menu preset with id 31337 not found"),
        other => panic!("unexpected {other:?}"),
    }

    let mut bad = schedule_request(p.id, 100, 200);
    bad.recurrence = "Sometimes".to_string();
    let err = create_menu_schedule(&mut storage, bad, 0).unwrap_err();
    match err {
        AppError::Validation(m) => assert_eq!(m, "Invalid recurrence value"),
        other => panic!("unexpected {other:?}"),
    }

    // Same-preset overlap is rejected, naming the schedule in the way.
    let s1 = create_menu_schedule(&mut storage, schedule_request(p.id, 100, 200), 0).unwrap();
    let err = create_menu_schedule(&mut storage, schedule_request(p.id, 150, 400), 0).unwrap_err();
    match err {
        AppError::Validation(m) => {
            assert_eq!(m, format!("Schedule conflict with existing schedule id {}", s1.id));
        },
        other => panic!("unexpected {other:?}"),
    }
}

#[test]
fn schedule_update_merges_and_validates() {
    let (mut storage, a, _) = seeded_storage();
    let p = create_menu_preset(
        &mut storage,
        CreateMenuPresetRequest {
            name: "P".to_string(),
            description: String::new(),
            menu_item_ids: vec![a],
        },
        0,
    )
    .unwrap();
    let s = create_menu_schedule(&mut storage, schedule_request(p.id, 100, 200), 0).unwrap();

    let updated = update_menu_schedule(
        &mut storage,
        s.id,
        UpdateMenuScheduleRequest {
            preset_id: None,
            name: Some("S2".to_string()),
            description: None,
            start_time: None,
            end_time: Some(500),
            recurrence: Some("Custom".to_string()),
            status: Some("Active".to_string()),
        },
        77,
    )
    .unwrap();
    assert_eq!(updated.name, "S2");
    assert_eq!(updated.end_time, 500);
    assert_eq!(updated.recurrence, ScheduleRecurrence::Custom);
    assert_eq!(updated.status, ScheduleStatus::Active);
    assert_eq!(updated.updated_at, 77);

    let err = update_menu_schedule(
        &mut storage,
        s.id,
        UpdateMenuScheduleRequest {
            preset_id: None,
            name: None,
            description: None,
            start_time: Some(600),
            end_time: None,
            recurrence: None,
            status: None,
        },
        78,
    )
    .unwrap_err();
    match err {
        AppError::Validation(m) => assert_eq!(m, "End time must be after start time"),
        other => panic!("unexpected {other:?}"),
    }

    let err = update_menu_schedule(
        &mut storage,
        4242,
        UpdateMenuScheduleRequest {
            preset_id: None,
            name: None,
            description: None,
            start_time: None,
            end_time: None,
            recurrence: None,
            status: None,
        },
        79,
    )
    .unwrap_err();
    match err {
        AppError::NotFound(m) => assert_eq!(m, "Menu schedule with id 4242 not found"),
        other => panic!("unexpected {other:?}"),
    }
}

#[test]
fn upcoming_schedules_are_those_starting_later() {
    let (mut storage, a, _) = seeded_storage();
    let p = create_menu_preset(
        &mut storage,
        CreateMenuPresetRequest {
            name: "P".to_string(),
            description: String::new(),
            menu_item_ids: vec![a],
        },
        0,
    )
    .unwrap();
    let early = create_menu_schedule(&mut storage, schedule_request(p.id, 100, 200), 0).unwrap();
    let late = create_menu_schedule(&mut storage, schedule_request(p.id, 1000, 2000), 0).unwrap();
    let upcoming = get_upcoming_schedules(&storage, 500);
    assert_eq!(upcoming.len(), 1);
    assert_eq!(upcoming[0].id, late.id);
    assert_ne!(upcoming[0].id, early.id);
}

fn validation_request(start: i64, end: i64) -> ValidateScheduleRequest {
    ValidateScheduleRequest {
        preset_id: None,
        name: None,
        description: None,
        start_time: start,
        end_time: end,
        recurrence: None,
        status: None,
        schedule_id: None,
    }
}

#[test]
fn validate_schedule_checks_fields_in_order() {
    let (mut storage, a, _) = seeded_storage();
    let p = create_menu_preset(
        &mut storage,
        CreateMenuPresetRequest {
            name: "P".to_string(),
            description: String::new(),
            menu_item_ids: vec![a],
        },
        0,
    )
    .unwrap();

    let err = validate_schedule(&storage, &validation_request(10, 10)).unwrap_err();
    match err {
        AppError::Validation(m) => assert_eq!(m, "End time must be after start time"),
        other => panic!("unexpected {other:?}"),
    }

    let mut req = validation_request(10, 20);
    req.preset_id = Some(8888);
    let err = validate_schedule(&storage, &req).unwrap_err();
    match err {
        AppError::Validation(m) => assert_eq!(m, "Menu preset with id 8888 not found"),
        other => panic!("unexpected {other:?}"),
    }

    let mut req = validation_request(10, 20);
    req.name = Some("   \t".to_string());
    let err = validate_schedule(&storage, &req).unwrap_err();
    match err {
        AppError::Validation(m) => assert_eq!(m, "Schedule name cannot be empty"),
        other => panic!("unexpected {other:?}"),
    }

    let mut req = validation_request(10, 20);
    req.description = Some(String::new());
    let err = validate_schedule(&storage, &req).unwrap_err();
    match err {
        AppError::Validation(m) => assert_eq!(m, "Schedule description cannot be empty"),
        other => panic!("unexpected {other:?}"),
    }

    let mut req = validation_request(10, 20);
    req.recurrence = Some("Often".to_string());
    let err = validate_schedule(&storage, &req).unwrap_err();
    match err {
        AppError::Validation(m) => assert_eq!(m, "Invalid recurrence value"),
        other => panic!("unexpected {other:?}"),
    }

    let mut req = validation_request(10, 20);
    req.status = Some("Paused".to_string());
    let err = validate_schedule(&storage, &req).unwrap_err();
    match err {
        AppError::Validation(m) => assert_eq!(m, "Invalid status value"),
        other => panic!("unexpected {other:?}"),
    }

    // A clean request with no overlaps validates.
    let ok = validate_schedule(&storage, &validation_request(10, 20)).unwrap();
    assert!(ok.is_valid);
    assert!(ok.conflicts.is_empty());
    assert_eq!(ok.message, None);

    // Overlaps are listed; the schedule under edit is skipped.
    let s = create_menu_schedule(&mut storage, schedule_request(p.id, 100, 200), 0).unwrap();
    let bad = validate_schedule(&storage, &validation_request(150, 300)).unwrap();
    assert!(!bad.is_valid);
    assert_eq!(bad.conflicts, vec![s.id]);
    assert_eq!(
        bad.message,
        Some("Schedule conflicts with existing schedules".to_string())
    );

    let mut own = validation_request(150, 300);
    own.schedule_id = Some(s.id);
    let own_ok = validate_schedule(&storage, &own).unwrap();
    assert!(own_ok.is_valid);
}

#[test]
fn error_shapes_and_status_codes() {
    let storage_err = AppError::Storage("disk".to_string());
    assert_eq!(storage_err.http_status(), 500);
    assert_eq!(AppError::Auth("no".to_string()).http_status(), 401);
    assert_eq!(AppError::Validation("v".to_string()).http_status(), 400);
    assert_eq!(AppError::NotFound("n".to_string()).http_status(), 404);
    assert_eq!(AppError::Internal("i".to_string()).http_status(), 500);

    let resp = storage_err.to_error_response();
    assert_eq!(resp.error, "Storage Error");
    assert_eq!(resp.message, "disk");
    assert_eq!(resp.error_type, "STORAGE_ERROR");
    assert_eq!(resp.details, None);

    let internal = AppError::Internal("secret".to_string()).to_error_response();
    assert_eq!(internal.message, "An unexpected error occurred. Please try again later.");

    let api = ApiErrorType::from_app_error(AppError::Auth("bad cookie".to_string()));
    match &api {
        ApiErrorType::Validation(m) => assert_eq!(m, "Auth error: bad cookie"),
        other => panic!("unexpected {other:?}"),
    }
    assert_eq!(api.http_status(), 400);
    let api = ApiErrorType::from_app_error(AppError::NotFound("gone".to_string()));
    assert_eq!(api.http_status(), 404);

    let mapped: Result<u8, AppError> =
        Result::<u8, StorageError>::Err(StorageError::NotFound).map_storage_err();
    match mapped.unwrap_err() {
        AppError::Storage(m) => assert_eq!(m, "Entity not found"),
        other => panic!("unexpected {other:?}"),
    }
    let ok: Result<u8, AppError> = Result::<u8, StorageError>::Ok(3).map_auth_err();
    assert_eq!(ok.unwrap(), 3);
}
