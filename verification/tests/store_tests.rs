use menu_engine::storage::{
    JsonStorage, MenuCategory, MenuItem, MenuPreset, MenuSchedule, Notice, ScheduleRecurrence,
    ScheduleStatus, StorageError,
};

fn item(id: u128, name: &str) -> MenuItem {
    MenuItem {
        id,
        name: name.to_string(),
        category: MenuCategory::Desserts,
        description: format!("about {name}"),
        allergens: vec!["nuts".to_string(), "milk".to_string()],
        is_available: id % 2 == 0,
    }
}

fn notice(id: u128, title: &str) -> Notice {
    Notice {
        id,
        title: title.to_string(),
        content: "body".to_string(),
        is_active: true,
        created_at: 5,
        updated_at: 6,
    }
}

#[test]
fn new_store_is_empty() {
    let storage = JsonStorage::new();
    assert!(storage.get_menu_items().is_empty());
    assert!(storage.get_notices().is_empty());
    assert!(storage.get_admin_users().is_empty());
    assert!(storage.get_menu_presets().is_empty());
    assert!(storage.get_menu_schedules().is_empty());
}

#[test]
fn add_and_get_returns_copies() {
    let mut storage = JsonStorage::new();
    storage.add_menu_item(item(1, "cake"));
    storage.add_menu_item(item(2, "pie"));
    let copy = storage.get_menu_items();
    assert_eq!(copy.len(), 2);
    assert_eq!(copy[0], item(1, "cake"));
    assert_eq!(copy[1], item(2, "pie"));
}

#[test]
fn update_replaces_matching_entity() {
    let mut storage = JsonStorage::new();
    storage.add_menu_item(item(1, "cake"));
    storage.add_menu_item(item(2, "pie"));
    let replacement = item(2, "tart");
    assert!(storage.update_menu_item(2, replacement.clone()).is_ok());
    assert_eq!(storage.get_menu_items()[1], replacement);
}

#[test]
fn update_missing_id_reports_not_found() {
    let mut storage = JsonStorage::new();
    storage.add_menu_item(item(1, "cake"));
    let r = storage.update_menu_item(7, item(7, "x"));
    assert!(matches!(r, Err(StorageError::NotFound)));
    assert_eq!(storage.get_menu_items().len(), 1);
}

#[test]
fn delete_removes_matching_entity() {
    let mut storage = JsonStorage::new();
    storage.add_notice(notice(1, "a"));
    storage.add_notice(notice(2, "b"));
    assert!(storage.delete_notice(1).is_ok());
    let left = storage.get_notices();
    assert_eq!(left.len(), 1);
    assert_eq!(left[0].id, 2);
    assert!(matches!(storage.delete_notice(1), Err(StorageError::NotFound)));
}

#[test]
fn admin_user_lookup_by_username() {
    let mut storage = JsonStorage::new();
    storage.add_admin_user(menu_engine::storage::AdminUser {
        id: 9,
        username: "root".to_string(),
        password_hash: "h".to_string(),
    });
    assert_eq!(storage.get_admin_user_by_username("root").unwrap().id, 9);
    assert!(storage.get_admin_user_by_username("nobody").is_none());
}

#[test]
fn storage_error_messages() {
    assert_eq!(
        StorageError::Io("boom".to_string()).message(),
        "IO error: boom"
    );
    assert_eq!(
        StorageError::Json("bad".to_string()).message(),
        "JSON serialization error: bad"
    );
    assert_eq!(StorageError::PoisonError.message(), "Mutex poison error");
    assert_eq!(StorageError::NotFound.message(), "Entity not found");
}

#[test]
fn snapshot_round_trip_menu_items() {
    let mut storage = JsonStorage::new();
    storage.add_menu_item(item(1, "cake \"special\""));
    storage.add_menu_item(MenuItem {
        id: u128::MAX,
        name: "weird\\name\nwith\tcontrol".to_string(),
        category: MenuCategory::Beverages,
        description: "caf\u{e9} — ünïcode ☕".to_string(),
        allergens: vec![String::new(), "{}[],:\"".to_string()],
        is_available: true,
    });
    let doc = storage.save_menu_items();
    let mut reloaded = JsonStorage::new();
    reloaded.load_menu_items(&doc).expect("canonical document must load");
    assert_eq!(storage.get_menu_items(), reloaded.get_menu_items());
}

#[test]
fn snapshot_round_trip_all_collections() {
    let mut storage = JsonStorage::new();
    storage.add_menu_item(item(1, "cake"));
    storage.add_notice(notice(2, "hello"));
    storage.add_admin_user(menu_engine::storage::AdminUser {
        id: 3,
        username: "admin".to_string(),
        password_hash: "$argon2id$v=19$fake".to_string(),
    });
    storage.add_menu_preset(MenuPreset {
        id: 4,
        name: "lunch".to_string(),
        description: String::new(),
        menu_item_ids: vec![1, 77, 0],
        created_at: -5,
        updated_at: i64::MAX,
    });
    storage.add_menu_schedule(MenuSchedule {
        id: 5,
        preset_id: 4,
        name: "spring".to_string(),
        description: "d".to_string(),
        start_time: i64::MIN,
        end_time: i64::MAX,
        recurrence: ScheduleRecurrence::Monthly,
        status: ScheduleStatus::Conflicted,
        created_at: 0,
        updated_at: 1,
        error_message: Some("why \"it\" failed".to_string()),
    });

    let mut reloaded = JsonStorage::new();
    reloaded.load_menu_items(&storage.save_menu_items()).unwrap();
    reloaded.load_notices(&storage.save_notices()).unwrap();
    reloaded.load_admin_users(&storage.save_admin_users()).unwrap();
    reloaded.load_menu_presets(&storage.save_menu_presets()).unwrap();
    reloaded.load_menu_schedules(&storage.save_menu_schedules()).unwrap();

    assert_eq!(storage.get_menu_items(), reloaded.get_menu_items());
    assert_eq!(storage.get_notices(), reloaded.get_notices());
    assert_eq!(storage.get_admin_users(), reloaded.get_admin_users());
    assert_eq!(storage.get_menu_presets(), reloaded.get_menu_presets());
    assert_eq!(storage.get_menu_schedules(), reloaded.get_menu_schedules());
}

#[test]
fn empty_collections_round_trip_as_empty_arrays() {
    let storage = JsonStorage::new();
    assert_eq!(storage.save_menu_items(), "[]");
    let mut reloaded = JsonStorage::new();
    reloaded.load_menu_items("[]").unwrap();
    assert!(reloaded.get_menu_items().is_empty());
}

#[test]
fn malformed_documents_are_rejected() {
    let mut storage = JsonStorage::new();
    for bad in ["", "{", "[", "[{]", "not json", "[{\"id\":}]"] {
        let r = storage.load_menu_items(bad);
        match r {
            Err(StorageError::Json(msg)) => {
                assert_eq!(msg, "malformed snapshot document");
            },
            other => panic!("expected a serialization error, got {other:?}"),
        }
    }
    assert!(storage.get_menu_items().is_empty());
}

#[test]
fn snapshot_document_is_json() {
    let mut storage = JsonStorage::new();
    storage.add_menu_item(item(1, "cake \"x\"\n"));
    let doc = storage.save_menu_items();
    assert!(doc.starts_with('['));
    assert!(doc.ends_with(']'));
    assert!(doc.contains("\"name\":\"cake \\\"x\\\"\\u000a\""));
}
