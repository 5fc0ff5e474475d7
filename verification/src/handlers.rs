//! Request-level operations over the entity store.
//!
//! Each function here is the computing part of one externally reachable
//! operation: it validates the request against the current collections,
//! builds the resulting entity, and applies it through the store. Transport,
//! sessions and rendering live outside the library and hand these functions
//! plain values.

use vstd::prelude::*;
use vstd::string::*;

use crate::codec;
use crate::error_handler::AppError;
use crate::scheduler::preset_with_id;
use crate::storage::{
    first_index_with_id, item_ids, lemma_first_index_props, notice_ids, preset_ids, schedule_ids,
    fresh_id, JsonStorage, MenuCategory, MenuItem, MenuItemV, MenuPreset, MenuSchedule, Notice,
    ScheduleRecurrence, ScheduleStatus, StorageError,
};

verus! {

// ---------------------------------------------------------------------------
// Error shapes of the request layer
// ---------------------------------------------------------------------------

/// The error payload handed back over the wire.
pub struct ApiError {
    pub error: String,
}

/// Failures of the request layer.
#[derive(Debug)]
pub enum ApiErrorType {
    Storage(StorageError),
    Validation(String),
    NotFound(String),
}

impl ApiErrorType {
    /// The text carried by the failure.
    pub open spec fn message_view(&self) -> Seq<char> {
        match self {
            ApiErrorType::Storage(e) => e.message_spec(),
            ApiErrorType::Validation(m) => m.deep_view(),
            ApiErrorType::NotFound(m) => m.deep_view(),
        }
    }

    /// The request-layer shape of an application error.
    pub fn from_app_error(app_error: AppError) -> (r: Self)
        ensures
            app_error is Storage ==> r is Storage && r.message_view() == "IO error: "@
                + app_error.message_view(),
            app_error is Auth ==> r is Validation && r.message_view() == "Auth error: "@
                + app_error.message_view(),
            app_error is Validation ==> r is Validation && r.message_view()
                == app_error.message_view(),
            app_error is NotFound ==> r is NotFound && r.message_view()
                == app_error.message_view(),
            app_error is Internal ==> r is Validation && r.message_view() == "Internal error: "@
                + app_error.message_view(),
    {
        match app_error {
            AppError::Storage(msg) => ApiErrorType::Storage(StorageError::Io(msg)),
            AppError::Auth(msg) => {
                let mut m = String::from_str("Auth error: ");
                m.append(msg.as_str());
                ApiErrorType::Validation(m)
            },
            AppError::Validation(msg) => ApiErrorType::Validation(msg),
            AppError::NotFound(msg) => ApiErrorType::NotFound(msg),
            AppError::Internal(msg) => {
                let mut m = String::from_str("Internal error: ");
                m.append(msg.as_str());
                ApiErrorType::Validation(m)
            },
        }
    }

    /// The HTTP status code this failure maps to at the service boundary.
    pub fn http_status(&self) -> (r: u16)
        ensures
            r == match self {
                ApiErrorType::Storage(_) => 500u16,
                ApiErrorType::Validation(_) => 400u16,
                ApiErrorType::NotFound(_) => 404u16,
            },
    {
        match self {
            ApiErrorType::Storage(_) => 500,
            ApiErrorType::Validation(_) => 400,
            ApiErrorType::NotFound(_) => 404,
        }
    }
}

// ---------------------------------------------------------------------------
// Requests
// ---------------------------------------------------------------------------

pub struct CreateMenuItemRequest {
    pub name: String,
    pub category: String,
    pub description: String,
    pub allergens: Vec<String>,
    pub is_available: bool,
}

pub struct UpdateMenuItemRequest {
    pub name: Option<String>,
    pub category: Option<String>,
    pub description: Option<String>,
    pub allergens: Option<Vec<String>>,
    pub is_available: Option<bool>,
}

pub struct CreateNoticeRequest {
    pub title: String,
    pub content: String,
    pub is_active: bool,
}

pub struct UpdateNoticeRequest {
    pub title: Option<String>,
    pub content: Option<String>,
    pub is_active: Option<bool>,
}

pub struct CreateMenuPresetRequest {
    pub name: String,
    pub description: String,
    pub menu_item_ids: Vec<u128>,
}

pub struct UpdateMenuPresetRequest {
    pub name: Option<String>,
    pub description: Option<String>,
    pub menu_item_ids: Option<Vec<u128>>,
}

pub struct CreateMenuScheduleRequest {
    pub preset_id: u128,
    pub name: String,
    pub description: String,
    pub start_time: i64,
    pub end_time: i64,
    pub recurrence: String,
}

pub struct UpdateMenuScheduleRequest {
    pub preset_id: Option<u128>,
    pub name: Option<String>,
    pub description: Option<String>,
    pub start_time: Option<i64>,
    pub end_time: Option<i64>,
    pub recurrence: Option<String>,
    pub status: Option<String>,
}

pub struct ValidateScheduleRequest {
    pub preset_id: Option<u128>,
    pub name: Option<String>,
    pub description: Option<String>,
    pub start_time: i64,
    pub end_time: i64,
    pub recurrence: Option<String>,
    pub status: Option<String>,
    pub schedule_id: Option<u128>,
}

/// The answer of a schedule validation request.
#[derive(Debug)]
pub struct ValidationResponse {
    pub is_valid: bool,
    pub conflicts: Vec<u128>,
    pub message: Option<String>,
}

// ---------------------------------------------------------------------------
// Name parsing for the closed enums
// ---------------------------------------------------------------------------

/// The category a request names, if any.
pub open spec fn category_from_name(s: Seq<char>) -> Option<MenuCategory> {
    if s == "Mains"@ {
        Some(MenuCategory::Mains)
    } else if s == "Sides"@ {
        Some(MenuCategory::Sides)
    } else if s == "Desserts"@ {
        Some(MenuCategory::Desserts)
    } else if s == "Beverages"@ {
        Some(MenuCategory::Beverages)
    } else {
        None
    }
}

/// Parses a category name.
pub fn parse_category(s: &str) -> (r: Option<MenuCategory>)
    ensures
        r == category_from_name(s@),
{
    if codec::str_eq(s, "Mains") {
        Some(MenuCategory::Mains)
    } else if codec::str_eq(s, "Sides") {
        Some(MenuCategory::Sides)
    } else if codec::str_eq(s, "Desserts") {
        Some(MenuCategory::Desserts)
    } else if codec::str_eq(s, "Beverages") {
        Some(MenuCategory::Beverages)
    } else {
        None
    }
}

/// The recurrence kind a request names, if any.
pub open spec fn recurrence_from_name(s: Seq<char>) -> Option<ScheduleRecurrence> {
    if s == "Daily"@ {
        Some(ScheduleRecurrence::Daily)
    } else if s == "Weekly"@ {
        Some(ScheduleRecurrence::Weekly)
    } else if s == "Monthly"@ {
        Some(ScheduleRecurrence::Monthly)
    } else if s == "Custom"@ {
        Some(ScheduleRecurrence::Custom)
    } else {
        None
    }
}

/// Parses a recurrence name.
pub fn parse_recurrence(s: &str) -> (r: Option<ScheduleRecurrence>)
    ensures
        r == recurrence_from_name(s@),
{
    if codec::str_eq(s, "Daily") {
        Some(ScheduleRecurrence::Daily)
    } else if codec::str_eq(s, "Weekly") {
        Some(ScheduleRecurrence::Weekly)
    } else if codec::str_eq(s, "Monthly") {
        Some(ScheduleRecurrence::Monthly)
    } else if codec::str_eq(s, "Custom") {
        Some(ScheduleRecurrence::Custom)
    } else {
        None
    }
}

/// The status a request names, if any.
pub open spec fn status_from_name(s: Seq<char>) -> Option<ScheduleStatus> {
    if s == "Pending"@ {
        Some(ScheduleStatus::Pending)
    } else if s == "Active"@ {
        Some(ScheduleStatus::Active)
    } else if s == "Ended"@ {
        Some(ScheduleStatus::Ended)
    } else if s == "Conflicted"@ {
        Some(ScheduleStatus::Conflicted)
    } else if s == "Failed"@ {
        Some(ScheduleStatus::Failed)
    } else {
        None
    }
}

/// Parses a status name.
pub fn parse_status(s: &str) -> (r: Option<ScheduleStatus>)
    ensures
        r == status_from_name(s@),
{
    if codec::str_eq(s, "Pending") {
        Some(ScheduleStatus::Pending)
    } else if codec::str_eq(s, "Active") {
        Some(ScheduleStatus::Active)
    } else if codec::str_eq(s, "Ended") {
        Some(ScheduleStatus::Ended)
    } else if codec::str_eq(s, "Conflicted") {
        Some(ScheduleStatus::Conflicted)
    } else if codec::str_eq(s, "Failed") {
        Some(ScheduleStatus::Failed)
    } else {
        None
    }
}

// ---------------------------------------------------------------------------
// Messages that name an entity
// ---------------------------------------------------------------------------

pub open spec fn item_not_found_msg(id: u128) -> Seq<char> {
    "Menu item with id "@ + codec::dec_digits(id) + " not found"@
}

pub open spec fn notice_not_found_msg(id: u128) -> Seq<char> {
    "Notice with id "@ + codec::dec_digits(id) + " not found"@
}

pub open spec fn preset_not_found_msg(id: u128) -> Seq<char> {
    "Menu preset with id "@ + codec::dec_digits(id) + " not found"@
}

pub open spec fn schedule_not_found_msg(id: u128) -> Seq<char> {
    "Menu schedule with id "@ + codec::dec_digits(id) + " not found"@
}

pub open spec fn schedule_conflict_msg(id: u128) -> Seq<char> {
    "Schedule conflict with existing schedule id "@ + codec::dec_digits(id)
}

fn not_found_text(prefix: &str, id: u128, suffix: &str) -> (r: String)
    ensures
        r@ == prefix@ + codec::dec_digits(id) + suffix@,
{
    let mut m = String::from_str(prefix);
    let id_text = codec::u128_to_string(id);
    m.append(id_text.as_str());
    m.append(suffix);
    m
}

// ---------------------------------------------------------------------------
// Menu items
// ---------------------------------------------------------------------------

/// The menu item an update request leaves in place of `cur`.
pub open spec fn merged_menu_item(
    cur: MenuItemV,
    name: Option<Seq<char>>,
    category: Option<MenuCategory>,
    description: Option<Seq<char>>,
    allergens: Option<Seq<Seq<char>>>,
    is_available: Option<bool>,
) -> MenuItemV {
    MenuItemV {
        id: cur.id,
        name: if name is Some { name->0 } else { cur.name },
        category: if category is Some { category->0 } else { cur.category },
        description: if description is Some { description->0 } else { cur.description },
        allergens: if allergens is Some { allergens->0 } else { cur.allergens },
        is_available: if is_available is Some { is_available->0 } else { cur.is_available },
    }
}

/// Creates a menu item from a request; rejected when the category name is
/// not one of the four categories.
pub fn create_menu_item(storage: &mut JsonStorage, item_data: CreateMenuItemRequest) -> (r: Result<
    MenuItem,
    ApiErrorType,
>)
    ensures
        category_from_name(item_data.category@) is None ==> r is Err && r->Err_0 is Validation
            && r->Err_0.message_view() == "Invalid category"@ && final(storage).items() == old(
            storage,
        ).items(),
        category_from_name(item_data.category@) is Some ==> r is Ok && ({
            let item = r->Ok_0.deep_view();
            &&& final(storage).items() == old(storage).items().push(item)
            &&& item.name == item_data.name@
            &&& item.category == category_from_name(item_data.category@)->0
            &&& item.description == item_data.description@
            &&& item.allergens == item_data.allergens.deep_view()
            &&& item.is_available == item_data.is_available
        }),
        final(storage).notices_view() == old(storage).notices_view(),
        final(storage).users() == old(storage).users(),
        final(storage).presets() == old(storage).presets(),
        final(storage).schedules() == old(storage).schedules(),
{
    let category = match parse_category(item_data.category.as_str()) {
        Some(c) => c,
        None => {
            return Err(ApiErrorType::Validation(String::from_str("Invalid category")));
        },
    };
    let new_item = MenuItem {
        id: fresh_id(),
        name: item_data.name,
        category,
        description: item_data.description,
        allergens: item_data.allergens,
        is_available: item_data.is_available,
    };
    let out = new_item.clone();
    storage.add_menu_item(new_item);
    Ok(out)
}

/// Updates the menu item with the given id, keeping every field the request
/// leaves out.
#[verifier::loop_isolation(false)]
pub fn update_menu_item(
    storage: &mut JsonStorage,
    item_id: u128,
    update_data: UpdateMenuItemRequest,
) -> (r: Result<MenuItem, ApiErrorType>)
    ensures
        ({
            let s0 = old(storage).items();
            let k = first_index_with_id(item_ids(s0), item_id);
            let category = match &update_data.category {
                Some(c) => category_from_name(c@),
                None => Some(MenuCategory::Mains),
            };
            &&& k == s0.len() ==> r is Err && r->Err_0 is NotFound && r->Err_0.message_view()
                == item_not_found_msg(item_id) && final(storage).items() == s0
            &&& k < s0.len() && category is None ==> r is Err && r->Err_0 is Validation
                && r->Err_0.message_view() == "Invalid category"@ && final(storage).items() == s0
            &&& k < s0.len() && category is Some ==> r is Ok && ({
                let merged = merged_menu_item(
                    s0[k],
                    match &update_data.name {
                        Some(n) => Some(n@),
                        None => None,
                    },
                    match &update_data.category {
                        Some(c) => category_from_name(c@),
                        None => None,
                    },
                    match &update_data.description {
                        Some(d) => Some(d@),
                        None => None,
                    },
                    match &update_data.allergens {
                        Some(a) => Some(a.deep_view()),
                        None => None,
                    },
                    update_data.is_available,
                );
                &&& r->Ok_0.deep_view() == merged
                &&& final(storage).items() =~= s0.update(k, merged)
            })
        }),
        final(storage).notices_view() == old(storage).notices_view(),
        final(storage).users() == old(storage).users(),
        final(storage).presets() == old(storage).presets(),
        final(storage).schedules() == old(storage).schedules(),
{
    let ghost s0 = old(storage).items();
    proof {
        lemma_first_index_props(item_ids(s0), item_id);
    }
    let items = storage.get_menu_items();
    let mut i: usize = 0;
    while i < items.len()
        invariant
            i <= items.len(),
            storage == old(storage),
            items.deep_view() == s0,
            forall|m: int| 0 <= m < i ==> item_ids(s0)[m] != item_id,
        decreases items.len() - i,
    {
        if items[i].id == item_id {
            proof {
                assert(item_ids(s0)[i as int] == item_id);
                assert(first_index_with_id(item_ids(s0), item_id) == i as int);
            }
            let existing = &items[i];
            let category = match &update_data.category {
                Some(category_str) => match parse_category(category_str.as_str()) {
                    Some(c) => c,
                    None => {
                        return Err(
                            ApiErrorType::Validation(String::from_str("Invalid category")),
                        );
                    },
                },
                None => existing.category,
            };
            let updated_item = MenuItem {
                id: item_id,
                name: match update_data.name {
                    Some(n) => n,
                    None => existing.name.clone(),
                },
                category,
                description: match update_data.description {
                    Some(d) => d,
                    None => existing.description.clone(),
                },
                allergens: match update_data.allergens {
                    Some(a) => a,
                    None => crate::storage::clone_strings(&existing.allergens),
                },
                is_available: match update_data.is_available {
                    Some(v) => v,
                    None => existing.is_available,
                },
            };
            let out = updated_item.clone();
            let updated = storage.update_menu_item(item_id, updated_item);
            proof {
                assert(updated is Ok);
            }
            return Ok(out);
        }
        i = i + 1;
    }
    Err(ApiErrorType::NotFound(not_found_text("Menu item with id ", item_id, " not found")))
}

/// The menu items marked available, in order.
pub open spec fn available_items(items: Seq<MenuItemV>) -> Seq<MenuItemV>
    decreases items.len(),
{
    if items.len() == 0 {
        Seq::empty()
    } else {
        available_items(items.drop_last())
            + if items.last().is_available {
                seq![items.last()]
            } else {
                Seq::<MenuItemV>::empty()
            }
    }
}

/// The items shown on the public menu: exactly those marked available.
pub fn available_menu_items(storage: &JsonStorage) -> (r: Vec<MenuItem>)
    ensures
        r.deep_view() == available_items(storage.items()),
{
    let items = storage.get_menu_items();
    let ghost s0 = storage.items();
    let mut r: Vec<MenuItem> = Vec::new();
    let mut i: usize = 0;
    while i < items.len()
        invariant
            i <= items.len(),
            items.deep_view() == s0,
            r.deep_view() =~= available_items(s0.take(i as int)),
        decreases items.len() - i,
    {
        proof {
            assert(s0.take(i + 1).drop_last() =~= s0.take(i as int));
            assert(s0.take(i + 1).last() == s0[i as int]);
        }
        if items[i].is_available {
            r.push(items[i].clone());
        }
        i = i + 1;
    }
    proof {
        assert(s0.take(s0.len() as int) =~= s0);
    }
    r
}

// ---------------------------------------------------------------------------
// Notices
// ---------------------------------------------------------------------------

/// The notice an update request leaves in place of `cur`, at time `now`.
pub open spec fn merged_notice(
    cur: crate::storage::NoticeV,
    title: Option<Seq<char>>,
    content: Option<Seq<char>>,
    is_active: Option<bool>,
    now: i64,
) -> crate::storage::NoticeV {
    crate::storage::NoticeV {
        id: cur.id,
        title: if title is Some { title->0 } else { cur.title },
        content: if content is Some { content->0 } else { cur.content },
        is_active: if is_active is Some { is_active->0 } else { cur.is_active },
        created_at: cur.created_at,
        updated_at: now,
    }
}

/// Creates a notice from a request at time `now`.
pub fn create_notice(storage: &mut JsonStorage, notice_data: CreateNoticeRequest, now: i64) -> (r:
    Notice)
    ensures
        final(storage).notices_view() == old(storage).notices_view().push(r.deep_view()),
        r.deep_view().title == notice_data.title@,
        r.deep_view().content == notice_data.content@,
        r.deep_view().is_active == notice_data.is_active,
        r.deep_view().created_at == now,
        r.deep_view().updated_at == now,
        final(storage).items() == old(storage).items(),
        final(storage).users() == old(storage).users(),
        final(storage).presets() == old(storage).presets(),
        final(storage).schedules() == old(storage).schedules(),
{
    let new_notice = Notice {
        id: fresh_id(),
        title: notice_data.title,
        content: notice_data.content,
        is_active: notice_data.is_active,
        created_at: now,
        updated_at: now,
    };
    let out = new_notice.clone();
    storage.add_notice(new_notice);
    out
}

/// Updates the notice with the given id, keeping every field the request
/// leaves out and stamping the update time.
#[verifier::loop_isolation(false)]
pub fn update_notice(
    storage: &mut JsonStorage,
    notice_id: u128,
    update_data: UpdateNoticeRequest,
    now: i64,
) -> (r: Result<Notice, ApiErrorType>)
    ensures
        ({
            let s0 = old(storage).notices_view();
            let k = first_index_with_id(notice_ids(s0), notice_id);
            &&& k == s0.len() ==> r is Err && r->Err_0 is NotFound && r->Err_0.message_view()
                == notice_not_found_msg(notice_id) && final(storage).notices_view() == s0
            &&& k < s0.len() ==> r is Ok && ({
                let merged = merged_notice(
                    s0[k],
                    match &update_data.title {
                        Some(t) => Some(t@),
                        None => None,
                    },
                    match &update_data.content {
                        Some(c) => Some(c@),
                        None => None,
                    },
                    update_data.is_active,
                    now,
                );
                &&& r->Ok_0.deep_view() == merged
                &&& final(storage).notices_view() =~= s0.update(k, merged)
            })
        }),
        final(storage).items() == old(storage).items(),
        final(storage).users() == old(storage).users(),
        final(storage).presets() == old(storage).presets(),
        final(storage).schedules() == old(storage).schedules(),
{
    let ghost s0 = old(storage).notices_view();
    proof {
        lemma_first_index_props(notice_ids(s0), notice_id);
    }
    let notices = storage.get_notices();
    let mut i: usize = 0;
    while i < notices.len()
        invariant
            i <= notices.len(),
            storage == old(storage),
            notices.deep_view() == s0,
            forall|m: int| 0 <= m < i ==> notice_ids(s0)[m] != notice_id,
        decreases notices.len() - i,
    {
        if notices[i].id == notice_id {
            proof {
                assert(notice_ids(s0)[i as int] == notice_id);
                assert(first_index_with_id(notice_ids(s0), notice_id) == i as int);
            }
            let existing = &notices[i];
            let updated_notice = Notice {
                id: notice_id,
                title: match update_data.title {
                    Some(t) => t,
                    None => existing.title.clone(),
                },
                content: match update_data.content {
                    Some(c) => c,
                    None => existing.content.clone(),
                },
                is_active: match update_data.is_active {
                    Some(v) => v,
                    None => existing.is_active,
                },
                created_at: existing.created_at,
                updated_at: now,
            };
            let out = updated_notice.clone();
            let updated = storage.update_notice(notice_id, updated_notice);
            proof {
                assert(updated is Ok);
            }
            return Ok(out);
        }
        i = i + 1;
    }
    Err(ApiErrorType::NotFound(not_found_text("Notice with id ", notice_id, " not found")))
}

/// The notices marked active, in order.
pub open spec fn active_notices_of(ns: Seq<crate::storage::NoticeV>) -> Seq<
    crate::storage::NoticeV,
>
    decreases ns.len(),
{
    if ns.len() == 0 {
        Seq::empty()
    } else {
        active_notices_of(ns.drop_last())
            + if ns.last().is_active {
                seq![ns.last()]
            } else {
                Seq::<crate::storage::NoticeV>::empty()
            }
    }
}

/// The notices shown on the public menu: exactly those marked active.
pub fn active_notices(storage: &JsonStorage) -> (r: Vec<Notice>)
    ensures
        r.deep_view() == active_notices_of(storage.notices_view()),
{
    let notices = storage.get_notices();
    let ghost s0 = storage.notices_view();
    let mut r: Vec<Notice> = Vec::new();
    let mut i: usize = 0;
    while i < notices.len()
        invariant
            i <= notices.len(),
            notices.deep_view() == s0,
            r.deep_view() =~= active_notices_of(s0.take(i as int)),
        decreases notices.len() - i,
    {
        proof {
            assert(s0.take(i + 1).drop_last() =~= s0.take(i as int));
            assert(s0.take(i + 1).last() == s0[i as int]);
        }
        if notices[i].is_active {
            r.push(notices[i].clone());
        }
        i = i + 1;
    }
    proof {
        assert(s0.take(s0.len() as int) =~= s0);
    }
    r
}

// ---------------------------------------------------------------------------
// Menu presets
// ---------------------------------------------------------------------------

/// The first id in `wanted` that no menu item carries.
pub open spec fn first_missing_item(items: Seq<MenuItemV>, wanted: Seq<u128>) -> Option<u128>
    decreases wanted.len(),
{
    if wanted.len() == 0 {
        None
    } else if !item_ids(items).contains(wanted[0]) {
        Some(wanted[0])
    } else {
        first_missing_item(items, wanted.drop_first())
    }
}

/// Checks that every wanted id names an existing menu item, reporting the
/// first that does not.
fn check_items_exist(items: &Vec<MenuItem>, wanted: &Vec<u128>) -> (r: Option<u128>)
    ensures
        r == first_missing_item(items.deep_view(), wanted.deep_view()),
{
    let ghost its = items.deep_view();
    let ghost ids = wanted.deep_view();
    proof {
        assert(ids.skip(0) =~= ids);
    }
    let mut i: usize = 0;
    while i < wanted.len()
        invariant
            i <= wanted.len(),
            its == items.deep_view(),
            ids == wanted.deep_view(),
            first_missing_item(its, ids) == first_missing_item(its, ids.skip(i as int)),
        decreases wanted.len() - i,
    {
        proof {
            assert(ids.skip(i as int)[0] == ids[i as int]);
            assert(ids.skip(i as int).drop_first() =~= ids.skip(i + 1));
        }
        let mut found: bool = false;
        let mut j: usize = 0;
        while j < items.len() && !found
            invariant
                j <= items.len(),
                its == items.deep_view(),
                ids == wanted.deep_view(),
                i < wanted.len(),
                found ==> item_ids(its).contains(ids[i as int]),
                !found ==> forall|m: int| 0 <= m < j ==> item_ids(its)[m] != ids[i as int],
            decreases items.len() - j, if found { 0int } else { 1int },
        {
            if items[j].id == wanted[i] {
                found = true;
                proof {
                    assert(item_ids(its)[j as int] == ids[i as int]);
                }
            } else {
                j = j + 1;
            }
        }
        if !found {
            proof {
                assert(!item_ids(its).contains(ids[i as int])) by {
                    if item_ids(its).contains(ids[i as int]) {
                        let w = choose|w: int|
                            0 <= w < item_ids(its).len() && item_ids(its)[w] == ids[i as int];
                        assert(item_ids(its)[w] != ids[i as int]);
                    }
                }
            }
            return Some(wanted[i]);
        }
        i = i + 1;
    }
    proof {
        assert(ids.skip(ids.len() as int).len() == 0);
    }
    None
}

/// The preset an update request leaves in place of `cur`, at time `now`.
pub open spec fn merged_menu_preset(
    cur: crate::storage::MenuPresetV,
    name: Option<Seq<char>>,
    description: Option<Seq<char>>,
    menu_item_ids: Option<Seq<u128>>,
    now: i64,
) -> crate::storage::MenuPresetV {
    crate::storage::MenuPresetV {
        id: cur.id,
        name: if name is Some { name->0 } else { cur.name },
        description: if description is Some { description->0 } else { cur.description },
        menu_item_ids: if menu_item_ids is Some { menu_item_ids->0 } else { cur.menu_item_ids },
        created_at: cur.created_at,
        updated_at: now,
    }
}

/// Creates a preset from a request at time `now`; every selected item id
/// must name an existing menu item.
pub fn create_menu_preset(
    storage: &mut JsonStorage,
    preset_data: CreateMenuPresetRequest,
    now: i64,
) -> (r: Result<MenuPreset, ApiErrorType>)
    ensures
        ({
            let missing = first_missing_item(
                old(storage).items(),
                preset_data.menu_item_ids.deep_view(),
            );
            &&& missing is Some ==> r is Err && r->Err_0 is Validation
                && r->Err_0.message_view() == item_not_found_msg(missing->0)
                && final(storage).presets() == old(storage).presets()
            &&& missing is None ==> r is Ok && ({
                let preset = r->Ok_0.deep_view();
                &&& final(storage).presets() == old(storage).presets().push(preset)
                &&& preset.name == preset_data.name@
                &&& preset.description == preset_data.description@
                &&& preset.menu_item_ids == preset_data.menu_item_ids.deep_view()
                &&& preset.created_at == now
                &&& preset.updated_at == now
            })
        }),
        final(storage).items() == old(storage).items(),
        final(storage).notices_view() == old(storage).notices_view(),
        final(storage).users() == old(storage).users(),
        final(storage).schedules() == old(storage).schedules(),
{
    let items = storage.get_menu_items();
    match check_items_exist(&items, &preset_data.menu_item_ids) {
        Some(missing_id) => Err(
            ApiErrorType::Validation(
                not_found_text("Menu item with id ", missing_id, " not found"),
            ),
        ),
        None => {
            let new_preset = MenuPreset {
                id: fresh_id(),
                name: preset_data.name,
                description: preset_data.description,
                menu_item_ids: preset_data.menu_item_ids,
                created_at: now,
                updated_at: now,
            };
            let out = new_preset.clone();
            storage.add_menu_preset(new_preset);
            Ok(out)
        },
    }
}

/// Fetches one preset by id.
#[verifier::loop_isolation(false)]
pub fn get_menu_preset(storage: &JsonStorage, preset_id: u128) -> (r: Result<
    MenuPreset,
    ApiErrorType,
>)
    ensures
        ({
            let found = preset_with_id(storage.presets(), preset_id);
            &&& found is Some ==> r is Ok && r->Ok_0.deep_view() == found->0
            &&& found is None ==> r is Err && r->Err_0 is NotFound && r->Err_0.message_view()
                == preset_not_found_msg(preset_id)
        }),
{
    let presets = storage.get_menu_presets();
    match crate::scheduler::find_menu_preset(&presets, preset_id) {
        Some(p) => Ok(p),
        None => Err(
            ApiErrorType::NotFound(
                not_found_text("Menu preset with id ", preset_id, " not found"),
            ),
        ),
    }
}

/// Updates the preset with the given id, keeping every field the request
/// leaves out; a new item selection must name existing menu items only.
#[verifier::loop_isolation(false)]
pub fn update_menu_preset(
    storage: &mut JsonStorage,
    preset_id: u128,
    update_data: UpdateMenuPresetRequest,
    now: i64,
) -> (r: Result<MenuPreset, ApiErrorType>)
    ensures
        ({
            let s0 = old(storage).presets();
            let k = first_index_with_id(preset_ids(s0), preset_id);
            let missing = match &update_data.menu_item_ids {
                Some(ids) => first_missing_item(old(storage).items(), ids.deep_view()),
                None => None,
            };
            &&& k == s0.len() ==> r is Err && r->Err_0 is NotFound && r->Err_0.message_view()
                == preset_not_found_msg(preset_id) && final(storage).presets() == s0
            &&& k < s0.len() && missing is Some ==> r is Err && r->Err_0 is Validation
                && r->Err_0.message_view() == item_not_found_msg(missing->0)
                && final(storage).presets() == s0
            &&& k < s0.len() && missing is None ==> r is Ok && ({
                let merged = merged_menu_preset(
                    s0[k],
                    match &update_data.name {
                        Some(n) => Some(n@),
                        None => None,
                    },
                    match &update_data.description {
                        Some(d) => Some(d@),
                        None => None,
                    },
                    match &update_data.menu_item_ids {
                        Some(ids) => Some(ids.deep_view()),
                        None => None,
                    },
                    now,
                );
                &&& r->Ok_0.deep_view() == merged
                &&& final(storage).presets() =~= s0.update(k, merged)
            })
        }),
        final(storage).items() == old(storage).items(),
        final(storage).notices_view() == old(storage).notices_view(),
        final(storage).users() == old(storage).users(),
        final(storage).schedules() == old(storage).schedules(),
{
    let ghost s0 = old(storage).presets();
    proof {
        lemma_first_index_props(preset_ids(s0), preset_id);
    }
    let presets = storage.get_menu_presets();
    let mut i: usize = 0;
    while i < presets.len()
        invariant
            i <= presets.len(),
            storage == old(storage),
            presets.deep_view() == s0,
            forall|m: int| 0 <= m < i ==> preset_ids(s0)[m] != preset_id,
        decreases presets.len() - i,
    {
        if presets[i].id == preset_id {
            proof {
                assert(preset_ids(s0)[i as int] == preset_id);
                assert(first_index_with_id(preset_ids(s0), preset_id) == i as int);
            }
            let existing = &presets[i];
            let menu_item_ids = match update_data.menu_item_ids {
                Some(ids) => {
                    let items = storage.get_menu_items();
                    match check_items_exist(&items, &ids) {
                        Some(missing_id) => {
                            return Err(
                                ApiErrorType::Validation(
                                    not_found_text("Menu item with id ", missing_id, " not found"),
                                ),
                            );
                        },
                        None => ids,
                    }
                },
                None => crate::storage::clone_ids(&existing.menu_item_ids),
            };
            let updated_preset = MenuPreset {
                id: preset_id,
                name: match update_data.name {
                    Some(n) => n,
                    None => existing.name.clone(),
                },
                description: match update_data.description {
                    Some(d) => d,
                    None => existing.description.clone(),
                },
                menu_item_ids,
                created_at: existing.created_at,
                updated_at: now,
            };
            let out = updated_preset.clone();
            let updated = storage.update_menu_preset(preset_id, updated_preset);
            proof {
                assert(updated is Ok);
            }
            return Ok(out);
        }
        i = i + 1;
    }
    Err(ApiErrorType::NotFound(not_found_text("Menu preset with id ", preset_id, " not found")))
}

// ---------------------------------------------------------------------------
// Menu schedules
// ---------------------------------------------------------------------------

/// The overlap test creation and validation run against an existing
/// schedule `t`: either boundary of the requested range falls inside `t`'s
/// range, or the requested range contains `t`'s range.
pub open spec fn request_overlaps(
    t: crate::storage::MenuScheduleV,
    start_time: i64,
    end_time: i64,
) -> bool {
    (t.start_time <= start_time && t.end_time >= start_time) || (t.start_time <= end_time
        && t.end_time >= end_time) || (t.start_time >= start_time && t.end_time <= end_time)
}

/// The first schedule of the same preset whose range overlaps the requested
/// range.
pub open spec fn first_preset_conflict(
    ss: Seq<crate::storage::MenuScheduleV>,
    preset_id: u128,
    start_time: i64,
    end_time: i64,
) -> Option<u128>
    decreases ss.len(),
{
    if ss.len() == 0 {
        None
    } else if ss[0].preset_id == preset_id && request_overlaps(ss[0], start_time, end_time) {
        Some(ss[0].id)
    } else {
        first_preset_conflict(ss.drop_first(), preset_id, start_time, end_time)
    }
}

/// Creates a schedule from a request at time `now`.
///
/// The request must put the end strictly after the start, name an existing
/// preset and a known recurrence kind, and must not overlap an existing
/// schedule of the same preset. A created schedule always starts out
/// `Pending` with no error recorded.
#[verifier::loop_isolation(false)]
pub fn create_menu_schedule(
    storage: &mut JsonStorage,
    schedule_data: CreateMenuScheduleRequest,
    now: i64,
) -> (r: Result<MenuSchedule, AppError>)
    ensures
        ({
            let ss = old(storage).schedules();
            let ps = old(storage).presets();
            let conflict = first_preset_conflict(
                ss,
                schedule_data.preset_id,
                schedule_data.start_time,
                schedule_data.end_time,
            );
            &&& schedule_data.end_time <= schedule_data.start_time ==> r is Err
                && r->Err_0 is Validation && r->Err_0.message_view()
                == "End time must be after start time"@ && final(storage).schedules() == ss
            &&& schedule_data.end_time > schedule_data.start_time && preset_with_id(
                ps,
                schedule_data.preset_id,
            ) is None ==> r is Err && r->Err_0 is Validation && r->Err_0.message_view()
                == preset_not_found_msg(schedule_data.preset_id) && final(storage).schedules()
                == ss
            &&& schedule_data.end_time > schedule_data.start_time && preset_with_id(
                ps,
                schedule_data.preset_id,
            ) is Some && recurrence_from_name(schedule_data.recurrence@) is None ==> r is Err
                && r->Err_0 is Validation && r->Err_0.message_view()
                == "Invalid recurrence value"@ && final(storage).schedules() == ss
            &&& schedule_data.end_time > schedule_data.start_time && preset_with_id(
                ps,
                schedule_data.preset_id,
            ) is Some && recurrence_from_name(schedule_data.recurrence@) is Some
                && conflict is Some ==> r is Err && r->Err_0 is Validation
                && r->Err_0.message_view() == schedule_conflict_msg(conflict->0)
                && final(storage).schedules() == ss
            &&& schedule_data.end_time > schedule_data.start_time && preset_with_id(
                ps,
                schedule_data.preset_id,
            ) is Some && recurrence_from_name(schedule_data.recurrence@) is Some
                && conflict is None ==> r is Ok && ({
                let schedule = r->Ok_0.deep_view();
                &&& final(storage).schedules() == ss.push(schedule)
                &&& schedule.preset_id == schedule_data.preset_id
                &&& schedule.name == schedule_data.name@
                &&& schedule.description == schedule_data.description@
                &&& schedule.start_time == schedule_data.start_time
                &&& schedule.end_time == schedule_data.end_time
                &&& schedule.recurrence == recurrence_from_name(schedule_data.recurrence@)->0
                &&& schedule.status is Pending
                &&& schedule.created_at == now
                &&& schedule.updated_at == now
                &&& schedule.error_message is None
            })
        }),
        final(storage).items() == old(storage).items(),
        final(storage).notices_view() == old(storage).notices_view(),
        final(storage).users() == old(storage).users(),
        final(storage).presets() == old(storage).presets(),
{
    let ghost ss = old(storage).schedules();

    // A schedule's window must be non-empty.
    if schedule_data.end_time <= schedule_data.start_time {
        return Err(AppError::Validation(String::from_str("End time must be after start time")));
    }

    // The referenced preset must exist.
    let presets = storage.get_menu_presets();
    if crate::scheduler::find_menu_preset(&presets, schedule_data.preset_id).is_none() {
        return Err(
            AppError::Validation(
                not_found_text("Menu preset with id ", schedule_data.preset_id, " not found"),
            ),
        );
    }

    // The recurrence kind must be one of the four.
    let recurrence = match parse_recurrence(schedule_data.recurrence.as_str()) {
        Some(rec) => rec,
        None => {
            return Err(AppError::Validation(String::from_str("Invalid recurrence value")));
        },
    };

    // No overlap with an existing schedule of the same preset.
    let existing_schedules = storage.get_menu_schedules();
    proof {
        assert(ss.skip(0) =~= ss);
    }
    let mut i: usize = 0;
    while i < existing_schedules.len()
        invariant
            i <= existing_schedules.len(),
            storage == old(storage),
            existing_schedules.deep_view() == ss,
            first_preset_conflict(
                ss,
                schedule_data.preset_id,
                schedule_data.start_time,
                schedule_data.end_time,
            ) == first_preset_conflict(
                ss.skip(i as int),
                schedule_data.preset_id,
                schedule_data.start_time,
                schedule_data.end_time,
            ),
        decreases existing_schedules.len() - i,
    {
        proof {
            assert(ss.skip(i as int)[0] == ss[i as int]);
            assert(ss.skip(i as int).drop_first() =~= ss.skip(i + 1));
        }
        let t = &existing_schedules[i];
        if t.preset_id == schedule_data.preset_id && ((t.start_time <= schedule_data.start_time
            && t.end_time >= schedule_data.start_time) || (t.start_time <= schedule_data.end_time
            && t.end_time >= schedule_data.end_time) || (t.start_time >= schedule_data.start_time
            && t.end_time <= schedule_data.end_time)) {
            let mut conflict_text = String::from_str(
                "Schedule conflict with existing schedule id ",
            );
            let id_text = codec::u128_to_string(t.id);
            conflict_text.append(id_text.as_str());
            return Err(AppError::Validation(conflict_text));
        }
        i = i + 1;
    }
    proof {
        assert(ss.skip(ss.len() as int).len() == 0);
    }

    let new_schedule = MenuSchedule {
        id: fresh_id(),
        preset_id: schedule_data.preset_id,
        name: schedule_data.name,
        description: schedule_data.description,
        start_time: schedule_data.start_time,
        end_time: schedule_data.end_time,
        recurrence,
        status: ScheduleStatus::Pending,
        created_at: now,
        updated_at: now,
        error_message: None,
    };
    let out = new_schedule.clone();
    storage.add_menu_schedule(new_schedule);
    proof {
        assert(storage.schedules() =~= ss.push(out.deep_view()));
    }
    Ok(out)
}

/// Fetches one schedule by id.
pub open spec fn schedule_with_id(
    ss: Seq<crate::storage::MenuScheduleV>,
    id: u128,
) -> Option<crate::storage::MenuScheduleV>
    decreases ss.len(),
{
    if ss.len() == 0 {
        None
    } else if ss[0].id == id {
        Some(ss[0])
    } else {
        schedule_with_id(ss.drop_first(), id)
    }
}

/// Fetches one schedule by id.
#[verifier::loop_isolation(false)]
pub fn get_menu_schedule(storage: &JsonStorage, schedule_id: u128) -> (r: Result<
    MenuSchedule,
    ApiErrorType,
>)
    ensures
        ({
            let found = schedule_with_id(storage.schedules(), schedule_id);
            &&& found is Some ==> r is Ok && r->Ok_0.deep_view() == found->0
            &&& found is None ==> r is Err && r->Err_0 is NotFound && r->Err_0.message_view()
                == schedule_not_found_msg(schedule_id)
        }),
{
    let schedules = storage.get_menu_schedules();
    let ghost ss = storage.schedules();
    proof {
        assert(ss.skip(0) =~= ss);
    }
    let mut i: usize = 0;
    while i < schedules.len()
        invariant
            i <= schedules.len(),
            schedules.deep_view() == ss,
            schedule_with_id(ss, schedule_id) == schedule_with_id(ss.skip(i as int), schedule_id),
        decreases schedules.len() - i,
    {
        proof {
            assert(ss.skip(i as int)[0] == ss[i as int]);
            assert(ss.skip(i as int).drop_first() =~= ss.skip(i + 1));
        }
        if schedules[i].id == schedule_id {
            return Ok(schedules[i].clone());
        }
        i = i + 1;
    }
    proof {
        assert(ss.skip(ss.len() as int).len() == 0);
    }
    Err(
        ApiErrorType::NotFound(
            not_found_text("Menu schedule with id ", schedule_id, " not found"),
        ),
    )
}

/// The schedule an update request leaves in place of `cur`, at time `now`.
pub open spec fn merged_menu_schedule(
    cur: crate::storage::MenuScheduleV,
    preset_id: Option<u128>,
    name: Option<Seq<char>>,
    description: Option<Seq<char>>,
    start_time: Option<i64>,
    end_time: Option<i64>,
    recurrence: Option<ScheduleRecurrence>,
    status: Option<ScheduleStatus>,
    now: i64,
) -> crate::storage::MenuScheduleV {
    crate::storage::MenuScheduleV {
        id: cur.id,
        preset_id: if preset_id is Some { preset_id->0 } else { cur.preset_id },
        name: if name is Some { name->0 } else { cur.name },
        description: if description is Some { description->0 } else { cur.description },
        start_time: if start_time is Some { start_time->0 } else { cur.start_time },
        end_time: if end_time is Some { end_time->0 } else { cur.end_time },
        recurrence: if recurrence is Some { recurrence->0 } else { cur.recurrence },
        status: if status is Some { status->0 } else { cur.status },
        created_at: cur.created_at,
        updated_at: now,
        error_message: cur.error_message,
    }
}

/// Updates the schedule with the given id, keeping every field the request
/// leaves out. A new preset reference must exist; recurrence and status
/// names must be known; the merged window must be non-empty.
#[verifier::loop_isolation(false)]
#[verifier::rlimit(30)]
pub fn update_menu_schedule(
    storage: &mut JsonStorage,
    schedule_id: u128,
    update_data: UpdateMenuScheduleRequest,
    now: i64,
) -> (r: Result<MenuSchedule, AppError>)
    ensures
        ({
            let s0 = old(storage).schedules();
            let ps = old(storage).presets();
            let k = first_index_with_id(schedule_ids(s0), schedule_id);
            let preset_ok = match update_data.preset_id {
                Some(pid) => preset_with_id(ps, pid) is Some,
                None => true,
            };
            let recurrence = match &update_data.recurrence {
                Some(t) => recurrence_from_name(t@),
                None => Some(ScheduleRecurrence::Daily),
            };
            let status = match &update_data.status {
                Some(t) => status_from_name(t@),
                None => Some(ScheduleStatus::Pending),
            };
            let merged = merged_menu_schedule(
                if k < s0.len() { s0[k] } else { s0[0] },
                update_data.preset_id,
                match &update_data.name {
                    Some(n) => Some(n@),
                    None => None,
                },
                match &update_data.description {
                    Some(d) => Some(d@),
                    None => None,
                },
                update_data.start_time,
                update_data.end_time,
                match &update_data.recurrence {
                    Some(t) => recurrence_from_name(t@),
                    None => None,
                },
                match &update_data.status {
                    Some(t) => status_from_name(t@),
                    None => None,
                },
                now,
            );
            &&& k == s0.len() ==> r is Err && r->Err_0 is NotFound && r->Err_0.message_view()
                == schedule_not_found_msg(schedule_id) && final(storage).schedules() == s0
            &&& k < s0.len() && !preset_ok ==> r is Err && r->Err_0 is Validation
                && r->Err_0.message_view() == preset_not_found_msg(update_data.preset_id->0)
                && final(storage).schedules() == s0
            &&& k < s0.len() && preset_ok && recurrence is None ==> r is Err
                && r->Err_0 is Validation && r->Err_0.message_view()
                == "Invalid recurrence value"@ && final(storage).schedules() == s0
            &&& k < s0.len() && preset_ok && recurrence is Some && status is None ==> r is Err
                && r->Err_0 is Validation && r->Err_0.message_view() == "Invalid status value"@
                && final(storage).schedules() == s0
            &&& k < s0.len() && preset_ok && recurrence is Some && status is Some
                && merged.end_time <= merged.start_time ==> r is Err && r->Err_0 is Validation
                && r->Err_0.message_view() == "End time must be after start time"@
                && final(storage).schedules() == s0
            &&& k < s0.len() && preset_ok && recurrence is Some && status is Some
                && merged.end_time > merged.start_time ==> r is Ok && r->Ok_0.deep_view()
                == merged && final(storage).schedules() =~= s0.update(k, merged)
        }),
        final(storage).items() == old(storage).items(),
        final(storage).notices_view() == old(storage).notices_view(),
        final(storage).users() == old(storage).users(),
        final(storage).presets() == old(storage).presets(),
{
    let ghost s0 = old(storage).schedules();
    proof {
        lemma_first_index_props(schedule_ids(s0), schedule_id);
    }
    let schedules = storage.get_menu_schedules();
    let mut i: usize = 0;
    while i < schedules.len()
        invariant
            i <= schedules.len(),
            storage == old(storage),
            schedules.deep_view() == s0,
            forall|m: int| 0 <= m < i ==> schedule_ids(s0)[m] != schedule_id,
        decreases schedules.len() - i,
    {
        if schedules[i].id == schedule_id {
            proof {
                assert(schedule_ids(s0)[i as int] == schedule_id);
                assert(first_index_with_id(schedule_ids(s0), schedule_id) == i as int);
            }
            let existing = &schedules[i];

            // A new preset reference must name an existing preset.
            if let Some(pid) = update_data.preset_id {
                let presets = storage.get_menu_presets();
                if crate::scheduler::find_menu_preset(&presets, pid).is_none() {
                    return Err(
                        AppError::Validation(
                            not_found_text("Menu preset with id ", pid, " not found"),
                        ),
                    );
                }
            }
            let recurrence = match &update_data.recurrence {
                Some(recurrence_str) => match parse_recurrence(recurrence_str.as_str()) {
                    Some(rec) => rec,
                    None => {
                        return Err(
                            AppError::Validation(String::from_str("Invalid recurrence value")),
                        );
                    },
                },
                None => existing.recurrence,
            };
            let status = match &update_data.status {
                Some(status_str) => match parse_status(status_str.as_str()) {
                    Some(st) => st,
                    None => {
                        return Err(
                            AppError::Validation(String::from_str("Invalid status value")),
                        );
                    },
                },
                None => existing.status,
            };
            let start_time = match update_data.start_time {
                Some(t) => t,
                None => existing.start_time,
            };
            let end_time = match update_data.end_time {
                Some(t) => t,
                None => existing.end_time,
            };

            // The merged window must stay non-empty.
            if end_time <= start_time {
                return Err(
                    AppError::Validation(String::from_str("End time must be after start time")),
                );
            }

            let updated_schedule = MenuSchedule {
                id: schedule_id,
                preset_id: match update_data.preset_id {
                    Some(pid) => pid,
                    None => existing.preset_id,
                },
                name: match update_data.name {
                    Some(n) => n,
                    None => existing.name.clone(),
                },
                description: match update_data.description {
                    Some(d) => d,
                    None => existing.description.clone(),
                },
                start_time,
                end_time,
                recurrence,
                status,
                created_at: existing.created_at,
                updated_at: now,
                error_message: match &existing.error_message {
                    Some(m) => Some(m.clone()),
                    None => None,
                },
            };
            let out = updated_schedule.clone();
            let updated = storage.update_menu_schedule(schedule_id, updated_schedule);
            proof {
                assert(updated is Ok);
            }
            return Ok(out);
        }
        i = i + 1;
    }
    Err(
        AppError::NotFound(not_found_text("Menu schedule with id ", schedule_id, " not found")),
    )
}

/// The first reason a schedule validation request is rejected outright,
/// before conflicts are even considered.
pub open spec fn first_validation_error(
    ps: Seq<crate::storage::MenuPresetV>,
    preset_id: Option<u128>,
    name: Option<Seq<char>>,
    description: Option<Seq<char>>,
    start_time: i64,
    end_time: i64,
    recurrence: Option<Seq<char>>,
    status: Option<Seq<char>>,
) -> Option<Seq<char>> {
    if end_time <= start_time {
        Some("End time must be after start time"@)
    } else if preset_id is Some && preset_with_id(ps, preset_id->0) is None {
        Some(preset_not_found_msg(preset_id->0))
    } else if name is Some && codec::blank(name->0) {
        Some("Schedule name cannot be empty"@)
    } else if description is Some && codec::blank(description->0) {
        Some("Schedule description cannot be empty"@)
    } else if recurrence is Some && recurrence_from_name(recurrence->0) is None {
        Some("Invalid recurrence value"@)
    } else if status is Some && status_from_name(status->0) is None {
        Some("Invalid status value"@)
    } else {
        None
    }
}

/// Whether an existing schedule counts as a conflict for a validation
/// request: it is not the schedule under edit, its range overlaps the
/// requested range, and, where the request names a preset, it uses that
/// preset.
pub open spec fn counts_as_conflict(
    t: crate::storage::MenuScheduleV,
    preset_id: Option<u128>,
    start_time: i64,
    end_time: i64,
    schedule_id: Option<u128>,
) -> bool {
    &&& !(schedule_id is Some && t.id == schedule_id->0)
    &&& request_overlaps(t, start_time, end_time)
    &&& (preset_id is Some ==> t.preset_id == preset_id->0)
}

/// The ids of the schedules that conflict with a validation request, in
/// order.
pub open spec fn validation_conflicts(
    ss: Seq<crate::storage::MenuScheduleV>,
    preset_id: Option<u128>,
    start_time: i64,
    end_time: i64,
    schedule_id: Option<u128>,
) -> Seq<u128>
    decreases ss.len(),
{
    if ss.len() == 0 {
        Seq::empty()
    } else {
        validation_conflicts(ss.drop_last(), preset_id, start_time, end_time, schedule_id)
            + if counts_as_conflict(ss.last(), preset_id, start_time, end_time, schedule_id) {
                seq![ss.last().id]
            } else {
                Seq::<u128>::empty()
            }
    }
}

/// Validates a schedule request without storing anything: checks times,
/// preset reference, name, description, recurrence and status, then lists
/// every existing schedule the requested range would conflict with.
#[verifier::loop_isolation(false)]
#[verifier::rlimit(30)]
pub fn validate_schedule(storage: &JsonStorage, validation_data: &ValidateScheduleRequest) -> (r:
    Result<ValidationResponse, AppError>)
    ensures
        ({
            let error = first_validation_error(
                storage.presets(),
                validation_data.preset_id,
                match &validation_data.name {
                    Some(n) => Some(n@),
                    None => None,
                },
                match &validation_data.description {
                    Some(d) => Some(d@),
                    None => None,
                },
                validation_data.start_time,
                validation_data.end_time,
                match &validation_data.recurrence {
                    Some(t) => Some(t@),
                    None => None,
                },
                match &validation_data.status {
                    Some(t) => Some(t@),
                    None => None,
                },
            );
            let conflicts = validation_conflicts(
                storage.schedules(),
                validation_data.preset_id,
                validation_data.start_time,
                validation_data.end_time,
                validation_data.schedule_id,
            );
            &&& error is Some ==> r is Err && r->Err_0 is Validation && r->Err_0.message_view()
                == error->0
            &&& error is None ==> r is Ok && ({
                let response = r->Ok_0;
                &&& response.conflicts.deep_view() == conflicts
                &&& response.is_valid == (conflicts.len() == 0)
                &&& conflicts.len() == 0 ==> response.message is None
                &&& conflicts.len() > 0 ==> response.message is Some
                    && response.message->0.deep_view()
                    == "Schedule conflicts with existing schedules"@
            })
        }),
{
    // Validate that end time is after start time.
    if validation_data.end_time <= validation_data.start_time {
        return Err(AppError::Validation(String::from_str("End time must be after start time")));
    }

    // Validate that the preset exists if one is named.
    if let Some(preset_id) = validation_data.preset_id {
        let presets = storage.get_menu_presets();
        if crate::scheduler::find_menu_preset(&presets, preset_id).is_none() {
            return Err(
                AppError::Validation(
                    not_found_text("Menu preset with id ", preset_id, " not found"),
                ),
            );
        }
    }

    // Validate the name if provided.
    if let Some(name) = &validation_data.name {
        if codec::is_blank(name.as_str()) {
            return Err(AppError::Validation(String::from_str("Schedule name cannot be empty")));
        }
    }

    // Validate the description if provided.
    if let Some(description) = &validation_data.description {
        if codec::is_blank(description.as_str()) {
            return Err(
                AppError::Validation(String::from_str("Schedule description cannot be empty")),
            );
        }
    }

    // Validate the recurrence if provided.
    if let Some(recurrence) = &validation_data.recurrence {
        if parse_recurrence(recurrence.as_str()).is_none() {
            return Err(AppError::Validation(String::from_str("Invalid recurrence value")));
        }
    }

    // Validate the status if provided.
    if let Some(status) = &validation_data.status {
        if parse_status(status.as_str()).is_none() {
            return Err(AppError::Validation(String::from_str("Invalid status value")));
        }
    }

    // Collect the schedules the requested range conflicts with.
    let existing_schedules = storage.get_menu_schedules();
    let ghost ss = storage.schedules();
    let mut conflicts: Vec<u128> = Vec::new();
    let mut i: usize = 0;
    while i < existing_schedules.len()
        invariant
            i <= existing_schedules.len(),
            existing_schedules.deep_view() == ss,
            conflicts.deep_view() =~= validation_conflicts(
                ss.take(i as int),
                validation_data.preset_id,
                validation_data.start_time,
                validation_data.end_time,
                validation_data.schedule_id,
            ),
        decreases existing_schedules.len() - i,
    {
        proof {
            assert(ss.take(i + 1).drop_last() =~= ss.take(i as int));
            assert(ss.take(i + 1).last() == ss[i as int]);
        }
        let t = &existing_schedules[i];
        let skip_self = match validation_data.schedule_id {
            Some(id) => t.id == id,
            None => false,
        };
        if !skip_self {
            let overlap = (t.start_time <= validation_data.start_time && t.end_time
                >= validation_data.start_time) || (t.start_time <= validation_data.end_time
                && t.end_time >= validation_data.end_time) || (t.start_time
                >= validation_data.start_time && t.end_time <= validation_data.end_time);
            if overlap {
                let preset_matches = match validation_data.preset_id {
                    Some(pid) => t.preset_id == pid,
                    None => true,
                };
                if preset_matches {
                    conflicts.push(t.id);
                }
            }
        }
        i = i + 1;
    }
    proof {
        assert(ss.take(ss.len() as int) =~= ss);
    }

    let has_conflicts = conflicts.len() > 0;
    let response = ValidationResponse {
        is_valid: !has_conflicts,
        conflicts,
        message: if has_conflicts {
            Some(String::from_str("Schedule conflicts with existing schedules"))
        } else {
            None
        },
    };
    Ok(response)
}

/// The schedules that have not started yet, in order.
pub open spec fn upcoming(
    ss: Seq<crate::storage::MenuScheduleV>,
    now: i64,
) -> Seq<crate::storage::MenuScheduleV>
    decreases ss.len(),
{
    if ss.len() == 0 {
        Seq::empty()
    } else {
        upcoming(ss.drop_last(), now)
            + if ss.last().start_time > now {
                seq![ss.last()]
            } else {
                Seq::<crate::storage::MenuScheduleV>::empty()
            }
    }
}

/// The schedules whose start time lies in the future.
pub fn get_upcoming_schedules(storage: &JsonStorage, now: i64) -> (r: Vec<MenuSchedule>)
    ensures
        r.deep_view() == upcoming(storage.schedules(), now),
{
    let schedules = storage.get_menu_schedules();
    let ghost ss = storage.schedules();
    let mut r: Vec<MenuSchedule> = Vec::new();
    let mut i: usize = 0;
    while i < schedules.len()
        invariant
            i <= schedules.len(),
            schedules.deep_view() == ss,
            r.deep_view() =~= upcoming(ss.take(i as int), now),
        decreases schedules.len() - i,
    {
        proof {
            assert(ss.take(i + 1).drop_last() =~= ss.take(i as int));
            assert(ss.take(i + 1).last() == ss[i as int]);
        }
        if schedules[i].start_time > now {
            r.push(schedules[i].clone());
        }
        i = i + 1;
    }
    proof {
        assert(ss.take(ss.len() as int) =~= ss);
    }
    r
}

} // verus!
