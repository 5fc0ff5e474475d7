//! Entity model and the in-memory entity store.
//!
//! Five independent collections (menu items, notices, admin users, menu
//! presets, menu schedules) live in one store value. Every mutation updates
//! the in-memory collection; the caller persists a collection by writing the
//! document returned by the matching `save_*` method to that collection's
//! snapshot file, and loads one by handing the file's text to `load_*`.

use vstd::prelude::*;
use vstd::string::*;
use vstd::pervasive::VecAdditionalExecFns;

use crate::error_handler::AppError;

verus! {

// ---------------------------------------------------------------------------
// Entity types and their mathematical views
// ---------------------------------------------------------------------------

#[derive(Clone, Copy, PartialEq, Eq, Structural, Debug)]
pub enum MenuCategory {
    Mains,
    Sides,
    Desserts,
    Beverages,
}

#[derive(Clone, Copy, PartialEq, Eq, Structural, Debug)]
pub enum ScheduleRecurrence {
    Daily,
    Weekly,
    Monthly,
    Custom,
}

#[derive(Clone, Copy, PartialEq, Eq, Structural, Debug)]
pub enum ScheduleStatus {
    Pending,
    Active,
    Ended,
    Conflicted,
    Failed,
}

#[derive(Debug, PartialEq)]
pub struct MenuItem {
    pub id: u128,
    pub name: String,
    pub category: MenuCategory,
    pub description: String,
    pub allergens: Vec<String>,
    pub is_available: bool,
}

#[derive(Debug, PartialEq)]
pub struct Notice {
    pub id: u128,
    pub title: String,
    pub content: String,
    pub is_active: bool,
    pub created_at: i64,
    pub updated_at: i64,
}

#[derive(Debug, PartialEq)]
pub struct AdminUser {
    pub id: u128,
    pub username: String,
    pub password_hash: String,
}

#[derive(Debug, PartialEq)]
pub struct MenuPreset {
    pub id: u128,
    pub name: String,
    pub description: String,
    pub menu_item_ids: Vec<u128>,
    pub created_at: i64,
    pub updated_at: i64,
}

#[derive(Debug, PartialEq)]
pub struct MenuSchedule {
    pub id: u128,
    pub preset_id: u128,
    pub name: String,
    pub description: String,
    pub start_time: i64,
    pub end_time: i64,
    pub recurrence: ScheduleRecurrence,
    pub status: ScheduleStatus,
    pub created_at: i64,
    pub updated_at: i64,
    pub error_message: Option<String>,
}

/// Mathematical value of a `MenuItem`.
pub struct MenuItemV {
    pub id: u128,
    pub name: Seq<char>,
    pub category: MenuCategory,
    pub description: Seq<char>,
    pub allergens: Seq<Seq<char>>,
    pub is_available: bool,
}

/// Mathematical value of a `Notice`.
pub struct NoticeV {
    pub id: u128,
    pub title: Seq<char>,
    pub content: Seq<char>,
    pub is_active: bool,
    pub created_at: i64,
    pub updated_at: i64,
}

/// Mathematical value of an `AdminUser`.
pub struct AdminUserV {
    pub id: u128,
    pub username: Seq<char>,
    pub password_hash: Seq<char>,
}

/// Mathematical value of a `MenuPreset`.
pub struct MenuPresetV {
    pub id: u128,
    pub name: Seq<char>,
    pub description: Seq<char>,
    pub menu_item_ids: Seq<u128>,
    pub created_at: i64,
    pub updated_at: i64,
}

/// Mathematical value of a `MenuSchedule`.
pub struct MenuScheduleV {
    pub id: u128,
    pub preset_id: u128,
    pub name: Seq<char>,
    pub description: Seq<char>,
    pub start_time: i64,
    pub end_time: i64,
    pub recurrence: ScheduleRecurrence,
    pub status: ScheduleStatus,
    pub created_at: i64,
    pub updated_at: i64,
    pub error_message: Option<Seq<char>>,
}

impl DeepView for MenuItem {
    type V = MenuItemV;

    open spec fn deep_view(&self) -> MenuItemV {
        MenuItemV {
            id: self.id,
            name: self.name.deep_view(),
            category: self.category,
            description: self.description.deep_view(),
            allergens: self.allergens.deep_view(),
            is_available: self.is_available,
        }
    }
}

impl DeepView for Notice {
    type V = NoticeV;

    open spec fn deep_view(&self) -> NoticeV {
        NoticeV {
            id: self.id,
            title: self.title.deep_view(),
            content: self.content.deep_view(),
            is_active: self.is_active,
            created_at: self.created_at,
            updated_at: self.updated_at,
        }
    }
}

impl DeepView for AdminUser {
    type V = AdminUserV;

    open spec fn deep_view(&self) -> AdminUserV {
        AdminUserV {
            id: self.id,
            username: self.username.deep_view(),
            password_hash: self.password_hash.deep_view(),
        }
    }
}

impl DeepView for MenuPreset {
    type V = MenuPresetV;

    open spec fn deep_view(&self) -> MenuPresetV {
        MenuPresetV {
            id: self.id,
            name: self.name.deep_view(),
            description: self.description.deep_view(),
            menu_item_ids: self.menu_item_ids.deep_view(),
            created_at: self.created_at,
            updated_at: self.updated_at,
        }
    }
}

impl DeepView for MenuSchedule {
    type V = MenuScheduleV;

    open spec fn deep_view(&self) -> MenuScheduleV {
        MenuScheduleV {
            id: self.id,
            preset_id: self.preset_id,
            name: self.name.deep_view(),
            description: self.description.deep_view(),
            start_time: self.start_time,
            end_time: self.end_time,
            recurrence: self.recurrence,
            status: self.status,
            created_at: self.created_at,
            updated_at: self.updated_at,
            error_message: self.error_message.deep_view(),
        }
    }
}

impl Clone for MenuItem {
    fn clone(&self) -> (r: Self)
        ensures
            r.deep_view() == self.deep_view(),
    {
        MenuItem {
            id: self.id,
            name: self.name.clone(),
            category: self.category,
            description: self.description.clone(),
            allergens: clone_strings(&self.allergens),
            is_available: self.is_available,
        }
    }
}

impl Clone for Notice {
    fn clone(&self) -> (r: Self)
        ensures
            r.deep_view() == self.deep_view(),
    {
        Notice {
            id: self.id,
            title: self.title.clone(),
            content: self.content.clone(),
            is_active: self.is_active,
            created_at: self.created_at,
            updated_at: self.updated_at,
        }
    }
}

impl Clone for AdminUser {
    fn clone(&self) -> (r: Self)
        ensures
            r.deep_view() == self.deep_view(),
    {
        AdminUser {
            id: self.id,
            username: self.username.clone(),
            password_hash: self.password_hash.clone(),
        }
    }
}

impl Clone for MenuPreset {
    fn clone(&self) -> (r: Self)
        ensures
            r.deep_view() == self.deep_view(),
    {
        MenuPreset {
            id: self.id,
            name: self.name.clone(),
            description: self.description.clone(),
            menu_item_ids: clone_ids(&self.menu_item_ids),
            created_at: self.created_at,
            updated_at: self.updated_at,
        }
    }
}

impl Clone for MenuSchedule {
    fn clone(&self) -> (r: Self)
        ensures
            r.deep_view() == self.deep_view(),
    {
        MenuSchedule {
            id: self.id,
            preset_id: self.preset_id,
            name: self.name.clone(),
            description: self.description.clone(),
            start_time: self.start_time,
            end_time: self.end_time,
            recurrence: self.recurrence,
            status: self.status,
            created_at: self.created_at,
            updated_at: self.updated_at,
            error_message: match &self.error_message {
                Some(m) => Some(m.clone()),
                None => None,
            },
        }
    }
}

/// Copies a list of strings.
pub fn clone_strings(v: &Vec<String>) -> (r: Vec<String>)
    ensures
        r.deep_view() == v.deep_view(),
{
    let mut r: Vec<String> = Vec::new();
    let mut i: usize = 0;
    while i < v.len()
        invariant
            i <= v.len(),
            r@.len() == i,
            forall|k: int| 0 <= k < i ==> r.deep_view()[k] == v.deep_view()[k],
        decreases v.len() - i,
    {
        r.push(v[i].clone());
        i = i + 1;
    }
    proof {
        assert(r.deep_view() =~= v.deep_view());
    }
    r
}

/// Copies a list of entity ids.
pub fn clone_ids(v: &Vec<u128>) -> (r: Vec<u128>)
    ensures
        r.deep_view() == v.deep_view(),
{
    let mut r: Vec<u128> = Vec::new();
    let mut i: usize = 0;
    while i < v.len()
        invariant
            i <= v.len(),
            r@.len() == i,
            forall|k: int| 0 <= k < i ==> r.deep_view()[k] == v.deep_view()[k],
        decreases v.len() - i,
    {
        r.push(v[i]);
        i = i + 1;
    }
    proof {
        assert(r.deep_view() =~= v.deep_view());
    }
    r
}

/// True when `ids` holds `id`; the executable side of `Seq::contains`.
pub fn contains_id(ids: &Vec<u128>, id: u128) -> (r: bool)
    ensures
        r == ids.deep_view().contains(id),
{
    let mut i: usize = 0;
    while i < ids.len()
        invariant
            i <= ids.len(),
            forall|k: int| 0 <= k < i ==> ids.deep_view()[k] != id,
        decreases ids.len() - i,
    {
        if ids[i] == id {
            proof {
                assert(ids.deep_view()[i as int] == id);
            }
            return true;
        }
        i = i + 1;
    }
    false
}

// ---------------------------------------------------------------------------
// Store errors
// ---------------------------------------------------------------------------

/// Failure conditions of the entity store.
///
/// `Io` and `Json` carry the text of the underlying failure; `PoisonError`
/// stands for a collection lock that can no longer be trusted; `NotFound` is
/// an id lookup miss on update or delete.
#[derive(Debug)]
pub enum StorageError {
    Io(String),
    Json(String),
    PoisonError,
    NotFound,
}

impl StorageError {
    /// A short description of the failure, for callers that report it.
    pub fn message(&self) -> (r: String)
        ensures
            self is Io ==> r.deep_view() == "IO error: "@ + self->Io_0.deep_view(),
            self is Json ==> r.deep_view() == "JSON serialization error: "@ + self->Json_0.deep_view(),
            self is PoisonError ==> r.deep_view() == "Mutex poison error"@,
            self is NotFound ==> r.deep_view() == "Entity not found"@,
    {
        match self {
            StorageError::Io(m) => {
                let mut s = String::from_str("IO error: ");
                s.append(m.as_str());
                s
            },
            StorageError::Json(m) => {
                let mut s = String::from_str("JSON serialization error: ");
                s.append(m.as_str());
                s
            },
            StorageError::PoisonError => String::from_str("Mutex poison error"),
            StorageError::NotFound => String::from_str("Entity not found"),
        }
    }

    /// The `AppError` a store failure surfaces as.
    pub fn into_app_error(self) -> (r: AppError)
        ensures
            r is Storage,
            r->Storage_0.deep_view() == self.message_spec(),
    {
        AppError::Storage(self.message())
    }

    /// What `message` returns, as a function of the value.
    pub open spec fn message_spec(&self) -> Seq<char> {
        match self {
            StorageError::Io(m) => "IO error: "@ + m.deep_view(),
            StorageError::Json(m) => "JSON serialization error: "@ + m.deep_view(),
            StorageError::PoisonError => "Mutex poison error"@,
            StorageError::NotFound => "Entity not found"@,
        }
    }
}

// ---------------------------------------------------------------------------
// The store
// ---------------------------------------------------------------------------

/// First index in `ids` holding `id`; the length of `ids` when none does.
pub open spec fn first_index_with_id(ids: Seq<u128>, id: u128) -> int
    decreases ids.len(),
{
    if ids.len() == 0 {
        0
    } else if ids[0] == id {
        0
    } else {
        1 + first_index_with_id(ids.drop_first(), id)
    }
}

/// The in-memory entity store: five independent collections.
///
/// Readers receive copies; mutations replace, append to or shrink one
/// collection and leave the other four untouched.
pub struct JsonStorage {
    menu_items: Vec<MenuItem>,
    notices: Vec<Notice>,
    admin_users: Vec<AdminUser>,
    menu_presets: Vec<MenuPreset>,
    menu_schedules: Vec<MenuSchedule>,
}

impl JsonStorage {
    pub closed spec fn items(&self) -> Seq<MenuItemV> {
        self.menu_items.deep_view()
    }

    pub closed spec fn notices_view(&self) -> Seq<NoticeV> {
        self.notices.deep_view()
    }

    pub closed spec fn users(&self) -> Seq<AdminUserV> {
        self.admin_users.deep_view()
    }

    pub closed spec fn presets(&self) -> Seq<MenuPresetV> {
        self.menu_presets.deep_view()
    }

    pub closed spec fn schedules(&self) -> Seq<MenuScheduleV> {
        self.menu_schedules.deep_view()
    }

    /// A fresh store: every collection empty.
    pub fn new() -> (r: JsonStorage)
        ensures
            r.items() =~= Seq::<MenuItemV>::empty(),
            r.notices_view() =~= Seq::<NoticeV>::empty(),
            r.users() =~= Seq::<AdminUserV>::empty(),
            r.presets() =~= Seq::<MenuPresetV>::empty(),
            r.schedules() =~= Seq::<MenuScheduleV>::empty(),
    {
        JsonStorage {
            menu_items: Vec::new(),
            notices: Vec::new(),
            admin_users: Vec::new(),
            menu_presets: Vec::new(),
            menu_schedules: Vec::new(),
        }
    }
}

// ---------------------------------------------------------------------------
// Id sequences and lookup
// ---------------------------------------------------------------------------

pub open spec fn item_ids(s: Seq<MenuItemV>) -> Seq<u128> {
    Seq::new(s.len(), |i: int| s[i].id)
}

pub open spec fn notice_ids(s: Seq<NoticeV>) -> Seq<u128> {
    Seq::new(s.len(), |i: int| s[i].id)
}

pub open spec fn preset_ids(s: Seq<MenuPresetV>) -> Seq<u128> {
    Seq::new(s.len(), |i: int| s[i].id)
}

pub open spec fn schedule_ids(s: Seq<MenuScheduleV>) -> Seq<u128> {
    Seq::new(s.len(), |i: int| s[i].id)
}

/// `first_index_with_id` is the first match, and the length when there is
/// no match.
pub proof fn lemma_first_index_props(ids: Seq<u128>, id: u128)
    ensures
        ({
            let f = first_index_with_id(ids, id);
            &&& 0 <= f <= ids.len()
            &&& f < ids.len() ==> ids[f] == id
            &&& forall|m: int| 0 <= m < f ==> ids[m] != id
        }),
    decreases ids.len(),
{
    if ids.len() == 0 {
    } else if ids[0] == id {
    } else {
        lemma_first_index_props(ids.drop_first(), id);
        assert forall|m: int| 0 <= m < first_index_with_id(ids, id) implies ids[m] != id by {
            if m >= 1 {
                assert(ids.drop_first()[m - 1] == ids[m]);
            }
        }
    }
}

/// The availability assignment an execution pass with the selected item ids
/// produces: items in the selection become available, every other item
/// becomes unavailable; no other field changes.
pub open spec fn apply_selection(items: Seq<MenuItemV>, ids: Seq<u128>) -> Seq<MenuItemV> {
    Seq::new(
        items.len(),
        |j: int| MenuItemV { is_available: ids.contains(items[j].id), ..items[j] },
    )
}

// ---------------------------------------------------------------------------
// CRUD
// ---------------------------------------------------------------------------

impl JsonStorage {
    /// A copy of the menu item collection.
    pub fn get_menu_items(&self) -> (r: Vec<MenuItem>)
        ensures
            r.deep_view() == self.items(),
    {
        let mut r: Vec<MenuItem> = Vec::new();
        let mut i: usize = 0;
        while i < self.menu_items.len()
            invariant
                i <= self.menu_items.len(),
                r@.len() == i,
                forall|k: int| 0 <= k < i ==> r.deep_view()[k] == self.items()[k],
            decreases self.menu_items.len() - i,
        {
            r.push(self.menu_items[i].clone());
            i = i + 1;
        }
        proof {
            assert(r.deep_view() =~= self.items());
        }
        r
    }

    /// A copy of the notice collection.
    pub fn get_notices(&self) -> (r: Vec<Notice>)
        ensures
            r.deep_view() == self.notices_view(),
    {
        let mut r: Vec<Notice> = Vec::new();
        let mut i: usize = 0;
        while i < self.notices.len()
            invariant
                i <= self.notices.len(),
                r@.len() == i,
                forall|k: int| 0 <= k < i ==> r.deep_view()[k] == self.notices_view()[k],
            decreases self.notices.len() - i,
        {
            r.push(self.notices[i].clone());
            i = i + 1;
        }
        proof {
            assert(r.deep_view() =~= self.notices_view());
        }
        r
    }

    /// A copy of the admin user collection.
    pub fn get_admin_users(&self) -> (r: Vec<AdminUser>)
        ensures
            r.deep_view() == self.users(),
    {
        let mut r: Vec<AdminUser> = Vec::new();
        let mut i: usize = 0;
        while i < self.admin_users.len()
            invariant
                i <= self.admin_users.len(),
                r@.len() == i,
                forall|k: int| 0 <= k < i ==> r.deep_view()[k] == self.users()[k],
            decreases self.admin_users.len() - i,
        {
            r.push(self.admin_users[i].clone());
            i = i + 1;
        }
        proof {
            assert(r.deep_view() =~= self.users());
        }
        r
    }

    /// A copy of the preset collection.
    pub fn get_menu_presets(&self) -> (r: Vec<MenuPreset>)
        ensures
            r.deep_view() == self.presets(),
    {
        let mut r: Vec<MenuPreset> = Vec::new();
        let mut i: usize = 0;
        while i < self.menu_presets.len()
            invariant
                i <= self.menu_presets.len(),
                r@.len() == i,
                forall|k: int| 0 <= k < i ==> r.deep_view()[k] == self.presets()[k],
            decreases self.menu_presets.len() - i,
        {
            r.push(self.menu_presets[i].clone());
            i = i + 1;
        }
        proof {
            assert(r.deep_view() =~= self.presets());
        }
        r
    }

    /// A copy of the schedule collection.
    pub fn get_menu_schedules(&self) -> (r: Vec<MenuSchedule>)
        ensures
            r.deep_view() == self.schedules(),
    {
        let mut r: Vec<MenuSchedule> = Vec::new();
        let mut i: usize = 0;
        while i < self.menu_schedules.len()
            invariant
                i <= self.menu_schedules.len(),
                r@.len() == i,
                forall|k: int| 0 <= k < i ==> r.deep_view()[k] == self.schedules()[k],
            decreases self.menu_schedules.len() - i,
        {
            r.push(self.menu_schedules[i].clone());
            i = i + 1;
        }
        proof {
            assert(r.deep_view() =~= self.schedules());
        }
        r
    }

    /// Appends a menu item.
    pub fn add_menu_item(&mut self, item: MenuItem)
        ensures
            final(self).items() =~= old(self).items().push(item.deep_view()),
            final(self).notices_view() == old(self).notices_view(),
            final(self).users() == old(self).users(),
            final(self).presets() == old(self).presets(),
            final(self).schedules() == old(self).schedules(),
    {
        self.menu_items.push(item);
    }

    /// Appends a notice.
    pub fn add_notice(&mut self, notice: Notice)
        ensures
            final(self).notices_view() =~= old(self).notices_view().push(notice.deep_view()),
            final(self).items() == old(self).items(),
            final(self).users() == old(self).users(),
            final(self).presets() == old(self).presets(),
            final(self).schedules() == old(self).schedules(),
    {
        self.notices.push(notice);
    }

    /// Appends an admin user.
    pub fn add_admin_user(&mut self, user: AdminUser)
        ensures
            final(self).users() =~= old(self).users().push(user.deep_view()),
            final(self).items() == old(self).items(),
            final(self).notices_view() == old(self).notices_view(),
            final(self).presets() == old(self).presets(),
            final(self).schedules() == old(self).schedules(),
    {
        self.admin_users.push(user);
    }

    /// Appends a preset.
    pub fn add_menu_preset(&mut self, preset: MenuPreset)
        ensures
            final(self).presets() =~= old(self).presets().push(preset.deep_view()),
            final(self).items() == old(self).items(),
            final(self).notices_view() == old(self).notices_view(),
            final(self).users() == old(self).users(),
            final(self).schedules() == old(self).schedules(),
    {
        self.menu_presets.push(preset);
    }

    /// Appends a schedule.
    pub fn add_menu_schedule(&mut self, schedule: MenuSchedule)
        ensures
            final(self).schedules() =~= old(self).schedules().push(schedule.deep_view()),
            final(self).items() == old(self).items(),
            final(self).notices_view() == old(self).notices_view(),
            final(self).users() == old(self).users(),
            final(self).presets() == old(self).presets(),
    {
        self.menu_schedules.push(schedule);
    }

    /// Replaces the menu item whose id is `id`; `NotFound` when none has it.
    #[verifier::loop_isolation(false)]
    pub fn update_menu_item(&mut self, id: u128, updated_item: MenuItem) -> (r: Result<
        (),
        StorageError,
    >)
        ensures
            ({
                let s0 = old(self).items();
                let k = first_index_with_id(item_ids(s0), id);
                &&& k < s0.len() ==> r is Ok && final(self).items() =~= s0.update(
                    k,
                    updated_item.deep_view(),
                )
                &&& k == s0.len() ==> r is Err && r->Err_0 is NotFound && final(self).items() == s0
            }),
            final(self).notices_view() == old(self).notices_view(),
            final(self).users() == old(self).users(),
            final(self).presets() == old(self).presets(),
            final(self).schedules() == old(self).schedules(),
    {
        proof {
            lemma_first_index_props(item_ids(old(self).items()), id);
        }
        let mut i: usize = 0;
        while i < self.menu_items.len()
            invariant
                i <= self.menu_items.len(),
                self == old(self),
                forall|m: int| 0 <= m < i ==> item_ids(old(self).items())[m] != id,
            decreases self.menu_items.len() - i,
        {
            if self.menu_items[i].id == id {
                proof {
                    assert(item_ids(old(self).items())[i as int] == id);
                    assert(first_index_with_id(item_ids(old(self).items()), id) == i as int);
                }
                self.menu_items.set(i, updated_item);
                proof {
                    assert(self.items() =~= old(self).items().update(
                        i as int,
                        updated_item.deep_view(),
                    ));
                }
                return Ok(());
            }
            i = i + 1;
        }
        Err(StorageError::NotFound)
    }

    /// Replaces the notice whose id is `id`; `NotFound` when none has it.
    #[verifier::loop_isolation(false)]
    pub fn update_notice(&mut self, id: u128, updated_notice: Notice) -> (r: Result<
        (),
        StorageError,
    >)
        ensures
            ({
                let s0 = old(self).notices_view();
                let k = first_index_with_id(notice_ids(s0), id);
                &&& k < s0.len() ==> r is Ok && final(self).notices_view() =~= s0.update(
                    k,
                    updated_notice.deep_view(),
                )
                &&& k == s0.len() ==> r is Err && r->Err_0 is NotFound && final(self).notices_view() == s0
            }),
            final(self).items() == old(self).items(),
            final(self).users() == old(self).users(),
            final(self).presets() == old(self).presets(),
            final(self).schedules() == old(self).schedules(),
    {
        proof {
            lemma_first_index_props(notice_ids(old(self).notices_view()), id);
        }
        let mut i: usize = 0;
        while i < self.notices.len()
            invariant
                i <= self.notices.len(),
                self == old(self),
                forall|m: int| 0 <= m < i ==> notice_ids(old(self).notices_view())[m] != id,
            decreases self.notices.len() - i,
        {
            if self.notices[i].id == id {
                proof {
                    assert(notice_ids(old(self).notices_view())[i as int] == id);
                    assert(first_index_with_id(notice_ids(old(self).notices_view()), id)
                        == i as int);
                }
                self.notices.set(i, updated_notice);
                proof {
                    assert(self.notices_view() =~= old(self).notices_view().update(
                        i as int,
                        updated_notice.deep_view(),
                    ));
                }
                return Ok(());
            }
            i = i + 1;
        }
        Err(StorageError::NotFound)
    }

    /// Replaces the preset whose id is `id`; `NotFound` when none has it.
    #[verifier::loop_isolation(false)]
    pub fn update_menu_preset(&mut self, id: u128, updated_preset: MenuPreset) -> (r: Result<
        (),
        StorageError,
    >)
        ensures
            ({
                let s0 = old(self).presets();
                let k = first_index_with_id(preset_ids(s0), id);
                &&& k < s0.len() ==> r is Ok && final(self).presets() =~= s0.update(
                    k,
                    updated_preset.deep_view(),
                )
                &&& k == s0.len() ==> r is Err && r->Err_0 is NotFound && final(self).presets() == s0
            }),
            final(self).items() == old(self).items(),
            final(self).notices_view() == old(self).notices_view(),
            final(self).users() == old(self).users(),
            final(self).schedules() == old(self).schedules(),
    {
        proof {
            lemma_first_index_props(preset_ids(old(self).presets()), id);
        }
        let mut i: usize = 0;
        while i < self.menu_presets.len()
            invariant
                i <= self.menu_presets.len(),
                self == old(self),
                forall|m: int| 0 <= m < i ==> preset_ids(old(self).presets())[m] != id,
            decreases self.menu_presets.len() - i,
        {
            if self.menu_presets[i].id == id {
                proof {
                    assert(preset_ids(old(self).presets())[i as int] == id);
                    assert(first_index_with_id(preset_ids(old(self).presets()), id) == i as int);
                }
                self.menu_presets.set(i, updated_preset);
                proof {
                    assert(self.presets() =~= old(self).presets().update(
                        i as int,
                        updated_preset.deep_view(),
                    ));
                }
                return Ok(());
            }
            i = i + 1;
        }
        Err(StorageError::NotFound)
    }

    /// Replaces the schedule whose id is `id`; `NotFound` when none has it.
    #[verifier::loop_isolation(false)]
    pub fn update_menu_schedule(&mut self, id: u128, updated_schedule: MenuSchedule) -> (r: Result<
        (),
        StorageError,
    >)
        ensures
            ({
                let s0 = old(self).schedules();
                let k = first_index_with_id(schedule_ids(s0), id);
                &&& k < s0.len() ==> r is Ok && final(self).schedules() =~= s0.update(
                    k,
                    updated_schedule.deep_view(),
                )
                &&& k == s0.len() ==> r is Err && r->Err_0 is NotFound && final(self).schedules() == s0
            }),
            final(self).items() == old(self).items(),
            final(self).notices_view() == old(self).notices_view(),
            final(self).users() == old(self).users(),
            final(self).presets() == old(self).presets(),
    {
        proof {
            lemma_first_index_props(schedule_ids(old(self).schedules()), id);
        }
        let mut i: usize = 0;
        while i < self.menu_schedules.len()
            invariant
                i <= self.menu_schedules.len(),
                self == old(self),
                forall|m: int| 0 <= m < i ==> schedule_ids(old(self).schedules())[m] != id,
            decreases self.menu_schedules.len() - i,
        {
            if self.menu_schedules[i].id == id {
                proof {
                    assert(schedule_ids(old(self).schedules())[i as int] == id);
                    assert(first_index_with_id(schedule_ids(old(self).schedules()), id)
                        == i as int);
                }
                self.menu_schedules.set(i, updated_schedule);
                proof {
                    assert(self.schedules() =~= old(self).schedules().update(
                        i as int,
                        updated_schedule.deep_view(),
                    ));
                }
                return Ok(());
            }
            i = i + 1;
        }
        Err(StorageError::NotFound)
    }

    /// Removes the menu item whose id is `id`; `NotFound` when none has it.
    #[verifier::loop_isolation(false)]
    pub fn delete_menu_item(&mut self, id: u128) -> (r: Result<(), StorageError>)
        ensures
            ({
                let s0 = old(self).items();
                let k = first_index_with_id(item_ids(s0), id);
                &&& k < s0.len() ==> r is Ok && final(self).items() =~= s0.remove(k)
                &&& k == s0.len() ==> r is Err && r->Err_0 is NotFound && final(self).items() == s0
            }),
            final(self).notices_view() == old(self).notices_view(),
            final(self).users() == old(self).users(),
            final(self).presets() == old(self).presets(),
            final(self).schedules() == old(self).schedules(),
    {
        proof {
            lemma_first_index_props(item_ids(old(self).items()), id);
        }
        let mut i: usize = 0;
        while i < self.menu_items.len()
            invariant
                i <= self.menu_items.len(),
                self == old(self),
                forall|m: int| 0 <= m < i ==> item_ids(old(self).items())[m] != id,
            decreases self.menu_items.len() - i,
        {
            if self.menu_items[i].id == id {
                proof {
                    assert(item_ids(old(self).items())[i as int] == id);
                    assert(first_index_with_id(item_ids(old(self).items()), id) == i as int);
                }
                self.menu_items.remove(i);
                proof {
                    assert(self.items() =~= old(self).items().remove(i as int));
                }
                return Ok(());
            }
            i = i + 1;
        }
        Err(StorageError::NotFound)
    }

    /// Removes the notice whose id is `id`; `NotFound` when none has it.
    #[verifier::loop_isolation(false)]
    pub fn delete_notice(&mut self, id: u128) -> (r: Result<(), StorageError>)
        ensures
            ({
                let s0 = old(self).notices_view();
                let k = first_index_with_id(notice_ids(s0), id);
                &&& k < s0.len() ==> r is Ok && final(self).notices_view() =~= s0.remove(k)
                &&& k == s0.len() ==> r is Err && r->Err_0 is NotFound && final(self).notices_view() == s0
            }),
            final(self).items() == old(self).items(),
            final(self).users() == old(self).users(),
            final(self).presets() == old(self).presets(),
            final(self).schedules() == old(self).schedules(),
    {
        proof {
            lemma_first_index_props(notice_ids(old(self).notices_view()), id);
        }
        let mut i: usize = 0;
        while i < self.notices.len()
            invariant
                i <= self.notices.len(),
                self == old(self),
                forall|m: int| 0 <= m < i ==> notice_ids(old(self).notices_view())[m] != id,
            decreases self.notices.len() - i,
        {
            if self.notices[i].id == id {
                proof {
                    assert(notice_ids(old(self).notices_view())[i as int] == id);
                    assert(first_index_with_id(notice_ids(old(self).notices_view()), id)
                        == i as int);
                }
                self.notices.remove(i);
                proof {
                    assert(self.notices_view() =~= old(self).notices_view().remove(i as int));
                }
                return Ok(());
            }
            i = i + 1;
        }
        Err(StorageError::NotFound)
    }

    /// Removes the preset whose id is `id`; `NotFound` when none has it.
    #[verifier::loop_isolation(false)]
    pub fn delete_menu_preset(&mut self, id: u128) -> (r: Result<(), StorageError>)
        ensures
            ({
                let s0 = old(self).presets();
                let k = first_index_with_id(preset_ids(s0), id);
                &&& k < s0.len() ==> r is Ok && final(self).presets() =~= s0.remove(k)
                &&& k == s0.len() ==> r is Err && r->Err_0 is NotFound && final(self).presets() == s0
            }),
            final(self).items() == old(self).items(),
            final(self).notices_view() == old(self).notices_view(),
            final(self).users() == old(self).users(),
            final(self).schedules() == old(self).schedules(),
    {
        proof {
            lemma_first_index_props(preset_ids(old(self).presets()), id);
        }
        let mut i: usize = 0;
        while i < self.menu_presets.len()
            invariant
                i <= self.menu_presets.len(),
                self == old(self),
                forall|m: int| 0 <= m < i ==> preset_ids(old(self).presets())[m] != id,
            decreases self.menu_presets.len() - i,
        {
            if self.menu_presets[i].id == id {
                proof {
                    assert(preset_ids(old(self).presets())[i as int] == id);
                    assert(first_index_with_id(preset_ids(old(self).presets()), id) == i as int);
                }
                self.menu_presets.remove(i);
                proof {
                    assert(self.presets() =~= old(self).presets().remove(i as int));
                }
                return Ok(());
            }
            i = i + 1;
        }
        Err(StorageError::NotFound)
    }

    /// Removes the schedule whose id is `id`; `NotFound` when none has it.
    #[verifier::loop_isolation(false)]
    pub fn delete_menu_schedule(&mut self, id: u128) -> (r: Result<(), StorageError>)
        ensures
            ({
                let s0 = old(self).schedules();
                let k = first_index_with_id(schedule_ids(s0), id);
                &&& k < s0.len() ==> r is Ok && final(self).schedules() =~= s0.remove(k)
                &&& k == s0.len() ==> r is Err && r->Err_0 is NotFound && final(self).schedules() == s0
            }),
            final(self).items() == old(self).items(),
            final(self).notices_view() == old(self).notices_view(),
            final(self).users() == old(self).users(),
            final(self).presets() == old(self).presets(),
    {
        proof {
            lemma_first_index_props(schedule_ids(old(self).schedules()), id);
        }
        let mut i: usize = 0;
        while i < self.menu_schedules.len()
            invariant
                i <= self.menu_schedules.len(),
                self == old(self),
                forall|m: int| 0 <= m < i ==> schedule_ids(old(self).schedules())[m] != id,
            decreases self.menu_schedules.len() - i,
        {
            if self.menu_schedules[i].id == id {
                proof {
                    assert(schedule_ids(old(self).schedules())[i as int] == id);
                    assert(first_index_with_id(schedule_ids(old(self).schedules()), id)
                        == i as int);
                }
                self.menu_schedules.remove(i);
                proof {
                    assert(self.schedules() =~= old(self).schedules().remove(i as int));
                }
                return Ok(());
            }
            i = i + 1;
        }
        Err(StorageError::NotFound)
    }

    /// The first admin user with the given username, where one exists.
    pub fn get_admin_user_by_username(&self, username: &str) -> (r: Option<AdminUser>)
        ensures
            r.deep_view() == first_user_with_name(self.users(), username@),
    {
        let ghost us = self.users();
        let wanted = String::from_str(username);
        proof {
            assert(us.skip(0) =~= us);
        }
        let mut i: usize = 0;
        while i < self.admin_users.len()
            invariant
                i <= self.admin_users.len(),
                us == self.users(),
                wanted@ == username@,
                first_user_with_name(us, username@) == first_user_with_name(
                    us.skip(i as int),
                    username@,
                ),
            decreases self.admin_users.len() - i,
        {
            proof {
                assert(us.skip(i as int)[0] == us[i as int]);
                assert(us.skip(i as int).drop_first() =~= us.skip(i + 1));
            }
            if self.admin_users[i].username.eq(&wanted) {
                return Some(self.admin_users[i].clone());
            }
            i = i + 1;
        }
        proof {
            assert(us.skip(us.len() as int).len() == 0);
        }
        None
    }

    /// Rewrites every menu item's availability from the selected ids: an
    /// item becomes available exactly when its id is selected.
    #[verifier::loop_isolation(false)]
    pub fn apply_preset_selection(&mut self, selected: &Vec<u128>)
        ensures
            final(self).items() =~= apply_selection(old(self).items(), selected.deep_view()),
            final(self).notices_view() == old(self).notices_view(),
            final(self).users() == old(self).users(),
            final(self).presets() == old(self).presets(),
            final(self).schedules() == old(self).schedules(),
    {
        let ghost s0 = old(self).items();
        let mut j: usize = 0;
        while j < self.menu_items.len()
            invariant
                j <= self.menu_items.len(),
                self.menu_items.len() == s0.len(),
                self.notices_view() == old(self).notices_view(),
                self.users() == old(self).users(),
                self.presets() == old(self).presets(),
                self.schedules() == old(self).schedules(),
                forall|m: int| 0 <= m < j
                    ==> self.items()[m] == apply_selection(s0, selected.deep_view())[m],
                forall|m: int| j <= m < s0.len() ==> self.items()[m] == s0[m],
            decreases self.menu_items.len() - j,
        {
            let available = contains_id(selected, self.menu_items[j].id);
            let mut item = self.menu_items[j].clone();
            proof {
                assert(item.deep_view() == s0[j as int]);
            }
            item.is_available = available;
            proof {
                assert(item.deep_view() == MenuItemV {
                    is_available: selected.deep_view().contains(s0[j as int].id),
                    ..s0[j as int]
                });
            }
            let ghost pre_items = self.items();
            self.menu_items.set(j, item);
            proof {
                assert(self.items()[j as int] == apply_selection(
                    s0,
                    selected.deep_view(),
                )[j as int]);
                assert forall|m: int| 0 <= m < j implies self.items()[m] == apply_selection(
                    s0,
                    selected.deep_view(),
                )[m] by {
                    assert(self.items()[m] == pre_items[m]);
                }
            }
            j = j + 1;
        }
        proof {
            assert(self.items() =~= apply_selection(s0, selected.deep_view()));
        }
    }
}

/// Relies on uuid's `Uuid::new_v4`: a freshly drawn random 128-bit id.
/// Nothing is promised of the value.
#[verifier::external_body]
pub fn fresh_id() -> (r: u128) {
    uuid::Uuid::new_v4().as_u128()
}

/// The first admin user in `us` with the given username.
pub open spec fn first_user_with_name(us: Seq<AdminUserV>, name: Seq<char>) -> Option<AdminUserV>
    decreases us.len(),
{
    if us.len() == 0 {
        None
    } else if us[0].username == name {
        Some(us[0])
    } else {
        first_user_with_name(us.drop_first(), name)
    }
}

// ---------------------------------------------------------------------------
// Snapshot documents
// ---------------------------------------------------------------------------

impl JsonStorage {

    /// The snapshot document of the menu items collection, ready to be
    /// written to its backing file.
    pub fn save_menu_items(&self) -> (r: String)
        ensures
            r@ == crate::codec::enc_menu_items(self.items()),
    {
        crate::codec::encode_menu_items(&self.menu_items)
    }

    /// Installs the menu items collection from its snapshot document; a
    /// document the encoder would not have written is rejected and the
    /// collection is left alone.
    pub fn load_menu_items(&mut self, text: &str) -> (r: Result<(), StorageError>)
        ensures
            match crate::codec::sp_doc_menu_items(text@) {
                Some(v) => r is Ok && final(self).items() == v,
                None => r is Err && r->Err_0 is Json && r->Err_0->Json_0@
                    == "malformed snapshot document"@ && final(self).items() == old(self).items(),
            },
            final(self).notices_view() == old(self).notices_view(),
            final(self).users() == old(self).users(),
            final(self).presets() == old(self).presets(),
            final(self).schedules() == old(self).schedules(),
    {
        match crate::codec::decode_menu_items(text) {
            Some(v) => {
                self.menu_items = v;
                Ok(())
            },
            None => Err(StorageError::Json(String::from_str("malformed snapshot document"))),
        }
    }


    /// The snapshot document of the notices collection, ready to be
    /// written to its backing file.
    pub fn save_notices(&self) -> (r: String)
        ensures
            r@ == crate::codec::enc_notices(self.notices_view()),
    {
        crate::codec::encode_notices(&self.notices)
    }

    /// Installs the notices collection from its snapshot document; a
    /// document the encoder would not have written is rejected and the
    /// collection is left alone.
    pub fn load_notices(&mut self, text: &str) -> (r: Result<(), StorageError>)
        ensures
            match crate::codec::sp_doc_notices(text@) {
                Some(v) => r is Ok && final(self).notices_view() == v,
                None => r is Err && r->Err_0 is Json && r->Err_0->Json_0@
                    == "malformed snapshot document"@ && final(self).notices_view() == old(self).notices_view(),
            },
            final(self).items() == old(self).items(),
            final(self).users() == old(self).users(),
            final(self).presets() == old(self).presets(),
            final(self).schedules() == old(self).schedules(),
    {
        match crate::codec::decode_notices(text) {
            Some(v) => {
                self.notices = v;
                Ok(())
            },
            None => Err(StorageError::Json(String::from_str("malformed snapshot document"))),
        }
    }


    /// The snapshot document of the admin users collection, ready to be
    /// written to its backing file.
    pub fn save_admin_users(&self) -> (r: String)
        ensures
            r@ == crate::codec::enc_admin_users(self.users()),
    {
        crate::codec::encode_admin_users(&self.admin_users)
    }

    /// Installs the admin users collection from its snapshot document; a
    /// document the encoder would not have written is rejected and the
    /// collection is left alone.
    pub fn load_admin_users(&mut self, text: &str) -> (r: Result<(), StorageError>)
        ensures
            match crate::codec::sp_doc_admin_users(text@) {
                Some(v) => r is Ok && final(self).users() == v,
                None => r is Err && r->Err_0 is Json && r->Err_0->Json_0@
                    == "malformed snapshot document"@ && final(self).users() == old(self).users(),
            },
            final(self).items() == old(self).items(),
            final(self).notices_view() == old(self).notices_view(),
            final(self).presets() == old(self).presets(),
            final(self).schedules() == old(self).schedules(),
    {
        match crate::codec::decode_admin_users(text) {
            Some(v) => {
                self.admin_users = v;
                Ok(())
            },
            None => Err(StorageError::Json(String::from_str("malformed snapshot document"))),
        }
    }


    /// The snapshot document of the menu presets collection, ready to be
    /// written to its backing file.
    pub fn save_menu_presets(&self) -> (r: String)
        ensures
            r@ == crate::codec::enc_menu_presets(self.presets()),
    {
        crate::codec::encode_menu_presets(&self.menu_presets)
    }

    /// Installs the menu presets collection from its snapshot document; a
    /// document the encoder would not have written is rejected and the
    /// collection is left alone.
    pub fn load_menu_presets(&mut self, text: &str) -> (r: Result<(), StorageError>)
        ensures
            match crate::codec::sp_doc_menu_presets(text@) {
                Some(v) => r is Ok && final(self).presets() == v,
                None => r is Err && r->Err_0 is Json && r->Err_0->Json_0@
                    == "malformed snapshot document"@ && final(self).presets() == old(self).presets(),
            },
            final(self).items() == old(self).items(),
            final(self).notices_view() == old(self).notices_view(),
            final(self).users() == old(self).users(),
            final(self).schedules() == old(self).schedules(),
    {
        match crate::codec::decode_menu_presets(text) {
            Some(v) => {
                self.menu_presets = v;
                Ok(())
            },
            None => Err(StorageError::Json(String::from_str("malformed snapshot document"))),
        }
    }


    /// The snapshot document of the menu schedules collection, ready to be
    /// written to its backing file.
    pub fn save_menu_schedules(&self) -> (r: String)
        ensures
            r@ == crate::codec::enc_menu_schedules(self.schedules()),
    {
        crate::codec::encode_menu_schedules(&self.menu_schedules)
    }

    /// Installs the menu schedules collection from its snapshot document; a
    /// document the encoder would not have written is rejected and the
    /// collection is left alone.
    pub fn load_menu_schedules(&mut self, text: &str) -> (r: Result<(), StorageError>)
        ensures
            match crate::codec::sp_doc_menu_schedules(text@) {
                Some(v) => r is Ok && final(self).schedules() == v,
                None => r is Err && r->Err_0 is Json && r->Err_0->Json_0@
                    == "malformed snapshot document"@ && final(self).schedules() == old(self).schedules(),
            },
            final(self).items() == old(self).items(),
            final(self).notices_view() == old(self).notices_view(),
            final(self).users() == old(self).users(),
            final(self).presets() == old(self).presets(),
    {
        match crate::codec::decode_menu_schedules(text) {
            Some(v) => {
                self.menu_schedules = v;
                Ok(())
            },
            None => Err(StorageError::Json(String::from_str("malformed snapshot document"))),
        }
    }


}

} // verus!
