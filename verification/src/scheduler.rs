//! The schedule engine.
//!
//! One call to `check_and_execute_schedules` is one tick: it reads a snapshot
//! of the schedule collection, decides for every schedule what its next state
//! is, executes due schedules by rewriting menu-item availability from the
//! referenced preset, and writes the updated schedules back through the
//! store.
//!
//! A due schedule is blocked when its time range overlaps the range of
//! another schedule that is either currently active or has already executed
//! earlier in the same tick; the first schedule of an overlapping group to
//! come up therefore executes, and the others are marked `Conflicted`.

use vstd::prelude::*;
use vstd::string::*;

use crate::codec;
use crate::storage::{
    apply_selection, first_index_with_id, schedule_ids, JsonStorage, MenuPreset, MenuPresetV,
    MenuSchedule, MenuScheduleV, ScheduleRecurrence, ScheduleStatus,
};

verus! {

pub const SECONDS_PER_DAY: i64 = 86400;

pub const SECONDS_PER_WEEK: i64 = 604800;

// ---------------------------------------------------------------------------
// Timing predicates
// ---------------------------------------------------------------------------

/// Closed-interval overlap of two schedules' time ranges.
pub open spec fn schedules_overlap(a: MenuScheduleV, b: MenuScheduleV) -> bool {
    a.start_time <= b.end_time && a.end_time >= b.start_time
}

/// A schedule is due once its start time has been reached.
pub open spec fn schedule_due(s: MenuScheduleV, now: i64) -> bool {
    s.start_time <= now
}

/// Check if a schedule is due to run.
pub fn is_schedule_due(schedule: &MenuSchedule, now: i64) -> (r: bool)
    ensures
        r == schedule_due(schedule.deep_view(), now),
{
    schedule.start_time <= now
}

// ---------------------------------------------------------------------------
// Conflict search
// ---------------------------------------------------------------------------

/// The first schedule in `others` that is not `s` itself (by id) and whose
/// time range overlaps the range of `s`.
pub open spec fn conflict_in(s: MenuScheduleV, others: Seq<MenuScheduleV>) -> Option<MenuScheduleV>
    decreases others.len(),
{
    if others.len() == 0 {
        None
    } else if others[0].id != s.id && schedules_overlap(s, others[0]) {
        Some(others[0])
    } else {
        conflict_in(s, others.drop_first())
    }
}

/// Check if a schedule conflicts with any of the given schedules.
/// A conflict occurs if the time ranges overlap; the schedule itself is
/// skipped by id, so a schedule never conflicts with itself.
pub fn has_schedule_conflict(
    schedule: &MenuSchedule,
    existing_schedules: &Vec<MenuSchedule>,
) -> (r: Option<MenuSchedule>)
    ensures
        r.deep_view() == conflict_in(schedule.deep_view(), existing_schedules.deep_view()),
{
    let ghost s = schedule.deep_view();
    let ghost others = existing_schedules.deep_view();
    proof {
        assert(others.skip(0) =~= others);
    }
    let mut i: usize = 0;
    while i < existing_schedules.len()
        invariant
            i <= existing_schedules.len(),
            s == schedule.deep_view(),
            others == existing_schedules.deep_view(),
            conflict_in(s, others) == conflict_in(s, others.skip(i as int)),
        decreases existing_schedules.len() - i,
    {
        let existing = &existing_schedules[i];
        let overlap = schedule.start_time <= existing.end_time
            && schedule.end_time >= existing.start_time;
        proof {
            assert(others.skip(i as int)[0] == others[i as int]);
            assert(others.skip(i as int).drop_first() =~= others.skip(i + 1));
        }
        if existing.id != schedule.id && overlap {
            return Some(existing.clone());
        }
        i = i + 1;
    }
    proof {
        assert(others.skip(others.len() as int).len() == 0);
    }
    None
}

// ---------------------------------------------------------------------------
// Preset lookup
// ---------------------------------------------------------------------------

/// The first preset in `ps` with the given id.
pub open spec fn preset_with_id(ps: Seq<MenuPresetV>, id: u128) -> Option<MenuPresetV>
    decreases ps.len(),
{
    if ps.len() == 0 {
        None
    } else if ps[0].id == id {
        Some(ps[0])
    } else {
        preset_with_id(ps.drop_first(), id)
    }
}

/// Looks a preset up by id in a preset list.
pub fn find_menu_preset(presets: &Vec<MenuPreset>, id: u128) -> (r: Option<MenuPreset>)
    ensures
        r.deep_view() == preset_with_id(presets.deep_view(), id),
{
    let ghost ps = presets.deep_view();
    proof {
        assert(ps.skip(0) =~= ps);
    }
    let mut i: usize = 0;
    while i < presets.len()
        invariant
            i <= presets.len(),
            ps == presets.deep_view(),
            preset_with_id(ps, id) == preset_with_id(ps.skip(i as int), id),
        decreases presets.len() - i,
    {
        proof {
            assert(ps.skip(i as int)[0] == ps[i as int]);
            assert(ps.skip(i as int).drop_first() =~= ps.skip(i + 1));
        }
        if presets[i].id == id {
            return Some(presets[i].clone());
        }
        i = i + 1;
    }
    proof {
        assert(ps.skip(ps.len() as int).len() == 0);
    }
    None
}

// ---------------------------------------------------------------------------
// Next occurrence
// ---------------------------------------------------------------------------

/// The timestamp one calendar month after `ts`: the date is advanced by one
/// month, the day clamped to the target month's last day, the time of day
/// kept. `None` where the advance leaves the representable range.
pub uninterp spec fn month_after(ts: i64) -> Option<i64>;

/// Relies on chrono's `NaiveDate::checked_add_months`: advancing the UTC
/// calendar date of `ts` by one month, clamping the day of month to the last
/// valid day, keeping the time of day; `None` out of range. The result
/// depends on `ts` alone.
#[verifier::external_body]
fn add_one_month(ts: i64) -> (r: Option<i64>)
    ensures
        r == month_after(ts),
{
    let dt = chrono::DateTime::<chrono::Utc>::from_timestamp(ts, 0)?;
    let next_date = dt.date_naive().checked_add_months(chrono::Months::new(1))?;
    Some(next_date.and_time(dt.time()).and_utc().timestamp())
}

/// The next occurrence of a recurring schedule, from its current start time.
pub open spec fn next_occurrence_spec(s: MenuScheduleV) -> Option<i64> {
    match s.recurrence {
        ScheduleRecurrence::Daily => if s.start_time <= i64::MAX - SECONDS_PER_DAY {
            Some((s.start_time + SECONDS_PER_DAY) as i64)
        } else {
            None
        },
        ScheduleRecurrence::Weekly => if s.start_time <= i64::MAX - SECONDS_PER_WEEK {
            Some((s.start_time + SECONDS_PER_WEEK) as i64)
        } else {
            None
        },
        ScheduleRecurrence::Monthly => month_after(s.start_time),
        ScheduleRecurrence::Custom => None,
    }
}

/// Calculate the next occurrence of a recurring schedule.
pub fn calculate_next_occurrence(schedule: &MenuSchedule) -> (r: Option<i64>)
    ensures
        r == next_occurrence_spec(schedule.deep_view()),
{
    match schedule.recurrence {
        ScheduleRecurrence::Daily => {
            if schedule.start_time <= i64::MAX - SECONDS_PER_DAY {
                Some(schedule.start_time + SECONDS_PER_DAY)
            } else {
                None
            }
        },
        ScheduleRecurrence::Weekly => {
            if schedule.start_time <= i64::MAX - SECONDS_PER_WEEK {
                Some(schedule.start_time + SECONDS_PER_WEEK)
            } else {
                None
            }
        },
        ScheduleRecurrence::Monthly => add_one_month(schedule.start_time),
        ScheduleRecurrence::Custom => None,
    }
}

// ---------------------------------------------------------------------------
// Error messages recorded on schedules
// ---------------------------------------------------------------------------

/// Message recorded on a schedule blocked by `other`.
pub open spec fn conflict_message_spec(other: MenuScheduleV) -> Seq<char> {
    "Conflicts with schedule '"@ + other.name + "' ("@ + codec::dec_digits(other.id) + ")"@
}

fn conflict_message(other: &MenuSchedule) -> (r: String)
    ensures
        r@ == conflict_message_spec(other.deep_view()),
{
    let mut s = String::from_str("Conflicts with schedule '");
    s.append(other.name.as_str());
    s.append("' (");
    let id_text = codec::u128_to_string(other.id);
    s.append(id_text.as_str());
    s.append(")");
    s
}

/// Message recorded on a schedule whose preset no longer exists.
pub open spec fn missing_preset_message_spec(preset_id: u128, schedule_id: u128) -> Seq<char> {
    "Preset with id "@ + codec::dec_digits(preset_id) + " not found for schedule "@
        + codec::dec_digits(schedule_id)
}

fn missing_preset_message(preset_id: u128, schedule_id: u128) -> (r: String)
    ensures
        r@ == missing_preset_message_spec(preset_id, schedule_id),
{
    let mut s = String::from_str("Preset with id ");
    let pid = codec::u128_to_string(preset_id);
    s.append(pid.as_str());
    s.append(" not found for schedule ");
    let sid = codec::u128_to_string(schedule_id);
    s.append(sid.as_str());
    s
}

// ---------------------------------------------------------------------------
// One tick, as a mathematical function of the snapshot
// ---------------------------------------------------------------------------

/// The schedules of `ss` that are currently active, in order.
pub open spec fn actives(ss: Seq<MenuScheduleV>) -> Seq<MenuScheduleV>
    decreases ss.len(),
{
    if ss.len() == 0 {
        Seq::empty()
    } else {
        actives(ss.drop_last())
            + if ss.last().status is Active {
                seq![ss.last()]
            } else {
                Seq::<MenuScheduleV>::empty()
            }
    }
}

/// The schedules whose time ranges are claimed when schedule `i` of the
/// snapshot is evaluated: every schedule active at the start of the tick,
/// followed by every earlier snapshot schedule that executed in this tick.
pub open spec fn claimed_upto(
    ss: Seq<MenuScheduleV>,
    ps: Seq<MenuPresetV>,
    now: i64,
    i: int,
) -> Seq<MenuScheduleV>
    decreases i, 0int,
{
    if i <= 0 {
        actives(ss)
    } else {
        claimed_upto(ss, ps, now, i - 1)
            + if executes(ss, ps, now, i - 1) {
                seq![ss[i - 1]]
            } else {
                Seq::<MenuScheduleV>::empty()
            }
    }
}

/// Whether snapshot schedule `i` executes in this tick: it is pending and
/// due, no claimed schedule's range overlaps its range, and its preset
/// exists.
pub open spec fn executes(ss: Seq<MenuScheduleV>, ps: Seq<MenuPresetV>, now: i64, i: int) -> bool
    decreases i, 1int,
{
    if 0 <= i < ss.len() {
        &&& ss[i].status is Pending
        &&& schedule_due(ss[i], now)
        &&& conflict_in(ss[i], claimed_upto(ss, ps, now, i)) is None
        &&& preset_with_id(ps, ss[i].preset_id) is Some
    } else {
        false
    }
}

/// The state of an executed schedule once its execution pass has finished:
/// an elapsed schedule ends; a recurring one re-arms to the next occurrence
/// while that occurrence still fits before the end time, and ends otherwise;
/// a `Custom` schedule stays active until its end time.
pub open spec fn post_execution(s: MenuScheduleV, now: i64) -> MenuScheduleV {
    if s.end_time <= now {
        MenuScheduleV { status: ScheduleStatus::Ended, updated_at: now, error_message: None, ..s }
    } else {
        match s.recurrence {
            ScheduleRecurrence::Custom => MenuScheduleV {
                status: ScheduleStatus::Active,
                updated_at: now,
                error_message: None,
                ..s
            },
            _ => match next_occurrence_spec(s) {
                Some(next_start) => if next_start <= s.end_time {
                    MenuScheduleV {
                        start_time: next_start,
                        status: ScheduleStatus::Pending,
                        updated_at: now,
                        error_message: None,
                        ..s
                    }
                } else {
                    MenuScheduleV {
                        status: ScheduleStatus::Ended,
                        updated_at: now,
                        error_message: Some("Next occurrence is after schedule end time"@),
                        ..s
                    }
                },
                None => MenuScheduleV {
                    status: ScheduleStatus::Ended,
                    updated_at: now,
                    error_message: Some("Cannot calculate next occurrence"@),
                    ..s
                },
            },
        }
    }
}

/// The state snapshot schedule `i` is left in by this tick.
pub open spec fn schedule_after(
    ss: Seq<MenuScheduleV>,
    ps: Seq<MenuPresetV>,
    now: i64,
    i: int,
) -> MenuScheduleV {
    let s = ss[i];
    if s.status is Pending && schedule_due(s, now) {
        match conflict_in(s, claimed_upto(ss, ps, now, i)) {
            Some(other) => MenuScheduleV {
                status: ScheduleStatus::Conflicted,
                error_message: Some(conflict_message_spec(other)),
                ..s
            },
            None => match preset_with_id(ps, s.preset_id) {
                None => MenuScheduleV {
                    status: ScheduleStatus::Failed,
                    error_message: Some(missing_preset_message_spec(s.preset_id, s.id)),
                    ..s
                },
                Some(_) => post_execution(s, now),
            },
        }
    } else if s.status is Active && s.end_time <= now {
        MenuScheduleV { status: ScheduleStatus::Ended, updated_at: now, error_message: None, ..s }
    } else {
        s
    }
}

/// The last snapshot index below `i` that executed in this tick.
pub open spec fn last_executed(
    ss: Seq<MenuScheduleV>,
    ps: Seq<MenuPresetV>,
    now: i64,
    i: int,
) -> Option<int>
    decreases i, 2int,
{
    if i <= 0 {
        None
    } else if executes(ss, ps, now, i - 1) {
        Some(i - 1)
    } else {
        last_executed(ss, ps, now, i - 1)
    }
}

/// The menu items after this tick: untouched when nothing executed, and
/// otherwise rewritten from the preset of the last executed schedule.
pub open spec fn items_after(
    ss: Seq<MenuScheduleV>,
    ps: Seq<MenuPresetV>,
    now: i64,
    items: Seq<crate::storage::MenuItemV>,
) -> Seq<crate::storage::MenuItemV> {
    match last_executed(ss, ps, now, ss.len() as int) {
        None => items,
        Some(k) => apply_selection(
            items,
            preset_with_id(ps, ss[k].preset_id)->Some_0.menu_item_ids,
        ),
    }
}

/// No two schedules share an id.
pub open spec fn distinct_schedule_ids(ss: Seq<MenuScheduleV>) -> bool {
    forall|i: int, j: int| 0 <= i < j < ss.len() ==> ss[i].id != ss[j].id
}

/// The state a schedule is put in just before its execution pass runs.
pub open spec fn mark_active(s: MenuScheduleV, now: i64) -> MenuScheduleV {
    MenuScheduleV { status: ScheduleStatus::Active, updated_at: now, error_message: None, ..s }
}

// ---------------------------------------------------------------------------
// Executing one schedule
// ---------------------------------------------------------------------------

/// Builds the state an executed schedule is left in.
fn post_execution_build(schedule: &MenuSchedule, now: i64) -> (r: MenuSchedule)
    ensures
        r.deep_view() == post_execution(schedule.deep_view(), now),
{
    let mut r = schedule.clone();
    r.updated_at = now;
    if schedule.end_time <= now {
        r.status = ScheduleStatus::Ended;
        r.error_message = None;
    } else {
        match schedule.recurrence {
            ScheduleRecurrence::Custom => {
                r.status = ScheduleStatus::Active;
                r.error_message = None;
            },
            _ => {
                match calculate_next_occurrence(schedule) {
                    Some(next_start) => {
                        if next_start <= schedule.end_time {
                            r.start_time = next_start;
                            r.status = ScheduleStatus::Pending;
                            r.error_message = None;
                        } else {
                            r.status = ScheduleStatus::Ended;
                            r.error_message = Some(
                                String::from_str("Next occurrence is after schedule end time"),
                            );
                        }
                    },
                    None => {
                        r.status = ScheduleStatus::Ended;
                        r.error_message = Some(
                            String::from_str("Cannot calculate next occurrence"),
                        );
                    },
                }
            },
        }
    }
    r
}

/// Execute a schedule: mark it active, rewrite menu-item availability from
/// its preset, and re-evaluate its timing. Fails with a message when the
/// referenced preset no longer exists; the schedule is then left marked
/// active so that the caller can record the failure on it.
#[verifier::loop_isolation(false)]
pub fn execute_schedule(storage: &mut JsonStorage, schedule: &MenuSchedule, now: i64) -> (r:
    Result<(), String>)
    requires
        first_index_with_id(
            schedule_ids(old(storage).schedules()),
            schedule.deep_view().id,
        ) < old(storage).schedules().len(),
    ensures
        ({
            let s = schedule.deep_view();
            let ps = old(storage).presets();
            let k = first_index_with_id(schedule_ids(old(storage).schedules()), s.id);
            &&& match preset_with_id(ps, s.preset_id) {
                None => {
                    &&& r is Err
                    &&& r->Err_0@ == missing_preset_message_spec(s.preset_id, s.id)
                    &&& final(storage).schedules() =~= old(storage).schedules().update(
                        k,
                        mark_active(s, now),
                    )
                    &&& final(storage).items() == old(storage).items()
                },
                Some(p) => {
                    &&& r is Ok
                    &&& final(storage).schedules() =~= old(storage).schedules().update(
                        k,
                        post_execution(s, now),
                    )
                    &&& final(storage).items() =~= apply_selection(
                        old(storage).items(),
                        p.menu_item_ids,
                    )
                },
            }
            &&& final(storage).presets() == ps
            &&& final(storage).notices_view() == old(storage).notices_view()
            &&& final(storage).users() == old(storage).users()
        }),
{
    let ghost s = schedule.deep_view();
    let ghost pre = old(storage).schedules();
    let ghost k = first_index_with_id(schedule_ids(pre), s.id);
    proof {
        crate::storage::lemma_first_index_props(schedule_ids(pre), s.id);
    }

    // Set status to Active during execution so that an interrupted pass is
    // diagnosable from the persisted state.
    let mut act = schedule.clone();
    act.status = ScheduleStatus::Active;
    act.updated_at = now;
    act.error_message = None;
    let _ = storage.update_menu_schedule(schedule.id, act);
    proof {
        assert(storage.schedules() =~= pre.update(k, mark_active(s, now)));
        assert(schedule_ids(storage.schedules()) =~= schedule_ids(pre));
    }

    // Look up the associated preset.
    let presets = storage.get_menu_presets();
    match find_menu_preset(&presets, schedule.preset_id) {
        None => Err(missing_preset_message(schedule.preset_id, schedule.id)),
        Some(preset) => {
            // Availability is rewritten wholesale: items in the preset come
            // up, every other item goes down.
            storage.apply_preset_selection(&preset.menu_item_ids);

            // Re-evaluate timing and recurrence.
            let fin = post_execution_build(schedule, now);
            let _ = storage.update_menu_schedule(schedule.id, fin);
            proof {
                assert(storage.schedules() =~= pre.update(k, post_execution(s, now)));
            }
            Ok(())
        },
    }
}

/// `apply_selection` only reads item ids, which it preserves, so a second
/// pass paints over the first.
pub proof fn lemma_apply_selection_absorbs(
    items: Seq<crate::storage::MenuItemV>,
    first: Seq<u128>,
    second: Seq<u128>,
)
    ensures
        apply_selection(apply_selection(items, first), second) =~= apply_selection(items, second),
{
    assert forall|j: int| 0 <= j < items.len() implies apply_selection(
        apply_selection(items, first),
        second,
    )[j] == apply_selection(items, second)[j] by {
        assert(apply_selection(items, first)[j].id == items[j].id);
    }
}

// ---------------------------------------------------------------------------
// One tick over the whole schedule collection
// ---------------------------------------------------------------------------

/// One evaluation step of a tick: decides and applies the transition of
/// snapshot schedule `i`, extending the claimed list when it executes.
#[verifier::rlimit(60)]
fn tick_step(
    storage: &mut JsonStorage,
    schedule: &MenuSchedule,
    claimed: &mut Vec<MenuSchedule>,
    now: i64,
    Ghost(ss): Ghost<Seq<MenuScheduleV>>,
    Ghost(ps): Ghost<Seq<MenuPresetV>>,
    Ghost(i): Ghost<int>,
    Ghost(items0): Ghost<Seq<crate::storage::MenuItemV>>,
)
    requires
        0 <= i < ss.len(),
        distinct_schedule_ids(ss),
        schedule.deep_view() == ss[i],
        old(storage).schedules().len() == ss.len(),
        forall|m: int| 0 <= m < i ==> old(storage).schedules()[m] == schedule_after(ss, ps, now, m),
        forall|m: int| i <= m < ss.len() ==> old(storage).schedules()[m] == ss[m],
        forall|m: int| 0 <= m < ss.len() ==> old(storage).schedules()[m].id == ss[m].id,
        old(claimed).deep_view() == claimed_upto(ss, ps, now, i),
        old(storage).items() == items_so_far(ss, ps, now, i, items0),
        old(storage).presets() == ps,
    ensures
        final(storage).schedules().len() == ss.len(),
        forall|m: int| 0 <= m < i + 1
            ==> final(storage).schedules()[m] == schedule_after(ss, ps, now, m),
        forall|m: int| i + 1 <= m < ss.len() ==> final(storage).schedules()[m] == ss[m],
        forall|m: int| 0 <= m < ss.len() ==> final(storage).schedules()[m].id == ss[m].id,
        final(claimed).deep_view() == claimed_upto(ss, ps, now, i + 1),
        final(storage).items() == items_so_far(ss, ps, now, i + 1, items0),
        final(storage).presets() == ps,
        final(storage).notices_view() == old(storage).notices_view(),
        final(storage).users() == old(storage).users(),
{
    let ghost pre = old(storage).schedules();
    proof {
        crate::storage::lemma_first_index_props(schedule_ids(pre), ss[i].id);
        assert(schedule_ids(pre)[i] == ss[i].id);
        assert forall|m: int| 0 <= m < i implies schedule_ids(pre)[m] != ss[i].id by {
            assert(ss[m].id != ss[i].id);
        }
        assert(first_index_with_id(schedule_ids(pre), ss[i].id) == i);
    }
    if schedule.status == ScheduleStatus::Pending && schedule.start_time <= now {
        match has_schedule_conflict(schedule, claimed) {
            Some(conflicting_schedule) => {
                // Blocked: record which schedule is in the way.
                let mut conflicted = schedule.clone();
                conflicted.status = ScheduleStatus::Conflicted;
                conflicted.error_message = Some(conflict_message(&conflicting_schedule));
                let _ = storage.update_menu_schedule(schedule.id, conflicted);
                proof {
                    assert(!executes(ss, ps, now, i));
                    assert(claimed_upto(ss, ps, now, i + 1) =~= claimed_upto(ss, ps, now, i));
                    assert(storage.schedules() =~= pre.update(i, schedule_after(ss, ps, now, i)));
                    lemma_ids_preserved_by_update(pre, ss, i, schedule_after(ss, ps, now, i));
                }
            },
            None => {
                let executed = execute_schedule(storage, schedule, now);
                match executed {
                    Ok(_) => {
                        claimed.push(schedule.clone());
                        proof {
                            assert(executes(ss, ps, now, i));
                            assert(last_executed(ss, ps, now, i + 1) == Some(i));
                            assert(storage.schedules() =~= pre.update(
                                i,
                                schedule_after(ss, ps, now, i),
                            ));
                            lemma_ids_preserved_by_update(pre, ss, i, schedule_after(ss, ps, now, i));
                            assert(claimed.deep_view() =~= claimed_upto(ss, ps, now, i + 1));
                            lemma_apply_selection_absorbs(
                                items0,
                                match last_executed(ss, ps, now, i) {
                                    None => Seq::empty(),
                                    Some(e) => preset_with_id(
                                        ps,
                                        ss[e].preset_id,
                                    )->Some_0.menu_item_ids,
                                },
                                preset_with_id(ps, ss[i].preset_id)->Some_0.menu_item_ids,
                            );
                        }
                    },
                    Err(message) => {
                        // The preset is gone: record the failure.
                        let ghost mid = storage.schedules();
                        let mut failed = schedule.clone();
                        failed.status = ScheduleStatus::Failed;
                        failed.error_message = Some(message);
                        let _ = storage.update_menu_schedule(schedule.id, failed);
                        proof {
                            assert(schedule_ids(mid) =~= schedule_ids(pre));
                            assert(first_index_with_id(schedule_ids(mid), ss[i].id) == i);
                            assert(!executes(ss, ps, now, i));
                            assert(claimed_upto(ss, ps, now, i + 1) =~= claimed_upto(
                                ss,
                                ps,
                                now,
                                i,
                            ));
                            assert(storage.schedules() =~= pre.update(
                                i,
                                schedule_after(ss, ps, now, i),
                            ));
                            lemma_ids_preserved_by_update(pre, ss, i, schedule_after(ss, ps, now, i));
                        }
                    },
                }
            },
        }
    } else if schedule.status == ScheduleStatus::Active && schedule.end_time <= now {
        // An active schedule whose window has elapsed ends.
        let mut ended = schedule.clone();
        ended.status = ScheduleStatus::Ended;
        ended.updated_at = now;
        ended.error_message = None;
        let _ = storage.update_menu_schedule(schedule.id, ended);
        proof {
            assert(!executes(ss, ps, now, i));
            assert(claimed_upto(ss, ps, now, i + 1) =~= claimed_upto(ss, ps, now, i));
            assert(storage.schedules() =~= pre.update(i, schedule_after(ss, ps, now, i)));
            lemma_ids_preserved_by_update(pre, ss, i, schedule_after(ss, ps, now, i));
        }
    } else {
        proof {
            assert(!executes(ss, ps, now, i));
            assert(claimed_upto(ss, ps, now, i + 1) =~= claimed_upto(ss, ps, now, i));
            assert(schedule_after(ss, ps, now, i) == ss[i]);
            assert(storage.schedules() =~= pre);
        }
    }
}

/// Replacing position `i` with a value of the same id leaves the id
/// sequence unchanged.
proof fn lemma_ids_preserved_by_update(
    pre: Seq<MenuScheduleV>,
    ss: Seq<MenuScheduleV>,
    i: int,
    v: MenuScheduleV,
)
    requires
        0 <= i < pre.len(),
        v.id == pre[i].id,
    ensures
        schedule_ids(pre.update(i, v)) =~= schedule_ids(pre),
{
}

/// The menu items after the first `i` snapshot schedules of a tick have
/// been evaluated.
pub open spec fn items_so_far(
    ss: Seq<MenuScheduleV>,
    ps: Seq<MenuPresetV>,
    now: i64,
    i: int,
    items0: Seq<crate::storage::MenuItemV>,
) -> Seq<crate::storage::MenuItemV> {
    match last_executed(ss, ps, now, i) {
        None => items0,
        Some(e) => apply_selection(
            items0,
            preset_with_id(ps, ss[e].preset_id)->Some_0.menu_item_ids,
        ),
    }
}

/// Check all schedules and execute any that are due.
///
/// One engine tick: every pending schedule whose start time has been reached
/// is executed, unless its time range overlaps the range of an active or
/// just-executed schedule, in which case it is marked `Conflicted`, or its
/// preset is gone, in which case it is marked `Failed`; every active
/// schedule whose end time has passed is marked `Ended`. A failure on one
/// schedule never stops the evaluation of the others.
#[verifier::loop_isolation(false)]
pub fn check_and_execute_schedules(storage: &mut JsonStorage, now: i64)
    requires
        distinct_schedule_ids(old(storage).schedules()),
    ensures
        ({
            let ss = old(storage).schedules();
            let ps = old(storage).presets();
            &&& final(storage).schedules() =~= Seq::new(
                ss.len(),
                |i: int| schedule_after(ss, ps, now, i),
            )
            &&& final(storage).items() =~= items_after(ss, ps, now, old(storage).items())
            &&& final(storage).presets() == ps
            &&& final(storage).notices_view() == old(storage).notices_view()
            &&& final(storage).users() == old(storage).users()
        }),
{
    let snapshot = storage.get_menu_schedules();
    let ghost ss = old(storage).schedules();
    let ghost ps = old(storage).presets();
    let ghost items0 = old(storage).items();
    let n = snapshot.len();

    // The claimed list starts as the schedules already active.
    let mut claimed: Vec<MenuSchedule> = Vec::new();
    let mut i: usize = 0;
    while i < n
        invariant
            i <= n,
            claimed.deep_view() =~= actives(ss.take(i as int)),
        decreases n - i,
    {
        proof {
            assert(ss.take(i + 1).drop_last() =~= ss.take(i as int));
            assert(ss.take(i + 1).last() == ss[i as int]);
        }
        if snapshot[i].status == ScheduleStatus::Active {
            claimed.push(snapshot[i].clone());
        }
        i = i + 1;
    }
    proof {
        assert(ss.take(n as int) =~= ss);
        assert(claimed.deep_view() =~= claimed_upto(ss, ps, now, 0));
    }

    let mut i: usize = 0;
    while i < n
        invariant
            i <= n,
            storage.schedules().len() == n,
            forall|m: int| 0 <= m < i
                ==> storage.schedules()[m] == schedule_after(ss, ps, now, m),
            forall|m: int| i <= m < n ==> storage.schedules()[m] == ss[m],
            forall|m: int| 0 <= m < n ==> storage.schedules()[m].id == ss[m].id,
            claimed.deep_view() == claimed_upto(ss, ps, now, i as int),
            storage.items() == items_so_far(ss, ps, now, i as int, items0),
            storage.presets() == ps,
            storage.notices_view() == old(storage).notices_view(),
            storage.users() == old(storage).users(),
        decreases n - i,
    {
        let schedule = &snapshot[i];
        tick_step(
            storage,
            schedule,
            &mut claimed,
            now,
            Ghost(ss),
            Ghost(ps),
            Ghost(i as int),
            Ghost(items0),
        );
        i = i + 1;
    }
    proof {
        assert(storage.schedules() =~= Seq::new(
            ss.len(),
            |m: int| schedule_after(ss, ps, now, m),
        ));
        assert(items_so_far(ss, ps, now, n as int, items0) == items_after(
            ss,
            ps,
            now,
            items0,
        ));
    }
}

// ---------------------------------------------------------------------------
// Laws of the engine
// ---------------------------------------------------------------------------

/// Once a schedule has executed, it stays in the claimed list of every later
/// evaluation step of the same tick.
proof fn lemma_claimed_contains_executed(
    ss: Seq<MenuScheduleV>,
    ps: Seq<MenuPresetV>,
    now: i64,
    i: int,
    j: int,
)
    requires
        0 <= i < j,
        executes(ss, ps, now, i),
    ensures
        claimed_upto(ss, ps, now, j).contains(ss[i]),
    decreases j,
{
    if j == i + 1 {
        let prefix = claimed_upto(ss, ps, now, i);
        assert(claimed_upto(ss, ps, now, j)[prefix.len() as int] == ss[i]);
    } else {
        lemma_claimed_contains_executed(ss, ps, now, i, j - 1);
        let prev = claimed_upto(ss, ps, now, j - 1);
        let w = choose|w: int| 0 <= w < prev.len() && prev[w] == ss[i];
        assert(claimed_upto(ss, ps, now, j)[w] == ss[i]);
    }
}

/// Where some entry of `others` is a real conflict for `s`, the conflict
/// search reports one.
proof fn lemma_conflict_found(s: MenuScheduleV, others: Seq<MenuScheduleV>, idx: int)
    requires
        0 <= idx < others.len(),
        others[idx].id != s.id,
        schedules_overlap(s, others[idx]),
    ensures
        conflict_in(s, others) is Some,
    decreases others.len(),
{
    if others[0].id != s.id && schedules_overlap(s, others[0]) {
    } else {
        assert(others.drop_first()[idx - 1] == others[idx]);
        lemma_conflict_found(s, others.drop_first(), idx - 1);
    }
}

/// Two overlapping schedules that are both due in the same tick never both
/// execute: at most one proceeds, the later of the two is marked
/// `Conflicted` when the earlier executes, and the two are never both left
/// `Active`.
pub proof fn lemma_overlapping_due_schedules_exclude(
    ss: Seq<MenuScheduleV>,
    ps: Seq<MenuPresetV>,
    now: i64,
    i: int,
    j: int,
)
    requires
        0 <= i < ss.len(),
        0 <= j < ss.len(),
        i != j,
        ss[i].id != ss[j].id,
        ss[i].status is Pending,
        ss[j].status is Pending,
        schedule_due(ss[i], now),
        schedule_due(ss[j], now),
        schedules_overlap(ss[i], ss[j]),
    ensures
        !(executes(ss, ps, now, i) && executes(ss, ps, now, j)),
        i < j && executes(ss, ps, now, i) ==> schedule_after(
            ss,
            ps,
            now,
            j,
        ).status is Conflicted,
        !(schedule_after(ss, ps, now, i).status is Active && schedule_after(
            ss,
            ps,
            now,
            j,
        ).status is Active),
{
    if executes(ss, ps, now, i) && i < j {
        lemma_claimed_contains_executed(ss, ps, now, i, j);
        let cl = claimed_upto(ss, ps, now, j);
        let w = choose|w: int| 0 <= w < cl.len() && cl[w] == ss[i];
        assert(schedules_overlap(ss[j], ss[i]));
        lemma_conflict_found(ss[j], cl, w);
        assert(schedule_after(ss, ps, now, j).status is Conflicted);
    }
    if executes(ss, ps, now, j) && j < i {
        lemma_claimed_contains_executed(ss, ps, now, j, i);
        let cl = claimed_upto(ss, ps, now, i);
        let w = choose|w: int| 0 <= w < cl.len() && cl[w] == ss[j];
        assert(schedules_overlap(ss[i], ss[j]));
        lemma_conflict_found(ss[i], cl, w);
    }
}

/// Re-running an execution pass with an unchanged preset reproduces the
/// same availability assignment: items the preset selects are available,
/// every other item is not.
pub proof fn lemma_execution_pass_idempotent(
    items: Seq<crate::storage::MenuItemV>,
    selected: Seq<u128>,
)
    ensures
        apply_selection(apply_selection(items, selected), selected) =~= apply_selection(
            items,
            selected,
        ),
{
    lemma_apply_selection_absorbs(items, selected, selected);
}

/// A daily schedule that executes with its window still open and room for
/// one more day re-arms: its start time advances by exactly one day and its
/// status returns to `Pending`.
pub proof fn lemma_daily_schedule_rearms(
    ss: Seq<MenuScheduleV>,
    ps: Seq<MenuPresetV>,
    now: i64,
    i: int,
)
    requires
        0 <= i < ss.len(),
        executes(ss, ps, now, i),
        ss[i].recurrence is Daily,
        ss[i].end_time > now,
        ss[i].start_time + SECONDS_PER_DAY <= ss[i].end_time,
    ensures
        schedule_after(ss, ps, now, i).status is Pending,
        schedule_after(ss, ps, now, i).start_time == ss[i].start_time + SECONDS_PER_DAY,
        schedule_after(ss, ps, now, i).error_message is None,
{
}

/// A schedule whose end time has been reached is never left `Active` by a
/// tick: an active one ends, and one that executes on the boundary ends
/// with the same pass.
pub proof fn lemma_elapsed_schedule_never_active(
    ss: Seq<MenuScheduleV>,
    ps: Seq<MenuPresetV>,
    now: i64,
    i: int,
)
    requires
        0 <= i < ss.len(),
        ss[i].start_time < ss[i].end_time,
        ss[i].end_time <= now,
    ensures
        !(schedule_after(ss, ps, now, i).status is Active),
        ss[i].status is Active ==> schedule_after(ss, ps, now, i).status is Ended,
        executes(ss, ps, now, i) ==> schedule_after(ss, ps, now, i).status is Ended,
{
}

} // verus!