//! Regular decision slots and the boundaries of the trading day, in wall-clock time.

use vstd::prelude::*;

use crate::clock::{midnight, on_calendar, split_day};
use crate::util::{ceil_to, lemma_ceil_to, second_of_day};

verus! {

pub const FIRST_DECISION_HOUR: u32 = 9;

pub const FIRST_DECISION_MINUTE: u32 = 5;

pub const LAST_DECISION_HOUR: u32 = 15;

pub const LAST_DECISION_MINUTE: u32 = 5;

pub const FINAL_EXPIRY_HOUR: u32 = 15;

pub const FINAL_EXPIRY_MINUTE: u32 = 10;

pub const FLATTEN_HOUR: u32 = 15;

pub const FLATTEN_MINUTE: u32 = 15;

/// Distance between slots, in seconds.
pub const SLOT_SECONDS: i64 = 300;

/// Second of the day of an hour and minute.
pub open spec fn clock_second(hour: u32, minute: u32) -> int {
    hour * 3_600 + minute * 60
}

fn second_at(hour: u32, minute: u32) -> (second: i64)
    requires
        hour < 24,
        minute < 60,
    ensures
        second == clock_second(hour, minute),
        0 <= second < 86_400,
{
    hour as i64 * 3_600 + minute as i64 * 60
}

pub open spec fn first_slot(at: int) -> int {
    midnight(at) + clock_second(FIRST_DECISION_HOUR, FIRST_DECISION_MINUTE)
}

pub open spec fn last_slot(at: int) -> int {
    midnight(at) + clock_second(LAST_DECISION_HOUR, LAST_DECISION_MINUTE)
}

pub open spec fn same_day(a: int, b: int) -> bool {
    midnight(a) == midnight(b)
}

/// The first of the day's five-minute slots that is not before `now`, where the day has one left.
pub open spec fn slot_from(now: int) -> Option<i64> {
    if !on_calendar(now) || now > last_slot(now) {
        None
    } else if now <= first_slot(now) {
        Some(first_slot(now) as i64)
    } else {
        Some((midnight(now) + ceil_to(second_of_day(now), SLOT_SECONDS as int)) as i64)
    }
}

/// The next regular slot, which is `now` itself where `now` is one.
pub fn next_decision_slot(now_fake_epoch: i64) -> (slot: Option<i64>)
    ensures
        slot == slot_from(now_fake_epoch as int),
{
    let (day, second) = match split_day(now_fake_epoch) {
        Some(parts) => parts,
        None => return None,
    };
    let first: i64 = second_at(FIRST_DECISION_HOUR, FIRST_DECISION_MINUTE);
    let last: i64 = second_at(LAST_DECISION_HOUR, LAST_DECISION_MINUTE);
    if second <= first {
        return Some(day + first);
    }
    if second > last {
        return None;
    }
    let late: i64 = second % SLOT_SECONDS;
    proof {
        lemma_ceil_to(second as int, SLOT_SECONDS as int);
    }
    if late == 0 {
        Some(day + second)
    } else {
        Some(day + second + (SLOT_SECONDS - late))
    }
}

/// The slot five minutes later, where it is still one of the same day's.
pub open spec fn slot_after(slot: int) -> Option<i64> {
    if on_calendar(slot) && slot + SLOT_SECONDS <= last_slot(slot) {
        Some((slot + SLOT_SECONDS) as i64)
    } else {
        None
    }
}

/// The slot after a slot.
pub fn following_slot(slot_fake_epoch: i64) -> (slot: Option<i64>)
    ensures
        slot == slot_after(slot_fake_epoch as int),
{
    let (day, second) = match split_day(slot_fake_epoch) {
        Some(parts) => parts,
        None => return None,
    };
    if second + SLOT_SECONDS <= second_at(LAST_DECISION_HOUR, LAST_DECISION_MINUTE) {
        Some(slot_fake_epoch + SLOT_SECONDS)
    } else {
        None
    }
}

/// The slot at hand while it is of the same day and less than five minutes past, else the next one.
pub open spec fn recovered_slot(current: Option<i64>, now: int) -> Option<i64> {
    match current {
        Some(slot) => if !on_calendar(now) || !on_calendar(slot as int) {
            None
        } else if same_day(slot as int, now) && now < slot + SLOT_SECONDS {
            Some(slot)
        } else {
            slot_from(now)
        },
        None => slot_from(now),
    }
}

/// After sleep or a change of date, returns to the day's slots and replays none that has passed. A
/// slot that began less than five minutes ago is still taken.
pub fn recover_decision_slot(current: Option<i64>, now_fake_epoch: i64) -> (slot: Option<i64>)
    ensures
        slot == recovered_slot(current, now_fake_epoch as int),
{
    let (day, _) = match split_day(now_fake_epoch) {
        Some(parts) => parts,
        None => return None,
    };
    if let Some(slot) = current {
        match split_day(slot) {
            None => return None,
            Some((slot_day, _)) => {
                if slot_day == day && now_fake_epoch < slot + SLOT_SECONDS {
                    return Some(slot);
                }
            },
        }
    }
    next_decision_slot(now_fake_epoch)
}

/// The recovered slot, but never the last one used or one before it on the same day.
pub open spec fn unused_slot(current: Option<i64>, last: Option<i64>, now: int) -> Option<i64> {
    let recovered = recovered_slot(current, now);
    match last {
        Some(last) => if on_calendar(now) && on_calendar(last as int) && same_day(last as int, now)
            && !(recovered is Some && recovered->0 > last) {
            slot_after(last as int)
        } else {
            recovered
        },
        None => recovered,
    }
}

/// Restores the next slot from what was stored. A restart on a slot, or just after the day's last
/// one, does not return a slot that was used.
pub fn recover_persisted_decision_slot(
    current: Option<i64>,
    last_decision_slot: Option<i64>,
    now_fake_epoch: i64,
) -> (slot: Option<i64>)
    ensures
        slot == unused_slot(current, last_decision_slot, now_fake_epoch as int),
{
    let recovered = recover_decision_slot(current, now_fake_epoch);
    let last: i64 = match last_decision_slot {
        Some(last) => last,
        None => return recovered,
    };
    let day: i64 = match split_day(now_fake_epoch) {
        Some((day, _)) => day,
        None => return recovered,
    };
    let last_day: i64 = match split_day(last) {
        Some((day, _)) => day,
        None => return recovered,
    };
    if last_day != day {
        return recovered;
    }
    if let Some(slot) = recovered {
        if slot > last {
            return recovered;
        }
    }
    following_slot(last)
}

/// Five minutes after the slot, but no later than 15:10 of its day.
pub open spec fn expiry_of(slot: int) -> Option<i64> {
    let last = midnight(slot) + clock_second(FINAL_EXPIRY_HOUR, FINAL_EXPIRY_MINUTE);
    if !on_calendar(slot) {
        None
    } else if slot + SLOT_SECONDS <= last {
        Some((slot + SLOT_SECONDS) as i64)
    } else {
        Some(last as i64)
    }
}

/// When the scenarios of a slot expire.
pub fn scenario_expiry(slot_fake_epoch: i64) -> (at: Option<i64>)
    ensures
        at == expiry_of(slot_fake_epoch as int),
{
    let (day, second) = match split_day(slot_fake_epoch) {
        Some(parts) => parts,
        None => return None,
    };
    let last: i64 = second_at(FINAL_EXPIRY_HOUR, FINAL_EXPIRY_MINUTE);
    if second + SLOT_SECONDS <= last {
        Some(slot_fake_epoch + SLOT_SECONDS)
    } else {
        Some(day + last)
    }
}

/// 15:15 of the day of a time.
pub open spec fn flatten_of(at: int) -> Option<i64> {
    if on_calendar(at) {
        Some((midnight(at) + clock_second(FLATTEN_HOUR, FLATTEN_MINUTE)) as i64)
    } else {
        None
    }
}

/// When positions of the day are closed out.
pub fn flatten_at(now_fake_epoch: i64) -> (at: Option<i64>)
    ensures
        at == flatten_of(now_fake_epoch as int),
{
    match split_day(now_fake_epoch) {
        Some((day, _)) => Some(day + second_at(FLATTEN_HOUR, FLATTEN_MINUTE)),
        None => None,
    }
}

/// Whether 15:15 of today has come.
pub fn is_at_or_after_flatten(now_fake_epoch: i64) -> (yes: bool)
    ensures
        yes == (flatten_of(now_fake_epoch as int) is Some && now_fake_epoch >= flatten_of(
            now_fake_epoch as int,
        )->0),
{
    match flatten_at(now_fake_epoch) {
        Some(flatten) => now_fake_epoch >= flatten,
        None => false,
    }
}

/// Whether 15:15 of the day of the first fill has come.
///
/// The next morning lies before 15:15 of its own day. A position left over from the day before is
/// still past its close, so the first fill's day decides.
pub fn has_reached_position_flatten(first_fill_at: i64, now_fake_epoch: i64) -> (yes: bool)
    ensures
        yes == (flatten_of(first_fill_at as int) is Some && now_fake_epoch >= flatten_of(
            first_fill_at as int,
        )->0),
{
    match flatten_at(first_fill_at) {
        Some(flatten) => now_fake_epoch >= flatten,
        None => false,
    }
}

/// A slot lies on a whole five minutes of its day, between the first and the last.
pub open spec fn is_slot(slot: int) -> bool {
    &&& second_of_day(slot) % 300 == 0
    &&& clock_second(FIRST_DECISION_HOUR, FIRST_DECISION_MINUTE) <= second_of_day(slot)
    &&& second_of_day(slot) <= clock_second(LAST_DECISION_HOUR, LAST_DECISION_MINUTE)
}

/// The next slot is a slot of the same day, not before `now`, and no slot of that day comes between.
pub proof fn next_slot_is_the_nearest(now: int, other: int)
    requires
        slot_from(now) is Some,
    ensures
        is_slot(slot_from(now)->0 as int),
        same_day(slot_from(now)->0 as int, now),
        slot_from(now)->0 >= now,
        is_slot(other) && same_day(other, now) && other >= now ==> other >= slot_from(now)->0,
{
    lemma_ceil_to(second_of_day(now), SLOT_SECONDS as int);
}

/// A slot is the next one at its own time, and slots follow one another until the last.
pub proof fn slots_follow_each_other(slot: int)
    requires
        on_calendar(slot),
        is_slot(slot),
    ensures
        slot_from(slot) == Some(slot as i64),
        slot_after(slot) is Some <==> slot < last_slot(slot),
        slot_after(slot) is Some ==> is_slot(slot_after(slot)->0 as int) && slot_after(slot)->0
            == slot + 300 && slot_from(slot + 1) == slot_after(slot),
{
    let s = second_of_day(slot);
    lemma_ceil_to(s, 300);
    lemma_ceil_to(s + 1, 300);
    assert(second_of_day(slot + 1) == s + 1);
    assert(ceil_to(s + 1, 300) == s + 300);
    if s < 54_300 {
        assert(s + 300 <= 54_300);
        assert(second_of_day(slot + 300) == s + 300);
    }
}

/// Whatever was stored, a slot that was used is not returned again on its day.
pub proof fn used_slot_is_not_repeated(current: Option<i64>, last: i64, now: int)
    requires
        on_calendar(now),
        on_calendar(last as int),
        same_day(last as int, now),
        unused_slot(current, Some(last), now) is Some,
    ensures
        unused_slot(current, Some(last), now)->0 > last,
{
}

/// A slot's scenarios expire after it, no later than the next slot, and before positions are closed
/// out.
pub proof fn expiry_precedes_the_close(slot: int)
    requires
        on_calendar(slot),
        is_slot(slot),
    ensures
        expiry_of(slot) is Some,
        slot < expiry_of(slot)->0 <= slot + 300,
        expiry_of(slot)->0 < flatten_of(slot)->0,
        slot_after(slot) is Some ==> expiry_of(slot) == slot_after(slot),
{
}

proof fn lemma_within_day(day: int, second: int)
    requires
        day % 86_400 == 0,
        0 <= second < 86_400,
    ensures
        second_of_day(day + second) == second,
        midnight(day + second) == day,
{
}

/// The first decision of a day is due at five past nine, and none after five past three.
pub proof fn decisions_are_due_in_the_day(day: int, second: int)
    requires
        day % 86_400 == 0,
        0 <= second < 86_400,
        on_calendar(day + second),
    ensures
        second <= 9 * 3_600 + 5 * 60 ==> slot_from(day + second) == Some(
            (day + 9 * 3_600 + 5 * 60) as i64,
        ),
        second > 15 * 3_600 + 5 * 60 ==> slot_from(day + second) is None,
{
    lemma_within_day(day, second);
}

/// Between them a decision is due every five minutes, at a whole five minutes of the day.
pub proof fn decisions_are_due_every_five_minutes(day: int, second: int)
    requires
        day % 86_400 == 0,
        9 * 3_600 + 5 * 60 < second <= 15 * 3_600 + 5 * 60,
        on_calendar(day + second),
        on_calendar(day + 86_399),
    ensures
        slot_from(day + second) matches Some(slot) && (slot - day) % 300 == 0 && day + second <= slot
            < day + second + 300,
{
    lemma_within_day(day, second);
    lemma_ceil_to(second, 300);
    let into = ceil_to(second, 300);
    assert(slot_from(day + second) == Some((day + into) as i64));
    assert(into < second + 300 && into % 300 == 0);
}

/// A decision expires five minutes after its slot, ten past three at the latest, and positions are
/// closed out at a quarter past three of their own day.
pub proof fn day_ends_in_two_steps(day: int, second: int)
    requires
        day % 86_400 == 0,
        0 <= second < 86_400,
        on_calendar(day + second),
        on_calendar(day + 86_399),
    ensures
        second <= 15 * 3_600 + 5 * 60 ==> expiry_of(day + second) == Some((day + second + 300) as i64),
        second > 15 * 3_600 + 5 * 60 ==> expiry_of(day + second) == Some(
            (day + 15 * 3_600 + 10 * 60) as i64,
        ),
        flatten_of(day + second) == Some((day + 15 * 3_600 + 15 * 60) as i64),
{
    lemma_within_day(day, second);
}

/// A slot that was stored is still used within its five minutes, and the next one after them; on a
/// later day the stored one does not count.
pub proof fn stored_slot_is_used_in_time(slot: i64, now: int)
    requires
        on_calendar(now),
        on_calendar(slot as int),
    ensures
        same_day(slot as int, now) && now < slot + 300 ==> recovered_slot(Some(slot), now) == Some(
            slot,
        ),
        same_day(slot as int, now) && now >= slot + 300 ==> recovered_slot(Some(slot), now)
            == slot_from(now),
        !same_day(slot as int, now) ==> recovered_slot(Some(slot), now) == slot_from(now),
        recovered_slot(None, now) == slot_from(now),
        unused_slot(Some(slot), None, now) == recovered_slot(Some(slot), now),
{
}

} // verus!
