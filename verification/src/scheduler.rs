//! The Notification Scheduler's decisions: given the event time and the
//! clock, whether the task sleeps (and for how long), fires its notification,
//! or is skipped because the event already lies in the past. The timed loop
//! itself runs outside; every decision it takes comes from here.

use vstd::prelude::*;

use crate::registry::ContactSet;

verus! {

/// What a scheduled-notification task does next.
#[derive(Debug, PartialEq, Eq)]
pub enum SchedulerStep {
    /// Sleep this many seconds, then look at the clock again.
    Sleep { delay: u64 },
    /// The target time has been reached: notify every known contact, then stop.
    Fire,
    /// The event was already in the past when the task started: send nothing.
    Skip,
}

/// Seconds left until the event fires.
pub open spec fn remaining_secs(event_time: int, now: int) -> int {
    event_time - now
}

/// The first decision of a scheduled task. An event whose time has already
/// passed is skipped outright — nothing is ever sent for it; otherwise the
/// task sleeps for half the remaining time.
pub fn initial_step(event_time: i64, now: i64) -> (s: SchedulerStep)
    requires
        i64::MIN <= event_time - now <= i64::MAX,
    ensures
        remaining_secs(event_time as int, now as int) <= 0 ==> s == SchedulerStep::Skip,
        remaining_secs(event_time as int, now as int) > 0 ==> s == (SchedulerStep::Sleep {
            delay: (remaining_secs(event_time as int, now as int) / 2) as u64,
        }),
{
    let remaining = event_time - now;
    if remaining <= 0 {
        SchedulerStep::Skip
    } else {
        SchedulerStep::Sleep { delay: (remaining as u64) / 2 }
    }
}

/// The decision after a wake-up. The task fires exactly when no time is
/// left; while time remains it sleeps for half of it, which never carries it
/// past the event time.
pub fn wake_step(event_time: i64, now: i64) -> (s: SchedulerStep)
    requires
        i64::MIN <= event_time - now <= i64::MAX,
    ensures
        remaining_secs(event_time as int, now as int) <= 0 ==> s == SchedulerStep::Fire,
        remaining_secs(event_time as int, now as int) > 0 ==> s == (SchedulerStep::Sleep {
            delay: (remaining_secs(event_time as int, now as int) / 2) as u64,
        }),
        s matches SchedulerStep::Sleep { delay } ==> now + delay < event_time,
{
    let remaining = event_time - now;
    if remaining <= 0 {
        SchedulerStep::Fire
    } else {
        SchedulerStep::Sleep { delay: (remaining as u64) / 2 }
    }
}

/// The text every scheduled notification carries.
pub open spec fn notification_text() -> Seq<char> {
    "notification !!"@
}

/// The outbound items one firing produces: the fixed notification text, once
/// for every identifier in the given registry snapshot, in snapshot order.
pub fn notification_items(contacts: &Vec<u64>) -> (items: Vec<(u64, String)>)
    ensures
        items@.len() == contacts@.len(),
        forall|i: int|
            0 <= i < items@.len() ==> (#[trigger] items@[i]).0 == contacts@[i] && items@[i].1@
                == notification_text(),
{
    let mut items: Vec<(u64, String)> = Vec::new();
    let mut k: usize = 0;
    while k < contacts.len()
        invariant
            k <= contacts@.len(),
            items@.len() == k,
            forall|i: int|
                0 <= i < k ==> (#[trigger] items@[i]).0 == contacts@[i] && items@[i].1@
                    == notification_text(),
        decreases contacts@.len() - k,
    {
        let text: String = "notification !!".to_owned();
        items.push((contacts[k], text));
        k = k + 1;
    }
    items
}

/// Fires one scheduled notification against a registry snapshot: one
/// outbound item per known contact.
pub fn fire(registry: &ContactSet) -> (items: Vec<(u64, String)>)
    requires
        registry.inv(),
    ensures
        items@.len() == registry@.len(),
        forall|i: int|
            0 <= i < items@.len() ==> registry@.contains(#[trigger] items@[i].0) && items@[i].1@
                == notification_text(),
{
    let contacts = registry.snapshot();
    let items = notification_items(&contacts);
    proof {
        assert forall|i: int| 0 <= i < items@.len() implies registry@.contains(
            #[trigger] items@[i].0,
        ) && items@[i].1@ == notification_text() by {
            assert(items@[i].0 == contacts@[i]);
            assert(contacts@.contains(contacts@[i]));
        }
    }
    items
}

/// While time remains, one sleep of the halving schedule never reaches the
/// event time: the task always wakes again before the event, so it can only
/// fire once no time is left.
pub proof fn lemma_sleep_stays_short_of_event(event_time: int, now: int)
    requires
        remaining_secs(event_time, now) > 0,
    ensures
        now + remaining_secs(event_time, now) / 2 < event_time,
{
}

} // verus!
