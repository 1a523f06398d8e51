//! The per-tick decision logic of the scheduler.
//!
//! A tick first applies the day-boundary reset, then decides whether a
//! notification is due, and if so selects an item at random, avoiding the
//! one shown last whenever any other is available.  The whole effect of a
//! tick is captured by the relation [`tick_rel`].

use vstd::prelude::*;
use crate::state::clone_item;
use crate::state::has_id;
use crate::state::ids_unique;
use crate::state::shown_view;
use crate::state::wf;
use crate::state::ReminderItem;
use crate::state::SchedulerState;

verus! {

/// The daily counter right after the day-boundary check: reset to zero when
/// the stored date differs from today, kept otherwise.
pub open spec fn day_reset_count(s: SchedulerState, today: Seq<char>) -> u64 {
    if s.last_reset_date@ != today {
        0
    } else {
        s.daily_count
    }
}

/// Whether enough time has elapsed since the last firing.
pub open spec fn due(s: SchedulerState, now: u64) -> bool {
    now >= s.last_notification_time + s.interval_seconds
}

/// Whether a tick at this time fires a notification: not paused, due, and
/// something to show.
pub open spec fn fires(s: SchedulerState, now: u64) -> bool {
    !s.is_paused && due(s, now) && s.items@.len() > 0
}

/// Whether some item escapes the anti-repeat exclusion: an item whose id
/// differs from the one shown last.  With no recorded last item every item
/// qualifies.
pub open spec fn candidate_exists(s: SchedulerState) -> bool {
    match shown_view(s) {
        None => s.items@.len() > 0,
        Some(x) => exists|i: int| 0 <= i < s.items@.len() && (#[trigger] s.items@[i]).id@ != x,
    }
}

/// Everything one tick does to the state, relating the state before, the
/// clock readings, the state after, and the item fired (if any).
pub open spec fn tick_rel(
    pre: SchedulerState,
    now: u64,
    today: Seq<char>,
    post: SchedulerState,
    fired: Option<ReminderItem>,
) -> bool {
    &&& post.items@ == pre.items@
    &&& post.interval_seconds == pre.interval_seconds
    &&& post.is_paused == pre.is_paused
    &&& post.last_reset_date@ == today
    &&& match fired {
        None => {
            &&& !fires(pre, now)
            &&& post.daily_count == day_reset_count(pre, today)
            &&& post.last_notification_time == pre.last_notification_time
            &&& shown_view(post) == shown_view(pre)
        },
        Some(z) => {
            &&& fires(pre, now)
            &&& exists|i: int| 0 <= i < pre.items@.len() && pre.items@[i] == z
            &&& (candidate_exists(pre) ==> match shown_view(pre) {
                Some(x) => z.id@ != x,
                None => true,
            })
            &&& shown_view(post) == Some(z.id@)
            &&& post.daily_count == if day_reset_count(pre, today) < u64::MAX {
                (day_reset_count(pre, today) + 1) as u64
            } else {
                u64::MAX
            }
            &&& post.last_notification_time == now
        },
    }
}

/// With at least two items and unique ids, two consecutive firings never
/// show the same item: the second tick fires an item whose id differs from
/// the first's.
pub proof fn lemma_no_consecutive_repeat(
    s0: SchedulerState,
    n1: u64,
    d1: Seq<char>,
    s1: SchedulerState,
    z1: ReminderItem,
    n2: u64,
    d2: Seq<char>,
    s2: SchedulerState,
    z2: ReminderItem,
)
    requires
        tick_rel(s0, n1, d1, s1, Some(z1)),
        tick_rel(s1, n2, d2, s2, Some(z2)),
        ids_unique(s1.items@),
        s1.items@.len() >= 2,
    ensures
        z2.id@ != z1.id@,
{
    let i0 = choose|i: int| 0 <= i < s0.items@.len() && s0.items@[i] == z1;
    assert(s1.items@[i0].id@ == z1.id@);
    let other: int = if i0 == 0 {
        1
    } else {
        0
    };
    assert(s1.items@[other].id@ != s1.items@[i0].id@);
    assert(candidate_exists(s1));
}

/// With exactly one item, a firing can only show that item.
pub proof fn lemma_single_item_always_chosen(
    s: SchedulerState,
    now: u64,
    today: Seq<char>,
    s2: SchedulerState,
    z: ReminderItem,
)
    requires
        tick_rel(s, now, today, s2, Some(z)),
        s.items@.len() == 1,
    ensures
        z == s.items@[0],
{
}

/// A dangling back-reference (the last shown item was removed) does not
/// block firing: a due tick on a non-empty, unpaused state still fires, and
/// what it fires is one of the remaining items.
pub proof fn lemma_dangling_reference_still_fires(
    s: SchedulerState,
    x: Seq<char>,
    now: u64,
    today: Seq<char>,
    s2: SchedulerState,
    fired: Option<ReminderItem>,
)
    requires
        tick_rel(s, now, today, s2, fired),
        shown_view(s) == Some(x),
        !has_id(s.items@, x),
        !s.is_paused,
        due(s, now),
        s.items@.len() > 0,
    ensures
        fired is Some,
        exists|i: int| 0 <= i < s.items@.len() && s.items@[i] == fired->Some_0,
{
    if fired is None {
        assert(!fires(s, now));
    }
}

/// Crossing a day boundary zeroes the daily counter exactly once: the first
/// tick of the new day resets it, and further ticks of the same day leave
/// it alone.
pub proof fn lemma_day_reset_once(
    s0: SchedulerState,
    n1: u64,
    n2: u64,
    today: Seq<char>,
    s1: SchedulerState,
    s2: SchedulerState,
)
    requires
        s0.last_reset_date@ != today,
        tick_rel(s0, n1, today, s1, None),
        tick_rel(s1, n2, today, s2, None),
    ensures
        s1.daily_count == 0,
        s1.last_reset_date@ == today,
        s2.daily_count == 0,
{
}

/// While paused, a tick never fires and never touches the counter (beyond
/// the day-boundary reset), the last notification time, or the
/// back-reference; the date of the last reset still follows today.
pub proof fn lemma_pause_freezes(
    s: SchedulerState,
    now: u64,
    today: Seq<char>,
    s2: SchedulerState,
    fired: Option<ReminderItem>,
)
    requires
        s.is_paused,
        tick_rel(s, now, today, s2, fired),
    ensures
        fired is None,
        s2.last_notification_time == s.last_notification_time,
        shown_view(s2) == shown_view(s),
        s2.daily_count == day_reset_count(s, today),
        s2.last_reset_date@ == today,
        s2.items@ == s.items@,
{
    if fired is Some {
        assert(fires(s, now));
    }
}

impl SchedulerState {
    /// One tick of the scheduler at the given clock readings: apply the
    /// day-boundary reset, and fire exactly when not paused, due, and
    /// non-empty, picking an item at random but never the one shown last
    /// while any other is available.  Returns a copy of the fired item.
    pub fn tick(&mut self, now: u64, today: &String) -> (fired: Option<ReminderItem>)
        requires
            wf(*old(self)),
        ensures
            wf(*final(self)),
            tick_rel(*old(self), now, today@, *final(self), fired),
            fired is Some <==> fires(*old(self), now),
    {
        if !(self.last_reset_date == *today) {
            self.daily_count = 0;
            self.last_reset_date = today.clone();
        }
        if self.is_paused {
            return None;
        }
        let is_due = match self.last_notification_time.checked_add(self.interval_seconds) {
            Some(t) => now >= t,
            None => false,
        };
        if !is_due {
            return None;
        }
        if self.items.len() == 0 {
            return None;
        }
        let idx: usize = match &self.last_shown_item_id {
            None => crate::rng::random_below(self.items.len()),
            Some(x) => {
                let mut cand: Vec<usize> = Vec::new();
                let mut i: usize = 0;
                while i < self.items.len()
                    invariant
                        i <= self.items@.len(),
                        forall|j: int|
                            0 <= j < cand@.len() ==> (#[trigger] cand@[j]) < i && self.items@[
                                cand@[j] as int
                            ].id@ != x@,
                        cand@.len() == 0 ==> forall|j: int|
                            0 <= j < i ==> (#[trigger] self.items@[j]).id@ == x@,
                    decreases self.items@.len() - i,
                {
                    if !(self.items[i].id == *x) {
                        cand.push(i);
                    }
                    i += 1;
                }
                if cand.len() > 0 {
                    let k = crate::rng::random_below(cand.len());
                    cand[k]
                } else {
                    proof {
                        assert(forall|j: int|
                            0 <= j < self.items@.len() ==> (#[trigger] self.items@[j]).id@ == x@);
                    }
                    crate::rng::random_below(self.items.len())
                }
            },
        };
        let chosen = clone_item(&self.items[idx]);
        self.daily_count = if self.daily_count < u64::MAX {
            self.daily_count + 1
        } else {
            u64::MAX
        };
        self.last_notification_time = now;
        self.last_shown_item_id = Some(chosen.id.clone());
        Some(chosen)
    }

    /// One tick at the current wall-clock time and local date, as the
    /// background loop performs it.  The clock readings come from the
    /// environment, so the contract holds for whatever they were.
    pub fn tick_now(&mut self) -> (fired: Option<ReminderItem>)
        requires
            wf(*old(self)),
        ensures
            wf(*final(self)),
            exists|now: u64, today: Seq<char>|
                tick_rel(*old(self), now, today, *final(self), fired),
    {
        let now = crate::clock::now_epoch_seconds();
        let today = crate::clock::today_string();
        let fired = self.tick(now, &today);
        proof {
            assert(tick_rel(*old(self), now, today@, *final(self), fired));
        }
        fired
    }
}

} // verus!
