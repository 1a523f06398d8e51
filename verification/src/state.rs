//! The persistent scheduler state and its mutation operations.
//!
//! `SchedulerState` is the single aggregate that the whole application
//! persists: the ordered list of reminder items, the firing interval, the
//! daily counter with its reset date, the time of the last firing, the pause
//! flag, and a non-owning back-reference to the last shown item.

use vstd::prelude::*;
use vstd::string::StringExecFns;

verus! {

/// The interval a fresh state starts with, in seconds.
pub const DEFAULT_INTERVAL_SECONDS: u64 = 60;

/// Ids and texts of the six built-in items of a fresh state.
pub open spec fn default_items_v() -> Seq<(Seq<char>, Seq<char>)> {
    seq![
        ("1"@, "سبحان الله"@),
        ("2"@, "الحمد لله"@),
        ("3"@, "الله أكبر"@),
        ("4"@, "لا إله إلا الله"@),
        ("5"@, "أستغفر الله"@),
        ("6"@, "لا حول ولا قوة إلا بالله"@),
    ]
}

/// One reminder entry: an opaque unique id and arbitrary user text.
pub struct ReminderItem {
    pub id: String,
    pub text: String,
}

/// The whole persisted aggregate.
pub struct SchedulerState {
    /// Ordered items, insertion order preserved; ids are unique.
    pub items: Vec<ReminderItem>,
    /// Minimum spacing between firings, in seconds; always at least 1.
    pub interval_seconds: u64,
    /// Notifications fired since the last day boundary.
    pub daily_count: u64,
    /// Local calendar date (as a string) of the last daily-count reset.
    pub last_reset_date: String,
    /// Epoch seconds of the most recent firing; 0 means "never fired".
    pub last_notification_time: u64,
    /// While true, ticks never fire (day-boundary reset still happens).
    pub is_paused: bool,
    /// Id of the most recently shown item, used only to avoid repeats.
    /// May dangle after a removal; that only disables the exclusion.
    pub last_shown_item_id: Option<String>,
}

/// The items as plain (id, text) character-sequence pairs.
pub open spec fn item_pairs(items: Seq<ReminderItem>) -> Seq<(Seq<char>, Seq<char>)> {
    items.map(|i: int, z: ReminderItem| (z.id@, z.text@))
}

/// No two items carry the same id.
pub open spec fn ids_unique(items: Seq<ReminderItem>) -> bool {
    forall|i: int, j: int|
        0 <= i < items.len() && 0 <= j < items.len() && i != j ==> items[i].id@ != items[j].id@
}

/// Some item carries the given id.
pub open spec fn has_id(items: Seq<ReminderItem>, id: Seq<char>) -> bool {
    exists|i: int| 0 <= i < items.len() && items[i].id@ == id
}

/// The back-reference as a character sequence, if any.
pub open spec fn shown_view(s: SchedulerState) -> Option<Seq<char>> {
    match s.last_shown_item_id {
        Some(id) => Some(id@),
        None => None,
    }
}

/// Well-formedness invariant: unique ids and a positive interval.
pub open spec fn wf(s: SchedulerState) -> bool {
    ids_unique(s.items@) && s.interval_seconds >= 1
}

/// The items that do not carry the given id, in their original order.
pub open spec fn keep_others(items: Seq<ReminderItem>, id: Seq<char>) -> Seq<ReminderItem>
    decreases items.len(),
{
    if items.len() == 0 {
        Seq::empty()
    } else {
        let rest = keep_others(items.drop_last(), id);
        if items.last().id@ == id {
            rest
        } else {
            rest.push(items.last())
        }
    }
}

/// What survives a removal: no survivor carries the removed id, every
/// survivor is one of the original items, and unique ids stay unique.
pub proof fn lemma_keep_others_props(items: Seq<ReminderItem>, id: Seq<char>)
    ensures
        keep_others(items, id).len() <= items.len(),
        forall|a: int|
            0 <= a < keep_others(items, id).len() ==> (#[trigger] keep_others(items, id)[a]).id@
                != id,
        forall|a: int|
            0 <= a < keep_others(items, id).len() ==> exists|j: int|
                0 <= j < items.len() && #[trigger] keep_others(items, id)[a] == items[j],
        ids_unique(items) ==> ids_unique(keep_others(items, id)),
    decreases items.len(),
{
    if items.len() == 0 {
    } else {
        let pre = items.drop_last();
        let z = items.last();
        lemma_keep_others_props(pre, id);
        let ko_pre = keep_others(pre, id);
        let ko = keep_others(items, id);
        assert forall|a: int|
            0 <= a < ko.len() implies exists|j: int|
            0 <= j < items.len() && #[trigger] ko[a] == items[j] by {
            if a < ko_pre.len() {
                let j = choose|j: int| 0 <= j < pre.len() && ko_pre[a] == pre[j];
                assert(items[j] == pre[j]);
                assert(0 <= j < items.len() && ko[a] == items[j]);
            } else {
                assert(ko[a] == z);
                assert(ko[a] == items[items.len() - 1]);
            }
        }
        if ids_unique(items) {
            assert(ids_unique(pre));
            assert forall|a: int, b: int|
                0 <= a < ko.len() && 0 <= b < ko.len() && a != b implies ko[a].id@ != ko[b].id@ by {
                let ja = choose|j: int| 0 <= j < items.len() && ko[a] == items[j];
                if a < ko_pre.len() && b < ko_pre.len() {
                    assert(ko_pre[a].id@ != ko_pre[b].id@);
                } else {
                    let small = if a < b { a } else { b };
                    let big = if a < b { b } else { a };
                    assert(big == ko.len() - 1 && ko.len() == ko_pre.len() + 1);
                    assert(ko[big] == z);
                    let j = choose|j: int| 0 <= j < pre.len() && ko_pre[small] == pre[j];
                    assert(items[j] == pre[j]);
                    assert(items[j].id@ != items[items.len() - 1].id@);
                }
            }
        }
    }
}

/// A field-by-field copy of an item.
pub fn clone_item(z: &ReminderItem) -> (r: ReminderItem)
    ensures
        r == *z,
{
    ReminderItem { id: z.id.clone(), text: z.text.clone() }
}

/// A field-by-field copy of an item sequence.
pub fn clone_items(items: &Vec<ReminderItem>) -> (r: Vec<ReminderItem>)
    ensures
        r@ == items@,
{
    let mut v: Vec<ReminderItem> = Vec::new();
    let mut i: usize = 0;
    while i < items.len()
        invariant
            i <= items@.len(),
            v@.len() == i,
            forall|j: int| 0 <= j < i ==> v@[j] == items@[j],
        decreases items@.len() - i,
    {
        v.push(clone_item(&items[i]));
        i += 1;
    }
    proof {
        assert(v@ =~= items@);
    }
    v
}

/// Whether every id is distinct, checked pair by pair.
pub fn all_ids_unique(items: &Vec<ReminderItem>) -> (r: bool)
    ensures
        r == ids_unique(items@),
{
    if items.len() <= 1 {
        return true;
    }
    let mut a: usize = 1;
    while a < items.len()
        invariant
            1 <= a <= items@.len(),
            forall|x: int, y: int|
                0 <= x < a && 0 <= y < a && x != y ==> items@[x].id@ != items@[y].id@,
        decreases items@.len() - a,
    {
        let mut c: usize = 0;
        while c < a
            invariant
                c <= a < items@.len(),
                forall|x: int, y: int|
                    0 <= x < a && 0 <= y < a && x != y ==> items@[x].id@ != items@[y].id@,
                forall|y: int| 0 <= y < c ==> items@[y].id@ != items@[a as int].id@,
            decreases a - c,
        {
            if items[c].id == items[a].id {
                return false;
            }
            c += 1;
        }
        a += 1;
        proof {
            assert forall|x: int, y: int|
                0 <= x < a && 0 <= y < a && x != y implies items@[x].id@ != items@[y].id@ by {
                if x == a - 1 {
                    assert(items@[y].id@ != items@[a - 1].id@);
                } else if y == a - 1 {
                    assert(items@[x].id@ != items@[a - 1].id@);
                }
            }
        }
    }
    true
}

/// The six built-in items of a fresh state.
pub fn default_items() -> (v: Vec<ReminderItem>)
    ensures
        item_pairs(v@) == default_items_v(),
        ids_unique(v@),
{
    let mut items: Vec<ReminderItem> = Vec::new();
    items.push(ReminderItem { id: String::from_str("1"), text: String::from_str("سبحان الله") });
    items.push(ReminderItem { id: String::from_str("2"), text: String::from_str("الحمد لله") });
    items.push(ReminderItem { id: String::from_str("3"), text: String::from_str("الله أكبر") });
    items.push(
        ReminderItem { id: String::from_str("4"), text: String::from_str("لا إله إلا الله") },
    );
    items.push(
        ReminderItem { id: String::from_str("5"), text: String::from_str("أستغفر الله") },
    );
    items.push(
        ReminderItem {
            id: String::from_str("6"),
            text: String::from_str("لا حول ولا قوة إلا بالله"),
        },
    );
    proof {
        reveal_strlit("1");
        reveal_strlit("2");
        reveal_strlit("3");
        reveal_strlit("4");
        reveal_strlit("5");
        reveal_strlit("6");
        assert(items@.len() == 6);
        assert(items@[0].id@ == "1"@ && items@[1].id@ == "2"@ && items@[2].id@ == "3"@
            && items@[3].id@ == "4"@ && items@[4].id@ == "5"@ && items@[5].id@ == "6"@);
        assert(("1"@)[0] == '1' && ("2"@)[0] == '2' && ("3"@)[0] == '3' && ("4"@)[0] == '4'
            && ("5"@)[0] == '5' && ("6"@)[0] == '6');
        assert(ids_unique(items@));
        assert(item_pairs(items@) =~= default_items_v());
    }
    items
}

impl SchedulerState {
    /// A snapshot copy: an independent state that equals this one.
    pub fn snapshot(&self) -> (r: SchedulerState)
        ensures
            r.items@ == self.items@,
            r.interval_seconds == self.interval_seconds,
            r.daily_count == self.daily_count,
            r.last_reset_date == self.last_reset_date,
            r.last_notification_time == self.last_notification_time,
            r.is_paused == self.is_paused,
            r.last_shown_item_id == self.last_shown_item_id,
    {
        let shown: Option<String> = match &self.last_shown_item_id {
            Some(id) => Some(id.clone()),
            None => None,
        };
        SchedulerState {
            items: clone_items(&self.items),
            interval_seconds: self.interval_seconds,
            daily_count: self.daily_count,
            last_reset_date: self.last_reset_date.clone(),
            last_notification_time: self.last_notification_time,
            is_paused: self.is_paused,
            last_shown_item_id: shown,
        }
    }

    /// True when some item carries this id.
    pub fn contains_id(&self, id: &String) -> (r: bool)
        ensures
            r == has_id(self.items@, id@),
    {
        let mut i: usize = 0;
        while i < self.items.len()
            invariant
                i <= self.items@.len(),
                forall|j: int| 0 <= j < i ==> self.items@[j].id@ != id@,
            decreases self.items@.len() - i,
        {
            if self.items[i].id == *id {
                proof {
                    assert(0 <= i < self.items@.len() && self.items@[i as int].id@ == id@);
                }
                return true;
            }
            i += 1;
        }
        false
    }

    /// Append an item with the given id, unless that id is already taken.
    /// Returns whether the item was appended.
    pub fn add_item_with_id(&mut self, id: String, text: String) -> (added: bool)
        requires
            wf(*old(self)),
        ensures
            wf(*final(self)),
            added == !has_id(old(self).items@, id@),
            added ==> final(self).items@ == old(self).items@.push(
                (ReminderItem { id, text }),
            ),
            !added ==> final(self).items@ == old(self).items@,
            final(self).interval_seconds == old(self).interval_seconds,
            final(self).daily_count == old(self).daily_count,
            final(self).last_reset_date == old(self).last_reset_date,
            final(self).last_notification_time == old(self).last_notification_time,
            final(self).is_paused == old(self).is_paused,
            final(self).last_shown_item_id == old(self).last_shown_item_id,
    {
        if self.contains_id(&id) {
            false
        } else {
            proof {
                let items0 = self.items@;
                let z = (ReminderItem { id, text });
                assert forall|i: int, j: int|
                    0 <= i < items0.push(z).len() && 0 <= j < items0.push(z).len() && i
                        != j implies items0.push(z)[i].id@ != items0.push(z)[j].id@ by {
                    if i < items0.len() && j < items0.len() {
                        assert(items0[i].id@ != items0[j].id@);
                    } else if i == items0.len() {
                        assert(items0[j].id@ != id@);
                    } else {
                        assert(items0[i].id@ != id@);
                    }
                }
            }
            self.items.push(ReminderItem { id, text });
            true
        }
    }

    /// Remove every item carrying this id (at most one, by the invariant);
    /// a no-op when no item matches.  The back-reference to the last shown
    /// item is left alone even when it referred to the removed item.
    pub fn remove_item(&mut self, id: &String)
        requires
            wf(*old(self)),
        ensures
            wf(*final(self)),
            final(self).items@ == keep_others(old(self).items@, id@),
            final(self).interval_seconds == old(self).interval_seconds,
            final(self).daily_count == old(self).daily_count,
            final(self).last_reset_date == old(self).last_reset_date,
            final(self).last_notification_time == old(self).last_notification_time,
            final(self).is_paused == old(self).is_paused,
            final(self).last_shown_item_id == old(self).last_shown_item_id,
    {
        let mut kept: Vec<ReminderItem> = Vec::new();
        let mut i: usize = 0;
        proof {
            assert(self.items@.subrange(0, 0) =~= Seq::<ReminderItem>::empty());
        }
        while i < self.items.len()
            invariant
                i <= self.items@.len(),
                kept@ == keep_others(self.items@.subrange(0, i as int), id@),
            decreases self.items@.len() - i,
        {
            let ghost pre = self.items@.subrange(0, i as int);
            let keep = !(self.items[i].id == *id);
            if keep {
                kept.push(clone_item(&self.items[i]));
            }
            i += 1;
            proof {
                let cur = self.items@.subrange(0, i as int);
                assert(cur.drop_last() =~= pre);
                assert(cur.last() == self.items@[i - 1]);
                assert(keep_others(cur, id@) == if cur.last().id@ == id@ {
                    keep_others(pre, id@)
                } else {
                    keep_others(pre, id@).push(cur.last())
                });
            }
        }
        proof {
            assert(self.items@.subrange(0, self.items@.len() as int) =~= self.items@);
            lemma_keep_others_props(self.items@, id@);
        }
        self.items = kept;
    }

    /// Length in characters of the longest item id; zero without items, and
    /// otherwise attained by some item.
    fn max_id_chars(&self) -> (m: usize)
        ensures
            forall|j: int|
                0 <= j < self.items@.len() ==> (#[trigger] self.items@[j].id@).len() <= m,
            m == 0 || exists|j: int|
                0 <= j < self.items@.len() && (#[trigger] self.items@[j].id@).len() == m,
    {
        let mut m: usize = 0;
        let mut i: usize = 0;
        while i < self.items.len()
            invariant
                i <= self.items@.len(),
                forall|j: int| 0 <= j < i ==> (#[trigger] self.items@[j].id@).len() <= m,
                m == 0 || exists|j: int|
                    0 <= j < i && (#[trigger] self.items@[j].id@).len() == m,
            decreases self.items@.len() - i,
        {
            let l = self.items[i].id.as_str().unicode_len();
            if l > m {
                m = l;
                proof {
                    assert((self.items@[i as int].id@).len() == m);
                }
            }
            i += 1;
        }
        m
    }

    /// Append a new item holding the given text under a freshly generated
    /// unique id.  The id is a high-resolution clock reading rendered in
    /// decimal; should it collide with an existing id, it is extended with
    /// trailing zeros until it is longer than every existing id.  The only
    /// failure arm needs an existing id of the largest length a vector can
    /// have, which no real state reaches; it leaves the state unchanged.
    pub fn add_item(&mut self, text: String) -> (added: bool)
        requires
            wf(*old(self)),
        ensures
            wf(*final(self)),
            added ==> final(self).items@.len() == old(self).items@.len() + 1 && (forall|j: int|
                0 <= j < old(self).items@.len() ==> final(self).items@[j] == old(self).items@[j])
                && final(self).items@.last().text == text && !has_id(
                old(self).items@,
                final(self).items@.last().id@,
            ),
            !added ==> final(self).items@ == old(self).items@ && exists|j: int|
                0 <= j < old(self).items@.len() && (#[trigger] old(self).items@[j].id@).len()
                    == usize::MAX,
            final(self).interval_seconds == old(self).interval_seconds,
            final(self).daily_count == old(self).daily_count,
            final(self).last_reset_date == old(self).last_reset_date,
            final(self).last_notification_time == old(self).last_notification_time,
            final(self).is_paused == old(self).is_paused,
            final(self).last_shown_item_id == old(self).last_shown_item_id,
    {
        let stamp = crate::clock::stamp_nanos();
        let mut idc = crate::digits::u64_chars(stamp);
        let id0 = crate::chars::chars_to_string(&idc);
        if !self.contains_id(&id0) {
            let added = self.add_item_with_id(id0, text);
            return added;
        }
        let m = self.max_id_chars();
        if m == usize::MAX {
            proof {
                let j = choose|j: int|
                    0 <= j < self.items@.len() && (#[trigger] self.items@[j].id@).len() == m;
                assert((self.items@[j].id@).len() == usize::MAX);
            }
            return false;
        }
        while idc.len() <= m
            invariant
                m < usize::MAX,
            decreases m + 1 - idc@.len(),
        {
            idc.push('0');
        }
        let id1 = crate::chars::chars_to_string(&idc);
        proof {
            assert(id1@.len() > m);
            assert forall|j: int|
                0 <= j < self.items@.len() implies self.items@[j].id@ != id1@ by {
                assert((self.items@[j].id@).len() <= m);
            }
            assert(!has_id(self.items@, id1@));
        }
        let added = self.add_item_with_id(id1, text);
        added
    }

    /// Replace the text of the item carrying this id; a no-op when no item
    /// matches.
    pub fn update_item(&mut self, id: &String, text: String)
        requires
            wf(*old(self)),
        ensures
            wf(*final(self)),
            final(self).items@.len() == old(self).items@.len(),
            forall|j: int|
                0 <= j < old(self).items@.len() && old(self).items@[j].id@ != id@
                    ==> final(self).items@[j] == old(self).items@[j],
            forall|j: int|
                0 <= j < old(self).items@.len() && old(self).items@[j].id@ == id@
                    ==> final(self).items@[j].id == old(self).items@[j].id
                    && final(self).items@[j].text == text,
            final(self).interval_seconds == old(self).interval_seconds,
            final(self).daily_count == old(self).daily_count,
            final(self).last_reset_date == old(self).last_reset_date,
            final(self).last_notification_time == old(self).last_notification_time,
            final(self).is_paused == old(self).is_paused,
            final(self).last_shown_item_id == old(self).last_shown_item_id,
    {
        let mut i: usize = 0;
        while i < self.items.len()
            invariant
                wf(*self),
                i <= self.items@.len(),
                self.items@.len() == old(self).items@.len(),
                forall|j: int| 0 <= j < i ==> self.items@[j].id@ != id@,
                forall|j: int|
                    0 <= j < self.items@.len() ==> self.items@[j] == old(self).items@[j],
                self.interval_seconds == old(self).interval_seconds,
                self.daily_count == old(self).daily_count,
                self.last_reset_date == old(self).last_reset_date,
                self.last_notification_time == old(self).last_notification_time,
                self.is_paused == old(self).is_paused,
                self.last_shown_item_id == old(self).last_shown_item_id,
            decreases self.items@.len() - i,
        {
            if self.items[i].id == *id {
                let fresh_id = self.items[i].id.clone();
                self.items[i] = ReminderItem { id: fresh_id, text };
                return ;
            }
            i += 1;
        }
    }

    /// The documented fall-back state: the six built-in items, the default
    /// interval, counters at zero, not paused, nothing shown yet, and the
    /// given string as the date of the last daily reset.
    pub fn default_state(today: String) -> (s: SchedulerState)
        ensures
            wf(s),
            item_pairs(s.items@) == default_items_v(),
            s.interval_seconds == DEFAULT_INTERVAL_SECONDS,
            s.daily_count == 0,
            s.last_reset_date == today,
            s.last_notification_time == 0,
            !s.is_paused,
            s.last_shown_item_id is None,
    {
        SchedulerState {
            items: default_items(),
            interval_seconds: DEFAULT_INTERVAL_SECONDS,
            daily_count: 0,
            last_reset_date: today,
            last_notification_time: 0,
            is_paused: false,
            last_shown_item_id: None,
        }
    }

    /// Replace the interval, clamping to the minimum of 1 second.
    pub fn set_interval(&mut self, seconds: u64)
        requires
            wf(*old(self)),
        ensures
            wf(*final(self)),
            final(self).interval_seconds == if seconds >= 1 { seconds } else { 1u64 },
            final(self).items@ == old(self).items@,
            final(self).daily_count == old(self).daily_count,
            final(self).last_reset_date@ == old(self).last_reset_date@,
            final(self).last_notification_time == old(self).last_notification_time,
            final(self).is_paused == old(self).is_paused,
            shown_view(*final(self)) == shown_view(*old(self)),
    {
        self.interval_seconds = if seconds >= 1 { seconds } else { 1 };
    }

    /// Flip the pause flag.
    pub fn toggle_pause(&mut self)
        requires
            wf(*old(self)),
        ensures
            wf(*final(self)),
            final(self).is_paused == !old(self).is_paused,
            final(self).items@ == old(self).items@,
            final(self).interval_seconds == old(self).interval_seconds,
            final(self).daily_count == old(self).daily_count,
            final(self).last_reset_date@ == old(self).last_reset_date@,
            final(self).last_notification_time == old(self).last_notification_time,
            shown_view(*final(self)) == shown_view(*old(self)),
    {
        self.is_paused = !self.is_paused;
    }
}

} // verus!
