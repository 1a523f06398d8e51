use azkar_core::state::all_ids_unique;
use azkar_core::ReminderItem;
use azkar_core::SchedulerState;

fn item(id: &str, text: &str) -> ReminderItem {
    ReminderItem { id: String::from(id), text: String::from(text) }
}

fn base_state(items: Vec<ReminderItem>) -> SchedulerState {
    SchedulerState {
        items,
        interval_seconds: 60,
        daily_count: 0,
        last_reset_date: String::from("2024-01-01"),
        last_notification_time: 0,
        is_paused: false,
        last_shown_item_id: None,
    }
}

#[test]
fn default_state_has_six_items_and_interval() {
    let s = SchedulerState::default_state(String::from("2024-03-05"));
    assert_eq!(s.items.len(), 6);
    assert_eq!(s.interval_seconds, 60);
    assert_eq!(s.daily_count, 0);
    assert_eq!(s.last_reset_date, "2024-03-05");
    assert_eq!(s.last_notification_time, 0);
    assert!(!s.is_paused);
    assert!(s.last_shown_item_id.is_none());
    let ids: Vec<&str> = s.items.iter().map(|z| z.id.as_str()).collect();
    assert_eq!(ids, vec!["1", "2", "3", "4", "5", "6"]);
    assert_eq!(s.items[0].text, "سبحان الله");
}

#[test]
fn ids_stay_unique_and_ordered_through_edits() {
    let mut s = base_state(Vec::new());
    assert!(s.add_item_with_id(String::from("a"), String::from("one")));
    assert!(s.add_item_with_id(String::from("b"), String::from("two")));
    assert!(s.add_item_with_id(String::from("c"), String::from("three")));
    // a duplicate id is refused
    assert!(!s.add_item_with_id(String::from("b"), String::from("again")));
    assert!(all_ids_unique(&s.items));
    s.remove_item(&String::from("b"));
    let ids: Vec<&str> = s.items.iter().map(|z| z.id.as_str()).collect();
    assert_eq!(ids, vec!["a", "c"]);
    s.update_item(&String::from("c"), String::from("replaced"));
    assert_eq!(s.items[1].text, "replaced");
    assert_eq!(s.items[0].text, "one");
    assert!(all_ids_unique(&s.items));
    // generated ids stay unique too
    assert!(s.add_item(String::from("gen one")));
    assert!(s.add_item(String::from("gen two")));
    assert!(all_ids_unique(&s.items));
    assert_eq!(s.items.len(), 4);
    assert_eq!(s.items[2].text, "gen one");
    assert_eq!(s.items[3].text, "gen two");
}

#[test]
fn remove_of_missing_id_is_a_no_op() {
    let mut s = base_state(vec![item("a", "one")]);
    s.remove_item(&String::from("zzz"));
    assert_eq!(s.items.len(), 1);
    s.update_item(&String::from("zzz"), String::from("nothing"));
    assert_eq!(s.items[0].text, "one");
}

#[test]
fn removing_last_shown_item_still_fires() {
    let mut s = base_state(vec![item("a", "one"), item("b", "two")]);
    s.last_shown_item_id = Some(String::from("a"));
    s.remove_item(&String::from("a"));
    // the back-reference dangles; the next due tick must still fire
    assert_eq!(s.last_shown_item_id.as_deref(), Some("a"));
    let fired = s.tick(1000, &String::from("2024-01-01"));
    let fired = fired.expect("a due tick on a non-empty state fires");
    assert_eq!(fired.id, "b");
    assert_eq!(s.last_shown_item_id.as_deref(), Some("b"));
}

#[test]
fn two_items_never_repeat_consecutively() {
    let mut s = base_state(vec![item("a", "one"), item("b", "two")]);
    let today = String::from("2024-01-01");
    let mut now: u64 = 100;
    let mut last_id: Option<String> = None;
    for _ in 0..20 {
        let fired = s.tick(now, &today).expect("due tick fires");
        if let Some(prev) = &last_id {
            assert_ne!(&fired.id, prev);
        }
        last_id = Some(fired.id.clone());
        now += s.interval_seconds;
    }
}

#[test]
fn single_item_always_fires_that_item() {
    let mut s = base_state(vec![item("only", "the one")]);
    let today = String::from("2024-01-01");
    let mut now: u64 = 100;
    for _ in 0..5 {
        let fired = s.tick(now, &today).expect("due tick fires");
        assert_eq!(fired.id, "only");
        assert_eq!(fired.text, "the one");
        now += 60;
    }
}

#[test]
fn day_boundary_resets_daily_count_exactly_once() {
    let mut s = base_state(vec![item("a", "one")]);
    s.daily_count = 7;
    s.last_notification_time = 1_000_000;
    let today = String::from("2024-01-02");
    // not due: only the reset happens
    let fired = s.tick(1_000_010, &today);
    assert!(fired.is_none());
    assert_eq!(s.daily_count, 0);
    assert_eq!(s.last_reset_date, "2024-01-02");
    // a second tick on the same day does not reset again after counting
    let fired = s.tick(1_000_060, &today);
    assert!(fired.is_some());
    assert_eq!(s.daily_count, 1);
    let fired = s.tick(1_000_070, &today);
    assert!(fired.is_none());
    assert_eq!(s.daily_count, 1);
}

#[test]
fn day_boundary_resets_even_while_paused() {
    let mut s = base_state(vec![item("a", "one")]);
    s.daily_count = 9;
    s.is_paused = true;
    let fired = s.tick(10_000, &String::from("2024-01-03"));
    assert!(fired.is_none());
    assert_eq!(s.daily_count, 0);
    assert_eq!(s.last_reset_date, "2024-01-03");
}

#[test]
fn snapshots_are_identical_without_mutation() {
    let mut s = base_state(vec![item("a", "one"), item("b", "two")]);
    s.last_shown_item_id = Some(String::from("a"));
    s.daily_count = 3;
    let one = s.snapshot();
    let two = s.snapshot();
    assert_eq!(one.items.len(), two.items.len());
    for (x, y) in one.items.iter().zip(two.items.iter()) {
        assert_eq!(x.id, y.id);
        assert_eq!(x.text, y.text);
    }
    assert_eq!(one.interval_seconds, two.interval_seconds);
    assert_eq!(one.daily_count, two.daily_count);
    assert_eq!(one.last_reset_date, two.last_reset_date);
    assert_eq!(one.last_notification_time, two.last_notification_time);
    assert_eq!(one.is_paused, two.is_paused);
    assert_eq!(one.last_shown_item_id, two.last_shown_item_id);
}

#[test]
fn pause_freezes_counters_and_reference() {
    let mut s = base_state(vec![item("a", "one"), item("b", "two")]);
    s.is_paused = true;
    s.daily_count = 2;
    s.last_notification_time = 50;
    s.last_shown_item_id = Some(String::from("a"));
    for now in [200u64, 500, 100_000] {
        let fired = s.tick(now, &String::from("2024-01-01"));
        assert!(fired.is_none());
        assert_eq!(s.daily_count, 2);
        assert_eq!(s.last_notification_time, 50);
        assert_eq!(s.last_shown_item_id.as_deref(), Some("a"));
    }
}

#[test]
fn toggle_pause_flips_and_resumes() {
    let mut s = base_state(vec![item("a", "one")]);
    s.toggle_pause();
    assert!(s.is_paused);
    assert!(s.tick(1000, &String::from("2024-01-01")).is_none());
    s.toggle_pause();
    assert!(!s.is_paused);
    assert!(s.tick(1000, &String::from("2024-01-01")).is_some());
}

#[test]
fn interval_scenario_thirty_then_sixty_one_seconds() {
    let t: u64 = 1000;
    let mut s = base_state(vec![item("a", "A"), item("b", "B")]);
    s.interval_seconds = 60;
    s.last_notification_time = t;
    let today = String::from("2024-01-01");
    let fired = s.tick(t + 30, &today);
    assert!(fired.is_none());
    assert_eq!(s.last_notification_time, t);
    assert_eq!(s.daily_count, 0);
    let fired = s.tick(t + 61, &today).expect("due after 61 seconds");
    assert!(fired.text == "A" || fired.text == "B");
    assert_eq!(s.last_notification_time, t + 61);
    assert_eq!(s.daily_count, 1);
}

#[test]
fn set_interval_clamps_zero_to_one() {
    let mut s = base_state(vec![item("a", "one")]);
    s.set_interval(0);
    assert_eq!(s.interval_seconds, 1);
    s.set_interval(900);
    assert_eq!(s.interval_seconds, 900);
}

#[test]
fn empty_list_never_fires() {
    let mut s = base_state(Vec::new());
    let fired = s.tick(100_000, &String::from("2024-01-01"));
    assert!(fired.is_none());
    assert_eq!(s.daily_count, 0);
}

#[test]
fn tick_now_runs_against_the_real_clock() {
    let mut s = base_state(vec![item("a", "one")]);
    s.last_notification_time = u64::MAX - 1;
    // far in the future: never due, whatever the clock says
    let fired = s.tick_now();
    assert!(fired.is_none());
    assert_eq!(s.items.len(), 1);
}
