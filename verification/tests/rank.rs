use mossy::model::{Event, Task, User};
use mossy::store::Store;

const DAY: i64 = 86_400_000;

fn user(id: u64, token: &str, subject: &str) -> User {
    User {
        id,
        email: format!("u{}@example.com", id),
        apple_user_id: subject.to_string(),
        token: token.to_string(),
        is_admin: false,
        should_color_scheme_use_system: false,
        is_color_scheme_dark_mode: false,
        color_theme: 1,
    }
}

fn task(id: u64, name: &str, frequency: i32, owner: u64) -> Task {
    Task { id, name: name.to_string(), frequency, tags: None, user: Some(owner) }
}

/// The worked example: one task ten days stale against a seven-day
/// frequency, one three days stale.
fn example_store(now: i64) -> Store {
    Store {
        users: vec![user(1, "tok-a", "subj-a")],
        tasks: vec![task(10, "stale", 7, 1), task(11, "fresh", 7, 1)],
        events: vec![
            Event { id: 20, task: 10, date: now - 10 * DAY, user: Some(1) },
            Event { id: 21, task: 11, date: now - 3 * DAY, user: Some(1) },
        ],
        tags: vec![],
        next_id: 100,
    }
}

#[test]
fn moss_example_end_to_end() {
    let now: i64 = 1_700_000_000_000;
    let store = example_store(now);
    let page = store
        .read_tasks_action("Bearer tok-a", Some(2), Some(0), now)
        .unwrap();
    assert_eq!(page.len(), 2);
    assert_eq!(page[0].name, "stale");
    assert_eq!(page[0].moss, Some(3 * DAY as i128));
    assert_eq!(page[0].latest_event_date, Some(now - 10 * DAY));
    assert_eq!(page[1].name, "fresh");
    assert_eq!(page[1].moss, Some(-4 * DAY as i128));
    assert_eq!(page[1].latest_event_date, Some(now - 3 * DAY));
}

#[test]
fn task_without_events_ranks_last() {
    let now: i64 = 1_700_000_000_000;
    let mut store = example_store(now);
    store.tasks.push(task(12, "never done", 1, 1));
    let page = store
        .read_tasks_action("Bearer tok-a", Some(10), Some(0), now)
        .unwrap();
    assert_eq!(page.len(), 3);
    assert_eq!(page[2].name, "never done");
    assert_eq!(page[2].moss, None);
    assert_eq!(page[2].latest_event_date, None);
}

#[test]
fn equal_moss_breaks_ties_by_descending_id() {
    let now: i64 = 1_700_000_000_000;
    let store = Store {
        users: vec![user(1, "tok-a", "subj-a")],
        tasks: vec![task(10, "one", 7, 1), task(11, "two", 7, 1)],
        events: vec![
            Event { id: 20, task: 10, date: now - DAY, user: Some(1) },
            Event { id: 21, task: 11, date: now - DAY, user: Some(1) },
        ],
        tags: vec![],
        next_id: 100,
    };
    let page = store
        .read_tasks_action("Bearer tok-a", Some(10), Some(0), now)
        .unwrap();
    assert_eq!(page[0].id, 11);
    assert_eq!(page[1].id, 10);
}

#[test]
fn latest_event_wins_among_many() {
    let now: i64 = 1_700_000_000_000;
    let mut store = example_store(now);
    // An older event for the fresh task must not change its ranking.
    store.events.push(Event { id: 22, task: 11, date: now - 20 * DAY, user: Some(1) });
    let page = store
        .read_tasks_action("Bearer tok-a", Some(10), Some(0), now)
        .unwrap();
    assert_eq!(page[1].name, "fresh");
    assert_eq!(page[1].latest_event_date, Some(now - 3 * DAY));
}

#[test]
fn listing_is_deterministic_and_pages_concatenate() {
    let now: i64 = 1_700_000_000_000;
    let mut store = example_store(now);
    store.tasks.push(task(12, "third", 7, 1));
    store.events.push(Event { id: 22, task: 12, date: now - 5 * DAY, user: Some(1) });
    let once = store
        .read_tasks_action("Bearer tok-a", Some(3), Some(0), now)
        .unwrap();
    let twice = store
        .read_tasks_action("Bearer tok-a", Some(3), Some(0), now)
        .unwrap();
    assert_eq!(once.len(), twice.len());
    for (a, b) in once.iter().zip(twice.iter()) {
        assert_eq!(a.id, b.id);
        assert_eq!(a.moss, b.moss);
    }
    let p1 = store
        .read_tasks_action("Bearer tok-a", Some(1), Some(0), now)
        .unwrap();
    let p2 = store
        .read_tasks_action("Bearer tok-a", Some(1), Some(1), now)
        .unwrap();
    let p3 = store
        .read_tasks_action("Bearer tok-a", Some(1), Some(2), now)
        .unwrap();
    let ids: Vec<u64> = p1.iter().chain(p2.iter()).chain(p3.iter()).map(|t| t.id).collect();
    let whole: Vec<u64> = once.iter().map(|t| t.id).collect();
    assert_eq!(ids, whole);
}

#[test]
fn zero_limit_returns_nothing() {
    let now: i64 = 1_700_000_000_000;
    let store = example_store(now);
    let page = store
        .read_tasks_action("Bearer tok-a", Some(0), Some(0), now)
        .unwrap();
    assert_eq!(page.len(), 0);
    // A missing limit defaults to zero and so also returns nothing.
    let page = store.read_tasks_action("Bearer tok-a", None, None, now).unwrap();
    assert_eq!(page.len(), 0);
}

#[test]
fn offset_beyond_end_is_empty() {
    let now: i64 = 1_700_000_000_000;
    let store = example_store(now);
    let page = store
        .read_tasks_action("Bearer tok-a", Some(5), Some(10), now)
        .unwrap();
    assert_eq!(page.len(), 0);
}

#[test]
fn listing_sees_only_own_tasks() {
    let now: i64 = 1_700_000_000_000;
    let mut store = example_store(now);
    store.users.push(user(2, "tok-b", "subj-b"));
    store.tasks.push(task(12, "theirs", 7, 2));
    let page = store
        .read_tasks_action("Bearer tok-a", Some(10), Some(0), now)
        .unwrap();
    assert_eq!(page.len(), 2);
    let other = store
        .read_tasks_action("Bearer tok-b", Some(10), Some(0), now)
        .unwrap();
    assert_eq!(other.len(), 1);
    assert_eq!(other[0].name, "theirs");
}

#[test]
fn events_listing_newest_first_with_id_tiebreak() {
    let store = Store {
        users: vec![user(1, "tok-a", "subj-a")],
        tasks: vec![],
        events: vec![
            Event { id: 20, task: 10, date: 1000, user: Some(1) },
            Event { id: 21, task: 10, date: 3000, user: Some(1) },
            Event { id: 22, task: 10, date: 3000, user: Some(1) },
            Event { id: 23, task: 10, date: 2000, user: Some(2) },
        ],
        tags: vec![],
        next_id: 100,
    };
    // A zero limit on the plain listings means no limit.
    let page = store.read_events_action("Bearer tok-a", None, None).unwrap();
    let ids: Vec<u64> = page.iter().map(|e| e.id).collect();
    assert_eq!(ids, vec![22, 21, 20]);
    let skipped = store.read_events_action("Bearer tok-a", Some(1), Some(1)).unwrap();
    assert_eq!(skipped.len(), 1);
    assert_eq!(skipped[0].id, 21);
}

#[test]
fn events_string_listing_resolves_task_names() {
    let store = Store {
        users: vec![user(1, "tok-a", "subj-a")],
        tasks: vec![task(10, "water plants", 7, 1)],
        events: vec![
            Event { id: 20, task: 10, date: 2000, user: Some(1) },
            Event { id: 21, task: 999, date: 1000, user: Some(1) },
        ],
        tags: vec![],
        next_id: 100,
    };
    let page = store
        .read_events_string_action("Bearer tok-a", None, None)
        .unwrap();
    assert_eq!(page.len(), 2);
    assert_eq!(page[0].id, 20);
    assert_eq!(page[0].task, Some("water plants".to_string()));
    assert_eq!(page[1].id, 21);
    assert_eq!(page[1].task, None);
}

#[test]
fn tags_listing_sorted_by_name() {
    let store = Store {
        users: vec![user(1, "tok-a", "subj-a")],
        tasks: vec![],
        events: vec![],
        tags: vec![
            mossy::model::Tag {
                id: 30,
                name: "zebra".to_string(),
                description: None,
                parent_tag: None,
                user: Some(1),
            },
            mossy::model::Tag {
                id: 31,
                name: "apple".to_string(),
                description: None,
                parent_tag: None,
                user: Some(1),
            },
            mossy::model::Tag {
                id: 32,
                name: "apple".to_string(),
                description: None,
                parent_tag: None,
                user: Some(1),
            },
        ],
        next_id: 100,
    };
    let page = store.read_tags_action("Bearer tok-a", None, None).unwrap();
    let ids: Vec<u64> = page.iter().map(|t| t.id).collect();
    // Ascending name; equal names fall back to descending id.
    assert_eq!(ids, vec![32, 31, 30]);
}
