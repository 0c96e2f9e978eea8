use mossy::errors::ApiError;
use mossy::model::{
    Event, NewEventData, NewTagData, NewTaskData, Tag, Task, UpdateEventData, User, UserData,
    UserThemeData,
};
use mossy::store::Store;

fn user(id: u64, token: &str, subject: &str, admin: bool) -> User {
    User {
        id,
        email: format!("u{}@example.com", id),
        apple_user_id: subject.to_string(),
        token: token.to_string(),
        is_admin: admin,
        should_color_scheme_use_system: false,
        is_color_scheme_dark_mode: false,
        color_theme: 1,
    }
}

fn task(id: u64, name: &str, frequency: i32, owner: Option<u64>) -> Task {
    Task { id, name: name.to_string(), frequency, tags: None, user: owner }
}

fn tag(id: u64, name: &str, owner: Option<u64>) -> Tag {
    Tag { id, name: name.to_string(), description: None, parent_tag: None, user: owner }
}

fn fixture() -> Store {
    Store {
        users: vec![
            user(1, "tok-a", "subj-a", false),
            user(2, "tok-b", "subj-b", false),
            user(3, "tok-admin", "subj-admin", true),
        ],
        tasks: vec![
            task(10, "water plants", 7, Some(1)),
            task(11, "laundry", 3, Some(2)),
        ],
        events: vec![
            Event { id: 20, task: 10, date: 1000, user: Some(1) },
            Event { id: 21, task: 11, date: 2000, user: Some(2) },
        ],
        tags: vec![tag(30, "home", Some(1)), tag(31, "chore", Some(2))],
        next_id: 100,
    }
}

#[test]
fn read_user_finds_caller() {
    let store = fixture();
    let data = UserData { apple_user_id: "subj-a".to_string() };
    let u = store.read_user_action("Bearer tok-a", &data).unwrap();
    assert_eq!(u.id, 1);
    assert_eq!(u.apple_user_id, "subj-a");
}

#[test]
fn read_user_wrong_token() {
    let store = fixture();
    let data = UserData { apple_user_id: "subj-a".to_string() };
    let r = store.read_user_action("Bearer nope", &data);
    assert_eq!(r.unwrap_err(), ApiError::UserNotFound);
}

#[test]
fn read_user_wrong_subject_scope() {
    let store = fixture();
    let data = UserData { apple_user_id: "subj-b".to_string() };
    let r = store.read_user_action("Bearer tok-a", &data);
    assert_eq!(r.unwrap_err(), ApiError::UserNotFound);
}

#[test]
fn malformed_header_rejected() {
    let store = fixture();
    let data = UserData { apple_user_id: "subj-a".to_string() };
    let r = store.read_user_action("tok-a-without-scheme", &data);
    assert_eq!(r.unwrap_err(), ApiError::MalformedCredential);
}

#[test]
fn update_user_theme_sets_only_theme_fields() {
    let mut store = fixture();
    let theme = UserThemeData {
        apple_user_id: "subj-a".to_string(),
        should_color_scheme_use_system: true,
        is_color_scheme_dark_mode: true,
        color_theme: 4,
    };
    store.update_user_theme_action("Bearer tok-a", &theme).unwrap();
    assert!(store.users[0].should_color_scheme_use_system);
    assert!(store.users[0].is_color_scheme_dark_mode);
    assert_eq!(store.users[0].color_theme, 4);
    assert_eq!(store.users[0].token, "tok-a");
    assert_eq!(store.users[1].color_theme, 1);
}

#[test]
fn create_task_assigns_fresh_id_and_owner() {
    let mut store = fixture();
    let data = NewTaskData { name: "new habit".to_string(), frequency: 2, tags: Some(vec![30]) };
    let id = store.create_task_action("Bearer tok-a", data).unwrap();
    assert_eq!(id, 100);
    assert_eq!(store.next_id, 101);
    let t = store.tasks.last().unwrap();
    assert_eq!(t.id, 100);
    assert_eq!(t.name, "new habit");
    assert_eq!(t.frequency, 2);
    assert_eq!(t.tags, Some(vec![30]));
    assert_eq!(t.user, Some(1));
}

#[test]
fn create_event_parses_rfc3339_date() {
    let mut store = fixture();
    let data = NewEventData { task: 10, date: "1970-01-02T00:00:00Z".to_string() };
    let id = store.create_event_action("Bearer tok-a", data).unwrap();
    let e = store.events.last().unwrap();
    assert_eq!(e.id, id);
    assert_eq!(e.task, 10);
    assert_eq!(e.date, 86_400_000);
    assert_eq!(e.user, Some(1));
}

#[test]
fn create_event_bad_date() {
    let mut store = fixture();
    let data = NewEventData { task: 10, date: "yesterday-ish".to_string() };
    let r = store.create_event_action("Bearer tok-a", data);
    assert_eq!(r.unwrap_err(), ApiError::MalformedDate);
    assert_eq!(store.events.len(), 2);
}

#[test]
fn create_tag_assigns_owner() {
    let mut store = fixture();
    let data = NewTagData {
        name: "garden".to_string(),
        description: Some("outside".to_string()),
        parent_tag: Some(30),
    };
    let id = store.create_tag_action("Bearer tok-a", data).unwrap();
    let t = store.tags.last().unwrap();
    assert_eq!(t.id, id);
    assert_eq!(t.name, "garden");
    assert_eq!(t.description, Some("outside".to_string()));
    assert_eq!(t.parent_tag, Some(30));
    assert_eq!(t.user, Some(1));
}

#[test]
fn update_task_by_owner() {
    let mut store = fixture();
    let data = task(10, "water plants twice", 14, Some(1));
    store.update_task_action("Bearer tok-a", &data).unwrap();
    assert_eq!(store.tasks[0].name, "water plants twice");
    assert_eq!(store.tasks[0].frequency, 14);
    assert_eq!(store.tasks[0].user, Some(1));
}

#[test]
fn update_task_of_other_user_forbidden() {
    let mut store = fixture();
    let data = task(11, "hijacked", 1, Some(1));
    let r = store.update_task_action("Bearer tok-a", &data);
    assert_eq!(r.unwrap_err(), ApiError::Forbidden);
    assert_eq!(store.tasks[1].name, "laundry");
    assert_eq!(store.tasks[1].frequency, 3);
}

#[test]
fn update_missing_task_not_found() {
    let mut store = fixture();
    let data = task(999, "ghost", 1, Some(1));
    let r = store.update_task_action("Bearer tok-a", &data);
    assert_eq!(r.unwrap_err(), ApiError::NotFound);
}

#[test]
fn update_event_of_other_user_forbidden() {
    let mut store = fixture();
    let data = UpdateEventData { id: 21, date: "1970-01-02T00:00:00Z".to_string() };
    let r = store.update_event_action("Bearer tok-a", &data);
    assert_eq!(r.unwrap_err(), ApiError::Forbidden);
    assert_eq!(store.events[1].date, 2000);
}

#[test]
fn update_event_by_owner() {
    let mut store = fixture();
    let data = UpdateEventData { id: 20, date: "1970-01-02T00:00:00Z".to_string() };
    store.update_event_action("Bearer tok-a", &data).unwrap();
    assert_eq!(store.events[0].date, 86_400_000);
}

#[test]
fn update_tag_of_other_user_forbidden() {
    let mut store = fixture();
    let data = tag(31, "stolen", Some(1));
    let r = store.update_tag_action("Bearer tok-a", &data);
    assert_eq!(r.unwrap_err(), ApiError::Forbidden);
    assert_eq!(store.tags[1].name, "chore");
}

#[test]
fn delete_tasks_all_or_nothing() {
    let mut store = fixture();
    // The batch names one of the caller's tasks and one of another user's:
    // nothing may be deleted.
    let r = store.delete_tasks_action("Bearer tok-a", &vec![10, 11]);
    assert_eq!(r.unwrap_err(), ApiError::Forbidden);
    assert_eq!(store.tasks.len(), 2);
}

#[test]
fn delete_tasks_own_batch() {
    let mut store = fixture();
    // A dangling id is tolerated and deletes nothing extra.
    let n = store.delete_tasks_action("Bearer tok-a", &vec![10, 999]).unwrap();
    assert_eq!(n, 1);
    assert_eq!(store.tasks.len(), 1);
    assert_eq!(store.tasks[0].id, 11);
}

#[test]
fn delete_events_own_batch() {
    let mut store = fixture();
    let n = store.delete_events_action("Bearer tok-b", &vec![21]).unwrap();
    assert_eq!(n, 1);
    assert_eq!(store.events.len(), 1);
    assert_eq!(store.events[0].id, 20);
}

#[test]
fn delete_tags_of_other_user_forbidden() {
    let mut store = fixture();
    let r = store.delete_tags_action("Bearer tok-a", &vec![31]);
    assert_eq!(r.unwrap_err(), ApiError::Forbidden);
    assert_eq!(store.tags.len(), 2);
}

#[test]
fn debug_create_tasks_requires_admin() {
    let mut store = fixture();
    let r = store.debug_create_tasks_action("Bearer tok-a", 3);
    assert_eq!(r.unwrap_err(), ApiError::Forbidden);
    assert_eq!(store.tasks.len(), 2);
}

#[test]
fn debug_create_tasks_names_by_counter() {
    let mut store = fixture();
    let n = store.debug_create_tasks_action("Bearer tok-admin", 3).unwrap();
    assert_eq!(n, 3);
    assert_eq!(store.tasks.len(), 5);
    assert_eq!(store.tasks[2].name, "0");
    assert_eq!(store.tasks[3].name, "1");
    assert_eq!(store.tasks[4].name, "2");
    assert_eq!(store.tasks[2].frequency, 7);
    assert_eq!(store.tasks[2].user, Some(3));
    assert_eq!(store.tasks[2].id, 100);
    assert_eq!(store.tasks[4].id, 102);
    assert_eq!(store.next_id, 103);
}

#[test]
fn debug_delete_tasks_removes_only_own() {
    let mut store = fixture();
    store.debug_create_tasks_action("Bearer tok-admin", 2).unwrap();
    let n = store.debug_delete_tasks_action("Bearer tok-admin").unwrap();
    assert_eq!(n, 2);
    assert_eq!(store.tasks.len(), 2);
    assert_eq!(store.tasks[0].id, 10);
    assert_eq!(store.tasks[1].id, 11);
}

#[test]
fn debug_create_events_seeds_each_owned_task() {
    let mut store = fixture();
    store.debug_create_tasks_action("Bearer tok-admin", 2).unwrap();
    let n = store.debug_create_events_action("Bearer tok-admin").unwrap();
    assert_eq!(n, 2);
    let expected = bson::DateTime::parse_rfc3339_str("2023-10-01T05:43:48.487Z")
        .unwrap()
        .timestamp_millis();
    let last = store.events.last().unwrap();
    assert_eq!(last.date, expected);
    assert_eq!(last.user, Some(3));
    assert_eq!(store.events.len(), 4);
    assert_eq!(store.events[2].task, store.tasks[2].id);
    assert_eq!(store.events[3].task, store.tasks[3].id);
}

#[test]
fn debug_delete_events_requires_admin() {
    let mut store = fixture();
    let r = store.debug_delete_events_action("Bearer tok-b");
    assert_eq!(r.unwrap_err(), ApiError::Forbidden);
}

#[test]
fn debug_create_and_delete_tags() {
    let mut store = fixture();
    let n = store.debug_create_tags_action("Bearer tok-admin", 2).unwrap();
    assert_eq!(n, 2);
    assert_eq!(store.tags[2].name, "0");
    assert_eq!(store.tags[3].name, "1");
    assert_eq!(store.tags[2].description, None);
    assert_eq!(store.tags[2].parent_tag, None);
    let d = store.debug_delete_tags_action("Bearer tok-admin").unwrap();
    assert_eq!(d, 2);
    assert_eq!(store.tags.len(), 2);
}
