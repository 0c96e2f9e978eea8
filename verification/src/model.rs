use vstd::prelude::*;

verus! {

// ---------------------------------------------------------------------------
// Spec-level views of option-valued fields
// ---------------------------------------------------------------------------

pub open spec fn opt_str_view(o: Option<String>) -> Option<Seq<char>> {
    match o {
        Some(s) => Some(s@),
        None => None,
    }
}

pub open spec fn opt_ids_view(o: Option<Vec<u64>>) -> Option<Seq<u64>> {
    match o {
        Some(v) => Some(v@),
        None => None,
    }
}

/// The views of every element of a sequence, in order.
pub open spec fn view_all<T: View>(s: Seq<T>) -> Seq<T::V> {
    Seq::new(s.len(), |i: int| s[i]@)
}

// ---------------------------------------------------------------------------
// Records
// ---------------------------------------------------------------------------

/// A signing key published by the identity provider: key id, algorithm,
/// key type, intended use, and the RSA modulus and exponent as unpadded
/// base64url text.
#[derive(Debug)]
pub struct ProviderKey {
    pub alg: String,
    pub e: String,
    pub kid: String,
    pub kty: String,
    pub n: String,
    pub key_use: String,
}

pub struct ProviderKeyV {
    pub alg: Seq<char>,
    pub e: Seq<char>,
    pub kid: Seq<char>,
    pub kty: Seq<char>,
    pub n: Seq<char>,
    pub key_use: Seq<char>,
}

impl View for ProviderKey {
    type V = ProviderKeyV;

    open spec fn view(&self) -> ProviderKeyV {
        ProviderKeyV {
            alg: self.alg@,
            e: self.e@,
            kid: self.kid@,
            kty: self.kty@,
            n: self.n@,
            key_use: self.key_use@,
        }
    }
}

/// The body of a login request: the identity token, the nonce the client
/// chose for this attempt, and the provider's stable subject id for the
/// account, plus the (unused here) authorization code.
#[derive(Debug)]
pub struct Credentials {
    pub authorization_code: String,
    pub identity_token: String,
    pub nonce: String,
    pub user: String,
}

/// An identity record. `apple_user_id` is the provider's stable subject id
/// and is unique across users; `token` is the single active session token.
#[derive(Debug)]
pub struct User {
    pub id: u64,
    pub email: String,
    pub apple_user_id: String,
    pub token: String,
    pub is_admin: bool,
    pub should_color_scheme_use_system: bool,
    pub is_color_scheme_dark_mode: bool,
    pub color_theme: u32,
}

pub struct UserV {
    pub id: u64,
    pub email: Seq<char>,
    pub apple_user_id: Seq<char>,
    pub token: Seq<char>,
    pub is_admin: bool,
    pub should_color_scheme_use_system: bool,
    pub is_color_scheme_dark_mode: bool,
    pub color_theme: u32,
}

impl View for User {
    type V = UserV;

    open spec fn view(&self) -> UserV {
        UserV {
            id: self.id,
            email: self.email@,
            apple_user_id: self.apple_user_id@,
            token: self.token@,
            is_admin: self.is_admin,
            should_color_scheme_use_system: self.should_color_scheme_use_system,
            is_color_scheme_dark_mode: self.is_color_scheme_dark_mode,
            color_theme: self.color_theme,
        }
    }
}

impl Clone for User {
    fn clone(&self) -> (res: Self)
        ensures
            res@ == self@,
    {
        User {
            id: self.id,
            email: self.email.clone(),
            apple_user_id: self.apple_user_id.clone(),
            token: self.token.clone(),
            is_admin: self.is_admin,
            should_color_scheme_use_system: self.should_color_scheme_use_system,
            is_color_scheme_dark_mode: self.is_color_scheme_dark_mode,
            color_theme: self.color_theme,
        }
    }
}

/// A recurring habit: how often (in days) it should be done, which tags it
/// carries, and which user owns it.
#[derive(Debug)]
pub struct Task {
    pub id: u64,
    pub name: String,
    pub frequency: i32,
    pub tags: Option<Vec<u64>>,
    pub user: Option<u64>,
}

pub struct TaskV {
    pub id: u64,
    pub name: Seq<char>,
    pub frequency: i32,
    pub tags: Option<Seq<u64>>,
    pub user: Option<u64>,
}

impl View for Task {
    type V = TaskV;

    open spec fn view(&self) -> TaskV {
        TaskV {
            id: self.id,
            name: self.name@,
            frequency: self.frequency,
            tags: opt_ids_view(self.tags),
            user: self.user,
        }
    }
}

impl Clone for Task {
    fn clone(&self) -> (res: Self)
        ensures
            res@ == self@,
    {
        Task {
            id: self.id,
            name: self.name.clone(),
            frequency: self.frequency,
            tags: copy_opt_id_list(&self.tags),
            user: self.user,
        }
    }
}

/// A single completion of a task at a point in time (milliseconds since the
/// Unix epoch).
#[derive(Debug, Clone, Copy)]
pub struct Event {
    pub id: u64,
    pub task: u64,
    pub date: i64,
    pub user: Option<u64>,
}

pub struct EventV {
    pub id: u64,
    pub task: u64,
    pub date: i64,
    pub user: Option<u64>,
}

impl View for Event {
    type V = EventV;

    open spec fn view(&self) -> EventV {
        EventV { id: self.id, task: self.task, date: self.date, user: self.user }
    }
}

/// A hierarchical label owned by a user; `parent_tag` is a soft reference to
/// another tag.
#[derive(Debug)]
pub struct Tag {
    pub id: u64,
    pub name: String,
    pub description: Option<String>,
    pub parent_tag: Option<u64>,
    pub user: Option<u64>,
}

pub struct TagV {
    pub id: u64,
    pub name: Seq<char>,
    pub description: Option<Seq<char>>,
    pub parent_tag: Option<u64>,
    pub user: Option<u64>,
}

impl View for Tag {
    type V = TagV;

    open spec fn view(&self) -> TagV {
        TagV {
            id: self.id,
            name: self.name@,
            description: opt_str_view(self.description),
            parent_tag: self.parent_tag,
            user: self.user,
        }
    }
}

impl Clone for Tag {
    fn clone(&self) -> (res: Self)
        ensures
            res@ == self@,
    {
        Tag {
            id: self.id,
            name: self.name.clone(),
            description: copy_opt_string(&self.description),
            parent_tag: self.parent_tag,
            user: self.user,
        }
    }
}

/// A task as the listing endpoint returns it: annotated with the date of its
/// most recent event and its staleness score ("moss"), both absent when the
/// task has no event at all.
#[derive(Debug)]
pub struct RankedTask {
    pub id: u64,
    pub name: String,
    pub frequency: i32,
    pub tags: Option<Vec<u64>>,
    pub latest_event_date: Option<i64>,
    pub moss: Option<i128>,
}

pub struct RankedTaskV {
    pub id: u64,
    pub name: Seq<char>,
    pub frequency: i32,
    pub tags: Option<Seq<u64>>,
    pub latest_event_date: Option<i64>,
    pub moss: Option<i128>,
}

impl View for RankedTask {
    type V = RankedTaskV;

    open spec fn view(&self) -> RankedTaskV {
        RankedTaskV {
            id: self.id,
            name: self.name@,
            frequency: self.frequency,
            tags: opt_ids_view(self.tags),
            latest_event_date: self.latest_event_date,
            moss: self.moss,
        }
    }
}

/// An event as the string-valued listing returns it: the parent task's name
/// in place of its id, absent when the task no longer exists.
#[derive(Debug)]
pub struct EventWithTaskName {
    pub id: u64,
    pub task: Option<String>,
    pub date: i64,
}

pub struct EventWithTaskNameV {
    pub id: u64,
    pub task: Option<Seq<char>>,
    pub date: i64,
}

impl View for EventWithTaskName {
    type V = EventWithTaskNameV;

    open spec fn view(&self) -> EventWithTaskNameV {
        EventWithTaskNameV { id: self.id, task: opt_str_view(self.task), date: self.date }
    }
}

// ---------------------------------------------------------------------------
// Request payloads
// ---------------------------------------------------------------------------

/// The body of a user lookup request.
#[derive(Debug)]
pub struct UserData {
    pub apple_user_id: String,
}

pub struct UserDataV {
    pub apple_user_id: Seq<char>,
}

impl View for UserData {
    type V = UserDataV;

    open spec fn view(&self) -> UserDataV {
        UserDataV { apple_user_id: self.apple_user_id@ }
    }
}

/// The body of a theme update request.
#[derive(Debug)]
pub struct UserThemeData {
    pub apple_user_id: String,
    pub should_color_scheme_use_system: bool,
    pub is_color_scheme_dark_mode: bool,
    pub color_theme: u32,
}

pub struct UserThemeDataV {
    pub apple_user_id: Seq<char>,
    pub should_color_scheme_use_system: bool,
    pub is_color_scheme_dark_mode: bool,
    pub color_theme: u32,
}

impl View for UserThemeData {
    type V = UserThemeDataV;

    open spec fn view(&self) -> UserThemeDataV {
        UserThemeDataV {
            apple_user_id: self.apple_user_id@,
            should_color_scheme_use_system: self.should_color_scheme_use_system,
            is_color_scheme_dark_mode: self.is_color_scheme_dark_mode,
            color_theme: self.color_theme,
        }
    }
}

/// The body of a task creation request.
#[derive(Debug)]
pub struct NewTaskData {
    pub name: String,
    pub frequency: i32,
    pub tags: Option<Vec<u64>>,
}

pub struct NewTaskDataV {
    pub name: Seq<char>,
    pub frequency: i32,
    pub tags: Option<Seq<u64>>,
}

impl View for NewTaskData {
    type V = NewTaskDataV;

    open spec fn view(&self) -> NewTaskDataV {
        NewTaskDataV {
            name: self.name@,
            frequency: self.frequency,
            tags: opt_ids_view(self.tags),
        }
    }
}

/// The body of an event creation request; the date arrives as RFC 3339 text.
#[derive(Debug)]
pub struct NewEventData {
    pub task: u64,
    pub date: String,
}

pub struct NewEventDataV {
    pub task: u64,
    pub date: Seq<char>,
}

impl View for NewEventData {
    type V = NewEventDataV;

    open spec fn view(&self) -> NewEventDataV {
        NewEventDataV { task: self.task, date: self.date@ }
    }
}

/// The body of an event update request; the date arrives as RFC 3339 text.
#[derive(Debug)]
pub struct UpdateEventData {
    pub id: u64,
    pub date: String,
}

pub struct UpdateEventDataV {
    pub id: u64,
    pub date: Seq<char>,
}

impl View for UpdateEventData {
    type V = UpdateEventDataV;

    open spec fn view(&self) -> UpdateEventDataV {
        UpdateEventDataV { id: self.id, date: self.date@ }
    }
}

/// The body of a tag creation request.
#[derive(Debug)]
pub struct NewTagData {
    pub name: String,
    pub description: Option<String>,
    pub parent_tag: Option<u64>,
}

pub struct NewTagDataV {
    pub name: Seq<char>,
    pub description: Option<Seq<char>>,
    pub parent_tag: Option<u64>,
}

impl View for NewTagData {
    type V = NewTagDataV;

    open spec fn view(&self) -> NewTagDataV {
        NewTagDataV {
            name: self.name@,
            description: opt_str_view(self.description),
            parent_tag: self.parent_tag,
        }
    }
}

// ---------------------------------------------------------------------------
// Copy helpers for option-valued fields
// ---------------------------------------------------------------------------

pub fn copy_id_list(v: &Vec<u64>) -> (r: Vec<u64>)
    ensures
        r@ == v@,
{
    let mut r: Vec<u64> = Vec::new();
    let mut i: usize = 0;
    while i < v.len()
        invariant
            i <= v@.len(),
            r@ == v@.subrange(0, i as int),
        decreases v@.len() - i,
    {
        r.push(v[i]);
        assert(v@.subrange(0, i + 1 as int) =~= v@.subrange(0, i as int).push(v@[i as int]));
        i = i + 1;
    }
    assert(v@.subrange(0, v@.len() as int) =~= v@);
    r
}

pub fn copy_opt_id_list(o: &Option<Vec<u64>>) -> (r: Option<Vec<u64>>)
    ensures
        opt_ids_view(r) == opt_ids_view(*o),
{
    match o {
        Some(v) => Some(copy_id_list(v)),
        None => None,
    }
}

pub fn copy_opt_string(o: &Option<String>) -> (r: Option<String>)
    ensures
        opt_str_view(r) == opt_str_view(*o),
{
    match o {
        Some(s) => Some(s.clone()),
        None => None,
    }
}

} // verus!
