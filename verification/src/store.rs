use vstd::prelude::*;

use vstd::pervasive::VecAdditionalExecFns;

use crate::errors::ApiError;
use crate::ext::{parse_rfc3339, rfc3339_millis};
use crate::model::{
    view_all, Event, EventV, EventWithTaskName, EventWithTaskNameV, NewEventData, NewTagData,
    NewTaskData, RankedTask, Tag, TagV, Task, TaskV, UpdateEventData, User, UserData,
    UserThemeData, UserV,
};
use crate::rank::{ranked_listing, ranked_listing_spec};
use crate::seqs::{
    find_page_spec, first_where, first_where_from, lemma_filter_keeps_distinct, lemma_filter_sub,
    take_find_page,
};
use crate::sort::{sort_ord, sort_records, SortOrd};
use crate::text::{dec_str, dec_string, lex_eq, lex_le, lemma_lex_le_total, lemma_lex_le_trans,
    second_field, second_field_spec, str_lex_le};

verus! {

// ---------------------------------------------------------------------------
// The store
// ---------------------------------------------------------------------------

/// The four collections the service works on, held in memory, with the
/// counter from which fresh record ids are allocated.
pub struct Store {
    pub users: Vec<User>,
    pub tasks: Vec<Task>,
    pub events: Vec<Event>,
    pub tags: Vec<Tag>,
    pub next_id: u64,
}

pub struct StoreV {
    pub users: Seq<UserV>,
    pub tasks: Seq<TaskV>,
    pub events: Seq<EventV>,
    pub tags: Seq<TagV>,
    pub next_id: u64,
}

impl View for Store {
    type V = StoreV;

    open spec fn view(&self) -> StoreV {
        StoreV {
            users: view_all(self.users@),
            tasks: view_all(self.tasks@),
            events: view_all(self.events@),
            tags: view_all(self.tags@),
            next_id: self.next_id,
        }
    }
}

impl StoreV {
    /// Well-formedness: every record id was allocated below `next_id`, ids
    /// are unique within each collection, and the provider subject id is
    /// unique across users.
    pub open spec fn wf(self) -> bool {
        &&& (forall|i: int|
            0 <= i < self.users.len() ==> (#[trigger] self.users[i]).id < self.next_id)
        &&& (forall|i: int|
            0 <= i < self.tasks.len() ==> (#[trigger] self.tasks[i]).id < self.next_id)
        &&& (forall|i: int|
            0 <= i < self.events.len() ==> (#[trigger] self.events[i]).id < self.next_id)
        &&& (forall|i: int|
            0 <= i < self.tags.len() ==> (#[trigger] self.tags[i]).id < self.next_id)
        &&& (forall|i: int, j: int|
            0 <= i < j < self.users.len() ==> (#[trigger] self.users[i]).id != (
            #[trigger] self.users[j]).id)
        &&& (forall|i: int, j: int|
            0 <= i < j < self.tasks.len() ==> (#[trigger] self.tasks[i]).id != (
            #[trigger] self.tasks[j]).id)
        &&& (forall|i: int, j: int|
            0 <= i < j < self.events.len() ==> (#[trigger] self.events[i]).id != (
            #[trigger] self.events[j]).id)
        &&& (forall|i: int, j: int|
            0 <= i < j < self.tags.len() ==> (#[trigger] self.tags[i]).id != (
            #[trigger] self.tags[j]).id)
        &&& (forall|i: int, j: int|
            0 <= i < j < self.users.len() ==> (#[trigger] self.users[i]).apple_user_id != (
            #[trigger] self.users[j]).apple_user_id)
    }
}

impl Store {
    /// An empty store.
    pub fn new() -> (s: Store)
        ensures
            s@.wf(),
            s@.users.len() == 0,
            s@.tasks.len() == 0,
            s@.events.len() == 0,
            s@.tags.len() == 0,
            s@.next_id == 0,
    {
        let s = Store {
            users: Vec::new(),
            tasks: Vec::new(),
            events: Vec::new(),
            tags: Vec::new(),
            next_id: 0,
        };
        proof {
            assert(view_all(s.users@) =~= Seq::<UserV>::empty());
            assert(view_all(s.tasks@) =~= Seq::<TaskV>::empty());
            assert(view_all(s.events@) =~= Seq::<EventV>::empty());
            assert(view_all(s.tags@) =~= Seq::<TagV>::empty());
        }
        s
    }
}

// ---------------------------------------------------------------------------
// Bearer-token authentication
// ---------------------------------------------------------------------------

pub open spec fn token_pred(tok: Seq<char>) -> spec_fn(UserV) -> bool {
    |u: UserV| u.token == tok
}

pub open spec fn token_subject_pred(tok: Seq<char>, subject: Seq<char>) -> spec_fn(UserV) -> bool {
    |u: UserV| u.token == tok && u.apple_user_id == subject
}

/// What resolving an authorization header to a user yields: the header is
/// split on spaces and its second field compared, by exact equality, with
/// every stored session token in turn.
pub open spec fn token_auth(users: Seq<UserV>, header: Seq<char>) -> Result<int, ApiError> {
    match second_field_spec(header) {
        None => Err(ApiError::MalformedCredential),
        Some(tok) => match first_where(users, token_pred(tok)) {
            None => Err(ApiError::UserNotFound),
            Some(i) => Ok(i),
        },
    }
}

/// As `token_auth`, additionally requiring the stored subject id to equal a
/// caller-supplied one.
pub open spec fn token_subject_auth(
    users: Seq<UserV>,
    header: Seq<char>,
    subject: Seq<char>,
) -> Result<int, ApiError> {
    match second_field_spec(header) {
        None => Err(ApiError::MalformedCredential),
        Some(tok) => match first_where(users, token_subject_pred(tok, subject)) {
            None => Err(ApiError::UserNotFound),
            Some(i) => Ok(i),
        },
    }
}

fn find_user_by_token(users: &Vec<User>, token_value: &String) -> (r: Option<usize>)
    ensures
        match r {
            Some(i) => i < users@.len() && first_where(view_all(users@), token_pred(token_value@))
                == Some(i as int),
            None => first_where(view_all(users@), token_pred(token_value@)) is None,
        },
{
    let n = users.len();
    let mut i: usize = 0;
    while i < n
        invariant
            i <= n,
            n == users@.len(),
            first_where(view_all(users@), token_pred(token_value@)) == first_where_from(
                view_all(users@),
                token_pred(token_value@),
                i as int,
            ),
        decreases n - i,
    {
        assert(view_all(users@)[i as int] == users@[i as int]@);
        if users[i].token == *token_value {
            return Some(i);
        }
        assert(!token_pred(token_value@)(view_all(users@)[i as int]));
        i = i + 1;
    }
    None
}

fn find_user_by_token_and_subject(users: &Vec<User>, token_value: &String, subject: &String) -> (r:
    Option<usize>)
    ensures
        match r {
            Some(i) => i < users@.len() && first_where(
                view_all(users@),
                token_subject_pred(token_value@, subject@),
            ) == Some(i as int),
            None => first_where(view_all(users@), token_subject_pred(token_value@, subject@))
                is None,
        },
{
    let n = users.len();
    let mut i: usize = 0;
    while i < n
        invariant
            i <= n,
            n == users@.len(),
            first_where(view_all(users@), token_subject_pred(token_value@, subject@))
                == first_where_from(
                view_all(users@),
                token_subject_pred(token_value@, subject@),
                i as int,
            ),
        decreases n - i,
    {
        assert(view_all(users@)[i as int] == users@[i as int]@);
        if users[i].token == *token_value && users[i].apple_user_id == *subject {
            return Some(i);
        }
        assert(!token_subject_pred(token_value@, subject@)(view_all(users@)[i as int]));
        i = i + 1;
    }
    None
}

impl Store {
    /// Resolve the bearer credential in `header` to the index of its user.
    pub fn authenticate(&self, header: &str) -> (r: Result<usize, ApiError>)
        ensures
            match r {
                Ok(i) => i < self@.users.len() && token_auth(self@.users, header@) == Ok::<
                    int,
                    ApiError,
                >(i as int),
                Err(e) => token_auth(self@.users, header@) == Err::<int, ApiError>(e),
            },
    {
        match second_field(header) {
            None => Err(ApiError::MalformedCredential),
            Some(tok) => match find_user_by_token(&self.users, &tok) {
                None => Err(ApiError::UserNotFound),
                Some(i) => Ok(i),
            },
        }
    }

    /// Resolve the bearer credential in `header`, scoped to one subject id.
    pub fn authenticate_with_subject(&self, header: &str, subject: &String) -> (r: Result<
        usize,
        ApiError,
    >)
        ensures
            match r {
                Ok(i) => i < self@.users.len() && token_subject_auth(
                    self@.users,
                    header@,
                    subject@,
                ) == Ok::<int, ApiError>(i as int),
                Err(e) => token_subject_auth(self@.users, header@, subject@) == Err::<
                    int,
                    ApiError,
                >(e),
            },
    {
        match second_field(header) {
            None => Err(ApiError::MalformedCredential),
            Some(tok) => match find_user_by_token_and_subject(&self.users, &tok, subject) {
                None => Err(ApiError::UserNotFound),
                Some(i) => Ok(i),
            },
        }
    }
}

// ---------------------------------------------------------------------------
// The listing orders of events and tags
// ---------------------------------------------------------------------------

impl SortOrd for Event {
    /// Descending date, tie-broken by descending id.
    open spec fn ord(a: EventV, b: EventV) -> bool {
        a.date > b.date || (a.date == b.date && a.id >= b.id)
    }

    fn ord_exec(&self, other: &Self) -> (r: bool) {
        self.date > other.date || (self.date == other.date && self.id >= other.id)
    }

    proof fn lemma_ord_total(a: EventV, b: EventV) {
    }

    proof fn lemma_ord_trans(a: EventV, b: EventV, c: EventV) {
    }
}

impl SortOrd for Tag {
    /// Ascending name; names that order alike are broken by descending id.
    open spec fn ord(a: TagV, b: TagV) -> bool {
        if lex_eq(a.name, b.name) {
            a.id >= b.id
        } else {
            lex_le(a.name, b.name)
        }
    }

    fn ord_exec(&self, other: &Self) -> (r: bool) {
        let le1 = str_lex_le(self.name.as_str(), other.name.as_str());
        let le2 = str_lex_le(other.name.as_str(), self.name.as_str());
        if le1 && le2 {
            self.id >= other.id
        } else {
            le1
        }
    }

    proof fn lemma_ord_total(a: TagV, b: TagV) {
        lemma_lex_le_total(a.name, b.name);
    }

    proof fn lemma_ord_trans(a: TagV, b: TagV, c: TagV) {
        lemma_lex_le_trans(a.name, b.name, c.name);
        if lex_le(c.name, a.name) {
            lemma_lex_le_trans(c.name, a.name, b.name);
            lemma_lex_le_trans(b.name, c.name, a.name);
        }
    }
}

// ---------------------------------------------------------------------------
// Ownership filters
// ---------------------------------------------------------------------------

pub open spec fn owned_task_pred(uid: u64) -> spec_fn(TaskV) -> bool {
    |t: TaskV| t.user == Some(uid)
}

pub open spec fn owned_event_pred(uid: u64) -> spec_fn(EventV) -> bool {
    |e: EventV| e.user == Some(uid)
}

pub open spec fn owned_tag_pred(uid: u64) -> spec_fn(TagV) -> bool {
    |t: TagV| t.user == Some(uid)
}

/// The events owned by `uid`, in storage order.
pub open spec fn owned_events(events: Seq<EventV>, uid: u64) -> Seq<EventV> {
    events.filter(owned_event_pred(uid))
}

/// The tags owned by `uid`, in storage order.
pub open spec fn owned_tags(tags: Seq<TagV>, uid: u64) -> Seq<TagV> {
    tags.filter(owned_tag_pred(uid))
}

/// The tasks owned by `uid`, in storage order.
pub open spec fn owned_tasks(tasks: Seq<TaskV>, uid: u64) -> Seq<TaskV> {
    tasks.filter(owned_task_pred(uid))
}

fn filter_events_owned(events: &Vec<Event>, uid: u64) -> (r: Vec<Event>)
    ensures
        view_all(r@) == owned_events(view_all(events@), uid),
{
    let mut r: Vec<Event> = Vec::new();
    let mut i: usize = 0;
    proof {
        reveal_with_fuel(Seq::filter, 2);
        assert(view_all(events@).subrange(0, 0) =~= Seq::<EventV>::empty());
        assert(view_all(r@) =~= Seq::<EventV>::empty());
    }
    while i < events.len()
        invariant
            i <= events@.len(),
            view_all(r@) == owned_events(view_all(events@).subrange(0, i as int), uid),
        decreases events@.len() - i,
    {
        let ghost pres = view_all(r@);
        let ghost sub1 = view_all(events@).subrange(0, i + 1 as int);
        let e = events[i];
        assert(view_all(events@)[i as int] == events@[i as int]@);
        let keep = match e.user {
            Some(u) => u == uid,
            None => false,
        };
        if keep {
            r.push(e);
            proof {
                assert(view_all(r@) =~= pres.push(e@));
            }
        }
        proof {
            reveal_with_fuel(Seq::filter, 2);
            assert(sub1.drop_last() =~= view_all(events@).subrange(0, i as int));
            assert(sub1.last() == view_all(events@)[i as int]);
        }
        i = i + 1;
    }
    proof {
        assert(view_all(events@).subrange(0, events@.len() as int) =~= view_all(events@));
    }
    r
}

fn filter_tags_owned(tags: &Vec<Tag>, uid: u64) -> (r: Vec<Tag>)
    ensures
        view_all(r@) == owned_tags(view_all(tags@), uid),
{
    let mut r: Vec<Tag> = Vec::new();
    let mut i: usize = 0;
    proof {
        reveal_with_fuel(Seq::filter, 2);
        assert(view_all(tags@).subrange(0, 0) =~= Seq::<TagV>::empty());
        assert(view_all(r@) =~= Seq::<TagV>::empty());
    }
    while i < tags.len()
        invariant
            i <= tags@.len(),
            view_all(r@) == owned_tags(view_all(tags@).subrange(0, i as int), uid),
        decreases tags@.len() - i,
    {
        let ghost pres = view_all(r@);
        let ghost sub1 = view_all(tags@).subrange(0, i + 1 as int);
        let t = &tags[i];
        assert(view_all(tags@)[i as int] == tags@[i as int]@);
        let keep = match t.user {
            Some(u) => u == uid,
            None => false,
        };
        if keep {
            let copy = t.clone();
            r.push(copy);
            proof {
                assert(view_all(r@) =~= pres.push(tags@[i as int]@));
            }
        }
        proof {
            reveal_with_fuel(Seq::filter, 2);
            assert(sub1.drop_last() =~= view_all(tags@).subrange(0, i as int));
            assert(sub1.last() == view_all(tags@)[i as int]);
        }
        i = i + 1;
    }
    proof {
        assert(view_all(tags@).subrange(0, tags@.len() as int) =~= view_all(tags@));
    }
    r
}

fn filter_tasks_owned(tasks: &Vec<Task>, uid: u64) -> (r: Vec<Task>)
    ensures
        view_all(r@) == owned_tasks(view_all(tasks@), uid),
{
    let mut r: Vec<Task> = Vec::new();
    let mut i: usize = 0;
    proof {
        reveal_with_fuel(Seq::filter, 2);
        assert(view_all(tasks@).subrange(0, 0) =~= Seq::<TaskV>::empty());
        assert(view_all(r@) =~= Seq::<TaskV>::empty());
    }
    while i < tasks.len()
        invariant
            i <= tasks@.len(),
            view_all(r@) == owned_tasks(view_all(tasks@).subrange(0, i as int), uid),
        decreases tasks@.len() - i,
    {
        let ghost pres = view_all(r@);
        let ghost sub1 = view_all(tasks@).subrange(0, i + 1 as int);
        let t = &tasks[i];
        assert(view_all(tasks@)[i as int] == tasks@[i as int]@);
        let keep = match t.user {
            Some(u) => u == uid,
            None => false,
        };
        if keep {
            let copy = t.clone();
            r.push(copy);
            proof {
                assert(view_all(r@) =~= pres.push(tasks@[i as int]@));
            }
        }
        proof {
            reveal_with_fuel(Seq::filter, 2);
            assert(sub1.drop_last() =~= view_all(tasks@).subrange(0, i as int));
            assert(sub1.last() == view_all(tasks@)[i as int]);
        }
        i = i + 1;
    }
    proof {
        assert(view_all(tasks@).subrange(0, tasks@.len() as int) =~= view_all(tasks@));
    }
    r
}

fn filter_tasks_kept(tasks: &Vec<Task>, ids: &Vec<u64>) -> (r: Vec<Task>)
    ensures
        view_all(r@) == view_all(tasks@).filter(task_kept_pred(ids@)),
{
    let mut r: Vec<Task> = Vec::new();
    let mut i: usize = 0;
    proof {
        reveal_with_fuel(Seq::filter, 2);
        assert(view_all(tasks@).subrange(0, 0) =~= Seq::<TaskV>::empty());
        assert(view_all(r@) =~= Seq::<TaskV>::empty());
    }
    while i < tasks.len()
        invariant
            i <= tasks@.len(),
            view_all(r@) == view_all(tasks@).subrange(0, i as int).filter(task_kept_pred(ids@)),
        decreases tasks@.len() - i,
    {
        let ghost pres = view_all(r@);
        let ghost sub1 = view_all(tasks@).subrange(0, i + 1 as int);
        let t = &tasks[i];
        assert(view_all(tasks@)[i as int] == tasks@[i as int]@);
        if !contains_id(ids, t.id) {
            let copy = t.clone();
            r.push(copy);
            proof {
                assert(view_all(r@) =~= pres.push(tasks@[i as int]@));
            }
        }
        proof {
            reveal_with_fuel(Seq::filter, 2);
            assert(sub1.drop_last() =~= view_all(tasks@).subrange(0, i as int));
            assert(sub1.last() == view_all(tasks@)[i as int]);
        }
        i = i + 1;
    }
    proof {
        assert(view_all(tasks@).subrange(0, tasks@.len() as int) =~= view_all(tasks@));
    }
    r
}

fn filter_events_kept(events: &Vec<Event>, ids: &Vec<u64>) -> (r: Vec<Event>)
    ensures
        view_all(r@) == view_all(events@).filter(event_kept_pred(ids@)),
{
    let mut r: Vec<Event> = Vec::new();
    let mut i: usize = 0;
    proof {
        reveal_with_fuel(Seq::filter, 2);
        assert(view_all(events@).subrange(0, 0) =~= Seq::<EventV>::empty());
        assert(view_all(r@) =~= Seq::<EventV>::empty());
    }
    while i < events.len()
        invariant
            i <= events@.len(),
            view_all(r@) == view_all(events@).subrange(0, i as int).filter(event_kept_pred(ids@)),
        decreases events@.len() - i,
    {
        let ghost pres = view_all(r@);
        let ghost sub1 = view_all(events@).subrange(0, i + 1 as int);
        let e = events[i];
        assert(view_all(events@)[i as int] == events@[i as int]@);
        if !contains_id(ids, e.id) {
            r.push(e);
            proof {
                assert(view_all(r@) =~= pres.push(e@));
            }
        }
        proof {
            reveal_with_fuel(Seq::filter, 2);
            assert(sub1.drop_last() =~= view_all(events@).subrange(0, i as int));
            assert(sub1.last() == view_all(events@)[i as int]);
        }
        i = i + 1;
    }
    proof {
        assert(view_all(events@).subrange(0, events@.len() as int) =~= view_all(events@));
    }
    r
}

fn filter_tags_kept(tags: &Vec<Tag>, ids: &Vec<u64>) -> (r: Vec<Tag>)
    ensures
        view_all(r@) == view_all(tags@).filter(tag_kept_pred(ids@)),
{
    let mut r: Vec<Tag> = Vec::new();
    let mut i: usize = 0;
    proof {
        reveal_with_fuel(Seq::filter, 2);
        assert(view_all(tags@).subrange(0, 0) =~= Seq::<TagV>::empty());
        assert(view_all(r@) =~= Seq::<TagV>::empty());
    }
    while i < tags.len()
        invariant
            i <= tags@.len(),
            view_all(r@) == view_all(tags@).subrange(0, i as int).filter(tag_kept_pred(ids@)),
        decreases tags@.len() - i,
    {
        let ghost pres = view_all(r@);
        let ghost sub1 = view_all(tags@).subrange(0, i + 1 as int);
        let t = &tags[i];
        assert(view_all(tags@)[i as int] == tags@[i as int]@);
        if !contains_id(ids, t.id) {
            let copy = t.clone();
            r.push(copy);
            proof {
                assert(view_all(r@) =~= pres.push(tags@[i as int]@));
            }
        }
        proof {
            reveal_with_fuel(Seq::filter, 2);
            assert(sub1.drop_last() =~= view_all(tags@).subrange(0, i as int));
            assert(sub1.last() == view_all(tags@)[i as int]);
        }
        i = i + 1;
    }
    proof {
        assert(view_all(tags@).subrange(0, tags@.len() as int) =~= view_all(tags@));
    }
    r
}

fn filter_tasks_not_owned(tasks: &Vec<Task>, uid: u64) -> (r: Vec<Task>)
    ensures
        view_all(r@) == view_all(tasks@).filter(task_not_owned_pred(uid)),
{
    let mut r: Vec<Task> = Vec::new();
    let mut i: usize = 0;
    proof {
        reveal_with_fuel(Seq::filter, 2);
        assert(view_all(tasks@).subrange(0, 0) =~= Seq::<TaskV>::empty());
        assert(view_all(r@) =~= Seq::<TaskV>::empty());
    }
    while i < tasks.len()
        invariant
            i <= tasks@.len(),
            view_all(r@) == view_all(tasks@).subrange(0, i as int).filter(
                task_not_owned_pred(uid),
            ),
        decreases tasks@.len() - i,
    {
        let ghost pres = view_all(r@);
        let ghost sub1 = view_all(tasks@).subrange(0, i + 1 as int);
        let t = &tasks[i];
        assert(view_all(tasks@)[i as int] == tasks@[i as int]@);
        let keep = match t.user {
            Some(u) => u != uid,
            None => true,
        };
        if keep {
            let copy = t.clone();
            r.push(copy);
            proof {
                assert(view_all(r@) =~= pres.push(tasks@[i as int]@));
            }
        }
        proof {
            reveal_with_fuel(Seq::filter, 2);
            assert(sub1.drop_last() =~= view_all(tasks@).subrange(0, i as int));
            assert(sub1.last() == view_all(tasks@)[i as int]);
        }
        i = i + 1;
    }
    proof {
        assert(view_all(tasks@).subrange(0, tasks@.len() as int) =~= view_all(tasks@));
    }
    r
}

fn filter_events_not_owned(events: &Vec<Event>, uid: u64) -> (r: Vec<Event>)
    ensures
        view_all(r@) == view_all(events@).filter(event_not_owned_pred(uid)),
{
    let mut r: Vec<Event> = Vec::new();
    let mut i: usize = 0;
    proof {
        reveal_with_fuel(Seq::filter, 2);
        assert(view_all(events@).subrange(0, 0) =~= Seq::<EventV>::empty());
        assert(view_all(r@) =~= Seq::<EventV>::empty());
    }
    while i < events.len()
        invariant
            i <= events@.len(),
            view_all(r@) == view_all(events@).subrange(0, i as int).filter(
                event_not_owned_pred(uid),
            ),
        decreases events@.len() - i,
    {
        let ghost pres = view_all(r@);
        let ghost sub1 = view_all(events@).subrange(0, i + 1 as int);
        let e = events[i];
        assert(view_all(events@)[i as int] == events@[i as int]@);
        let keep = match e.user {
            Some(u) => u != uid,
            None => true,
        };
        if keep {
            r.push(e);
            proof {
                assert(view_all(r@) =~= pres.push(e@));
            }
        }
        proof {
            reveal_with_fuel(Seq::filter, 2);
            assert(sub1.drop_last() =~= view_all(events@).subrange(0, i as int));
            assert(sub1.last() == view_all(events@)[i as int]);
        }
        i = i + 1;
    }
    proof {
        assert(view_all(events@).subrange(0, events@.len() as int) =~= view_all(events@));
    }
    r
}

fn filter_tags_not_owned(tags: &Vec<Tag>, uid: u64) -> (r: Vec<Tag>)
    ensures
        view_all(r@) == view_all(tags@).filter(tag_not_owned_pred(uid)),
{
    let mut r: Vec<Tag> = Vec::new();
    let mut i: usize = 0;
    proof {
        reveal_with_fuel(Seq::filter, 2);
        assert(view_all(tags@).subrange(0, 0) =~= Seq::<TagV>::empty());
        assert(view_all(r@) =~= Seq::<TagV>::empty());
    }
    while i < tags.len()
        invariant
            i <= tags@.len(),
            view_all(r@) == view_all(tags@).subrange(0, i as int).filter(tag_not_owned_pred(uid)),
        decreases tags@.len() - i,
    {
        let ghost pres = view_all(r@);
        let ghost sub1 = view_all(tags@).subrange(0, i + 1 as int);
        let t = &tags[i];
        assert(view_all(tags@)[i as int] == tags@[i as int]@);
        let keep = match t.user {
            Some(u) => u != uid,
            None => true,
        };
        if keep {
            let copy = t.clone();
            r.push(copy);
            proof {
                assert(view_all(r@) =~= pres.push(tags@[i as int]@));
            }
        }
        proof {
            reveal_with_fuel(Seq::filter, 2);
            assert(sub1.drop_last() =~= view_all(tags@).subrange(0, i as int));
            assert(sub1.last() == view_all(tags@)[i as int]);
        }
        i = i + 1;
    }
    proof {
        assert(view_all(tags@).subrange(0, tags@.len() as int) =~= view_all(tags@));
    }
    r
}

// ---------------------------------------------------------------------------
// Batch deletion predicates
// ---------------------------------------------------------------------------

pub open spec fn task_kept_pred(ids: Seq<u64>) -> spec_fn(TaskV) -> bool {
    |t: TaskV| !ids.contains(t.id)
}

pub open spec fn event_kept_pred(ids: Seq<u64>) -> spec_fn(EventV) -> bool {
    |e: EventV| !ids.contains(e.id)
}

pub open spec fn tag_kept_pred(ids: Seq<u64>) -> spec_fn(TagV) -> bool {
    |t: TagV| !ids.contains(t.id)
}

pub open spec fn task_not_owned_pred(uid: u64) -> spec_fn(TaskV) -> bool {
    |t: TaskV| t.user != Some(uid)
}

pub open spec fn event_not_owned_pred(uid: u64) -> spec_fn(EventV) -> bool {
    |e: EventV| e.user != Some(uid)
}

pub open spec fn tag_not_owned_pred(uid: u64) -> spec_fn(TagV) -> bool {
    |t: TagV| t.user != Some(uid)
}

/// Every stored task the id list addresses belongs to `uid`: only then may
/// the batch proceed.
pub open spec fn tasks_batch_allowed(tasks: Seq<TaskV>, ids: Seq<u64>, uid: u64) -> bool {
    forall|k: int|
        0 <= k < tasks.len() && ids.contains((#[trigger] tasks[k]).id) ==> tasks[k].user == Some(
            uid,
        )
}

pub open spec fn events_batch_allowed(events: Seq<EventV>, ids: Seq<u64>, uid: u64) -> bool {
    forall|k: int|
        0 <= k < events.len() && ids.contains((#[trigger] events[k]).id) ==> events[k].user
            == Some(uid)
}

pub open spec fn tags_batch_allowed(tags: Seq<TagV>, ids: Seq<u64>, uid: u64) -> bool {
    forall|k: int|
        0 <= k < tags.len() && ids.contains((#[trigger] tags[k]).id) ==> tags[k].user == Some(uid)
}

fn contains_id(ids: &Vec<u64>, id: u64) -> (r: bool)
    ensures
        r == ids@.contains(id),
{
    let n = ids.len();
    let mut i: usize = 0;
    while i < n
        invariant
            i <= n,
            n == ids@.len(),
            forall|k: int| 0 <= k < i ==> ids@[k] != id,
        decreases n - i,
    {
        if ids[i] == id {
            return true;
        }
        i = i + 1;
    }
    false
}

// ---------------------------------------------------------------------------
// Well-formedness is preserved by every mutation the actions make
// ---------------------------------------------------------------------------

pub proof fn lemma_wf_update_user(s: StoreV, j: int, u: UserV)
    requires
        s.wf(),
        0 <= j < s.users.len(),
        u.id == s.users[j].id,
        u.apple_user_id == s.users[j].apple_user_id,
    ensures
        (StoreV { users: s.users.update(j, u), ..s }).wf(),
{
    let r = StoreV { users: s.users.update(j, u), ..s };
    assert forall|i: int| 0 <= i < r.users.len() implies (#[trigger] r.users[i]).id
        < r.next_id by {
        if i != j {
            assert(r.users[i] == s.users[i]);
        }
    }
}

pub proof fn lemma_wf_update_task(s: StoreV, j: int, t: TaskV)
    requires
        s.wf(),
        0 <= j < s.tasks.len(),
        t.id == s.tasks[j].id,
    ensures
        (StoreV { tasks: s.tasks.update(j, t), ..s }).wf(),
{
    let r = StoreV { tasks: s.tasks.update(j, t), ..s };
    assert forall|i: int| 0 <= i < r.tasks.len() implies (#[trigger] r.tasks[i]).id
        < r.next_id by {
        if i != j {
            assert(r.tasks[i] == s.tasks[i]);
        }
    }
}

pub proof fn lemma_wf_update_event(s: StoreV, j: int, e: EventV)
    requires
        s.wf(),
        0 <= j < s.events.len(),
        e.id == s.events[j].id,
    ensures
        (StoreV { events: s.events.update(j, e), ..s }).wf(),
{
    let r = StoreV { events: s.events.update(j, e), ..s };
    assert forall|i: int| 0 <= i < r.events.len() implies (#[trigger] r.events[i]).id
        < r.next_id by {
        if i != j {
            assert(r.events[i] == s.events[i]);
        }
    }
}

pub proof fn lemma_wf_update_tag(s: StoreV, j: int, t: TagV)
    requires
        s.wf(),
        0 <= j < s.tags.len(),
        t.id == s.tags[j].id,
    ensures
        (StoreV { tags: s.tags.update(j, t), ..s }).wf(),
{
    let r = StoreV { tags: s.tags.update(j, t), ..s };
    assert forall|i: int| 0 <= i < r.tags.len() implies (#[trigger] r.tags[i]).id < r.next_id by {
        if i != j {
            assert(r.tags[i] == s.tags[i]);
        }
    }
}

pub proof fn lemma_wf_push_task(s: StoreV, t: TaskV)
    requires
        s.wf(),
        t.id == s.next_id,
        s.next_id < u64::MAX,
    ensures
        (StoreV { tasks: s.tasks.push(t), next_id: (s.next_id + 1) as u64, ..s }).wf(),
{
    let r = StoreV { tasks: s.tasks.push(t), next_id: (s.next_id + 1) as u64, ..s };
    assert forall|i: int| 0 <= i < r.tasks.len() implies (#[trigger] r.tasks[i]).id
        < r.next_id by {
        if i < s.tasks.len() {
            assert(r.tasks[i] == s.tasks[i]);
        }
    }
    assert forall|i: int, j: int| 0 <= i < j < r.tasks.len() implies (#[trigger] r.tasks[i]).id
        != (#[trigger] r.tasks[j]).id by {
        if j < s.tasks.len() {
            assert(r.tasks[i] == s.tasks[i] && r.tasks[j] == s.tasks[j]);
        } else {
            assert(r.tasks[j] == t);
            assert(r.tasks[i] == s.tasks[i]);
        }
    }
}

pub proof fn lemma_wf_push_event(s: StoreV, e: EventV)
    requires
        s.wf(),
        e.id == s.next_id,
        s.next_id < u64::MAX,
    ensures
        (StoreV { events: s.events.push(e), next_id: (s.next_id + 1) as u64, ..s }).wf(),
{
    let r = StoreV { events: s.events.push(e), next_id: (s.next_id + 1) as u64, ..s };
    assert forall|i: int| 0 <= i < r.events.len() implies (#[trigger] r.events[i]).id
        < r.next_id by {
        if i < s.events.len() {
            assert(r.events[i] == s.events[i]);
        }
    }
    assert forall|i: int, j: int| 0 <= i < j < r.events.len() implies (#[trigger] r.events[i]).id
        != (#[trigger] r.events[j]).id by {
        if j < s.events.len() {
            assert(r.events[i] == s.events[i] && r.events[j] == s.events[j]);
        } else {
            assert(r.events[j] == e);
            assert(r.events[i] == s.events[i]);
        }
    }
}

pub proof fn lemma_wf_push_tag(s: StoreV, t: TagV)
    requires
        s.wf(),
        t.id == s.next_id,
        s.next_id < u64::MAX,
    ensures
        (StoreV { tags: s.tags.push(t), next_id: (s.next_id + 1) as u64, ..s }).wf(),
{
    let r = StoreV { tags: s.tags.push(t), next_id: (s.next_id + 1) as u64, ..s };
    assert forall|i: int| 0 <= i < r.tags.len() implies (#[trigger] r.tags[i]).id < r.next_id by {
        if i < s.tags.len() {
            assert(r.tags[i] == s.tags[i]);
        }
    }
    assert forall|i: int, j: int| 0 <= i < j < r.tags.len() implies (#[trigger] r.tags[i]).id != (
    #[trigger] r.tags[j]).id by {
        if j < s.tags.len() {
            assert(r.tags[i] == s.tags[i] && r.tags[j] == s.tags[j]);
        } else {
            assert(r.tags[j] == t);
            assert(r.tags[i] == s.tags[i]);
        }
    }
}

pub proof fn lemma_wf_push_user(s: StoreV, u: UserV)
    requires
        s.wf(),
        u.id == s.next_id,
        s.next_id < u64::MAX,
        forall|k: int|
            0 <= k < s.users.len() ==> (#[trigger] s.users[k]).apple_user_id != u.apple_user_id,
    ensures
        (StoreV { users: s.users.push(u), next_id: (s.next_id + 1) as u64, ..s }).wf(),
{
    let r = StoreV { users: s.users.push(u), next_id: (s.next_id + 1) as u64, ..s };
    assert forall|i: int| 0 <= i < r.users.len() implies (#[trigger] r.users[i]).id
        < r.next_id by {
        if i < s.users.len() {
            assert(r.users[i] == s.users[i]);
        }
    }
    assert forall|i: int, j: int| 0 <= i < j < r.users.len() implies (#[trigger] r.users[i]).id
        != (#[trigger] r.users[j]).id by {
        if j < s.users.len() {
            assert(r.users[i] == s.users[i] && r.users[j] == s.users[j]);
        } else {
            assert(r.users[j] == u);
            assert(r.users[i] == s.users[i]);
        }
    }
    assert forall|i: int, j: int|
        0 <= i < j < r.users.len() implies (#[trigger] r.users[i]).apple_user_id != (
    #[trigger] r.users[j]).apple_user_id by {
        if j < s.users.len() {
            assert(r.users[i] == s.users[i] && r.users[j] == s.users[j]);
        } else {
            assert(r.users[j] == u);
            assert(r.users[i] == s.users[i]);
        }
    }
}

pub proof fn lemma_wf_filter_tasks(s: StoreV, p: spec_fn(TaskV) -> bool)
    requires
        s.wf(),
    ensures
        (StoreV { tasks: s.tasks.filter(p), ..s }).wf(),
{
    let r = StoreV { tasks: s.tasks.filter(p), ..s };
    lemma_filter_sub(s.tasks, p);
    lemma_filter_keeps_distinct(s.tasks, p, |t: TaskV| t.id);
    assert forall|i: int| 0 <= i < r.tasks.len() implies (#[trigger] r.tasks[i]).id
        < r.next_id by {
        assert(s.tasks.contains(s.tasks.filter(p)[i]));
        let w = choose|w: int| 0 <= w < s.tasks.len() && s.tasks[w] == s.tasks.filter(p)[i];
        assert(s.tasks[w].id < s.next_id);
    }
}

pub proof fn lemma_wf_filter_events(s: StoreV, p: spec_fn(EventV) -> bool)
    requires
        s.wf(),
    ensures
        (StoreV { events: s.events.filter(p), ..s }).wf(),
{
    let r = StoreV { events: s.events.filter(p), ..s };
    lemma_filter_sub(s.events, p);
    lemma_filter_keeps_distinct(s.events, p, |e: EventV| e.id);
    assert forall|i: int| 0 <= i < r.events.len() implies (#[trigger] r.events[i]).id
        < r.next_id by {
        assert(s.events.contains(s.events.filter(p)[i]));
        let w = choose|w: int| 0 <= w < s.events.len() && s.events[w] == s.events.filter(p)[i];
        assert(s.events[w].id < s.next_id);
    }
}

pub proof fn lemma_wf_filter_tags(s: StoreV, p: spec_fn(TagV) -> bool)
    requires
        s.wf(),
    ensures
        (StoreV { tags: s.tags.filter(p), ..s }).wf(),
{
    let r = StoreV { tags: s.tags.filter(p), ..s };
    lemma_filter_sub(s.tags, p);
    lemma_filter_keeps_distinct(s.tags, p, |t: TagV| t.id);
    assert forall|i: int| 0 <= i < r.tags.len() implies (#[trigger] r.tags[i]).id < r.next_id by {
        assert(s.tags.contains(s.tags.filter(p)[i]));
        let w = choose|w: int| 0 <= w < s.tags.len() && s.tags[w] == s.tags.filter(p)[i];
        assert(s.tags[w].id < s.next_id);
    }
}

// ---------------------------------------------------------------------------
// Finding records by id
// ---------------------------------------------------------------------------

pub open spec fn task_id_pred(id: u64) -> spec_fn(TaskV) -> bool {
    |t: TaskV| t.id == id
}

pub open spec fn event_id_pred(id: u64) -> spec_fn(EventV) -> bool {
    |e: EventV| e.id == id
}

pub open spec fn tag_id_pred(id: u64) -> spec_fn(TagV) -> bool {
    |t: TagV| t.id == id
}

fn find_task_by_id(tasks: &Vec<Task>, id: u64) -> (r: Option<usize>)
    ensures
        match r {
            Some(i) => i < tasks@.len() && first_where(view_all(tasks@), task_id_pred(id)) == Some(
                i as int,
            ),
            None => first_where(view_all(tasks@), task_id_pred(id)) is None,
        },
{
    let n = tasks.len();
    let mut i: usize = 0;
    while i < n
        invariant
            i <= n,
            n == tasks@.len(),
            first_where(view_all(tasks@), task_id_pred(id)) == first_where_from(
                view_all(tasks@),
                task_id_pred(id),
                i as int,
            ),
        decreases n - i,
    {
        assert(view_all(tasks@)[i as int] == tasks@[i as int]@);
        if tasks[i].id == id {
            return Some(i);
        }
        i = i + 1;
    }
    None
}

fn find_event_by_id(events: &Vec<Event>, id: u64) -> (r: Option<usize>)
    ensures
        match r {
            Some(i) => i < events@.len() && first_where(view_all(events@), event_id_pred(id))
                == Some(i as int),
            None => first_where(view_all(events@), event_id_pred(id)) is None,
        },
{
    let n = events.len();
    let mut i: usize = 0;
    while i < n
        invariant
            i <= n,
            n == events@.len(),
            first_where(view_all(events@), event_id_pred(id)) == first_where_from(
                view_all(events@),
                event_id_pred(id),
                i as int,
            ),
        decreases n - i,
    {
        assert(view_all(events@)[i as int] == events@[i as int]@);
        if events[i].id == id {
            return Some(i);
        }
        i = i + 1;
    }
    None
}

fn find_tag_by_id(tags: &Vec<Tag>, id: u64) -> (r: Option<usize>)
    ensures
        match r {
            Some(i) => i < tags@.len() && first_where(view_all(tags@), tag_id_pred(id)) == Some(
                i as int,
            ),
            None => first_where(view_all(tags@), tag_id_pred(id)) is None,
        },
{
    let n = tags.len();
    let mut i: usize = 0;
    while i < n
        invariant
            i <= n,
            n == tags@.len(),
            first_where(view_all(tags@), tag_id_pred(id)) == first_where_from(
                view_all(tags@),
                tag_id_pred(id),
                i as int,
            ),
        decreases n - i,
    {
        assert(view_all(tags@)[i as int] == tags@[i as int]@);
        if tags[i].id == id {
            return Some(i);
        }
        i = i + 1;
    }
    None
}

// ---------------------------------------------------------------------------
// Read endpoints
// ---------------------------------------------------------------------------

/// A missing limit or offset defaults to zero.
pub open spec fn or_zero(o: Option<u32>) -> u32 {
    match o {
        Some(x) => x,
        None => 0,
    }
}

/// What the event listing returns: the caller's events, newest first with
/// descending id as the tie break, skipped and limited as a find is (a zero
/// limit leaves the tail unbounded).
pub open spec fn events_listing_spec(
    events: Seq<EventV>,
    uid: u64,
    offset: nat,
    limit: nat,
) -> Seq<EventV> {
    find_page_spec(sort_ord::<Event>(owned_events(events, uid)), offset, limit)
}

/// What the tag listing returns: the caller's tags in ascending name order
/// with descending id as the tie break, skipped and limited as a find is.
pub open spec fn tags_listing_spec(tags: Seq<TagV>, uid: u64, offset: nat, limit: nat) -> Seq<
    TagV,
> {
    find_page_spec(sort_ord::<Tag>(owned_tags(tags, uid)), offset, limit)
}

/// An event with its parent task's name in place of the task id; the name is
/// absent when no task carries that id any more.
pub open spec fn with_task_name(e: EventV, tasks: Seq<TaskV>) -> EventWithTaskNameV {
    EventWithTaskNameV {
        id: e.id,
        task: match first_where(tasks, task_id_pred(e.task)) {
            Some(j) => Some(tasks[j].name),
            None => None,
        },
        date: e.date,
    }
}

/// The event listing, each entry carrying its task's name.
pub open spec fn events_string_listing_spec(
    events: Seq<EventV>,
    tasks: Seq<TaskV>,
    uid: u64,
    offset: nat,
    limit: nat,
) -> Seq<EventWithTaskNameV> {
    let page = events_listing_spec(events, uid, offset, limit);
    Seq::new(page.len(), |i: int| with_task_name(page[i], tasks))
}

impl Store {
    /// Look up the caller's own user record, scoped by subject id.
    pub fn read_user_action(&self, header: &str, user_data: &UserData) -> (r: Result<
        User,
        ApiError,
    >)
        ensures
            match token_subject_auth(self@.users, header@, user_data.apple_user_id@) {
                Err(e) => r matches Err(e2) && e2 == e,
                Ok(i) => r matches Ok(u) && u@ == self@.users[i],
            },
    {
        match self.authenticate_with_subject(header, &user_data.apple_user_id) {
            Err(e) => Err(e),
            Ok(i) => {
                assert(self.users@[i as int]@ == self@.users[i as int]);
                Ok(self.users[i].clone())
            },
        }
    }

    /// The ranked task listing: the caller's tasks annotated with latest
    /// event date and moss, sorted by descending moss (absent moss last,
    /// descending id as tie break), then skipped and limited; a limit of
    /// zero returns nothing.
    pub fn read_tasks_action(
        &self,
        header: &str,
        limit: Option<u32>,
        offset: Option<u32>,
        now: i64,
    ) -> (r: Result<Vec<RankedTask>, ApiError>)
        ensures
            match token_auth(self@.users, header@) {
                Err(e) => r matches Err(e2) && e2 == e,
                Ok(i) => r matches Ok(v) && view_all(v@) == ranked_listing_spec(
                    self@.tasks,
                    self@.events,
                    self@.users[i].id,
                    now,
                    or_zero(offset) as nat,
                    or_zero(limit) as nat,
                ),
            },
    {
        let limit = match limit {
            Some(l) => l,
            None => 0,
        };
        let offset = match offset {
            Some(o) => o,
            None => 0,
        };
        match self.authenticate(header) {
            Err(e) => Err(e),
            Ok(i) => {
                assert(self.users@[i as int]@ == self@.users[i as int]);
                let uid = self.users[i].id;
                Ok(ranked_listing(&self.tasks, &self.events, uid, now, offset, limit))
            },
        }
    }

    /// The event listing, newest first.
    pub fn read_events_action(&self, header: &str, limit: Option<u32>, offset: Option<u32>) -> (r:
        Result<Vec<Event>, ApiError>)
        ensures
            match token_auth(self@.users, header@) {
                Err(e) => r matches Err(e2) && e2 == e,
                Ok(i) => r matches Ok(v) && view_all(v@) == events_listing_spec(
                    self@.events,
                    self@.users[i].id,
                    or_zero(offset) as nat,
                    or_zero(limit) as nat,
                ),
            },
    {
        let limit = match limit {
            Some(l) => l,
            None => 0,
        };
        let offset = match offset {
            Some(o) => o,
            None => 0,
        };
        match self.authenticate(header) {
            Err(e) => Err(e),
            Ok(i) => {
                assert(self.users@[i as int]@ == self@.users[i as int]);
                let uid = self.users[i].id;
                let owned = filter_events_owned(&self.events, uid);
                let sorted = sort_records(owned);
                let ghost sv = view_all(sorted@);
                let paged = take_find_page(sorted, offset, limit);
                proof {
                    assert(view_all(paged@) =~= find_page_spec(sv, offset as nat, limit as nat));
                }
                Ok(paged)
            },
        }
    }

    /// The event listing with task names resolved per entry; an entry whose
    /// task no longer exists carries no name.
    pub fn read_events_string_action(
        &self,
        header: &str,
        limit: Option<u32>,
        offset: Option<u32>,
    ) -> (r: Result<Vec<EventWithTaskName>, ApiError>)
        ensures
            match token_auth(self@.users, header@) {
                Err(e) => r matches Err(e2) && e2 == e,
                Ok(i) => r matches Ok(v) && view_all(v@) == events_string_listing_spec(
                    self@.events,
                    self@.tasks,
                    self@.users[i].id,
                    or_zero(offset) as nat,
                    or_zero(limit) as nat,
                ),
            },
    {
        let limit = match limit {
            Some(l) => l,
            None => 0,
        };
        let offset = match offset {
            Some(o) => o,
            None => 0,
        };
        match self.authenticate(header) {
            Err(e) => Err(e),
            Ok(i) => {
                assert(self.users@[i as int]@ == self@.users[i as int]);
                let uid = self.users[i].id;
                let owned = filter_events_owned(&self.events, uid);
                let sorted = sort_records(owned);
                let ghost sv = view_all(sorted@);
                let page = take_find_page(sorted, offset, limit);
                proof {
                    assert(view_all(page@) =~= find_page_spec(sv, offset as nat, limit as nat));
                }
                let ghost pv = view_all(page@);
                let mut out: Vec<EventWithTaskName> = Vec::new();
                let mut k: usize = 0;
                proof {
                    assert(view_all(out@) =~= Seq::new(0, |j: int| with_task_name(pv[j], self@.tasks)));
                }
                while k < page.len()
                    invariant
                        k <= page@.len(),
                        pv == view_all(page@),
                        view_all(out@) == Seq::new(
                            k as nat,
                            |j: int| with_task_name(pv[j], self@.tasks),
                        ),
                    decreases page@.len() - k,
                {
                    let ghost pres = view_all(out@);
                    let e = page[k];
                    assert(view_all(page@)[k as int] == page@[k as int]@);
                    let name = match find_task_by_id(&self.tasks, e.task) {
                        Some(j) => {
                            assert(self.tasks@[j as int]@ == self@.tasks[j as int]);
                            Some(self.tasks[j].name.clone())
                        },
                        None => None,
                    };
                    let entry = EventWithTaskName { id: e.id, task: name, date: e.date };
                    assert(entry@ == with_task_name(pv[k as int], self@.tasks));
                    out.push(entry);
                    proof {
                        assert(view_all(out@) =~= pres.push(entry@));
                        assert(view_all(out@) =~= Seq::new(
                            (k + 1) as nat,
                            |j: int| with_task_name(pv[j], self@.tasks),
                        ));
                    }
                    k = k + 1;
                }
                proof {
                    assert(view_all(out@) =~= events_string_listing_spec(
                        self@.events,
                        self@.tasks,
                        uid,
                        offset as nat,
                        limit as nat,
                    ));
                }
                Ok(out)
            },
        }
    }

    /// Update the caller's display preferences and nothing else.
    pub fn update_user_theme_action(&mut self, header: &str, theme: &UserThemeData) -> (r: Result<
        (),
        ApiError,
    >)
        requires
            old(self)@.wf(),
        ensures
            final(self)@.wf(),
            match token_subject_auth(old(self)@.users, header@, theme.apple_user_id@) {
                Err(e) => r matches Err(e2) && e2 == e && final(self)@ == old(self)@,
                Ok(i) => r == Ok::<(), ApiError>(()) && final(self)@ == (StoreV {
                    users: old(self)@.users.update(
                        i,
                        (UserV {
                            should_color_scheme_use_system: theme.should_color_scheme_use_system,
                            is_color_scheme_dark_mode: theme.is_color_scheme_dark_mode,
                            color_theme: theme.color_theme,
                            ..old(self)@.users[i]
                        }),
                    ),
                    ..old(self)@
                }),
            },
    {
        match self.authenticate_with_subject(header, &theme.apple_user_id) {
            Err(e) => Err(e),
            Ok(i) => {
                assert(self.users@[i as int]@ == self@.users[i as int]);
                let u = &self.users[i];
                let updated = User {
                    id: u.id,
                    email: u.email.clone(),
                    apple_user_id: u.apple_user_id.clone(),
                    token: u.token.clone(),
                    is_admin: u.is_admin,
                    should_color_scheme_use_system: theme.should_color_scheme_use_system,
                    is_color_scheme_dark_mode: theme.is_color_scheme_dark_mode,
                    color_theme: theme.color_theme,
                };
                let ghost uv = updated@;
                proof {
                    lemma_wf_update_user(self@, i as int, uv);
                }
                self.users.set(i, updated);
                proof {
                    assert(view_all(self.users@) =~= old(self)@.users.update(i as int, uv));
                }
                Ok(())
            },
        }
    }

    /// Create a task owned by the caller; its id is the allocated record id.
    pub fn create_task_action(&mut self, header: &str, task_data: NewTaskData) -> (r: Result<
        u64,
        ApiError,
    >)
        requires
            old(self)@.wf(),
            old(self)@.next_id < u64::MAX,
        ensures
            final(self)@.wf(),
            match token_auth(old(self)@.users, header@) {
                Err(e) => r matches Err(e2) && e2 == e && final(self)@ == old(self)@,
                Ok(i) => r == Ok::<u64, ApiError>(old(self)@.next_id) && final(self)@ == (StoreV {
                    tasks: old(self)@.tasks.push(
                        (TaskV {
                            id: old(self)@.next_id,
                            name: task_data@.name,
                            frequency: task_data.frequency,
                            tags: task_data@.tags,
                            user: Some(old(self)@.users[i].id),
                        }),
                    ),
                    next_id: (old(self)@.next_id + 1) as u64,
                    ..old(self)@
                }),
            },
    {
        match self.authenticate(header) {
            Err(e) => Err(e),
            Ok(i) => {
                assert(self.users@[i as int]@ == self@.users[i as int]);
                let uid = self.users[i].id;
                let id = self.next_id;
                let t = Task {
                    id,
                    name: task_data.name,
                    frequency: task_data.frequency,
                    tags: task_data.tags,
                    user: Some(uid),
                };
                let ghost tv = t@;
                proof {
                    lemma_wf_push_task(self@, tv);
                }
                self.tasks.push(t);
                self.next_id = id + 1;
                proof {
                    assert(view_all(self.tasks@) =~= old(self)@.tasks.push(tv));
                }
                Ok(id)
            },
        }
    }

    /// Create an event owned by the caller; the date arrives as RFC 3339
    /// text and is stored as milliseconds since the Unix epoch.
    pub fn create_event_action(&mut self, header: &str, event_data: NewEventData) -> (r: Result<
        u64,
        ApiError,
    >)
        requires
            old(self)@.wf(),
            old(self)@.next_id < u64::MAX,
        ensures
            final(self)@.wf(),
            match token_auth(old(self)@.users, header@) {
                Err(e) => r matches Err(e2) && e2 == e && final(self)@ == old(self)@,
                Ok(i) => match rfc3339_millis(event_data.date@) {
                    None => r == Err::<u64, ApiError>(ApiError::MalformedDate) && final(self)@
                        == old(self)@,
                    Some(ms) => r == Ok::<u64, ApiError>(old(self)@.next_id) && final(self)@ == (
                    StoreV {
                        events: old(self)@.events.push(
                            (EventV {
                                id: old(self)@.next_id,
                                task: event_data.task,
                                date: ms,
                                user: Some(old(self)@.users[i].id),
                            }),
                        ),
                        next_id: (old(self)@.next_id + 1) as u64,
                        ..old(self)@
                    }),
                },
            },
    {
        match self.authenticate(header) {
            Err(e) => Err(e),
            Ok(i) => {
                assert(self.users@[i as int]@ == self@.users[i as int]);
                let uid = self.users[i].id;
                let date = match parse_rfc3339(event_data.date.as_str()) {
                    Ok(ms) => ms,
                    Err(_) => {
                        return Err(ApiError::MalformedDate);
                    },
                };
                let id = self.next_id;
                let e = Event { id, task: event_data.task, date, user: Some(uid) };
                let ghost ev = e@;
                proof {
                    lemma_wf_push_event(self@, ev);
                }
                self.events.push(e);
                self.next_id = id + 1;
                proof {
                    assert(view_all(self.events@) =~= old(self)@.events.push(ev));
                }
                Ok(id)
            },
        }
    }

    /// Create a tag owned by the caller.
    pub fn create_tag_action(&mut self, header: &str, tag_data: NewTagData) -> (r: Result<
        u64,
        ApiError,
    >)
        requires
            old(self)@.wf(),
            old(self)@.next_id < u64::MAX,
        ensures
            final(self)@.wf(),
            match token_auth(old(self)@.users, header@) {
                Err(e) => r matches Err(e2) && e2 == e && final(self)@ == old(self)@,
                Ok(i) => r == Ok::<u64, ApiError>(old(self)@.next_id) && final(self)@ == (StoreV {
                    tags: old(self)@.tags.push(
                        (TagV {
                            id: old(self)@.next_id,
                            name: tag_data@.name,
                            description: tag_data@.description,
                            parent_tag: tag_data.parent_tag,
                            user: Some(old(self)@.users[i].id),
                        }),
                    ),
                    next_id: (old(self)@.next_id + 1) as u64,
                    ..old(self)@
                }),
            },
    {
        match self.authenticate(header) {
            Err(e) => Err(e),
            Ok(i) => {
                assert(self.users@[i as int]@ == self@.users[i as int]);
                let uid = self.users[i].id;
                let id = self.next_id;
                let t = Tag {
                    id,
                    name: tag_data.name,
                    description: tag_data.description,
                    parent_tag: tag_data.parent_tag,
                    user: Some(uid),
                };
                let ghost tv = t@;
                proof {
                    lemma_wf_push_tag(self@, tv);
                }
                self.tags.push(t);
                self.next_id = id + 1;
                proof {
                    assert(view_all(self.tags@) =~= old(self)@.tags.push(tv));
                }
                Ok(id)
            },
        }
    }

    /// Replace the name, frequency and tags of one of the caller's tasks;
    /// a task of another user is never touched.
    pub fn update_task_action(&mut self, header: &str, task_data: &Task) -> (r: Result<
        (),
        ApiError,
    >)
        requires
            old(self)@.wf(),
        ensures
            final(self)@.wf(),
            match token_auth(old(self)@.users, header@) {
                Err(e) => r matches Err(e2) && e2 == e && final(self)@ == old(self)@,
                Ok(i) => match first_where(old(self)@.tasks, task_id_pred(task_data.id)) {
                    None => r == Err::<(), ApiError>(ApiError::NotFound) && final(self)@ == old(self)@,
                    Some(j) => if old(self)@.tasks[j].user != Some(old(self)@.users[i].id) {
                        r == Err::<(), ApiError>(ApiError::Forbidden) && final(self)@ == old(self)@
                    } else {
                        r == Ok::<(), ApiError>(()) && final(self)@ == (StoreV {
                            tasks: old(self)@.tasks.update(
                                j,
                                (TaskV {
                                    name: task_data@.name,
                                    frequency: task_data.frequency,
                                    tags: task_data@.tags,
                                    ..old(self)@.tasks[j]
                                }),
                            ),
                            ..old(self)@
                        })
                    },
                },
            },
    {
        match self.authenticate(header) {
            Err(e) => Err(e),
            Ok(i) => {
                assert(self.users@[i as int]@ == self@.users[i as int]);
                let uid = self.users[i].id;
                match find_task_by_id(&self.tasks, task_data.id) {
                    None => Err(ApiError::NotFound),
                    Some(j) => {
                        assert(self.tasks@[j as int]@ == self@.tasks[j as int]);
                        let owned = match self.tasks[j].user {
                            Some(u) => u == uid,
                            None => false,
                        };
                        if !owned {
                            return Err(ApiError::Forbidden);
                        }
                        let updated = Task {
                            id: self.tasks[j].id,
                            name: task_data.name.clone(),
                            frequency: task_data.frequency,
                            tags: crate::model::copy_opt_id_list(&task_data.tags),
                            user: self.tasks[j].user,
                        };
                        let ghost tv = updated@;
                        proof {
                            lemma_wf_update_task(self@, j as int, tv);
                        }
                        self.tasks.set(j, updated);
                        proof {
                            assert(view_all(self.tasks@) =~= old(self)@.tasks.update(j as int, tv));
                        }
                        Ok(())
                    },
                }
            },
        }
    }

    /// Replace the date of one of the caller's events; an event of another
    /// user is never touched.
    pub fn update_event_action(&mut self, header: &str, event_data: &UpdateEventData) -> (r: Result<
        (),
        ApiError,
    >)
        requires
            old(self)@.wf(),
        ensures
            final(self)@.wf(),
            match token_auth(old(self)@.users, header@) {
                Err(e) => r matches Err(e2) && e2 == e && final(self)@ == old(self)@,
                Ok(i) => match first_where(old(self)@.events, event_id_pred(event_data.id)) {
                    None => r == Err::<(), ApiError>(ApiError::NotFound) && final(self)@ == old(self)@,
                    Some(j) => if old(self)@.events[j].user != Some(old(self)@.users[i].id) {
                        r == Err::<(), ApiError>(ApiError::Forbidden) && final(self)@ == old(self)@
                    } else {
                        match rfc3339_millis(event_data.date@) {
                            None => r == Err::<(), ApiError>(ApiError::MalformedDate) && final(self)@ == old(self)@,
                            Some(ms) => r == Ok::<(), ApiError>(()) && final(self)@ == (StoreV {
                                events: old(self)@.events.update(
                                    j,
                                    (EventV { date: ms, ..old(self)@.events[j] }),
                                ),
                                ..old(self)@
                            }),
                        }
                    },
                },
            },
    {
        match self.authenticate(header) {
            Err(e) => Err(e),
            Ok(i) => {
                assert(self.users@[i as int]@ == self@.users[i as int]);
                let uid = self.users[i].id;
                match find_event_by_id(&self.events, event_data.id) {
                    None => Err(ApiError::NotFound),
                    Some(j) => {
                        assert(self.events@[j as int]@ == self@.events[j as int]);
                        let owned = match self.events[j].user {
                            Some(u) => u == uid,
                            None => false,
                        };
                        if !owned {
                            return Err(ApiError::Forbidden);
                        }
                        let date = match parse_rfc3339(event_data.date.as_str()) {
                            Ok(ms) => ms,
                            Err(_) => {
                                return Err(ApiError::MalformedDate);
                            },
                        };
                        let updated = Event {
                            id: self.events[j].id,
                            task: self.events[j].task,
                            date,
                            user: self.events[j].user,
                        };
                        let ghost ev = updated@;
                        proof {
                            lemma_wf_update_event(self@, j as int, ev);
                        }
                        self.events.set(j, updated);
                        proof {
                            assert(view_all(self.events@) =~= old(self)@.events.update(
                                j as int,
                                ev,
                            ));
                        }
                        Ok(())
                    },
                }
            },
        }
    }

    /// Replace the name, description and parent of one of the caller's
    /// tags; a tag of another user is never touched.
    pub fn update_tag_action(&mut self, header: &str, tag_data: &Tag) -> (r: Result<(), ApiError>)
        requires
            old(self)@.wf(),
        ensures
            final(self)@.wf(),
            match token_auth(old(self)@.users, header@) {
                Err(e) => r matches Err(e2) && e2 == e && final(self)@ == old(self)@,
                Ok(i) => match first_where(old(self)@.tags, tag_id_pred(tag_data.id)) {
                    None => r == Err::<(), ApiError>(ApiError::NotFound) && final(self)@ == old(self)@,
                    Some(j) => if old(self)@.tags[j].user != Some(old(self)@.users[i].id) {
                        r == Err::<(), ApiError>(ApiError::Forbidden) && final(self)@ == old(self)@
                    } else {
                        r == Ok::<(), ApiError>(()) && final(self)@ == (StoreV {
                            tags: old(self)@.tags.update(
                                j,
                                (TagV {
                                    name: tag_data@.name,
                                    description: tag_data@.description,
                                    parent_tag: tag_data.parent_tag,
                                    ..old(self)@.tags[j]
                                }),
                            ),
                            ..old(self)@
                        })
                    },
                },
            },
    {
        match self.authenticate(header) {
            Err(e) => Err(e),
            Ok(i) => {
                assert(self.users@[i as int]@ == self@.users[i as int]);
                let uid = self.users[i].id;
                match find_tag_by_id(&self.tags, tag_data.id) {
                    None => Err(ApiError::NotFound),
                    Some(j) => {
                        assert(self.tags@[j as int]@ == self@.tags[j as int]);
                        let owned = match self.tags[j].user {
                            Some(u) => u == uid,
                            None => false,
                        };
                        if !owned {
                            return Err(ApiError::Forbidden);
                        }
                        let updated = Tag {
                            id: self.tags[j].id,
                            name: tag_data.name.clone(),
                            description: crate::model::copy_opt_string(&tag_data.description),
                            parent_tag: tag_data.parent_tag,
                            user: self.tags[j].user,
                        };
                        let ghost tv = updated@;
                        proof {
                            lemma_wf_update_tag(self@, j as int, tv);
                        }
                        self.tags.set(j, updated);
                        proof {
                            assert(view_all(self.tags@) =~= old(self)@.tags.update(j as int, tv));
                        }
                        Ok(())
                    },
                }
            },
        }
    }

    /// The tag listing, in ascending name order.
    pub fn read_tags_action(&self, header: &str, limit: Option<u32>, offset: Option<u32>) -> (r:
        Result<Vec<Tag>, ApiError>)
        ensures
            match token_auth(self@.users, header@) {
                Err(e) => r matches Err(e2) && e2 == e,
                Ok(i) => r matches Ok(v) && view_all(v@) == tags_listing_spec(
                    self@.tags,
                    self@.users[i].id,
                    or_zero(offset) as nat,
                    or_zero(limit) as nat,
                ),
            },
    {
        let limit = match limit {
            Some(l) => l,
            None => 0,
        };
        let offset = match offset {
            Some(o) => o,
            None => 0,
        };
        match self.authenticate(header) {
            Err(e) => Err(e),
            Ok(i) => {
                assert(self.users@[i as int]@ == self@.users[i as int]);
                let uid = self.users[i].id;
                let owned = filter_tags_owned(&self.tags, uid);
                let sorted = sort_records(owned);
                let ghost sv = view_all(sorted@);
                let paged = take_find_page(sorted, offset, limit);
                proof {
                    assert(view_all(paged@) =~= find_page_spec(sv, offset as nat, limit as nat));
                }
                Ok(paged)
            },
        }
    }

    /// Delete the listed tasks. Every stored task the list addresses must
    /// belong to the caller, else the whole batch is rejected and nothing
    /// is deleted; ids that match nothing are ignored. Returns how many
    /// records were deleted.
    pub fn delete_tasks_action(&mut self, header: &str, ids: &Vec<u64>) -> (r: Result<
        u64,
        ApiError,
    >)
        requires
            old(self)@.wf(),
        ensures
            final(self)@.wf(),
            match token_auth(old(self)@.users, header@) {
                Err(e) => r matches Err(e2) && e2 == e && final(self)@ == old(self)@,
                Ok(i) => if !tasks_batch_allowed(old(self)@.tasks, ids@, old(self)@.users[i].id) {
                    r == Err::<u64, ApiError>(ApiError::Forbidden) && final(self)@ == old(self)@
                } else {
                    r == Ok::<u64, ApiError>(
                        (old(self)@.tasks.len() - old(self)@.tasks.filter(
                            task_kept_pred(ids@),
                        ).len()) as u64,
                    ) && final(self)@ == (StoreV {
                        tasks: old(self)@.tasks.filter(task_kept_pred(ids@)),
                        ..old(self)@
                    })
                },
            },
    {
        match self.authenticate(header) {
            Err(e) => Err(e),
            Ok(i) => {
                assert(self.users@[i as int]@ == self@.users[i as int]);
                let uid = self.users[i].id;
                let n = self.tasks.len();
                let mut k: usize = 0;
                while k < n
                    invariant
                        k <= n,
                        n == self.tasks@.len(),
                        *self == *old(self),
                        old(self)@.wf(),
                        i < old(self)@.users.len(),
                        token_auth(old(self)@.users, header@) == Ok::<int, ApiError>(i as int),
                        uid == old(self)@.users[i as int].id,
                        forall|w: int|
                            0 <= w < k && ids@.contains((#[trigger] self@.tasks[w]).id)
                                ==> self@.tasks[w].user == Some(uid),
                    decreases n - k,
                {
                    assert(view_all(self.tasks@)[k as int] == self.tasks@[k as int]@);
                    if contains_id(ids, self.tasks[k].id) {
                        let owned = match self.tasks[k].user {
                            Some(u) => u == uid,
                            None => false,
                        };
                        if !owned {
                            return Err(ApiError::Forbidden);
                        }
                    }
                    k = k + 1;
                }
                let kept = filter_tasks_kept(&self.tasks, ids);
                proof {
                    self@.tasks.lemma_filter_len(task_kept_pred(ids@));
                    lemma_wf_filter_tasks(self@, task_kept_pred(ids@));
                }
                let removed = self.tasks.len() - kept.len();
                self.tasks = kept;
                Ok(removed as u64)
            },
        }
    }

    /// Delete the listed events, with the same all-or-nothing ownership
    /// rule as tasks.
    pub fn delete_events_action(&mut self, header: &str, ids: &Vec<u64>) -> (r: Result<
        u64,
        ApiError,
    >)
        requires
            old(self)@.wf(),
        ensures
            final(self)@.wf(),
            match token_auth(old(self)@.users, header@) {
                Err(e) => r matches Err(e2) && e2 == e && final(self)@ == old(self)@,
                Ok(i) => if !events_batch_allowed(old(self)@.events, ids@, old(self)@.users[i].id) {
                    r == Err::<u64, ApiError>(ApiError::Forbidden) && final(self)@ == old(self)@
                } else {
                    r == Ok::<u64, ApiError>(
                        (old(self)@.events.len() - old(self)@.events.filter(
                            event_kept_pred(ids@),
                        ).len()) as u64,
                    ) && final(self)@ == (StoreV {
                        events: old(self)@.events.filter(event_kept_pred(ids@)),
                        ..old(self)@
                    })
                },
            },
    {
        match self.authenticate(header) {
            Err(e) => Err(e),
            Ok(i) => {
                assert(self.users@[i as int]@ == self@.users[i as int]);
                let uid = self.users[i].id;
                let n = self.events.len();
                let mut k: usize = 0;
                while k < n
                    invariant
                        k <= n,
                        n == self.events@.len(),
                        *self == *old(self),
                        old(self)@.wf(),
                        i < old(self)@.users.len(),
                        token_auth(old(self)@.users, header@) == Ok::<int, ApiError>(i as int),
                        uid == old(self)@.users[i as int].id,
                        forall|w: int|
                            0 <= w < k && ids@.contains((#[trigger] self@.events[w]).id)
                                ==> self@.events[w].user == Some(uid),
                    decreases n - k,
                {
                    assert(view_all(self.events@)[k as int] == self.events@[k as int]@);
                    if contains_id(ids, self.events[k].id) {
                        let owned = match self.events[k].user {
                            Some(u) => u == uid,
                            None => false,
                        };
                        if !owned {
                            return Err(ApiError::Forbidden);
                        }
                    }
                    k = k + 1;
                }
                let kept = filter_events_kept(&self.events, ids);
                proof {
                    self@.events.lemma_filter_len(event_kept_pred(ids@));
                    lemma_wf_filter_events(self@, event_kept_pred(ids@));
                }
                let removed = self.events.len() - kept.len();
                self.events = kept;
                Ok(removed as u64)
            },
        }
    }

    /// Delete the listed tags, with the same all-or-nothing ownership rule
    /// as tasks.
    pub fn delete_tags_action(&mut self, header: &str, ids: &Vec<u64>) -> (r: Result<
        u64,
        ApiError,
    >)
        requires
            old(self)@.wf(),
        ensures
            final(self)@.wf(),
            match token_auth(old(self)@.users, header@) {
                Err(e) => r matches Err(e2) && e2 == e && final(self)@ == old(self)@,
                Ok(i) => if !tags_batch_allowed(old(self)@.tags, ids@, old(self)@.users[i].id) {
                    r == Err::<u64, ApiError>(ApiError::Forbidden) && final(self)@ == old(self)@
                } else {
                    r == Ok::<u64, ApiError>(
                        (old(self)@.tags.len() - old(self)@.tags.filter(
                            tag_kept_pred(ids@),
                        ).len()) as u64,
                    ) && final(self)@ == (StoreV {
                        tags: old(self)@.tags.filter(tag_kept_pred(ids@)),
                        ..old(self)@
                    })
                },
            },
    {
        match self.authenticate(header) {
            Err(e) => Err(e),
            Ok(i) => {
                assert(self.users@[i as int]@ == self@.users[i as int]);
                let uid = self.users[i].id;
                let n = self.tags.len();
                let mut k: usize = 0;
                while k < n
                    invariant
                        k <= n,
                        n == self.tags@.len(),
                        *self == *old(self),
                        old(self)@.wf(),
                        i < old(self)@.users.len(),
                        token_auth(old(self)@.users, header@) == Ok::<int, ApiError>(i as int),
                        uid == old(self)@.users[i as int].id,
                        forall|w: int|
                            0 <= w < k && ids@.contains((#[trigger] self@.tags[w]).id)
                                ==> self@.tags[w].user == Some(uid),
                    decreases n - k,
                {
                    assert(view_all(self.tags@)[k as int] == self.tags@[k as int]@);
                    if contains_id(ids, self.tags[k].id) {
                        let owned = match self.tags[k].user {
                            Some(u) => u == uid,
                            None => false,
                        };
                        if !owned {
                            return Err(ApiError::Forbidden);
                        }
                    }
                    k = k + 1;
                }
                let kept = filter_tags_kept(&self.tags, ids);
                proof {
                    self@.tags.lemma_filter_len(tag_kept_pred(ids@));
                    lemma_wf_filter_tags(self@, tag_kept_pred(ids@));
                }
                let removed = self.tags.len() - kept.len();
                self.tags = kept;
                Ok(removed as u64)
            },
        }
    }

    /// Create `quantity` synthetic tasks for the caller, named by their
    /// counter; admin only.
    pub fn debug_create_tasks_action(&mut self, header: &str, quantity: u8) -> (r: Result<
        u64,
        ApiError,
    >)
        requires
            old(self)@.wf(),
            old(self)@.next_id + quantity <= u64::MAX,
        ensures
            final(self)@.wf(),
            match token_auth(old(self)@.users, header@) {
                Err(e) => r matches Err(e2) && e2 == e && final(self)@ == old(self)@,
                Ok(i) => if !old(self)@.users[i].is_admin {
                    r == Err::<u64, ApiError>(ApiError::Forbidden) && final(self)@ == old(self)@
                } else {
                    r == Ok::<u64, ApiError>(quantity as u64) && final(self)@ == (StoreV {
                        tasks: old(self)@.tasks + debug_tasks_spec(
                            old(self)@.next_id,
                            quantity as nat,
                            old(self)@.users[i].id,
                        ),
                        next_id: (old(self)@.next_id + quantity) as u64,
                        ..old(self)@
                    })
                },
            },
    {
        match self.authenticate(header) {
            Err(e) => Err(e),
            Ok(i) => {
                assert(self.users@[i as int]@ == self@.users[i as int]);
                if !self.users[i].is_admin {
                    return Err(ApiError::Forbidden);
                }
                let uid = self.users[i].id;
                let total = quantity as usize;
                let mut k: usize = 0;
                proof {
                    assert(self@.tasks =~= old(self)@.tasks + debug_tasks_spec(
                        old(self)@.next_id,
                        0,
                        uid,
                    ));
                }
                while k < total
                    invariant
                        k <= total,
                        total == quantity as usize,
                        old(self)@.wf(),
                        old(self)@.next_id + quantity <= u64::MAX,
                        self@.wf(),
                        self@.users == old(self)@.users,
                        self@.events == old(self)@.events,
                        self@.tags == old(self)@.tags,
                        self@.next_id == old(self)@.next_id + k,
                        self@.tasks == old(self)@.tasks + debug_tasks_spec(
                            old(self)@.next_id,
                            k as nat,
                            uid,
                        ),
                    decreases total - k,
                {
                    let ghost pre = self@.tasks;
                    let id = self.next_id;
                    let t = Task {
                        id,
                        name: dec_string(k as u64),
                        frequency: 7,
                        tags: None,
                        user: Some(uid),
                    };
                    let ghost tv = t@;
                    proof {
                        lemma_wf_push_task(self@, tv);
                    }
                    self.tasks.push(t);
                    self.next_id = id + 1;
                    proof {
                        assert(view_all(self.tasks@) =~= pre.push(tv));
                        assert(self@.tasks =~= old(self)@.tasks + debug_tasks_spec(
                            old(self)@.next_id,
                            (k + 1) as nat,
                            uid,
                        ));
                    }
                    k = k + 1;
                }
                Ok(quantity as u64)
            },
        }
    }

    /// Delete every task the caller owns; admin only.
    pub fn debug_delete_tasks_action(&mut self, header: &str) -> (r: Result<u64, ApiError>)
        requires
            old(self)@.wf(),
        ensures
            final(self)@.wf(),
            match token_auth(old(self)@.users, header@) {
                Err(e) => r matches Err(e2) && e2 == e && final(self)@ == old(self)@,
                Ok(i) => if !old(self)@.users[i].is_admin {
                    r == Err::<u64, ApiError>(ApiError::Forbidden) && final(self)@ == old(self)@
                } else {
                    r == Ok::<u64, ApiError>(
                        (old(self)@.tasks.len() - old(self)@.tasks.filter(
                            task_not_owned_pred(old(self)@.users[i].id),
                        ).len()) as u64,
                    ) && final(self)@ == (StoreV {
                        tasks: old(self)@.tasks.filter(task_not_owned_pred(old(self)@.users[i].id)),
                        ..old(self)@
                    })
                },
            },
    {
        match self.authenticate(header) {
            Err(e) => Err(e),
            Ok(i) => {
                assert(self.users@[i as int]@ == self@.users[i as int]);
                if !self.users[i].is_admin {
                    return Err(ApiError::Forbidden);
                }
                let uid = self.users[i].id;
                let kept = filter_tasks_not_owned(&self.tasks, uid);
                proof {
                    self@.tasks.lemma_filter_len(task_not_owned_pred(uid));
                    lemma_wf_filter_tasks(self@, task_not_owned_pred(uid));
                }
                let removed = self.tasks.len() - kept.len();
                self.tasks = kept;
                Ok(removed as u64)
            },
        }
    }

    /// Create one synthetic event, with a fixed seed date, for every task
    /// the caller owns; admin only.
    pub fn debug_create_events_action(&mut self, header: &str) -> (r: Result<u64, ApiError>)
        requires
            old(self)@.wf(),
            old(self)@.next_id + old(self)@.tasks.len() <= u64::MAX,
        ensures
            final(self)@.wf(),
            match token_auth(old(self)@.users, header@) {
                Err(e) => r matches Err(e2) && e2 == e && final(self)@ == old(self)@,
                Ok(i) => if !old(self)@.users[i].is_admin {
                    r == Err::<u64, ApiError>(ApiError::Forbidden) && final(self)@ == old(self)@
                } else {
                    match rfc3339_millis("2023-10-01T05:43:48.487Z"@) {
                        None => r == Err::<u64, ApiError>(ApiError::MalformedDate) && final(self)@
                            == old(self)@,
                        Some(d) => {
                            let owned = owned_tasks(old(self)@.tasks, old(self)@.users[i].id);
                            r == Ok::<u64, ApiError>(owned.len() as u64) && final(self)@ == (
                            StoreV {
                                events: old(self)@.events + debug_events_spec(
                                    old(self)@.next_id,
                                    owned,
                                    d,
                                    old(self)@.users[i].id,
                                ),
                                next_id: (old(self)@.next_id + owned.len()) as u64,
                                ..old(self)@
                            })
                        },
                    }
                },
            },
    {
        match self.authenticate(header) {
            Err(e) => Err(e),
            Ok(i) => {
                assert(self.users@[i as int]@ == self@.users[i as int]);
                if !self.users[i].is_admin {
                    return Err(ApiError::Forbidden);
                }
                let uid = self.users[i].id;
                let date = match parse_rfc3339("2023-10-01T05:43:48.487Z") {
                    Ok(d) => d,
                    Err(_) => {
                        return Err(ApiError::MalformedDate);
                    },
                };
                let owned = filter_tasks_owned(&self.tasks, uid);
                let ghost ownedv = owned_tasks(old(self)@.tasks, uid);
                proof {
                    self@.tasks.lemma_filter_len(owned_task_pred(uid));
                }
                let total = owned.len();
                let mut k: usize = 0;
                proof {
                    assert(self@.events =~= old(self)@.events + debug_events_spec(
                        old(self)@.next_id,
                        ownedv,
                        date,
                        uid,
                    ).subrange(0, 0));
                    assert(debug_events_spec(old(self)@.next_id, ownedv, date, uid).subrange(0, 0)
                        =~= Seq::<EventV>::empty());
                    assert(self@.events =~= old(self)@.events + Seq::<EventV>::empty());
                }
                while k < total
                    invariant
                        k <= total,
                        total == ownedv.len(),
                        view_all(owned@) == ownedv,
                        old(self)@.wf(),
                        old(self)@.next_id + old(self)@.tasks.len() <= u64::MAX,
                        ownedv.len() <= old(self)@.tasks.len(),
                        self@.wf(),
                        self@.users == old(self)@.users,
                        self@.tasks == old(self)@.tasks,
                        self@.tags == old(self)@.tags,
                        self@.next_id == old(self)@.next_id + k,
                        self@.events == old(self)@.events + debug_events_spec(
                            old(self)@.next_id,
                            ownedv,
                            date,
                            uid,
                        ).subrange(0, k as int),
                    decreases total - k,
                {
                    let ghost pre = self@.events;
                    let id = self.next_id;
                    assert(view_all(owned@)[k as int] == owned@[k as int]@);
                    let e = Event { id, task: owned[k].id, date, user: Some(uid) };
                    let ghost ev = e@;
                    proof {
                        lemma_wf_push_event(self@, ev);
                    }
                    self.events.push(e);
                    self.next_id = id + 1;
                    proof {
                        assert(view_all(self.events@) =~= pre.push(ev));
                        assert(debug_events_spec(old(self)@.next_id, ownedv, date, uid).subrange(
                            0,
                            k + 1 as int,
                        ) =~= debug_events_spec(old(self)@.next_id, ownedv, date, uid).subrange(
                            0,
                            k as int,
                        ).push(ev));
                        assert(self@.events =~= old(self)@.events + debug_events_spec(
                            old(self)@.next_id,
                            ownedv,
                            date,
                            uid,
                        ).subrange(0, k + 1 as int));
                    }
                    k = k + 1;
                }
                proof {
                    assert(debug_events_spec(old(self)@.next_id, ownedv, date, uid).subrange(
                        0,
                        total as int,
                    ) =~= debug_events_spec(old(self)@.next_id, ownedv, date, uid));
                }
                Ok(total as u64)
            },
        }
    }

    /// Delete every event the caller owns; admin only.
    pub fn debug_delete_events_action(&mut self, header: &str) -> (r: Result<u64, ApiError>)
        requires
            old(self)@.wf(),
        ensures
            final(self)@.wf(),
            match token_auth(old(self)@.users, header@) {
                Err(e) => r matches Err(e2) && e2 == e && final(self)@ == old(self)@,
                Ok(i) => if !old(self)@.users[i].is_admin {
                    r == Err::<u64, ApiError>(ApiError::Forbidden) && final(self)@ == old(self)@
                } else {
                    r == Ok::<u64, ApiError>(
                        (old(self)@.events.len() - old(self)@.events.filter(
                            event_not_owned_pred(old(self)@.users[i].id),
                        ).len()) as u64,
                    ) && final(self)@ == (StoreV {
                        events: old(self)@.events.filter(
                            event_not_owned_pred(old(self)@.users[i].id),
                        ),
                        ..old(self)@
                    })
                },
            },
    {
        match self.authenticate(header) {
            Err(e) => Err(e),
            Ok(i) => {
                assert(self.users@[i as int]@ == self@.users[i as int]);
                if !self.users[i].is_admin {
                    return Err(ApiError::Forbidden);
                }
                let uid = self.users[i].id;
                let kept = filter_events_not_owned(&self.events, uid);
                proof {
                    self@.events.lemma_filter_len(event_not_owned_pred(uid));
                    lemma_wf_filter_events(self@, event_not_owned_pred(uid));
                }
                let removed = self.events.len() - kept.len();
                self.events = kept;
                Ok(removed as u64)
            },
        }
    }

    /// Create `quantity` synthetic tags for the caller, named by their
    /// counter; admin only.
    pub fn debug_create_tags_action(&mut self, header: &str, quantity: u8) -> (r: Result<
        u64,
        ApiError,
    >)
        requires
            old(self)@.wf(),
            old(self)@.next_id + quantity <= u64::MAX,
        ensures
            final(self)@.wf(),
            match token_auth(old(self)@.users, header@) {
                Err(e) => r matches Err(e2) && e2 == e && final(self)@ == old(self)@,
                Ok(i) => if !old(self)@.users[i].is_admin {
                    r == Err::<u64, ApiError>(ApiError::Forbidden) && final(self)@ == old(self)@
                } else {
                    r == Ok::<u64, ApiError>(quantity as u64) && final(self)@ == (StoreV {
                        tags: old(self)@.tags + debug_tags_spec(
                            old(self)@.next_id,
                            quantity as nat,
                            old(self)@.users[i].id,
                        ),
                        next_id: (old(self)@.next_id + quantity) as u64,
                        ..old(self)@
                    })
                },
            },
    {
        match self.authenticate(header) {
            Err(e) => Err(e),
            Ok(i) => {
                assert(self.users@[i as int]@ == self@.users[i as int]);
                if !self.users[i].is_admin {
                    return Err(ApiError::Forbidden);
                }
                let uid = self.users[i].id;
                let total = quantity as usize;
                let mut k: usize = 0;
                proof {
                    assert(self@.tags =~= old(self)@.tags + debug_tags_spec(
                        old(self)@.next_id,
                        0,
                        uid,
                    ));
                }
                while k < total
                    invariant
                        k <= total,
                        total == quantity as usize,
                        old(self)@.wf(),
                        old(self)@.next_id + quantity <= u64::MAX,
                        self@.wf(),
                        self@.users == old(self)@.users,
                        self@.events == old(self)@.events,
                        self@.tasks == old(self)@.tasks,
                        self@.next_id == old(self)@.next_id + k,
                        self@.tags == old(self)@.tags + debug_tags_spec(
                            old(self)@.next_id,
                            k as nat,
                            uid,
                        ),
                    decreases total - k,
                {
                    let ghost pre = self@.tags;
                    let id = self.next_id;
                    let t = Tag {
                        id,
                        name: dec_string(k as u64),
                        description: None,
                        parent_tag: None,
                        user: Some(uid),
                    };
                    let ghost tv = t@;
                    proof {
                        lemma_wf_push_tag(self@, tv);
                    }
                    self.tags.push(t);
                    self.next_id = id + 1;
                    proof {
                        assert(view_all(self.tags@) =~= pre.push(tv));
                        assert(self@.tags =~= old(self)@.tags + debug_tags_spec(
                            old(self)@.next_id,
                            (k + 1) as nat,
                            uid,
                        ));
                    }
                    k = k + 1;
                }
                Ok(quantity as u64)
            },
        }
    }

    /// Delete every tag the caller owns; admin only.
    pub fn debug_delete_tags_action(&mut self, header: &str) -> (r: Result<u64, ApiError>)
        requires
            old(self)@.wf(),
        ensures
            final(self)@.wf(),
            match token_auth(old(self)@.users, header@) {
                Err(e) => r matches Err(e2) && e2 == e && final(self)@ == old(self)@,
                Ok(i) => if !old(self)@.users[i].is_admin {
                    r == Err::<u64, ApiError>(ApiError::Forbidden) && final(self)@ == old(self)@
                } else {
                    r == Ok::<u64, ApiError>(
                        (old(self)@.tags.len() - old(self)@.tags.filter(
                            tag_not_owned_pred(old(self)@.users[i].id),
                        ).len()) as u64,
                    ) && final(self)@ == (StoreV {
                        tags: old(self)@.tags.filter(tag_not_owned_pred(old(self)@.users[i].id)),
                        ..old(self)@
                    })
                },
            },
    {
        match self.authenticate(header) {
            Err(e) => Err(e),
            Ok(i) => {
                assert(self.users@[i as int]@ == self@.users[i as int]);
                if !self.users[i].is_admin {
                    return Err(ApiError::Forbidden);
                }
                let uid = self.users[i].id;
                let kept = filter_tags_not_owned(&self.tags, uid);
                proof {
                    self@.tags.lemma_filter_len(tag_not_owned_pred(uid));
                    lemma_wf_filter_tags(self@, tag_not_owned_pred(uid));
                }
                let removed = self.tags.len() - kept.len();
                self.tags = kept;
                Ok(removed as u64)
            },
        }
    }
}

// ---------------------------------------------------------------------------
// Synthetic records of the debug endpoints
// ---------------------------------------------------------------------------

/// `n` synthetic tasks with sequential ids from `base`, each named by its
/// counter, frequency seven days, no tags.
pub open spec fn debug_tasks_spec(base: u64, n: nat, uid: u64) -> Seq<TaskV> {
    Seq::new(
        n,
        |k: int|
            TaskV {
                id: (base + k) as u64,
                name: dec_str(k as nat),
                frequency: 7,
                tags: None,
                user: Some(uid),
            },
    )
}

/// `n` synthetic tags with sequential ids from `base`, each named by its
/// counter.
pub open spec fn debug_tags_spec(base: u64, n: nat, uid: u64) -> Seq<TagV> {
    Seq::new(
        n,
        |k: int|
            TagV {
                id: (base + k) as u64,
                name: dec_str(k as nat),
                description: None,
                parent_tag: None,
                user: Some(uid),
            },
    )
}

/// One synthetic event per owned task, with sequential ids from `base` and
/// a fixed date.
pub open spec fn debug_events_spec(base: u64, owned: Seq<TaskV>, date: i64, uid: u64) -> Seq<
    EventV,
> {
    Seq::new(
        owned.len(),
        |k: int| EventV { id: (base + k) as u64, task: owned[k].id, date: date, user: Some(uid) },
    )
}

} // verus!
