use vstd::prelude::*;

use crate::model::{
    copy_opt_id_list, view_all, Event, EventV, RankedTask, RankedTaskV, Task, TaskV,
};
use crate::seqs::page_spec;
use crate::sort::{lemma_sort_ord_sorted, sort_ord, sort_records, sorted_by_ord, SortOrd};

verus! {

/// Milliseconds in one day: a task's frequency in days times this is its
/// allowed window in milliseconds.
pub const MILLIS_PER_DAY: i64 = 86400000;

// ---------------------------------------------------------------------------
// Latest event and moss
// ---------------------------------------------------------------------------

/// The greatest event date at or after index `i` among events of `task_id`.
pub open spec fn latest_date_from(events: Seq<EventV>, task_id: u64, i: int) -> Option<i64>
    decreases events.len() - i,
{
    if i < 0 || i >= events.len() {
        None
    } else {
        let rest = latest_date_from(events, task_id, i + 1);
        if events[i].task == task_id {
            match rest {
                None => Some(events[i].date),
                Some(d) => if events[i].date >= d {
                    Some(events[i].date)
                } else {
                    Some(d)
                },
            }
        } else {
            rest
        }
    }
}

/// The date of the most recent event of `task_id`, absent when it has none.
pub open spec fn latest_event_date(events: Seq<EventV>, task_id: u64) -> Option<i64> {
    latest_date_from(events, task_id, 0)
}

/// The staleness score: time since the latest event minus the frequency
/// window, in milliseconds; positive means overdue. Absent when the task
/// has no event at all.
pub open spec fn moss_of(frequency: i32, latest: Option<i64>, now: i64) -> Option<i128> {
    match latest {
        None => None,
        Some(d) => Some((now - d - frequency * (MILLIS_PER_DAY as int)) as i128),
    }
}

/// A task annotated with its latest event date and moss.
pub open spec fn ranked_of(t: TaskV, events: Seq<EventV>, now: i64) -> RankedTaskV {
    let latest = latest_event_date(events, t.id);
    RankedTaskV {
        id: t.id,
        name: t.name,
        frequency: t.frequency,
        tags: t.tags,
        latest_event_date: latest,
        moss: moss_of(t.frequency, latest, now),
    }
}

/// The tasks owned by `uid`, in storage order, each annotated.
pub open spec fn annotate_spec(tasks: Seq<TaskV>, events: Seq<EventV>, uid: u64, now: i64) -> Seq<
    RankedTaskV,
>
    decreases tasks.len(),
{
    if tasks.len() == 0 {
        Seq::empty()
    } else {
        let rest = annotate_spec(tasks.drop_last(), events, uid, now);
        if tasks.last().user == Some(uid) {
            rest.push(ranked_of(tasks.last(), events, now))
        } else {
            rest
        }
    }
}

/// What the listing endpoint returns for a user: their tasks annotated,
/// sorted by descending moss (absent moss last) with descending id as the
/// tie break, then paged. A limit of zero returns nothing.
pub open spec fn ranked_listing_spec(
    tasks: Seq<TaskV>,
    events: Seq<EventV>,
    uid: u64,
    now: i64,
    offset: nat,
    limit: nat,
) -> Seq<RankedTaskV> {
    page_spec(
        sort_ord::<RankedTask>(annotate_spec(tasks, events, uid, now)),
        offset,
        limit,
    )
}

// ---------------------------------------------------------------------------
// The listing order
// ---------------------------------------------------------------------------

impl SortOrd for RankedTask {
    /// Descending moss; a task with no moss ranks below every task with
    /// one; equal moss is broken by descending id, so the order is total
    /// and pagination never repeats or drops a task.
    open spec fn ord(a: RankedTaskV, b: RankedTaskV) -> bool {
        match (a.moss, b.moss) {
            (Some(x), Some(y)) => x > y || (x == y && a.id >= b.id),
            (Some(x), None) => true,
            (None, Some(y)) => false,
            (None, None) => a.id >= b.id,
        }
    }

    fn ord_exec(&self, other: &Self) -> (r: bool) {
        match (self.moss, other.moss) {
            (Some(x), Some(y)) => x > y || (x == y && self.id >= other.id),
            (Some(_), None) => true,
            (None, Some(_)) => false,
            (None, None) => self.id >= other.id,
        }
    }

    proof fn lemma_ord_total(a: RankedTaskV, b: RankedTaskV) {
    }

    proof fn lemma_ord_trans(a: RankedTaskV, b: RankedTaskV, c: RankedTaskV) {
    }
}

// ---------------------------------------------------------------------------
// Executable aggregation
// ---------------------------------------------------------------------------

fn latest_event_date_exec(events: &Vec<Event>, task_id: u64) -> (r: Option<i64>)
    ensures
        r == latest_event_date(view_all(events@), task_id),
{
    let mut acc: Option<i64> = None;
    let mut i: usize = events.len();
    while i > 0
        invariant
            i <= events@.len(),
            acc == latest_date_from(view_all(events@), task_id, i as int),
        decreases i,
    {
        i = i - 1;
        let e = events[i];
        assert(view_all(events@)[i as int] == events@[i as int]@);
        if e.task == task_id {
            acc = match acc {
                None => Some(e.date),
                Some(d) => if e.date >= d {
                    Some(e.date)
                } else {
                    Some(d)
                },
            };
        }
    }
    acc
}

fn moss_value(frequency: i32, latest: Option<i64>, now: i64) -> (r: Option<i128>)
    ensures
        r == moss_of(frequency, latest, now),
{
    match latest {
        None => None,
        Some(d) => Some((now as i128) - (d as i128) - (frequency as i128) * (
        MILLIS_PER_DAY as i128)),
    }
}

fn annotate_tasks(tasks: &Vec<Task>, events: &Vec<Event>, uid: u64, now: i64) -> (r: Vec<
    RankedTask,
>)
    ensures
        view_all(r@) == annotate_spec(view_all(tasks@), view_all(events@), uid, now),
{
    let mut r: Vec<RankedTask> = Vec::new();
    let mut i: usize = 0;
    proof {
        assert(view_all(tasks@).subrange(0, 0) =~= Seq::<TaskV>::empty());
        assert(view_all(r@) =~= Seq::<RankedTaskV>::empty());
    }
    while i < tasks.len()
        invariant
            i <= tasks@.len(),
            view_all(r@) == annotate_spec(
                view_all(tasks@).subrange(0, i as int),
                view_all(events@),
                uid,
                now,
            ),
        decreases tasks@.len() - i,
    {
        let ghost pre = view_all(r@);
        let t = &tasks[i];
        assert(view_all(tasks@)[i as int] == tasks@[i as int]@);
        let owned = match t.user {
            Some(u) => u == uid,
            None => false,
        };
        if owned {
            let latest = latest_event_date_exec(events, t.id);
            let moss = moss_value(t.frequency, latest, now);
            let ranked = RankedTask {
                id: t.id,
                name: t.name.clone(),
                frequency: t.frequency,
                tags: copy_opt_id_list(&t.tags),
                latest_event_date: latest,
                moss: moss,
            };
            assert(ranked@ == ranked_of(view_all(tasks@)[i as int], view_all(events@), now));
            r.push(ranked);
            proof {
                assert(view_all(r@) =~= pre.push(
                    ranked_of(view_all(tasks@)[i as int], view_all(events@), now),
                ));
            }
        }
        proof {
            let s = view_all(tasks@).subrange(0, i + 1 as int);
            assert(s.drop_last() =~= view_all(tasks@).subrange(0, i as int));
            assert(s.last() == view_all(tasks@)[i as int]);
        }
        i = i + 1;
    }
    proof {
        assert(view_all(tasks@).subrange(0, tasks@.len() as int) =~= view_all(tasks@));
    }
    r
}

/// The ranked, paged task listing for one user at one instant.
pub fn ranked_listing(
    tasks: &Vec<Task>,
    events: &Vec<Event>,
    uid: u64,
    now: i64,
    offset: u32,
    limit: u32,
) -> (r: Vec<RankedTask>)
    ensures
        view_all(r@) == ranked_listing_spec(
            view_all(tasks@),
            view_all(events@),
            uid,
            now,
            offset as nat,
            limit as nat,
        ),
{
    let annotated = annotate_tasks(tasks, events, uid, now);
    let sorted = sort_records(annotated);
    let ghost sorted_views = view_all(sorted@);
    let paged = take_page_ranked(sorted, offset, limit);
    proof {
        assert(view_all(paged@) =~= page_spec(sorted_views, offset as nat, limit as nat));
    }
    paged
}

fn take_page_ranked(v: Vec<RankedTask>, offset: u32, limit: u32) -> (r: Vec<RankedTask>)
    ensures
        view_all(r@) == page_spec(view_all(v@), offset as nat, limit as nat),
{
    let ghost vs = view_all(v@);
    let r = crate::seqs::take_page(v, offset, limit);
    proof {
        assert(view_all(r@) =~= page_spec(vs, offset as nat, limit as nat));
    }
    r
}

// ---------------------------------------------------------------------------
// Laws of the ranking
// ---------------------------------------------------------------------------

/// For equal frequency, the task whose latest event is older has strictly
/// more moss.
pub proof fn lemma_moss_monotonic(frequency: i32, older: i64, newer: i64, now: i64)
    requires
        older < newer,
    ensures
        moss_of(frequency, Some(older), now)->0 > moss_of(frequency, Some(newer), now)->0,
{
}

/// Two adjacent pages of the ranked listing, read in order, hold exactly
/// what one page covering both ranges holds: pagination neither repeats
/// nor drops a task.
pub proof fn lemma_ranked_pages_adjacent(
    tasks: Seq<TaskV>,
    events: Seq<EventV>,
    uid: u64,
    now: i64,
    offset: nat,
    n: nat,
    m: nat,
)
    ensures
        ranked_listing_spec(tasks, events, uid, now, offset, n) + ranked_listing_spec(
            tasks,
            events,
            uid,
            now,
            (offset + n) as nat,
            m,
        ) == ranked_listing_spec(tasks, events, uid, now, offset, (n + m) as nat),
{
    crate::seqs::lemma_pages_adjacent(
        sort_ord::<RankedTask>(annotate_spec(tasks, events, uid, now)),
        offset,
        n,
        m,
    );
}

/// The full ranked listing is sorted under the listing order before it is
/// paged.
pub proof fn lemma_ranked_listing_sorted(tasks: Seq<TaskV>, events: Seq<EventV>, uid: u64, now: i64)
    ensures
        sorted_by_ord::<RankedTask>(sort_ord::<RankedTask>(annotate_spec(tasks, events, uid, now))),
{
    lemma_sort_ord_sorted::<RankedTask>(annotate_spec(tasks, events, uid, now));
}

/// In a sorted listing, a task with strictly more moss stands strictly
/// earlier than one with less.
pub proof fn lemma_mossier_stands_first(s: Seq<RankedTaskV>, i: int, j: int)
    requires
        sorted_by_ord::<RankedTask>(s),
        0 <= i < s.len(),
        0 <= j < s.len(),
        s[i].moss is Some,
        s[j].moss is Some,
        s[i].moss->0 > s[j].moss->0,
    ensures
        i < j,
{
    if j < i {
        assert(RankedTask::ord(s[j], s[i]));
    }
}

} // verus!
