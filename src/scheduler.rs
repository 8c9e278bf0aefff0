//! The task store: deferred messages keyed by a fresh identifier, added by
//! `add_task` and taken out, once due, by `check_tasks`.
use crate::moment::{
    calendar_text, render_calendar, timestamp_in_range, timestamp_is_valid, utc_now, Moment,
};
use crate::text::{i64_value, parse_i64, string_views};
use vstd::prelude::*;
use vstd::string::*;

verus! {

/// One deferred action: a message that becomes due at `execute_at`.
pub struct ScheduledTask {
    pub execute_at: Moment,
    pub message: String,
}

/// A stored task as the contracts see it.
pub struct TaskView {
    pub id: u64,
    pub execute_at: Moment,
    pub message: Seq<char>,
}

struct TaskEntry {
    id: u64,
    task: ScheduledTask,
}

impl TaskEntry {
    spec fn view(self) -> TaskView {
        TaskView { id: self.id, execute_at: self.task.execute_at, message: self.task.message@ }
    }
}

/// Why `add_task` refused a request.
#[derive(Clone, Copy, Debug, PartialEq, Eq, Structural)]
pub enum SchedulerError {
    /// The timestamp is not a decimal `i64`, or names no representable instant.
    InvalidTimestampError,
}

impl SchedulerError {
    /// A human-readable description of the error.
    pub fn message(&self) -> (r: &'static str)
        ensures
            *self == SchedulerError::InvalidTimestampError ==> r@ == "Invalid timestamp"@,
    {
        match self {
            SchedulerError::InvalidTimestampError => "Invalid timestamp",
        }
    }
}

/// The tasks waiting to be swept, each under its own identifier.
pub struct TaskStore {
    entries: Vec<TaskEntry>,
    next_id: u64,
}

/// A task is due once its time has come.
pub open spec fn is_due(t: TaskView, now: Moment) -> bool {
    t.execute_at.spec_le(now)
}

/// The tasks of `tasks` that are due at `now`, in store order.
pub open spec fn due_tasks(tasks: Seq<TaskView>, now: Moment) -> Seq<TaskView> {
    tasks.filter(|t: TaskView| is_due(t, now))
}

/// The messages of the tasks that are due at `now`, in store order.
pub open spec fn due_messages(tasks: Seq<TaskView>, now: Moment) -> Seq<Seq<char>> {
    due_tasks(tasks, now).map_values(|t: TaskView| t.message)
}

/// The tasks of `tasks` that are not yet due at `now`, in store order.
pub open spec fn pending(tasks: Seq<TaskView>, now: Moment) -> Seq<TaskView> {
    tasks.filter(|t: TaskView| !is_due(t, now))
}

/// The instant that a timestamp text names, where it is a decimal `i64` in
/// the representable range.
pub open spec fn accepted_timestamp(s: Seq<char>) -> Option<i64> {
    match i64_value(s) {
        Some(t) => if timestamp_in_range(t as int) {
            Some(t)
        } else {
            None
        },
        None => None,
    }
}

/// The text that confirms a task stored for the timestamp `t`.
pub open spec fn confirmation(t: int) -> Seq<char> {
    "Task scheduled for "@ + calendar_text(t)
}

/// Identifiers rise strictly through `tasks` and stay below `next_id`.
pub open spec fn ids_rising(tasks: Seq<TaskView>, next_id: u64) -> bool {
    &&& forall|a: int, b: int| 0 <= a < b < tasks.len() ==> tasks[a].id < tasks[b].id
    &&& forall|a: int| 0 <= a < tasks.len() ==> tasks[a].id < next_id
}

/// The stored tasks and the next identifier after a request to add `msg` for
/// the timestamp text `ts`.
pub open spec fn add_outcome(tasks: Seq<TaskView>, next_id: u64, ts: Seq<char>, msg: Seq<char>) -> (
    Seq<TaskView>,
    u64,
) {
    match accepted_timestamp(ts) {
        None => (tasks, next_id),
        Some(t) => (
            tasks.push(TaskView { id: next_id, execute_at: Moment { secs: t, nanos: 0 }, message: msg }),
            (next_id + 1) as u64,
        ),
    }
}

/// The stored tasks and the next identifier after the requests of `reqs`,
/// each a timestamp text and a message, handled one after another.
pub open spec fn add_all(tasks: Seq<TaskView>, next_id: u64, reqs: Seq<(Seq<char>, Seq<char>)>) -> (
    Seq<TaskView>,
    u64,
)
    decreases reqs.len(),
{
    if reqs.len() == 0 {
        (tasks, next_id)
    } else {
        let (t, n) = add_all(tasks, next_id, reqs.drop_last());
        add_outcome(t, n, reqs.last().0, reqs.last().1)
    }
}

/// How many of the requests of `reqs` are accepted.
pub open spec fn accepted_count(reqs: Seq<(Seq<char>, Seq<char>)>) -> nat
    decreases reqs.len(),
{
    if reqs.len() == 0 {
        0
    } else {
        accepted_count(reqs.drop_last()) + if accepted_timestamp(reqs.last().0) is Some {
            1nat
        } else {
            0nat
        }
    }
}

impl TaskStore {
    /// The stored tasks, oldest first.
    pub closed spec fn tasks(&self) -> Seq<TaskView> {
        self.entries@.map_values(|e: TaskEntry| e.view())
    }

    /// The identifier that the next task will get.
    pub closed spec fn next_id(&self) -> u64 {
        self.next_id
    }

    /// Identifiers rise strictly through the store and stay below `next_id`,
    /// so no two tasks share one.
    pub closed spec fn wf(&self) -> bool {
        &&& forall|a: int, b: int|
            0 <= a < b < self.entries@.len() ==> self.entries@[a].id < self.entries@[b].id
        &&& forall|a: int| 0 <= a < self.entries@.len() ==> self.entries@[a].id < self.next_id
    }

    /// Another task can still get an identifier of its own.
    pub open spec fn spec_has_room(&self) -> bool {
        self.next_id() < u64::MAX
    }

    /// An empty store.
    pub fn new() -> (r: TaskStore)
        ensures
            r.wf(),
            r.tasks() == Seq::<TaskView>::empty(),
            r.next_id() == 0,
    {
        let r = TaskStore { entries: Vec::new(), next_id: 0 };
        assert(r.tasks() =~= Seq::<TaskView>::empty());
        r
    }

    /// The number of stored tasks.
    pub fn len(&self) -> (r: usize)
        ensures
            r == self.tasks().len(),
    {
        self.entries.len()
    }

    /// Whether another task can still get an identifier of its own.
    pub fn has_room(&self) -> (r: bool)
        ensures
            r == self.spec_has_room(),
    {
        self.next_id < u64::MAX
    }
}

/// Stores `message` to become due at the Unix timestamp (in seconds) that
/// `execute_at_timestamp` writes in decimal, and confirms the time in calendar
/// form. A timestamp that is no `i64` or lies outside the representable range
/// is refused and the store left as it was.
pub fn add_task(store: &mut TaskStore, execute_at_timestamp: &str, message: &str) -> (r: Result<
    String,
    SchedulerError,
>)
    requires
        old(store).wf(),
        accepted_timestamp(execute_at_timestamp@) is Some ==> old(store).spec_has_room(),
    ensures
        final(store).wf(),
        (final(store).tasks(), final(store).next_id()) == add_outcome(
            old(store).tasks(),
            old(store).next_id(),
            execute_at_timestamp@,
            message@,
        ),
        match accepted_timestamp(execute_at_timestamp@) {
            None => r == Err::<String, SchedulerError>(SchedulerError::InvalidTimestampError),
            Some(t) => r is Ok && r->Ok_0@ == confirmation(t as int),
        },
{
    let t = match parse_i64(execute_at_timestamp) {
        Some(t) => t,
        None => return Err(SchedulerError::InvalidTimestampError),
    };
    if !timestamp_is_valid(t) {
        return Err(SchedulerError::InvalidTimestampError);
    }
    let rendered = render_calendar(t);
    let task = ScheduledTask { execute_at: Moment::from_timestamp(t), message: String::from_str(message) };
    let id = store.next_id;
    store.entries.push(TaskEntry { id, task });
    store.next_id = id + 1;
    assert(store.tasks() =~= old(store).tasks().push(
        TaskView { id, execute_at: Moment { secs: t, nanos: 0 }, message: message@ },
    ));
    Ok(confirmation_text(rendered.as_str()))
}

/// The confirmation for a task whose time reads `rendered`.
pub fn confirmation_text(rendered: &str) -> (r: String)
    ensures
        r@ == "Task scheduled for "@ + rendered@,
{
    let mut out = String::from_str("Task scheduled for ");
    out.append(rendered);
    out
}

/// Takes out every task that is due at `now` and returns their messages, in
/// store order; the tasks not yet due stay as they were.
pub fn check_tasks_at(store: &mut TaskStore, now: Moment) -> (r: Vec<String>)
    requires
        old(store).wf(),
    ensures
        final(store).wf(),
        string_views(r@) == due_messages(old(store).tasks(), now),
        final(store).tasks() == pending(old(store).tasks(), now),
        final(store).next_id() == old(store).next_id(),
{
    let ghost all = store.tasks();
    let n = store.entries.len();
    let mut due: Vec<String> = Vec::new();
    let mut kept: Vec<TaskEntry> = Vec::new();
    let mut i: usize = 0;
    while i < n
        invariant
            n == store.entries@.len(),
            *store == *old(store),
            all == store.tasks(),
            store.wf(),
            i <= n,
            string_views(due@) == due_messages(all.subrange(0, i as int), now),
            kept@.map_values(|e: TaskEntry| e.view()) == pending(all.subrange(0, i as int), now),
            forall|a: int, b: int| 0 <= a < b < kept@.len() ==> kept@[a].id < kept@[b].id,
            forall|a: int, m: int|
                0 <= a < kept@.len() && i <= m < n ==> kept@[a].id < store.entries@[m].id,
            forall|a: int| 0 <= a < kept@.len() ==> kept@[a].id < store.next_id,
        decreases n - i,
    {
        let entry = &store.entries[i];
        let ghost pre = all.subrange(0, i as int);
        assert(all.subrange(0, i + 1).drop_last() == pre);
        assert(all.subrange(0, i + 1).last() == entry.view());
        assert(all.subrange(0, i + 1) =~= pre.push(entry.view()));
        proof {
            pre.lemma_filter_push(entry.view(), |t: TaskView| is_due(t, now));
            pre.lemma_filter_push(entry.view(), |t: TaskView| !is_due(t, now));
        }
        if entry.task.execute_at.le(&now) {
            let ghost old_due = due@;
            due.push(entry.task.message.clone());
            assert(string_views(due@) =~= string_views(old_due).push(entry.task.message@));
            assert(due_tasks(all.subrange(0, i + 1), now) == due_tasks(pre, now).push(entry.view()));
            assert(due_messages(all.subrange(0, i + 1), now) =~= due_messages(pre, now).push(
                entry.task.message@,
            ));
        } else {
            let ghost old_kept = kept@;
            let copy = TaskEntry {
                id: entry.id,
                task: ScheduledTask {
                    execute_at: entry.task.execute_at,
                    message: entry.task.message.clone(),
                },
            };
            kept.push(copy);
            assert(kept@.map_values(|e: TaskEntry| e.view()) =~= old_kept.map_values(
                |e: TaskEntry| e.view(),
            ).push(entry.view()));
        }
        i = i + 1;
    }
    assert(all.subrange(0, n as int) == all);
    store.entries = kept;
    due
}

/// Takes out every task that is due now, reading the clock once, and returns
/// their messages.
pub fn check_tasks(store: &mut TaskStore) -> (r: Vec<String>)
    requires
        old(store).wf(),
    ensures
        final(store).wf(),
        final(store).next_id() == old(store).next_id(),
        exists|now: Moment|
            {
                &&& now.wf()
                &&& string_views(r@) == due_messages(old(store).tasks(), now)
                &&& final(store).tasks() == pending(old(store).tasks(), now)
            },
{
    let now = utc_now();
    check_tasks_at(store, now)
}

/// A task that is not yet due is left in the store by a sweep, behind the
/// other pending tasks, and adds no message to what the sweep returns.
pub proof fn law_sweep_keeps_future_task(tasks: Seq<TaskView>, v: TaskView, now: Moment)
    requires
        !is_due(v, now),
    ensures
        due_messages(tasks.push(v), now) == due_messages(tasks, now),
        pending(tasks.push(v), now) == pending(tasks, now).push(v),
{
    tasks.lemma_filter_push(v, |t: TaskView| is_due(t, now));
    tasks.lemma_filter_push(v, |t: TaskView| !is_due(t, now));
}

/// A task that is due is taken out by a sweep, which returns its message
/// after those of the other due tasks.
pub proof fn law_sweep_takes_due_task(tasks: Seq<TaskView>, v: TaskView, now: Moment)
    requires
        is_due(v, now),
    ensures
        due_messages(tasks.push(v), now) == due_messages(tasks, now).push(v.message),
        pending(tasks.push(v), now) == pending(tasks, now),
{
    tasks.lemma_filter_push(v, |t: TaskView| is_due(t, now));
    tasks.lemma_filter_push(v, |t: TaskView| !is_due(t, now));
    assert(due_messages(tasks.push(v), now) =~= due_messages(tasks, now).push(v.message));
}

/// A second sweep at the same moment finds nothing and leaves the store as
/// the first one left it.
pub proof fn law_sweep_again_finds_nothing(tasks: Seq<TaskView>, now: Moment)
    ensures
        due_messages(pending(tasks, now), now) == Seq::<Seq<char>>::empty(),
        pending(pending(tasks, now), now) == pending(tasks, now),
    decreases tasks.len(),
{
    if tasks.len() > 0 {
        let rest = tasks.drop_last();
        let v = tasks.last();
        assert(rest.push(v) =~= tasks);
        law_sweep_again_finds_nothing(rest, now);
        if is_due(v, now) {
            law_sweep_takes_due_task(rest, v, now);
        } else {
            law_sweep_keeps_future_task(rest, v, now);
            law_sweep_keeps_future_task(pending(rest, now), v, now);
        }
    } else {
        assert(pending(tasks, now) =~= tasks) by {
            reveal_with_fuel(Seq::filter, 1);
        }
        assert(due_tasks(tasks, now) =~= tasks) by {
            reveal_with_fuel(Seq::filter, 1);
        }
        assert(due_messages(tasks, now) =~= Seq::<Seq<char>>::empty());
    }
}

/// Two due tasks added one after the other are both taken out by one sweep,
/// which returns both messages.
pub proof fn law_sweep_takes_both_due_tasks(
    tasks: Seq<TaskView>,
    a: TaskView,
    b: TaskView,
    now: Moment,
)
    requires
        is_due(a, now),
        is_due(b, now),
    ensures
        due_messages(tasks.push(a).push(b), now) == due_messages(tasks, now) + seq![
            a.message,
            b.message,
        ],
        pending(tasks.push(a).push(b), now) == pending(tasks, now),
{
    law_sweep_takes_due_task(tasks, a, now);
    law_sweep_takes_due_task(tasks.push(a), b, now);
    assert(due_messages(tasks, now).push(a.message).push(b.message) =~= due_messages(tasks, now)
        + seq![a.message, b.message]);
}

/// In a well-formed store no two tasks share an identifier, and the one that
/// the next task gets is held by none, so an insertion never replaces a task.
pub proof fn law_identifiers_fresh(store: TaskStore)
    requires
        store.wf(),
    ensures
        ids_rising(store.tasks(), store.next_id()),
        forall|a: int, b: int|
            0 <= a < b < store.tasks().len() ==> store.tasks()[a].id != store.tasks()[b].id,
        forall|a: int| 0 <= a < store.tasks().len() ==> store.tasks()[a].id != store.next_id(),
{
}

/// A refused request leaves the tasks and the next identifier as they were.
pub proof fn law_refused_request_changes_nothing(
    tasks: Seq<TaskView>,
    next_id: u64,
    ts: Seq<char>,
    msg: Seq<char>,
)
    requires
        accepted_timestamp(ts) is None,
    ensures
        add_outcome(tasks, next_id, ts, msg) == (tasks, next_id),
{
}

/// Requests handled one after another, as the store's lock orders them, lose
/// no insertion: the earlier tasks stay as they were, the store grows by the
/// number of accepted requests, and identifiers stay distinct and fresh.
pub proof fn law_serial_requests_keep_every_insertion(
    tasks: Seq<TaskView>,
    next_id: u64,
    reqs: Seq<(Seq<char>, Seq<char>)>,
)
    requires
        ids_rising(tasks, next_id),
        next_id + reqs.len() <= u64::MAX,
    ensures
        add_all(tasks, next_id, reqs).0.len() == tasks.len() + accepted_count(reqs),
        add_all(tasks, next_id, reqs).0.subrange(0, tasks.len() as int) == tasks,
        add_all(tasks, next_id, reqs).1 == next_id + accepted_count(reqs),
        ids_rising(add_all(tasks, next_id, reqs).0, add_all(tasks, next_id, reqs).1),
    decreases reqs.len(),
{
    if reqs.len() == 0 {
        assert(tasks.subrange(0, tasks.len() as int) == tasks);
    } else {
        let rest = reqs.drop_last();
        law_serial_requests_keep_every_insertion(tasks, next_id, rest);
        assert(accepted_count(rest) <= rest.len()) by {
            lemma_accepted_count_bound(rest);
        }
        let (t, n) = add_all(tasks, next_id, rest);
        let (t2, n2) = add_outcome(t, n, reqs.last().0, reqs.last().1);
        if accepted_timestamp(reqs.last().0) is Some {
            let v = t2.last();
            assert(t2 == t.push(v));
            assert(t2.subrange(0, tasks.len() as int) == t.subrange(0, tasks.len() as int));
            assert forall|a: int, b: int| 0 <= a < b < t2.len() implies t2[a].id < t2[b].id by {
                if b < t.len() {
                    assert(t2[a] == t[a] && t2[b] == t[b]);
                } else {
                    assert(t2[a] == t[a]);
                }
            }
            assert forall|a: int| 0 <= a < t2.len() implies t2[a].id < n2 by {
                if a < t.len() {
                    assert(t2[a] == t[a]);
                }
            }
        }
    }
}

proof fn lemma_accepted_count_bound(reqs: Seq<(Seq<char>, Seq<char>)>)
    ensures
        accepted_count(reqs) <= reqs.len(),
    decreases reqs.len(),
{
    if reqs.len() > 0 {
        lemma_accepted_count_bound(reqs.drop_last());
    }
}

} // verus!
