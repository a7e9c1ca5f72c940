//! The session ledger: for each task id, its title and the ordered durations
//! of the sittings spent on it.
use vstd::prelude::*;

verus! {

/// One committed sitting on a task, in whole seconds.
#[derive(Debug, Clone, Copy, PartialEq, Eq, Structural)]
pub struct Session {
    pub duration_seconds: u64,
}

/// A task with its title and its sessions, oldest first.
#[derive(Debug, Clone)]
pub struct Task {
    pub id: u64,
    pub title: String,
    pub sessions: Vec<Session>,
}

/// Why a list of tasks was not accepted as a store.
#[derive(Debug, Clone, Copy, PartialEq, Eq, Structural)]
pub enum StoreError {
    /// Two tasks of the list carry this id.
    DuplicateTask(u64),
}

/// What the store keeps of a task: its title and its sessions.
pub type TaskEntry = (Seq<char>, Seq<Session>);

impl Task {
    pub open spec fn entry(&self) -> TaskEntry {
        (self.title@, self.sessions@)
    }
}

/// The sum of the durations of `sessions`, in seconds.
pub open spec fn total_seconds(sessions: Seq<Session>) -> int
    decreases sessions.len(),
{
    if sessions.len() == 0 {
        0
    } else {
        total_seconds(sessions.drop_last()) + sessions.last().duration_seconds
    }
}

/// No two tasks of `tasks` share an id.
pub open spec fn ids_unique(tasks: Seq<Task>) -> bool {
    forall|i: int, j: int| 0 <= i < j < tasks.len() ==> tasks[i].id != tasks[j].id
}

/// The mapping from id to entry that a list of tasks describes.
pub open spec fn task_map(tasks: Seq<Task>) -> Map<u64, TaskEntry>
    decreases tasks.len(),
{
    if tasks.len() == 0 {
        Map::empty()
    } else {
        task_map(tasks.drop_last()).insert(tasks.last().id, tasks.last().entry())
    }
}

/// Every task of the store, each id once.
#[derive(Debug, Clone)]
pub struct DataStore {
    pub tasks: Vec<Task>,
}

impl View for DataStore {
    type V = Map<u64, TaskEntry>;

    open spec fn view(&self) -> Map<u64, TaskEntry> {
        task_map(self.tasks@)
    }
}

/// The ids of `tasks` are the keys of its map, and with unique ids each task
/// is what the map holds under its id.
pub proof fn lemma_task_map(tasks: Seq<Task>)
    ensures
        forall|k: u64|
            #[trigger] task_map(tasks).contains_key(k) <==> exists|i: int|
                0 <= i < tasks.len() && (#[trigger] tasks[i]).id == k,
        ids_unique(tasks) ==> forall|i: int|
            0 <= i < tasks.len() ==> #[trigger] task_map(tasks)[tasks[i].id] == tasks[i].entry(),
    decreases tasks.len(),
{
    if tasks.len() > 0 {
        let prefix = tasks.drop_last();
        lemma_task_map(prefix);
        assert forall|k: u64| #[trigger] task_map(tasks).contains_key(k) <==> exists|i: int|
            0 <= i < tasks.len() && (#[trigger] tasks[i]).id == k by {
            if task_map(prefix).contains_key(k) {
                let i = choose|i: int| 0 <= i < prefix.len() && (#[trigger] prefix[i]).id == k;
                assert(tasks[i] == prefix[i]);
            }
            if exists|i: int| 0 <= i < tasks.len() && (#[trigger] tasks[i]).id == k {
                let i = choose|i: int| 0 <= i < tasks.len() && (#[trigger] tasks[i]).id == k;
                if i < prefix.len() {
                    assert(prefix[i] == tasks[i]);
                }
            }
        }
        if ids_unique(tasks) {
            assert(ids_unique(prefix)) by {
                assert forall|i: int, j: int| 0 <= i < j < prefix.len() implies prefix[i].id
                    != prefix[j].id by {
                    assert(prefix[i] == tasks[i] && prefix[j] == tasks[j]);
                }
            }
            assert forall|i: int| 0 <= i < tasks.len() implies #[trigger] task_map(
                tasks,
            )[tasks[i].id] == tasks[i].entry() by {
                if i < prefix.len() {
                    assert(prefix[i] == tasks[i]);
                    assert(task_map(prefix)[prefix[i].id] == prefix[i].entry());
                    assert(tasks[i].id != tasks[tasks.len() - 1].id);
                } else {
                    assert(tasks[i] == tasks.last());
                }
            }
        }
    }
}

/// Replacing a task by one with the same id replaces that id's entry.
proof fn lemma_task_map_update(tasks: Seq<Task>, i: int, t: Task)
    requires
        ids_unique(tasks),
        0 <= i < tasks.len(),
        t.id == tasks[i].id,
    ensures
        ids_unique(tasks.update(i, t)),
        task_map(tasks.update(i, t)) == task_map(tasks).insert(t.id, t.entry()),
{
    let new = tasks.update(i, t);
    assert forall|a: int, b: int| 0 <= a < b < new.len() implies new[a].id != new[b].id by {}
    lemma_task_map(tasks);
    lemma_task_map(new);
    assert forall|k: u64| #[trigger] task_map(new).contains_key(k) <==> task_map(tasks).insert(
        t.id,
        t.entry(),
    ).contains_key(k) by {
        if exists|j: int| 0 <= j < tasks.len() && (#[trigger] tasks[j]).id == k {
            let j = choose|j: int| 0 <= j < tasks.len() && (#[trigger] tasks[j]).id == k;
            assert(new[j].id == k);
        }
        if exists|j: int| 0 <= j < new.len() && (#[trigger] new[j]).id == k {
            let j = choose|j: int| 0 <= j < new.len() && (#[trigger] new[j]).id == k;
            assert(tasks[j].id == k);
        }
    }
    assert forall|k: u64| #[trigger] task_map(new).contains_key(k) implies task_map(new)[k]
        == task_map(tasks).insert(t.id, t.entry())[k] by {
        let j = choose|j: int| 0 <= j < new.len() && (#[trigger] new[j]).id == k;
        assert(task_map(new)[new[j].id] == new[j].entry());
        if j != i {
            assert(task_map(tasks)[tasks[j].id] == tasks[j].entry());
        }
    }
    assert(task_map(new) =~= task_map(tasks).insert(t.id, t.entry()));
}

/// The sum of the durations of a task's sessions, in seconds.
pub fn time_spent_on_task(task: &Task) -> (r: u128)
    ensures
        r == total_seconds(task.sessions@),
{
    let mut sum: u128 = 0;
    let mut i: usize = 0;
    while i < task.sessions.len()
        invariant
            i <= task.sessions@.len(),
            sum == total_seconds(task.sessions@.take(i as int)),
            sum <= i * 0xffff_ffff_ffff_ffffu128,
        decreases task.sessions@.len() - i,
    {
        assert(task.sessions@.take(i + 1).drop_last() =~= task.sessions@.take(i as int));
        sum = sum + task.sessions[i].duration_seconds as u128;
        i = i + 1;
    }
    assert(task.sessions@.take(i as int) =~= task.sessions@);
    sum
}

/// Seconds recorded under `id` in `m`; zero for an id without an entry.
pub open spec fn time_in(m: Map<u64, TaskEntry>, id: u64) -> int {
    if m.contains_key(id) {
        total_seconds(m[id].1)
    } else {
        0
    }
}

/// `m` after a session of `d` seconds on `id`; `title` names a task made anew.
pub open spec fn recorded(m: Map<u64, TaskEntry>, id: u64, title: Seq<char>, d: u64) -> Map<
    u64,
    TaskEntry,
> {
    if m.contains_key(id) {
        m.insert(id, (m[id].0, m[id].1.push(Session { duration_seconds: d })))
    } else {
        m.insert(id, (title, seq![Session { duration_seconds: d }]))
    }
}

/// `m` after a session on `id` for each duration of `ds`, in order.
pub open spec fn recorded_all(m: Map<u64, TaskEntry>, id: u64, title: Seq<char>, ds: Seq<u64>) -> Map<
    u64,
    TaskEntry,
>
    decreases ds.len(),
{
    if ds.len() == 0 {
        m
    } else {
        recorded(recorded_all(m, id, title, ds.drop_last()), id, title, ds.last())
    }
}

/// The sessions that the durations `ds` make, in order.
pub open spec fn sessions_of(ds: Seq<u64>) -> Seq<Session> {
    ds.map_values(|d: u64| Session { duration_seconds: d })
}

/// The sum of `ds`.
pub open spec fn sum_of(ds: Seq<u64>) -> int
    decreases ds.len(),
{
    if ds.len() == 0 {
        0
    } else {
        sum_of(ds.drop_last()) + ds.last()
    }
}

/// Recording sessions only adds: after sessions of `ds` on `id`, the time on
/// `id` grows by the sum of `ds`, the sessions it had come first and unchanged
/// followed by the new ones in order, its title stays, and no other id changes.
pub proof fn lemma_record_sessions_additive(
    m: Map<u64, TaskEntry>,
    id: u64,
    title: Seq<char>,
    ds: Seq<u64>,
)
    ensures
        time_in(recorded_all(m, id, title, ds), id) == time_in(m, id) + sum_of(ds),
        m.contains_key(id) ==> recorded_all(m, id, title, ds)[id] == (
            m[id].0,
            m[id].1 + sessions_of(ds),
        ),
        forall|k: u64|
            k != id ==> (#[trigger] recorded_all(m, id, title, ds).contains_key(k)
                <==> m.contains_key(k)) && (m.contains_key(k) ==> recorded_all(
                m,
                id,
                title,
                ds,
            )[k] == m[k]),
    decreases ds.len(),
{
    if ds.len() > 0 {
        let prefix = ds.drop_last();
        lemma_record_sessions_additive(m, id, title, prefix);
        let before = recorded_all(m, id, title, prefix);
        let d = Session { duration_seconds: ds.last() };
        if before.contains_key(id) {
            assert(before[id].1.push(d).drop_last() =~= before[id].1);
        } else {
            assert(seq![d].drop_last() =~= Seq::<Session>::empty());
            assert(total_seconds(Seq::<Session>::empty()) == 0);
        }
        if m.contains_key(id) {
            assert(m[id].1 + sessions_of(ds) =~= (m[id].1 + sessions_of(prefix)).push(d));
        }
    }
}

/// The sum of durations does not depend on their order.
pub proof fn lemma_sum_ignores_order(ds: Seq<u64>, other: Seq<u64>)
    requires
        ds.to_multiset() == other.to_multiset(),
    ensures
        sum_of(ds) == sum_of(other),
    decreases ds.len(),
{
    ds.to_multiset_ensures();
    other.to_multiset_ensures();
    if ds.len() == 0 {
        if other.len() > 0 {
            assert(other.to_multiset().count(other[0]) > 0);
        }
    } else {
        let x = ds.last();
        assert(ds.to_multiset().count(x) > 0) by {
            assert(ds.drop_last().push(x) =~= ds);
        }
        let k = choose|k: int| 0 <= k < other.len() && other[k] == x;
        let rest = other.remove(k);
        lemma_sum_without(other, k);
        ds.drop_last().to_multiset_ensures();
        assert(ds.drop_last().to_multiset() =~= rest.to_multiset());
        lemma_sum_ignores_order(ds.drop_last(), rest);
    }
}

/// Recording the same durations on a task in any order gives it the same time.
pub proof fn lemma_record_order_irrelevant(
    m: Map<u64, TaskEntry>,
    id: u64,
    title: Seq<char>,
    ds: Seq<u64>,
    other: Seq<u64>,
)
    requires
        ds.to_multiset() == other.to_multiset(),
    ensures
        time_in(recorded_all(m, id, title, ds), id) == time_in(
            recorded_all(m, id, title, other),
            id,
        ),
{
    lemma_record_sessions_additive(m, id, title, ds);
    lemma_record_sessions_additive(m, id, title, other);
    lemma_sum_ignores_order(ds, other);
}

/// Taking out one duration takes it out of the sum.
proof fn lemma_sum_without(ds: Seq<u64>, k: int)
    requires
        0 <= k < ds.len(),
    ensures
        sum_of(ds) == sum_of(ds.remove(k)) + ds[k],
    decreases ds.len(),
{
    if k < ds.len() - 1 {
        lemma_sum_without(ds.drop_last(), k);
        assert(ds.remove(k).drop_last() =~= ds.drop_last().remove(k));
        assert(ds.remove(k).last() == ds.last());
    } else {
        assert(ds.remove(k) =~= ds.drop_last());
    }
}

/// Two lists that hold the same tasks, each id once, in whatever order,
/// describe the same store: loading does not depend on the order of entries
/// in the persisted form.
pub proof fn lemma_load_ignores_order(a: Seq<Task>, b: Seq<Task>)
    requires
        ids_unique(a),
        ids_unique(b),
        forall|i: int|
            0 <= i < a.len() ==> exists|j: int|
                0 <= j < b.len() && (#[trigger] b[j]).id == (#[trigger] a[i]).id && b[j].entry()
                    == a[i].entry(),
        forall|j: int|
            0 <= j < b.len() ==> exists|i: int|
                0 <= i < a.len() && (#[trigger] a[i]).id == (#[trigger] b[j]).id && a[i].entry()
                    == b[j].entry(),
    ensures
        task_map(a) == task_map(b),
{
    lemma_task_map(a);
    lemma_task_map(b);
    assert forall|k: u64| #[trigger] task_map(a).contains_key(k) <==> task_map(b).contains_key(k) by {
        if task_map(a).contains_key(k) {
            let i = choose|i: int| 0 <= i < a.len() && (#[trigger] a[i]).id == k;
            let j = choose|j: int|
                0 <= j < b.len() && (#[trigger] b[j]).id == (#[trigger] a[i]).id && b[j].entry()
                    == a[i].entry();
        }
        if task_map(b).contains_key(k) {
            let j = choose|j: int| 0 <= j < b.len() && (#[trigger] b[j]).id == k;
            let i = choose|i: int|
                0 <= i < a.len() && (#[trigger] a[i]).id == (#[trigger] b[j]).id && a[i].entry()
                    == b[j].entry();
        }
    }
    assert forall|k: u64| #[trigger] task_map(a).contains_key(k) implies task_map(a)[k] == task_map(b)[k] by {
        let i = choose|i: int| 0 <= i < a.len() && (#[trigger] a[i]).id == k;
        let j = choose|j: int|
            0 <= j < b.len() && (#[trigger] b[j]).id == (#[trigger] a[i]).id && b[j].entry()
                == a[i].entry();
        assert(task_map(a)[a[i].id] == a[i].entry());
        assert(task_map(b)[b[j].id] == b[j].entry());
    }
    assert(task_map(a) =~= task_map(b));
}

impl DataStore {
    pub open spec fn wf(&self) -> bool {
        ids_unique(self.tasks@)
    }

    /// Seconds recorded for `id`; zero for an id without an entry.
    pub open spec fn time_of(&self, id: u64) -> int {
        time_in(self@, id)
    }

    /// The store with no tasks, as loaded when nothing was persisted yet.
    pub fn new() -> (r: DataStore)
        ensures
            r.wf(),
            r@ == Map::<u64, TaskEntry>::empty(),
    {
        DataStore { tasks: Vec::new() }
    }

    /// Position of the task with this id, if the store has one.
    fn find(&self, id: u64) -> (r: Option<usize>)
        requires
            self.wf(),
        ensures
            match r {
                Some(i) => i < self.tasks@.len() && self.tasks@[i as int].id == id
                    && self@.contains_key(id) && self@[id] == self.tasks@[i as int].entry(),
                None => !self@.contains_key(id),
            },
    {
        proof {
            lemma_task_map(self.tasks@);
        }
        let mut i: usize = 0;
        while i < self.tasks.len()
            invariant
                self.wf(),
                i <= self.tasks@.len(),
                forall|j: int| 0 <= j < i ==> (#[trigger] self.tasks@[j]).id != id,
            decreases self.tasks@.len() - i,
        {
            if self.tasks[i].id == id {
                proof {
                    lemma_task_map(self.tasks@);
                }
                return Some(i);
            }
            i = i + 1;
        }
        None
    }

    /// Total time recorded on `id`, in seconds; zero, and no entry made, for
    /// an id without sessions.
    pub fn time_on_task(&self, id: u64) -> (r: u128)
        requires
            self.wf(),
        ensures
            r == self.time_of(id),
            !self@.contains_key(id) ==> r == 0,
    {
        match self.find(id) {
            Some(i) => time_spent_on_task(&self.tasks[i]),
            None => 0,
        }
    }

    /// Appends a session of `duration_seconds` to the task `id`, making the task
    /// with `title` first when the store has none with that id.
    pub fn record_session(&mut self, id: u64, title: &str, duration_seconds: u64)
        requires
            old(self).wf(),
        ensures
            final(self).wf(),
            final(self)@ == recorded(old(self)@, id, title@, duration_seconds),
            final(self).time_of(id) == old(self).time_of(id) + duration_seconds,
    {
        let session = Session { duration_seconds };
        match self.find(id) {
            Some(i) => {
                let ghost before = self.tasks@;
                let mut task = self.tasks.remove(i);
                task.sessions.push(session);
                self.tasks.insert(i, task);
                proof {
                    assert(self.tasks@ =~= before.update(i as int, task));
                    lemma_task_map_update(before, i as int, task);
                    assert(task.sessions@ =~= before[i as int].sessions@.push(session));
                    assert(before[i as int].sessions@.push(session).drop_last()
                        =~= before[i as int].sessions@);
                    assert(self@[id] == task.entry());
                    assert(total_seconds(task.sessions@) == total_seconds(
                        before[i as int].sessions@,
                    ) + duration_seconds);
                }
            },
            None => {
                let ghost before = self.tasks@;
                let mut sessions: Vec<Session> = Vec::new();
                sessions.push(session);
                self.tasks.push(Task { id, title: title.to_owned(), sessions });
                proof {
                    lemma_task_map(before);
                    assert(self.tasks@.drop_last() =~= before);
                    assert(sessions@.drop_last() =~= Seq::<Session>::empty());
                    assert(sessions@ =~= seq![session]);
                    assert(seq![session].drop_last() =~= Seq::<Session>::empty());
                    assert(self@[id].1 == seq![session]);
                    assert(total_seconds(Seq::<Session>::empty()) == 0);
                    assert(seq![session].last() == session);
                    assert(total_seconds(seq![session]) == duration_seconds);
                    assert forall|a: int, b: int|
                        0 <= a < b < self.tasks@.len() implies self.tasks@[a].id
                        != self.tasks@[b].id by {
                        if b == self.tasks@.len() - 1 {
                            assert(self.tasks@[a] == before[a]);
                        }
                    }
                }
            },
        }
    }

    /// The store that a list of tasks describes, refused when two of them
    /// share an id.
    pub fn from_tasks(tasks: Vec<Task>) -> (r: Result<DataStore, StoreError>)
        ensures
            r is Ok <==> ids_unique(tasks@),
            match r {
                Ok(s) => s.wf() && s.tasks@ == tasks@ && s@ == task_map(tasks@),
                Err(StoreError::DuplicateTask(id)) => exists|i: int, j: int|
                    0 <= i < j < tasks@.len() && tasks@[i].id == id && tasks@[j].id == id,
            },
    {
        let mut j: usize = 0;
        while j < tasks.len()
            invariant
                j <= tasks@.len(),
                forall|a: int, b: int| 0 <= a < b < j ==> tasks@[a].id != tasks@[b].id,
            decreases tasks@.len() - j,
        {
            let mut i: usize = 0;
            while i < j
                invariant
                    i <= j < tasks@.len(),
                    forall|a: int| 0 <= a < i ==> tasks@[a].id != tasks@[j as int].id,
                decreases j - i,
            {
                if tasks[i].id == tasks[j].id {
                    return Err(StoreError::DuplicateTask(tasks[j].id));
                }
                i = i + 1;
            }
            j = j + 1;
        }
        Ok(DataStore { tasks })
    }
}

/// Persisting then loading gives an equal store: a list that holds the
/// store's tasks (same ids, titles and sessions), in whatever order it comes
/// back, each id once, describes the same mapping from id to title and
/// sessions as the store.
pub proof fn lemma_persist_load_round_trip(s: DataStore, loaded: Seq<Task>)
    requires
        s.wf(),
        ids_unique(loaded),
        forall|i: int|
            0 <= i < s.tasks@.len() ==> exists|j: int|
                0 <= j < loaded.len() && (#[trigger] loaded[j]).id == (#[trigger] s.tasks@[i]).id
                    && loaded[j].entry() == s.tasks@[i].entry(),
        forall|j: int|
            0 <= j < loaded.len() ==> exists|i: int|
                0 <= i < s.tasks@.len() && (#[trigger] s.tasks@[i]).id == (#[trigger] loaded[j]).id
                    && s.tasks@[i].entry() == loaded[j].entry(),
    ensures
        task_map(loaded) == s@,
        forall|id: u64| time_in(task_map(loaded), id) == s.time_of(id),
{
    lemma_load_ignores_order(s.tasks@, loaded);
}

} // verus!
