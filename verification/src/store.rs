//! The task log: tasks kept in the order of their identifiers.

use vstd::prelude::*;
use crate::filter::{admits, option_filter_view, TaskFilter, TaskFilterView};
use crate::task::{Task, TaskId, TaskView};

verus! {

/// The tasks of a vector, each as its mathematical value.
pub open spec fn tasks_view(v: Seq<Task>) -> Seq<TaskView> {
    v.map_values(|t: Task| t@)
}

/// A log is a sequence of tasks whose identifiers strictly increase.
pub open spec fn ascending(log: Seq<TaskView>) -> bool {
    forall|i: int, j: int| 0 <= i < j < log.len() ==> log[i].id < log[j].id
}

/// Whether the log holds a task with this identifier.
pub open spec fn log_contains(log: Seq<TaskView>, id: TaskId) -> bool {
    exists|i: int| 0 <= i < log.len() && log[i].id == id
}

/// The task that the log holds under an identifier, if any.
pub open spec fn log_get(log: Seq<TaskView>, id: TaskId) -> Option<TaskView> {
    if log_contains(log, id) {
        Some(log[choose|i: int| 0 <= i < log.len() && log[i].id == id])
    } else {
        None
    }
}

/// The identifier that the next new task gets: one more than the greatest
/// identifier in the log, and zero for the empty log.
pub open spec fn next_id(log: Seq<TaskView>) -> int {
    if log.len() == 0 {
        0
    } else {
        log.last().id + 1
    }
}

/// The log after a task was written at its own identifier: the tasks below
/// it, the task, and the tasks above it.
#[verifier::opaque]
pub open spec fn log_put(log: Seq<TaskView>, task: TaskView) -> Seq<TaskView> {
    log.filter(id_below(task.id)) + seq![task] + log.filter(id_above(task.id))
}

/// The tasks whose identifier is less than `id`.
pub open spec fn id_below(id: TaskId) -> spec_fn(TaskView) -> bool {
    |t: TaskView| t.id < id
}

/// The tasks whose identifier is greater than `id`.
pub open spec fn id_above(id: TaskId) -> spec_fn(TaskView) -> bool {
    |t: TaskView| t.id > id
}

/// The tasks that a page may show: those at or before the offset, where
/// there is one, that the filter lets through, where there is one.
pub open spec fn page_candidate(
    offset: Option<TaskId>,
    filter: Option<TaskFilterView>,
) -> spec_fn(TaskView) -> bool {
    |t: TaskView|
        (match offset {
            Some(o) => t.id <= o,
            None => true,
        }) && admits(filter, t)
}

/// A page of the log, most recent first: the candidates in descending order
/// of their identifiers, cut after `limit` tasks where a limit is given.
pub open spec fn log_page(
    log: Seq<TaskView>,
    offset: Option<TaskId>,
    filter: Option<TaskFilterView>,
    limit: Option<usize>,
) -> Seq<TaskView> {
    let all = log.filter(page_candidate(offset, filter)).reverse();
    match limit {
        Some(n) => if n < all.len() {
            all.subrange(0, n as int)
        } else {
            all
        },
        None => all,
    }
}

/// The tasks that still wait to be run or are being run, from an identifier on.
pub open spec fn unfinished_from(from: Option<TaskId>) -> spec_fn(TaskView) -> bool {
    |t: TaskView|
        (match from {
            Some(o) => t.id >= o,
            None => true,
        }) && !t.is_finished()
}

/// The unfinished tasks of the log from an identifier on, in ascending order
/// of their identifiers.
pub open spec fn log_unfinished(log: Seq<TaskView>, from: Option<TaskId>) -> Seq<TaskView> {
    log.filter(unfinished_from(from))
}

/// The log after the tasks were written one after the other.
pub open spec fn log_put_all(log: Seq<TaskView>, tasks: Seq<TaskView>) -> Seq<TaskView>
    decreases tasks.len(),
{
    if tasks.len() == 0 {
        log
    } else {
        log_put(log_put_all(log, tasks.drop_last()), tasks.last())
    }
}

/// One past the greatest identifier among the tasks, and zero for no task.
pub open spec fn writes_floor(tasks: Seq<TaskView>) -> int
    decreases tasks.len(),
{
    if tasks.len() == 0 {
        0
    } else if writes_floor(tasks.drop_last()) > tasks.last().id {
        writes_floor(tasks.drop_last())
    } else {
        tasks.last().id + 1
    }
}

/// A write transaction: the tasks written in it, in the order of the
/// writes. They reach the log when the transaction is committed, all at
/// once, and never where it is dropped instead.
#[derive(Debug)]
pub struct RwTxn {
    writes: Vec<Task>,
    floor: u64,
}

impl View for RwTxn {
    type V = Seq<TaskView>;

    closed spec fn view(&self) -> Seq<TaskView> {
        tasks_view(self.writes@)
    }
}

impl RwTxn {
    /// The transaction keeps count of the greatest identifier written in it.
    #[verifier::type_invariant]
    closed spec fn inv(&self) -> bool {
        self.floor == writes_floor(self@)
    }

    /// Number of writes in the transaction.
    pub fn len(&self) -> (n: usize)
        ensures
            n == self@.len(),
    {
        self.writes.len()
    }

    /// The tasks written in the transaction, in the order of the writes.
    pub fn writes(&self) -> (r: &Vec<Task>)
        ensures
            tasks_view(r@) == self@,
    {
        &self.writes
    }

    /// Gives the transaction up: none of its writes reaches the log.
    pub fn abort(self) {
    }
}

/// The task log.
#[derive(Debug)]
pub struct Store {
    tasks: Vec<Task>,
}

impl View for Store {
    type V = Seq<TaskView>;

    closed spec fn view(&self) -> Seq<TaskView> {
        tasks_view(self.tasks@)
    }
}

impl Store {
    /// The invariant of the log: identifiers strictly increase.
    #[verifier::type_invariant]
    pub open spec fn inv(&self) -> bool {
        ascending(self@)
    }

    /// The empty log.
    pub fn new() -> (r: Self)
        ensures
            ascending(r@),
            r@ == Seq::<TaskView>::empty(),
    {
        let r = Store { tasks: Vec::new() };
        assert(r@ =~= Seq::<TaskView>::empty());
        r
    }

    /// Number of tasks in the log.
    pub fn len(&self) -> (n: usize)
        ensures
            n == self@.len(),
    {
        self.tasks.len()
    }

    /// The tasks of the log, in ascending order of their identifiers.
    pub fn tasks(&self) -> (r: &Vec<Task>)
        ensures
            tasks_view(r@) == self@,
            ascending(self@),
    {
        proof {
            use_type_invariant(self);
        }
        &self.tasks
    }

    /// Opens a write transaction, with no write in it yet.
    pub fn wtxn(&self) -> (txn: RwTxn)
        ensures
            txn@ == Seq::<TaskView>::empty(),
    {
        let txn = RwTxn { writes: Vec::new(), floor: 0 };
        assert(txn@ =~= Seq::<TaskView>::empty());
        txn
    }

    /// One past the greatest identifier in the log.
    fn top(&self) -> (r: u64)
        ensures
            r == next_id(self@),
    {
        let n = self.tasks.len();
        if n == 0 {
            0
        } else {
            assert(self@[n - 1].id == self.tasks@[n - 1].id);
            self.tasks[n - 1].id as u64 + 1
        }
    }

    /// Whether a new identifier can still be given out in the transaction.
    pub fn can_allocate(&self, txn: &RwTxn) -> (b: bool)
        ensures
            b == (next_id(log_put_all(self@, txn@)) <= TaskId::MAX),
    {
        proof {
            use_type_invariant(self);
            use_type_invariant(txn);
        }
        proof {
            lemma_put_all_next_id(self@, txn@);
        }
        let top = self.top();
        top <= TaskId::MAX as u64 && txn.floor <= TaskId::MAX as u64
    }

    /// Returns the id for the next task: one past the greatest identifier
    /// in the log as the transaction sees it, with its own writes.
    pub fn next_task_id(&self, txn: &RwTxn) -> (id: TaskId)
        requires
            next_id(log_put_all(self@, txn@)) <= TaskId::MAX,
        ensures
            id == next_id(log_put_all(self@, txn@)),
    {
        proof {
            use_type_invariant(self);
            use_type_invariant(txn);
        }
        proof {
            lemma_put_all_next_id(self@, txn@);
        }
        let top = self.top();
        if top < txn.floor {
            txn.floor as TaskId
        } else {
            top as TaskId
        }
    }

    /// Writes a task in the transaction, at its own identifier.
    pub fn put(&self, txn: &mut RwTxn, task: &Task)
        ensures
            final(txn)@ == old(txn)@.push(task@),
            log_put_all(self@, final(txn)@) == log_put(log_put_all(self@, old(txn)@), task@),
    {
        proof {
            use_type_invariant(&*txn);
        }
        let ghost before = txn@;
        let mut taken = RwTxn { writes: Vec::new(), floor: 0 };
        assert(taken@ =~= Seq::<TaskView>::empty());
        core::mem::swap(txn, &mut taken);
        let RwTxn { mut writes, floor } = taken;
        writes.push(task.clone());
        let floor = if floor <= task.id as u64 {
            task.id as u64 + 1
        } else {
            floor
        };
        proof {
            assert(tasks_view(writes@) =~= before.push(task@));
            assert(before.push(task@).drop_last() =~= before);
        }
        *txn = RwTxn { writes, floor };
    }

    /// Commits the transaction: its writes reach the log, in their order.
    pub fn commit(&mut self, txn: RwTxn)
        ensures
            ascending(final(self)@),
            final(self)@ == log_put_all(old(self)@, txn@),
    {
        proof {
            use_type_invariant(&*self);
        }
        let ghost start = self@;
        let ghost all = txn@;
        let RwTxn { writes, floor: _ } = txn;
        assert(all.subrange(0, 0) =~= Seq::<TaskView>::empty());
        for task in it: writes
            invariant
                ascending(self@),
                tasks_view(it.seq()) == all,
                self@ == log_put_all(start, all.subrange(0, it.index() as int)),
        {
            proof {
                let i = it.index() as int;
                let next = all.subrange(0, i + 1);
                assert(next.drop_last() =~= all.subrange(0, i));
                assert(next.last() == task@);
            }
            self.apply(task);
        }
        assert(all.subrange(0, all.len() as int) =~= all);
    }

    /// Index of the first task whose identifier is not below `id`.
    fn lower_bound(&self, id: TaskId) -> (idx: usize)
        requires
            ascending(self@),
        ensures
            idx <= self@.len(),
            forall|i: int| 0 <= i < idx ==> self@[i].id < id,
            forall|i: int| idx <= i < self@.len() ==> self@[i].id >= id,
    {
        let mut lo: usize = 0;
        let mut hi: usize = self.tasks.len();
        while lo < hi
            invariant
                ascending(self@),
                lo <= hi <= self@.len(),
                self@.len() == self.tasks@.len(),
                forall|i: int| 0 <= i < lo ==> self@[i].id < id,
                forall|i: int| hi <= i < self@.len() ==> self@[i].id >= id,
            decreases hi - lo,
        {
            let mid = lo + (hi - lo) / 2;
            assert(self@[mid as int].id == self.tasks@[mid as int].id);
            if self.tasks[mid].id < id {
                assert forall|i: int| 0 <= i < mid + 1 implies self@[i].id < id by {
                    if i < mid {
                        assert(self@[i].id < self@[mid as int].id);
                    }
                }
                lo = mid + 1;
            } else {
                assert forall|i: int| mid <= i < self@.len() implies self@[i].id >= id by {
                    if mid < i {
                        assert(self@[mid as int].id < self@[i].id);
                    }
                }
                hi = mid;
            }
        }
        lo
    }

    /// Puts a task into the log at its own identifier, over the task that
    /// was there if there was one.
    fn apply(&mut self, task: Task)
        ensures
            ascending(final(self)@),
            final(self)@ == log_put(old(self)@, task@),
    {
        proof {
            use_type_invariant(&*self);
        }
        let idx = self.lower_bound(task.id);
        let ghost before = self@;
        assert(before.len() == self.tasks@.len());
        proof {
            if idx < before.len() {
                assert(before[idx as int].id == self.tasks@[idx as int].id);
            }
            lemma_put_at(before, task@, idx as int);
            lemma_put_preserves_order(before, task@);
        }
        let ghost written = task@;
        let mut tasks: Vec<Task> = Vec::new();
        assert(tasks_view(tasks@) =~= Seq::<TaskView>::empty());
        core::mem::swap(&mut self.tasks, &mut tasks);
        if idx < tasks.len() && tasks[idx].id == task.id {
            tasks[idx] = task;
            assert(tasks_view(tasks@) =~= before.update(idx as int, written));
        } else {
            tasks.insert(idx, task);
            assert(tasks_view(tasks@) =~= before.insert(idx as int, written));
        }
        self.tasks = tasks;
    }

    /// Returns the unfinished tasks starting from the given identifier, in
    /// ascending order.
    pub fn fetch_unfinished_tasks(&self, from: Option<TaskId>) -> (r: Vec<Task>)
        ensures
            tasks_view(r@) == log_unfinished(self@, from),
    {
        proof {
            use_type_invariant(self);
        }
        let ghost log = self@;
        let ghost p = unfinished_from(from);
        let start = match from {
            Some(o) => self.lower_bound(o),
            None => 0,
        };
        let mut out: Vec<Task> = Vec::new();
        let mut i: usize = start;
        proof {
            assert forall|k: int| 0 <= k < start implies !p(#[trigger] log.subrange(0, start as int)[k]) by {
                assert(log[k].id < from->0);
            }
            lemma_filter_none(log.subrange(0, start as int), p);
            assert(tasks_view(out@) =~= Seq::<TaskView>::empty());
        }
        while i < self.tasks.len()
            invariant
                log == self@,
                p == unfinished_from(from),
                log.len() == self.tasks@.len(),
                start <= i <= log.len(),
                from matches Some(o) ==> forall|k: int| start <= k < log.len() ==> log[k].id >= o,
                tasks_view(out@) == log.subrange(0, i as int).filter(p),
            decreases log.len() - i,
        {
            let task = &self.tasks[i];
            proof {
                assert(log[i as int] == task@);
                lemma_filter_push(log.subrange(0, i as int), p, task@);
                assert(log.subrange(0, i as int).push(task@) =~= log.subrange(0, i + 1));
            }
            if !task.is_finished() {
                let ghost before = tasks_view(out@);
                out.push(task.clone());
                assert(tasks_view(out@) =~= before.push(task@));
            }
            i += 1;
        }
        assert(log.subrange(0, i as int) =~= log);
        out
    }

    /// Returns the tasks at or before `from`, most recent first, that pass
    /// the filter, and at most `limit` of them.
    pub fn list_tasks(
        &self,
        from: Option<TaskId>,
        filter: Option<TaskFilter>,
        limit: Option<usize>,
    ) -> (r: Vec<Task>)
        ensures
            tasks_view(r@) == log_page(self@, from, option_filter_view(filter), limit),
    {
        proof {
            use_type_invariant(self);
        }
        let ghost log = self@;
        let ghost p = page_candidate(from, option_filter_view(filter));
        let n = self.tasks.len();
        let start = match from {
            Some(o) => if o < TaskId::MAX {
                self.lower_bound(o + 1)
            } else {
                n
            },
            None => n,
        };
        let mut out: Vec<Task> = Vec::new();
        let mut i: usize = start;
        proof {
            let tail = log.subrange(start as int, n as int);
            assert forall|k: int| 0 <= k < tail.len() implies !p(#[trigger] tail[k]) by {
                assert(log[start + k].id >= from->0 + 1);
            }
            lemma_filter_none(tail, p);
            assert(tasks_view(out@) =~= tail.filter(p).reverse());
        }
        while i > 0 && !limit_reached(limit, out.len())
            invariant
                log == self@,
                p == page_candidate(from, option_filter_view(filter)),
                n == log.len(),
                n == self.tasks@.len(),
                0 <= i <= start <= n,
                from matches Some(o) ==> forall|k: int| 0 <= k < start ==> log[k].id <= o,
                limit matches Some(m) ==> out.len() <= m,
                tasks_view(out@) == log.subrange(i as int, n as int).filter(p).reverse(),
            decreases i,
        {
            i -= 1;
            let task = &self.tasks[i];
            let keep = match &filter {
                Some(f) => f.pass(task),
                None => true,
            };
            proof {
                assert(log[i as int] == task@);
                assert(keep == p(task@));
                lemma_page_step(log, p, i as int);
            }
            if keep {
                let ghost before = tasks_view(out@);
                out.push(task.clone());
                assert(tasks_view(out@) =~= before.push(task@));
            }
        }
        proof {
            lemma_page_prefix(log, p, i as int);
            if i == 0 {
                assert(log.subrange(0, n as int) =~= log);
            }
        }
        out
    }

    /// The task stored under an identifier, if any.
    pub fn get(&self, id: TaskId) -> (r: Option<Task>)
        ensures
            option_task_view(r) == log_get(self@, id),
    {
        proof {
            use_type_invariant(self);
        }
        let idx = self.lower_bound(id);
        assert(self@.len() == self.tasks@.len());
        if idx < self.tasks.len() && self.tasks[idx].id == id {
            proof {
                assert(self@[idx as int] == self.tasks@[idx as int]@);
                lemma_get_at(self@, idx as int);
            }
            Some(self.tasks[idx].clone())
        } else {
            proof {
                if idx < self@.len() {
                    assert(self@[idx as int].id == self.tasks@[idx as int].id);
                }
                assert forall|i: int| 0 <= i < self@.len() implies self@[i].id != id by {
                    if i > idx {
                        assert(self@[idx as int].id < self@[i].id);
                    }
                }
            }
            None
        }
    }
}

/// An optional task as its optional mathematical value.
pub open spec fn option_task_view(t: Option<Task>) -> Option<TaskView> {
    match t {
        Some(t) => Some(t@),
        None => None,
    }
}

/// In a log, an identifier is found at one place only.
pub proof fn lemma_get_at(log: Seq<TaskView>, i: int)
    requires
        ascending(log),
        0 <= i < log.len(),
    ensures
        log_contains(log, log[i].id),
        log_get(log, log[i].id) == Some(log[i]),
{
    let id = log[i].id;
    assert(log_contains(log, id));
    let j = choose|j: int| 0 <= j < log.len() && log[j].id == id;
    if j < i {
        assert(log[j].id < log[i].id);
    } else if i < j {
        assert(log[i].id < log[j].id);
    }
}

proof fn lemma_filter_all<A>(s: Seq<A>, p: spec_fn(A) -> bool)
    requires
        forall|i: int| 0 <= i < s.len() ==> p(#[trigger] s[i]),
    ensures
        s.filter(p) == s,
    decreases s.len(),
{
    reveal(Seq::filter);
    if s.len() > 0 {
        lemma_filter_all(s.drop_last(), p);
        assert(s.drop_last().push(s.last()) =~= s);
    }
}

proof fn lemma_filter_none<A>(s: Seq<A>, p: spec_fn(A) -> bool)
    requires
        forall|i: int| 0 <= i < s.len() ==> !p(#[trigger] s[i]),
    ensures
        s.filter(p) == Seq::<A>::empty(),
    decreases s.len(),
{
    reveal(Seq::filter);
    if s.len() > 0 {
        lemma_filter_none(s.drop_last(), p);
    }
}

proof fn lemma_filter_prefix<A>(s: Seq<A>, p: spec_fn(A) -> bool, k: int)
    requires
        0 <= k <= s.len(),
        forall|i: int| 0 <= i < k ==> p(#[trigger] s[i]),
        forall|i: int| k <= i < s.len() ==> !p(#[trigger] s[i]),
    ensures
        s.filter(p) == s.subrange(0, k),
{
    let a = s.subrange(0, k);
    let b = s.subrange(k, s.len() as int);
    assert(s =~= a + b);
    Seq::filter_distributes_over_add(a, b, p);
    lemma_filter_all(a, p);
    lemma_filter_none(b, p);
    assert(a + Seq::<A>::empty() =~= a);
}

proof fn lemma_filter_suffix<A>(s: Seq<A>, p: spec_fn(A) -> bool, k: int)
    requires
        0 <= k <= s.len(),
        forall|i: int| 0 <= i < k ==> !p(#[trigger] s[i]),
        forall|i: int| k <= i < s.len() ==> p(#[trigger] s[i]),
    ensures
        s.filter(p) == s.subrange(k, s.len() as int),
{
    let a = s.subrange(0, k);
    let b = s.subrange(k, s.len() as int);
    assert(s =~= a + b);
    Seq::filter_distributes_over_add(a, b, p);
    lemma_filter_none(a, p);
    lemma_filter_all(b, p);
    assert(Seq::<A>::empty() + b =~= b);
}

/// Where a write lands: at the place of the first task whose identifier is
/// not below that of the written task. It takes the place of a task with its
/// identifier, and stands before the task there otherwise.
pub proof fn lemma_put_at(log: Seq<TaskView>, task: TaskView, idx: int)
    requires
        ascending(log),
        0 <= idx <= log.len(),
        forall|i: int| 0 <= i < idx ==> log[i].id < task.id,
        forall|i: int| idx <= i < log.len() ==> log[i].id >= task.id,
    ensures
        idx < log.len() && log[idx].id == task.id ==> log_put(log, task) == log.update(idx, task),
        !(idx < log.len() && log[idx].id == task.id) ==> log_put(log, task) == log.insert(
            idx,
            task,
        ),
{
    reveal(log_put);
    let hit = idx < log.len() && log[idx].id == task.id;
    let k = if hit {
        idx + 1
    } else {
        idx
    };
    assert forall|i: int| k <= i < log.len() implies log[i].id > task.id by {
        if i > idx {
            assert(log[idx].id < log[i].id);
        }
    }
    lemma_filter_prefix(log, id_below(task.id), idx);
    lemma_filter_suffix(log, id_above(task.id), k);
    let a = log.subrange(0, idx);
    let c = log.subrange(k, log.len() as int);
    assert(log_put(log, task) == a + seq![task] + c);
    if hit {
        assert(a + seq![task] + c =~= log.update(idx, task));
    } else {
        assert(a + seq![task] + c =~= log.insert(idx, task));
    }
}

/// The place where a write lands exists: the number of tasks below it.
proof fn lemma_landing_place(log: Seq<TaskView>, id: TaskId) -> (idx: int)
    requires
        ascending(log),
    ensures
        0 <= idx <= log.len(),
        forall|i: int| 0 <= i < idx ==> log[i].id < id,
        forall|i: int| idx <= i < log.len() ==> log[i].id >= id,
    decreases log.len(),
{
    if log.len() == 0 {
        0
    } else if log.last().id < id {
        assert forall|i: int| 0 <= i < log.len() implies log[i].id < id by {
            if i < log.len() - 1 {
                assert(log[i].id < log[log.len() - 1].id);
            }
        }
        log.len() as int
    } else {
        let rest = log.drop_last();
        assert(ascending(rest)) by {
            assert forall|i: int, j: int| 0 <= i < j < rest.len() implies rest[i].id
                < rest[j].id by {
                assert(log[i].id < log[j].id);
            }
        }
        let idx = lemma_landing_place(rest, id);
        assert forall|i: int| idx <= i < log.len() implies log[i].id >= id by {
            if i < rest.len() {
                assert(rest[i].id >= id);
            }
        }
        assert forall|i: int| 0 <= i < idx implies log[i].id < id by {
            assert(rest[i].id < id);
        }
        idx
    }
}

/// A write keeps the log in the order of its identifiers.
pub proof fn lemma_put_preserves_order(log: Seq<TaskView>, task: TaskView)
    requires
        ascending(log),
    ensures
        ascending(log_put(log, task)),
{
    let idx = lemma_landing_place(log, task.id);
    lemma_put_at(log, task, idx);
    let out = log_put(log, task);
    if idx < log.len() && log[idx].id == task.id {
        assert forall|i: int, j: int| 0 <= i < j < out.len() implies out[i].id < out[j].id by {
            assert(log[i].id < log[j].id);
        }
    } else {
        assert forall|i: int, j: int| 0 <= i < j < out.len() implies out[i].id < out[j].id by {
            if j < idx {
                assert(log[i].id < log[j].id);
            } else if j == idx {
                assert(log[i].id < task.id);
            } else if i < idx {
                assert(log[i].id < task.id);
                assert(log[j - 1].id >= task.id);
            } else if i == idx {
                assert(log[j - 1].id >= task.id);
                if j - 1 > idx {
                    assert(log[idx].id < log[j - 1].id);
                }
            } else {
                assert(log[i - 1].id < log[j - 1].id);
            }
        }
    }
}

/// The number of tasks of a log below an identifier.
#[verifier::opaque]
spec fn rank(log: Seq<TaskView>, id: TaskId) -> int {
    log.filter(id_below(id)).len() as int
}

/// The tasks below an identifier come first in a log, and as many as its
/// rank says.
proof fn lemma_rank(log: Seq<TaskView>, id: TaskId)
    requires
        ascending(log),
    ensures
        0 <= rank(log, id) <= log.len(),
        forall|i: int| 0 <= i < rank(log, id) ==> (#[trigger] log[i]).id < id,
        forall|i: int| rank(log, id) <= i < log.len() ==> (#[trigger] log[i]).id >= id,
{
    reveal(rank);
    let idx = lemma_landing_place(log, id);
    lemma_filter_prefix(log, id_below(id), idx);
}

/// After a write, the written task stands at the rank of its identifier,
/// which is its rank in the log before the write too.
proof fn lemma_written_place(log: Seq<TaskView>, task: TaskView)
    requires
        ascending(log),
    ensures
        ascending(log_put(log, task)),
        rank(log_put(log, task), task.id) == rank(log, task.id),
        0 <= rank(log, task.id) < log_put(log, task).len(),
        rank(log, task.id) <= log.len(),
        log_put(log, task)[rank(log, task.id)] == task,
        log_contains(log, task.id) ==> log_put(log, task) == log.update(
            rank(log, task.id),
            task,
        ),
        !log_contains(log, task.id) ==> log_put(log, task) == log.insert(
            rank(log, task.id),
            task,
        ),
{
    let idx = rank(log, task.id);
    lemma_rank(log, task.id);
    lemma_put_at(log, task, idx);
    lemma_put_preserves_order(log, task);
    let once = log_put(log, task);
    assert forall|i: int| 0 <= i < idx implies (#[trigger] once[i]).id < task.id by {
        assert(once[i] == log[i]);
    }
    assert forall|i: int| idx <= i < once.len() implies (#[trigger] once[i]).id >= task.id by {
        if i > idx {
            assert(once[idx].id < once[i].id);
        }
    }
    assert(rank(once, task.id) == idx) by {
        reveal(rank);
        lemma_filter_prefix(once, id_below(task.id), idx);
    }
    if !(idx < log.len() && log[idx].id == task.id) {
        assert forall|i: int| 0 <= i < log.len() implies log[i].id != task.id by {
            if i > idx {
                assert(log[idx].id < log[i].id);
            }
        }
    }
}

/// A write over a task replaces it: of two writes at one identifier only
/// the second shows, so that writing a task twice is writing it once. A
/// write at an identifier that the log holds leaves the number of tasks as
/// it was, and any other write adds one task.
pub proof fn lemma_put_overwrites(log: Seq<TaskView>, first: TaskView, second: TaskView)
    requires
        ascending(log),
        first.id == second.id,
    ensures
        log_put(log_put(log, first), second) == log_put(log, second),
        log_put(log_put(log, first), first) == log_put(log, first),
        log_put(log, first).len() == if log_contains(log, first.id) {
            log.len()
        } else {
            log.len() + 1
        },
{
    let once = log_put(log, first);
    let idx = rank(log, first.id);
    lemma_written_place(log, first);
    assert(log_contains(once, first.id)) by {
        assert(once[idx].id == first.id);
    }
    assert(log_put(once, second) == once.update(idx, second)) by {
        lemma_written_place(once, second);
    }
    assert(log_put(once, first) == once.update(idx, first)) by {
        lemma_written_place(once, first);
    }
    assert(once.update(idx, first) =~= once);
    if log_contains(log, first.id) {
        assert(log_put(log, second) == log.update(idx, second)) by {
            lemma_written_place(log, second);
        }
        assert(once == log.update(idx, first));
        lemma_rank(log, first.id);
        assert(log.update(idx, first).update(idx, second) =~= log.update(idx, second));
    } else {
        assert(log_put(log, second) == log.insert(idx, second)) by {
            lemma_written_place(log, second);
        }
        assert(once == log.insert(idx, first));
        lemma_rank(log, first.id);
        assert(log.insert(idx, first).update(idx, second) =~= log.insert(idx, second));
    }
}

/// A write is an insertion into a map: afterwards the written task is found
/// under its identifier, and every other identifier holds what it held.
pub proof fn lemma_put_get(log: Seq<TaskView>, task: TaskView)
    requires
        ascending(log),
    ensures
        log_get(log_put(log, task), task.id) == Some(task),
        forall|id: TaskId| id != task.id ==> log_get(log_put(log, task), id) == log_get(log, id),
{
    let idx = lemma_landing_place(log, task.id);
    lemma_put_at(log, task, idx);
    lemma_put_preserves_order(log, task);
    let out = log_put(log, task);
    let hit = idx < log.len() && log[idx].id == task.id;
    assert(out[idx] == task);
    lemma_get_at(out, idx);
    assert forall|id: TaskId| id != task.id implies log_get(out, id) == log_get(log, id) by {
        if log_contains(log, id) {
            let i = choose|i: int| 0 <= i < log.len() && log[i].id == id;
            lemma_get_at(log, i);
            let k = if hit || i < idx {
                i
            } else {
                i + 1
            };
            assert(out[k] == log[i]);
            lemma_get_at(out, k);
        } else if log_contains(out, id) {
            let k = choose|k: int| 0 <= k < out.len() && out[k].id == id;
            let i = if hit || k < idx {
                k
            } else {
                k - 1
            };
            assert(log[i] == out[k]);
        }
    }
}

/// A write below the next identifier leaves the next identifier as it was;
/// any other write moves it to one past the written identifier. So the next
/// identifier never decreases.
pub proof fn lemma_put_next_id(log: Seq<TaskView>, task: TaskView)
    requires
        ascending(log),
    ensures
        task.id < next_id(log) ==> next_id(log_put(log, task)) == next_id(log),
        task.id >= next_id(log) ==> next_id(log_put(log, task)) == task.id + 1,
        next_id(log_put(log, task)) >= next_id(log),
{
    let idx = lemma_landing_place(log, task.id);
    lemma_put_at(log, task, idx);
    let out = log_put(log, task);
    if log.len() > 0 {
        if idx == log.len() {
            assert(log[log.len() - 1].id < task.id);
        } else if idx == log.len() - 1 && log[idx].id == task.id {
        } else {
            assert(log[log.len() - 1].id >= task.id);
            if log[idx].id == task.id {
                assert(log[idx].id < log[log.len() - 1].id);
            } else {
                assert(out.last() == log.last());
            }
        }
    }
}

/// The next identifier is one past the greatest identifier in the log: every
/// identifier in the log is below it, and the one just below it is in the log
/// unless the log is empty.
pub proof fn lemma_next_id_is_past_the_greatest(log: Seq<TaskView>)
    requires
        ascending(log),
    ensures
        forall|id: TaskId| log_contains(log, id) ==> id < next_id(log),
        next_id(log) == 0 <==> log.len() == 0,
        next_id(log) > 0 ==> log_contains(log, (next_id(log) - 1) as TaskId),
{
    assert forall|id: TaskId| log_contains(log, id) implies id < next_id(log) by {
        let i = choose|i: int| 0 <= i < log.len() && log[i].id == id;
        if i < log.len() - 1 {
            assert(log[i].id < log[log.len() - 1].id);
        }
    }
    if log.len() > 0 {
        assert(log[log.len() - 1].id == next_id(log) - 1);
    }
}

/// A write puts an identifier into the log and takes none out.
pub proof fn lemma_put_contains(log: Seq<TaskView>, task: TaskView, id: TaskId)
    requires
        ascending(log),
    ensures
        log_contains(log_put(log, task), id) <==> (id == task.id || log_contains(log, id)),
{
    lemma_put_get(log, task);
    let out = log_put(log, task);
    assert(log_contains(out, id) <==> log_get(out, id) is Some);
    assert(log_contains(log, id) <==> log_get(log, id) is Some);
}

/// Filtering a log gives a log: the tasks that remain are tasks of the log
/// that meet the condition, still in the order of their identifiers, and no
/// task of the log that meets the condition is missing.
pub proof fn lemma_filter_is_sublog(log: Seq<TaskView>, p: spec_fn(TaskView) -> bool)
    requires
        ascending(log),
    ensures
        ascending(log.filter(p)),
        forall|k: int|
            0 <= k < log.filter(p).len() ==> log.contains(#[trigger] log.filter(p)[k]) && p(
                log.filter(p)[k],
            ),
        forall|i: int| 0 <= i < log.len() && p(log[i]) ==> log.filter(p).contains(#[trigger] log[i]),
    decreases log.len(),
{
    reveal(Seq::filter);
    if log.len() > 0 {
        let rest = log.drop_last();
        let last = log.last();
        assert(ascending(rest)) by {
            assert forall|i: int, j: int| 0 <= i < j < rest.len() implies rest[i].id
                < rest[j].id by {
                assert(log[i].id < log[j].id);
            }
        }
        lemma_filter_is_sublog(rest, p);
        let f = rest.filter(p);
        let out = log.filter(p);
        assert forall|k: int| 0 <= k < f.len() implies log.contains(#[trigger] f[k]) && f[k].id
            < last.id by {
            assert(rest.contains(f[k]));
            let i = choose|i: int| 0 <= i < rest.len() && rest[i] == f[k];
            assert(log[i] == f[k]);
            assert(log[i].id < log[log.len() - 1].id);
        }
        assert(log[log.len() - 1] == last);
        assert forall|k: int| 0 <= k < out.len() implies log.contains(#[trigger] out[k]) && p(
            out[k],
        ) by {
            if k < f.len() {
                assert(out[k] == f[k]);
            }
        }
        assert forall|i: int, j: int| 0 <= i < j < out.len() implies out[i].id < out[j].id by {
            if j < f.len() {
                assert(f[i].id < f[j].id);
            } else {
                assert(out[i] == f[i]);
            }
        }
        assert forall|i: int| 0 <= i < log.len() && p(log[i]) implies out.contains(
            #[trigger] log[i],
        ) by {
            if i < rest.len() {
                assert(rest[i] == log[i]);
                assert(f.contains(rest[i]));
                let k = choose|k: int| 0 <= k < f.len() && f[k] == rest[i];
                assert(out[k] == log[i]);
            } else {
                assert(out[out.len() - 1] == log[i]);
            }
        }
    }
}

/// A page is exactly what was asked for. Its tasks are tasks of the log at
/// or before the offset that pass the filter; they come most recent first;
/// there are as many as the limit allows; and a task that qualifies is left
/// out only where the page is full, and is then older than every task shown.
pub proof fn lemma_page_is_exact(
    log: Seq<TaskView>,
    offset: Option<TaskId>,
    filter: Option<TaskFilterView>,
    limit: Option<usize>,
)
    requires
        ascending(log),
    ensures
        ({
            let page = log_page(log, offset, filter, limit);
            let p = page_candidate(offset, filter);
            &&& forall|k: int|
                0 <= k < page.len() ==> log.contains(#[trigger] page[k]) && p(page[k])
            &&& forall|i: int, j: int| 0 <= i < j < page.len() ==> page[i].id > page[j].id
            &&& page.len() == match limit {
                Some(n) => if n < log.filter(p).len() {
                    n as nat
                } else {
                    log.filter(p).len()
                },
                None => log.filter(p).len(),
            }
            &&& forall|i: int|
                0 <= i < log.len() && p(log[i]) && !page.contains(#[trigger] log[i]) ==> {
                    &&& limit == Some(page.len() as usize)
                    &&& forall|k: int| 0 <= k < page.len() ==> (#[trigger] page[k]).id > log[i].id
                }
        }),
{
    let p = page_candidate(offset, filter);
    let f = log.filter(p);
    let all = f.reverse();
    let page = log_page(log, offset, filter, limit);
    lemma_filter_is_sublog(log, p);
    assert(all.len() == f.len());
    assert forall|k: int| 0 <= k < all.len() implies all[k] == f[f.len() - 1 - k] by {}
    assert forall|k: int| 0 <= k < page.len() implies page[k] == f[f.len() - 1 - k] by {}
    assert forall|i: int, j: int| 0 <= i < j < page.len() implies page[i].id > page[j].id by {
        assert(f[f.len() - 1 - j].id < f[f.len() - 1 - i].id);
    }
    assert forall|i: int|
        0 <= i < log.len() && p(log[i]) && !page.contains(#[trigger] log[i]) implies {
        &&& limit == Some(page.len() as usize)
        &&& forall|k: int| 0 <= k < page.len() ==> (#[trigger] page[k]).id > log[i].id
    } by {
        assert(f.contains(log[i]));
        let m = choose|m: int| 0 <= m < f.len() && f[m] == log[i];
        let r = f.len() - 1 - m;
        assert(all[r] == log[i]);
        if r < page.len() {
            assert(page[r] == log[i]);
        }
        assert forall|k: int| 0 <= k < page.len() implies (#[trigger] page[k]).id
            > log[i].id by {
            assert(f[m].id < f[f.len() - 1 - k].id);
        }
    }
}

/// The unfinished tasks that are fetched are exactly the tasks of the log
/// from the given identifier on that are not finished, oldest first.
pub proof fn lemma_unfinished_is_exact(log: Seq<TaskView>, from: Option<TaskId>)
    requires
        ascending(log),
    ensures
        ascending(log_unfinished(log, from)),
        forall|k: int|
            0 <= k < log_unfinished(log, from).len() ==> {
                let t = #[trigger] log_unfinished(log, from)[k];
                log.contains(t) && !t.is_finished() && (from matches Some(o) ==> t.id >= o)
            },
        forall|i: int|
            0 <= i < log.len() && !log[i].is_finished() && (from matches Some(o) ==> log[i].id
                >= o) ==> log_unfinished(log, from).contains(#[trigger] log[i]),
{
    lemma_filter_is_sublog(log, unfinished_from(from));
}

/// Writing tasks one after the other keeps the log in order.
pub proof fn lemma_put_all_preserves_order(log: Seq<TaskView>, tasks: Seq<TaskView>)
    requires
        ascending(log),
    ensures
        ascending(log_put_all(log, tasks)),
    decreases tasks.len(),
{
    if tasks.len() > 0 {
        lemma_put_all_preserves_order(log, tasks.drop_last());
        lemma_put_preserves_order(log_put_all(log, tasks.drop_last()), tasks.last());
    }
}

/// Whatever is written, in whatever order, the next identifier is one past
/// the greatest identifier that the log ever held: that of the log before
/// the writes, or one past the greatest identifier written. So it never
/// decreases, and stays above every identifier written.
pub proof fn lemma_put_all_next_id(log: Seq<TaskView>, tasks: Seq<TaskView>)
    requires
        ascending(log),
    ensures
        next_id(log_put_all(log, tasks)) == if next_id(log) < writes_floor(tasks) {
            writes_floor(tasks)
        } else {
            next_id(log)
        },
        next_id(log_put_all(log, tasks)) >= next_id(log),
        forall|k: int| 0 <= k < tasks.len() ==> (#[trigger] tasks[k]).id < next_id(
            log_put_all(log, tasks),
        ),
        0 <= writes_floor(tasks) <= TaskId::MAX + 1,
    decreases tasks.len(),
{
    if tasks.len() > 0 {
        let rest = tasks.drop_last();
        let mid = log_put_all(log, rest);
        lemma_put_all_next_id(log, rest);
        lemma_put_all_preserves_order(log, rest);
        lemma_put_next_id(mid, tasks.last());
        let out = log_put_all(log, tasks);
        assert forall|k: int| 0 <= k < tasks.len() implies (#[trigger] tasks[k]).id < next_id(
            out,
        ) by {
            if k < rest.len() {
                assert(rest[k].id < next_id(mid));
            }
        }
    }
}

/// One step of a scan from the end of a log: the task before the part
/// scanned so far comes last in the page, where it is a candidate.
proof fn lemma_page_step(log: Seq<TaskView>, p: spec_fn(TaskView) -> bool, i: int)
    requires
        0 <= i < log.len(),
    ensures
        log.subrange(i, log.len() as int).filter(p).reverse() == if p(log[i]) {
            log.subrange(i + 1, log.len() as int).filter(p).reverse().push(log[i])
        } else {
            log.subrange(i + 1, log.len() as int).filter(p).reverse()
        },
{
    let rest = log.subrange(i + 1, log.len() as int);
    lemma_filter_cons(log[i], rest, p);
    assert(seq![log[i]] + rest =~= log.subrange(i, log.len() as int));
    if p(log[i]) {
        assert((seq![log[i]] + rest.filter(p)).reverse() =~= rest.filter(p).reverse().push(
            log[i],
        ));
    }
}

/// What a scan from the end of a log has found so far is where the whole
/// page starts, and is the whole page once the scan has reached the start.
proof fn lemma_page_prefix(log: Seq<TaskView>, p: spec_fn(TaskView) -> bool, i: int)
    requires
        0 <= i <= log.len(),
    ensures
        log.subrange(i, log.len() as int).filter(p).reverse().len() <= log.filter(p).reverse().len(),
        log.filter(p).reverse().subrange(
            0,
            log.subrange(i, log.len() as int).filter(p).reverse().len() as int,
        ) == log.subrange(i, log.len() as int).filter(p).reverse(),
{
    let head = log.subrange(0, i);
    let tail = log.subrange(i, log.len() as int);
    assert(log =~= head + tail);
    Seq::filter_distributes_over_add(head, tail, p);
    let all = log.filter(p).reverse();
    assert(all =~= tail.filter(p).reverse() + head.filter(p).reverse());
    assert(all.subrange(0, tail.filter(p).reverse().len() as int) =~= tail.filter(p).reverse());
}

fn limit_reached(limit: Option<usize>, len: usize) -> (b: bool)
    ensures
        b == (limit matches Some(m) && len >= m),
{
    match limit {
        Some(m) => len >= m,
        None => false,
    }
}

proof fn lemma_filter_push<A>(s: Seq<A>, p: spec_fn(A) -> bool, x: A)
    ensures
        s.push(x).filter(p) == if p(x) {
            s.filter(p).push(x)
        } else {
            s.filter(p)
        },
{
    reveal(Seq::filter);
    assert(s.push(x).drop_last() =~= s);
}

proof fn lemma_filter_cons<A>(x: A, s: Seq<A>, p: spec_fn(A) -> bool)
    ensures
        (seq![x] + s).filter(p) == if p(x) {
            seq![x] + s.filter(p)
        } else {
            s.filter(p)
        },
{
    Seq::filter_distributes_over_add(seq![x], s, p);
    if p(x) {
        lemma_filter_all(seq![x], p);
    } else {
        lemma_filter_none(seq![x], p);
        assert(Seq::<A>::empty() + s.filter(p) =~= s.filter(p));
    }
}

} // verus!
