//! The task store: registration, lookup, batch extraction, updates, and
//! whole-log dump and restore, over the task log.

use vstd::prelude::*;
use crate::batch::{first_missing, resolve, tasks_of, BatchContent, Processing};
use crate::clock::now_utc;
use crate::error::TaskError;
use crate::filter::{option_filter_view, TaskFilter};
use crate::store::{
    ascending, log_contains, log_get, log_page, log_put, log_put_all, log_unfinished, next_id,
    tasks_view, RwTxn, Store,
};
use crate::task::{
    ContentId, Task, TaskContent, TaskContentView, TaskEvent, TaskEventView, TaskId, TaskView,
    Timestamp,
};

verus! {

/// The task that a registration creates: the given identifier and content,
/// and a history that holds the creation alone.
pub open spec fn created_task(id: TaskId, content: TaskContentView, at: Timestamp) -> TaskView {
    TaskView { id, content, events: seq![TaskEventView::Created(at)] }
}

/// One record of a dump: a task, and the payload that has to be copied
/// along with it, if any.
#[derive(Debug, PartialEq, Eq)]
pub struct DumpEntry {
    pub task: Task,
    pub payload: Option<ContentId>,
}

/// Mathematical value of a [`DumpEntry`].
pub struct DumpEntryView {
    pub task: TaskView,
    pub payload: Option<ContentId>,
}

impl View for DumpEntry {
    type V = DumpEntryView;

    open spec fn view(&self) -> DumpEntryView {
        DumpEntryView { task: self.task@, payload: self.payload }
    }
}

/// The entries of a vector, each as its mathematical value.
pub open spec fn entries_view(v: Seq<DumpEntry>) -> Seq<DumpEntryView> {
    v.map_values(|e: DumpEntry| e@)
}

/// The payload that a dump copies for a task: the one the task refers to,
/// as long as the task is not finished.
pub open spec fn payload_to_dump(task: TaskView) -> Option<ContentId> {
    if task.is_finished() {
        None
    } else {
        task.content_uuid()
    }
}

/// The dump of a log: one entry for each task, in the order of the log.
pub open spec fn log_dump(log: Seq<TaskView>) -> Seq<DumpEntryView> {
    log.map_values(|t: TaskView| DumpEntryView { task: t, payload: payload_to_dump(t) })
}

/// The tasks of the entries of a dump.
pub open spec fn dumped_tasks(entries: Seq<DumpEntryView>) -> Seq<TaskView> {
    entries.map_values(|e: DumpEntryView| e.task)
}

/// The records of a dump as they were read back: a task where a record
/// could be read, and nothing where it could not.
pub open spec fn records_view(v: Seq<Option<Task>>) -> Seq<Option<TaskView>> {
    v.map_values(|r: Option<Task>| crate::store::option_task_view(r))
}

/// Whether every record could be read.
pub open spec fn all_readable(records: Seq<Option<TaskView>>) -> bool {
    forall|k: int| 0 <= k < records.len() ==> (#[trigger] records[k]) is Some
}

/// The tasks of the records, where every record could be read.
pub open spec fn record_tasks(records: Seq<Option<TaskView>>) -> Seq<TaskView> {
    records.map_values(|r: Option<TaskView>| r->0)
}

/// The log that a restore builds from the tasks of a dump: they are written
/// to the empty log one after the other, each under its own identifier.
pub open spec fn log_restore(tasks: Seq<TaskView>) -> Seq<TaskView> {
    log_put_all(Seq::empty(), tasks)
}

/// A task as a registration creates it is at the start of its life: its
/// history is valid, and its status is enqueued.
pub proof fn lemma_created_task_is_enqueued(id: TaskId, content: TaskContentView, at: Timestamp)
    ensures
        crate::task::valid_history(created_task(id, content, at).events),
        created_task(id, content, at).status() == crate::task::TaskStatus::Enqueued,
        !created_task(id, content, at).is_finished(),
{
}

/// A registration takes the next identifier and moves it on by one, so that
/// two registrations never share an identifier.
pub proof fn lemma_register_allocates(log: Seq<TaskView>, content: TaskContentView, at: Timestamp)
    requires
        ascending(log),
        next_id(log) <= TaskId::MAX,
    ensures
        !log_contains(log, next_id(log) as TaskId),
        ascending(log.push(created_task(next_id(log) as TaskId, content, at))),
        next_id(log.push(created_task(next_id(log) as TaskId, content, at))) == next_id(log) + 1,
{
    crate::store::lemma_next_id_is_past_the_greatest(log);
    let task = created_task(next_id(log) as TaskId, content, at);
    let out = log.push(task);
    assert forall|i: int, j: int| 0 <= i < j < out.len() implies out[i].id < out[j].id by {
        if j < log.len() {
            assert(log[i].id < log[j].id);
        } else {
            assert(log_contains(log, log[i].id));
        }
    }
}

/// The task store.
#[derive(Debug)]
pub struct TaskStore {
    store: Store,
}

impl View for TaskStore {
    type V = Seq<TaskView>;

    closed spec fn view(&self) -> Seq<TaskView> {
        self.store@
    }
}

impl TaskStore {
    /// The invariant of the store: its log is in the order of its identifiers.
    #[verifier::type_invariant]
    pub open spec fn inv(&self) -> bool {
        ascending(self@)
    }

    /// A store over the empty log.
    pub fn new() -> (r: Self)
        ensures
            ascending(r@),
            r@ == Seq::<TaskView>::empty(),
    {
        TaskStore { store: Store::new() }
    }

    /// Opens a write transaction, with no write in it yet.
    pub fn wtxn(&self) -> (txn: RwTxn)
        ensures
            txn@ == Seq::<TaskView>::empty(),
    {
        self.store.wtxn()
    }

    /// Commits a write transaction: its writes reach the log, in their
    /// order, and all of them.
    pub fn commit(&mut self, txn: RwTxn)
        ensures
            ascending(final(self)@),
            final(self)@ == log_put_all(old(self)@, txn@),
    {
        let mut store = Store::new();
        core::mem::swap(&mut self.store, &mut store);
        store.commit(txn);
        self.store = store;
    }

    /// Whether the store can still register a task in the transaction:
    /// whether an identifier is left for it.
    pub fn can_register(&self, wtxn: &RwTxn) -> (b: bool)
        ensures
            b == (next_id(log_put_all(self@, wtxn@)) <= TaskId::MAX),
    {
        self.store.can_allocate(wtxn)
    }

    /// Registers a task created at the given instant, in a transaction of
    /// the caller: gives it the next identifier that the transaction sees,
    /// and writes it there.
    pub fn register_in_at(
        &self,
        wtxn: &mut RwTxn,
        content: TaskContent,
        created_at: Timestamp,
    ) -> (task: Task)
        requires
            next_id(log_put_all(self@, old(wtxn)@)) <= TaskId::MAX,
        ensures
            task@ == created_task(
                next_id(log_put_all(self@, old(wtxn)@)) as TaskId,
                content@,
                created_at,
            ),
            final(wtxn)@ == old(wtxn)@.push(task@),
            log_put_all(self@, final(wtxn)@) == log_put_all(self@, old(wtxn)@).push(task@),
            next_id(log_put_all(self@, final(wtxn)@)) == next_id(log_put_all(self@, old(wtxn)@))
                + 1,
    {
        proof {
            use_type_invariant(self);
        }
        let id = self.store.next_task_id(wtxn);
        let mut events: Vec<TaskEvent> = Vec::new();
        events.push(TaskEvent::Created(created_at));
        let task = Task { id, content, events };
        assert(task@.events =~= seq![TaskEventView::Created(created_at)]);
        proof {
            let log = log_put_all(self@, wtxn@);
            crate::store::lemma_put_all_preserves_order(self@, wtxn@);
            assert forall|i: int| 0 <= i < log.len() implies log[i].id < id by {
                if i < log.len() - 1 {
                    assert(log[i].id < log[log.len() - 1].id);
                }
            }
            crate::store::lemma_put_at(log, task@, log.len() as int);
            assert(log.insert(log.len() as int, task@) =~= log.push(task@));
        }
        self.store.put(wtxn, &task);
        task
    }

    /// Registers a task created now, in a transaction of the caller.
    pub fn register_in(&self, wtxn: &mut RwTxn, content: TaskContent) -> (task: Task)
        requires
            next_id(log_put_all(self@, old(wtxn)@)) <= TaskId::MAX,
        ensures
            exists|at: Timestamp|
                task@ == #[trigger] created_task(
                    next_id(log_put_all(self@, old(wtxn)@)) as TaskId,
                    content@,
                    at,
                ),
            final(wtxn)@ == old(wtxn)@.push(task@),
            log_put_all(self@, final(wtxn)@) == log_put_all(self@, old(wtxn)@).push(task@),
            next_id(log_put_all(self@, final(wtxn)@)) == next_id(log_put_all(self@, old(wtxn)@))
                + 1,
    {
        let created_at = now_utc();
        self.register_in_at(wtxn, content, created_at)
    }

    /// Registers a task created at the given instant: gives it the next
    /// identifier and writes it to the log, in one transaction.
    pub fn register_at(&mut self, content: TaskContent, created_at: Timestamp) -> (task: Task)
        requires
            next_id(old(self)@) <= TaskId::MAX,
        ensures
            ascending(final(self)@),
            task@ == created_task(next_id(old(self)@) as TaskId, content@, created_at),
            final(self)@ == old(self)@.push(task@),
            next_id(final(self)@) == next_id(old(self)@) + 1,
    {
        let mut wtxn = self.store.wtxn();
        assert(log_put_all(self@, wtxn@) == self@);
        let task = self.register_in_at(&mut wtxn, content, created_at);
        self.commit(wtxn);
        task
    }

    /// Registers a task created now: gives it the next identifier and
    /// writes it to the log, in one transaction.
    pub fn register(&mut self, content: TaskContent) -> (task: Task)
        requires
            next_id(old(self)@) <= TaskId::MAX,
        ensures
            ascending(final(self)@),
            exists|at: Timestamp|
                task@ == #[trigger] created_task(next_id(old(self)@) as TaskId, content@, at),
            final(self)@ == old(self)@.push(task@),
            next_id(final(self)@) == next_id(old(self)@) + 1,
    {
        let mut wtxn = self.store.wtxn();
        assert(log_put_all(self@, wtxn@) == self@);
        let task = self.register_in(&mut wtxn, content);
        self.commit(wtxn);
        task
    }

    /// Writes a task as it is, under the identifier it carries, in a
    /// transaction of the caller.
    pub fn register_raw_update(&self, wtxn: &mut RwTxn, task: &Task)
        ensures
            final(wtxn)@ == old(wtxn)@.push(task@),
            log_put_all(self@, final(wtxn)@) == log_put(log_put_all(self@, old(wtxn)@), task@),
    {
        self.store.put(wtxn, task);
    }

    /// The task with the given identifier, unless the filter rejects it.
    pub fn get_task(&self, id: TaskId, filter: Option<TaskFilter>) -> (r: Result<Task, TaskError>)
        ensures
            match log_get(self@, id) {
                Some(task) => if filter matches Some(f) && !f@.passes(task) {
                    r == Err::<Task, TaskError>(TaskError::UnexistingTask(id))
                } else {
                    r matches Ok(t) && t@ == task
                },
                None => r == Err::<Task, TaskError>(TaskError::UnexistingTask(id)),
            },
    {
        proof {
            use_type_invariant(self);
        }
        match self.store.get(id) {
            Some(task) => match filter {
                Some(filter) => if filter.pass(&task) {
                    Ok(task)
                } else {
                    Err(TaskError::UnexistingTask(id))
                },
                None => Ok(task),
            },
            None => Err(TaskError::UnexistingTask(id)),
        }
    }

    /// Takes a selection of the next tasks to process, and returns the
    /// corresponding tasks along with the selection itself.
    pub fn get_processing_tasks(&self, processing: Processing) -> (r: Result<
        (Processing, BatchContent),
        TaskError,
    >)
        ensures
            match r {
                Ok((selection, content)) => selection == processing && resolve(
                    self@,
                    processing@,
                ) == Ok::<_, TaskError>(content@),
                Err(e) => resolve(self@, processing@) == Err::<crate::batch::BatchContentView, _>(
                    e,
                ),
            },
    {
        proof {
            use_type_invariant(self);
        }
        let content = match &processing {
            Processing::DocumentAdditions(ids) => {
                let ghost log = self@;
                let mut tasks: Vec<Task> = Vec::new();
                let mut i: usize = 0;
                assert(ids@.subrange(0, ids@.len() as int) =~= ids@);
                while i < ids.len()
                    invariant
                                    log == self@,
                        processing@ == crate::batch::ProcessingView::DocumentAdditions(ids@),
                        0 <= i <= ids@.len(),
                        first_missing(log, ids@) == first_missing(
                            log,
                            ids@.subrange(i as int, ids@.len() as int),
                        ),
                        tasks_view(tasks@) == tasks_of(log, ids@.subrange(0, i as int)),
                    decreases ids@.len() - i,
                {
                    let id = ids[i];
                    let ghost rest = ids@.subrange(i as int, ids@.len() as int);
                    assert(rest.first() == id);
                    assert(rest.drop_first() =~= ids@.subrange(i + 1, ids@.len() as int));
                    match self.store.get(id) {
                        Some(task) => {
                            let ghost before = tasks_view(tasks@);
                            tasks.push(task);
                            assert(tasks_view(tasks@) =~= before.push(task@));
                            assert(before.push(task@) =~= tasks_of(
                                log,
                                ids@.subrange(0, i + 1),
                            ));
                        },
                        None => {
                            return Err(TaskError::UnexistingTask(id));
                        },
                    }
                    i += 1;
                }
                assert(ids@.subrange(0, i as int) =~= ids@);
                assert(ids@.subrange(i as int, ids@.len() as int) =~= Seq::<TaskId>::empty());
                assert(first_missing(log, Seq::<TaskId>::empty()) is None);
                BatchContent::DocumentsAdditionBatch(tasks)
            },
            Processing::IndexUpdate(id) => {
                assert(seq![*id].first() == *id);
                assert(seq![*id].drop_first() =~= Seq::<TaskId>::empty());
                assert(first_missing(self@, Seq::<TaskId>::empty()) is None);
                match self.store.get(*id) {
                    Some(task) => BatchContent::IndexUpdate(task),
                    None => {
                        return Err(TaskError::UnexistingTask(*id));
                    },
                }
            },
            Processing::Dump(id) => {
                assert(seq![*id].first() == *id);
                assert(seq![*id].drop_first() =~= Seq::<TaskId>::empty());
                assert(first_missing(self@, Seq::<TaskId>::empty()) is None);
                match self.store.get(*id) {
                    Some(task) => BatchContent::Dump(task),
                    None => {
                        return Err(TaskError::UnexistingTask(*id));
                    },
                }
            },
            Processing::Nothing => BatchContent::Empty,
        };
        Ok((processing, content))
    }

    /// Writes every task of the list to the log, in one transaction, and
    /// hands the list back.
    pub fn update_tasks(&mut self, tasks: Vec<Task>) -> (r: Vec<Task>)
        ensures
            ascending(final(self)@),
            r == tasks,
            final(self)@ == log_put_all(old(self)@, tasks_view(tasks@)),
    {
        let mut txn = self.store.wtxn();
        let mut i: usize = 0;
        while i < tasks.len()
            invariant
                    0 <= i <= tasks@.len(),
                txn@ == tasks_view(tasks@).subrange(0, i as int),
            decreases tasks@.len() - i,
        {
            self.store.put(&mut txn, &tasks[i]);
            assert(txn@ =~= tasks_view(tasks@).subrange(0, i + 1));
            i += 1;
        }
        assert(tasks_view(tasks@).subrange(0, i as int) =~= tasks_view(tasks@));
        self.commit(txn);
        tasks
    }

    /// Returns the unfinished tasks starting from the given identifier, in
    /// ascending order.
    pub fn fetch_unfinished_tasks(&self, offset: Option<TaskId>) -> (r: Vec<Task>)
        ensures
            tasks_view(r@) == log_unfinished(self@, offset),
    {
        self.store.fetch_unfinished_tasks(offset)
    }

    /// Returns the tasks at or before `offset`, most recent first, that pass
    /// the filter, and at most `limit` of them.
    pub fn list_tasks(
        &self,
        offset: Option<TaskId>,
        filter: Option<TaskFilter>,
        limit: Option<usize>,
    ) -> (r: Vec<Task>)
        ensures
            tasks_view(r@) == log_page(self@, offset, option_filter_view(filter), limit),
    {
        self.store.list_tasks(offset, filter, limit)
    }

    /// Lists every task of the log for a dump, oldest first, each with the
    /// payload that the dump has to copy along with it.
    pub fn dump(&self) -> (r: Vec<DumpEntry>)
        ensures
            entries_view(r@) == log_dump(self@),
    {
        proof {
            use_type_invariant(self);
        }
        let tasks = self.store.tasks();
        let mut out: Vec<DumpEntry> = Vec::new();
        let mut i: usize = 0;
        while i < tasks.len()
            invariant
                tasks_view(tasks@) == self@,
                0 <= i <= tasks@.len(),
                entries_view(out@) == log_dump(self@.subrange(0, i as int)),
            decreases tasks@.len() - i,
        {
            let task = &tasks[i];
            assert(self@[i as int] == task@);
            let payload = if task.is_finished() {
                None
            } else {
                task.get_content_uuid()
            };
            let ghost before = entries_view(out@);
            out.push(DumpEntry { task: task.clone(), payload });
            assert(entries_view(out@) =~= before.push(
                DumpEntryView { task: task@, payload: payload_to_dump(task@) },
            ));
            assert(entries_view(out@) =~= log_dump(self@.subrange(0, i + 1)));
            i += 1;
        }
        assert(self@.subrange(0, i as int) =~= self@);
        out
    }

    /// Builds a store from the records of a dump, in their order, each task
    /// under the identifier it carries, in one transaction. Where a record
    /// could not be read, nothing is committed and no store is built.
    pub fn load_dump(records: Vec<Option<Task>>) -> (r: Result<TaskStore, TaskError>)
        ensures
            match r {
                Ok(store) => all_readable(records_view(records@)) && store@
                    == log_restore(record_tasks(records_view(records@))),
                Err(e) => !all_readable(records_view(records@)) && e
                    == TaskError::MalformedDumpRecord,
            },
    {
        let ghost all = records_view(records@);
        let mut store = TaskStore::new();
        let mut wtxn = store.wtxn();
        let mut i: usize = 0;
        while i < records.len()
            invariant
                    all == records_view(records@),
                0 <= i <= records@.len(),
                forall|k: int| 0 <= k < i ==> (#[trigger] all[k]) is Some,
                wtxn@ == record_tasks(all).subrange(0, i as int),
            decreases records@.len() - i,
        {
            match &records[i] {
                Some(task) => {
                    store.register_raw_update(&mut wtxn, task);
                    proof {
                        assert(all[i as int] == Some(task@));
                        assert(wtxn@ =~= record_tasks(all).subrange(0, i + 1));
                    }
                },
                None => {
                    assert(all[i as int] is None);
                    wtxn.abort();
                    return Err(TaskError::MalformedDumpRecord);
                },
            }
            i += 1;
        }
        assert(record_tasks(all).subrange(0, i as int) =~= record_tasks(all));
        store.commit(wtxn);
        Ok(store)
    }
}

/// Dump and restore give the log back: restoring the tasks of the dump of a
/// log builds that log, with every identifier, content and history as it was.
pub proof fn lemma_restore_of_dump(log: Seq<TaskView>)
    requires
        ascending(log),
    ensures
        dumped_tasks(log_dump(log)) == log,
        log_restore(dumped_tasks(log_dump(log))) == log,
        ({
            let records = dumped_tasks(log_dump(log)).map_values(|t: TaskView| Some(t));
            all_readable(records) && log_restore(record_tasks(records)) == log
        }),
{
    assert(dumped_tasks(log_dump(log)) =~= log);
    lemma_restore_in_order(log);
    let records = dumped_tasks(log_dump(log)).map_values(|t: TaskView| Some(t));
    assert(record_tasks(records) =~= log);
}

/// Writing the tasks of a log to the empty log, in their order, builds that log.
pub proof fn lemma_restore_in_order(log: Seq<TaskView>)
    requires
        ascending(log),
    ensures
        log_restore(log) == log,
    decreases log.len(),
{
    if log.len() > 0 {
        let rest = log.drop_last();
        assert(ascending(rest)) by {
            assert forall|i: int, j: int| 0 <= i < j < rest.len() implies rest[i].id
                < rest[j].id by {
                assert(log[i].id < log[j].id);
            }
        }
        lemma_restore_in_order(rest);
        assert forall|i: int| 0 <= i < rest.len() implies rest[i].id < log.last().id by {
            assert(log[i].id < log[log.len() - 1].id);
        }
        crate::store::lemma_put_at(rest, log.last(), rest.len() as int);
        assert(rest.insert(rest.len() as int, log.last()) =~= log);
    }
}

} // verus!
