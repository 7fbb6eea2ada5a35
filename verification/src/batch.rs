//! A scheduler's selection of what to run next, and the batch of task bodies
//! that the selection stands for.

use vstd::prelude::*;
use crate::error::TaskError;
use crate::store::{log_contains, log_get};
use crate::task::{Task, TaskId, TaskView};

verus! {

/// What the scheduler chose to run next, by identifier.
#[derive(Debug, PartialEq, Eq)]
pub enum Processing {
    DocumentAdditions(Vec<TaskId>),
    IndexUpdate(TaskId),
    Dump(TaskId),
    /// Variant used when there is nothing to process.
    Nothing,
}

/// The tasks of a selection, in full.
#[derive(Debug, PartialEq, Eq)]
pub enum BatchContent {
    DocumentsAdditionBatch(Vec<Task>),
    IndexUpdate(Task),
    Dump(Task),
    Empty,
}

/// Mathematical value of a [`Processing`].
pub enum ProcessingView {
    DocumentAdditions(Seq<TaskId>),
    IndexUpdate(TaskId),
    Dump(TaskId),
    Nothing,
}

/// Mathematical value of a [`BatchContent`].
pub enum BatchContentView {
    DocumentsAdditionBatch(Seq<TaskView>),
    IndexUpdate(TaskView),
    Dump(TaskView),
    Empty,
}

impl View for Processing {
    type V = ProcessingView;

    open spec fn view(&self) -> ProcessingView {
        match self {
            Processing::DocumentAdditions(ids) => ProcessingView::DocumentAdditions(ids@),
            Processing::IndexUpdate(id) => ProcessingView::IndexUpdate(*id),
            Processing::Dump(id) => ProcessingView::Dump(*id),
            Processing::Nothing => ProcessingView::Nothing,
        }
    }
}

impl View for BatchContent {
    type V = BatchContentView;

    open spec fn view(&self) -> BatchContentView {
        match self {
            BatchContent::DocumentsAdditionBatch(tasks) => BatchContentView::DocumentsAdditionBatch(
                crate::store::tasks_view(tasks@),
            ),
            BatchContent::IndexUpdate(task) => BatchContentView::IndexUpdate(task@),
            BatchContent::Dump(task) => BatchContentView::Dump(task@),
            BatchContent::Empty => BatchContentView::Empty,
        }
    }
}

impl ProcessingView {
    /// The identifiers that the selection refers to, in its order.
    pub open spec fn ids(self) -> Seq<TaskId> {
        match self {
            ProcessingView::DocumentAdditions(ids) => ids,
            ProcessingView::IndexUpdate(id) => seq![id],
            ProcessingView::Dump(id) => seq![id],
            ProcessingView::Nothing => Seq::empty(),
        }
    }
}

/// The first of the identifiers that the log does not hold, if there is one.
pub open spec fn first_missing(log: Seq<TaskView>, ids: Seq<TaskId>) -> Option<TaskId>
    decreases ids.len(),
{
    if ids.len() == 0 {
        None
    } else if !log_contains(log, ids.first()) {
        Some(ids.first())
    } else {
        first_missing(log, ids.drop_first())
    }
}

/// The tasks that the log holds under the identifiers, in their order.
pub open spec fn tasks_of(log: Seq<TaskView>, ids: Seq<TaskId>) -> Seq<TaskView> {
    Seq::new(ids.len(), |k: int| log_get(log, ids[k])->0)
}

/// The batch that a selection stands for: the same shape, with each
/// identifier replaced by the task that the log holds under it.
pub open spec fn batch_of(log: Seq<TaskView>, selection: ProcessingView) -> BatchContentView {
    match selection {
        ProcessingView::DocumentAdditions(ids) => BatchContentView::DocumentsAdditionBatch(
            tasks_of(log, ids),
        ),
        ProcessingView::IndexUpdate(id) => BatchContentView::IndexUpdate(log_get(log, id)->0),
        ProcessingView::Dump(id) => BatchContentView::Dump(log_get(log, id)->0),
        ProcessingView::Nothing => BatchContentView::Empty,
    }
}

/// What resolving a selection against a log gives: its batch where the log
/// holds every identifier, and else the first identifier that it lacks.
pub open spec fn resolve(log: Seq<TaskView>, selection: ProcessingView) -> Result<
    BatchContentView,
    TaskError,
> {
    match first_missing(log, selection.ids()) {
        Some(id) => Err(TaskError::UnexistingTask(id)),
        None => Ok(batch_of(log, selection)),
    }
}

/// A selection resolves exactly when the log holds each of its identifiers.
pub proof fn lemma_resolves_iff_all_present(log: Seq<TaskView>, ids: Seq<TaskId>)
    ensures
        first_missing(log, ids) is None <==> forall|k: int|
            0 <= k < ids.len() ==> log_contains(log, #[trigger] ids[k]),
        first_missing(log, ids) matches Some(id) ==> !log_contains(log, id) && ids.contains(id),
    decreases ids.len(),
{
    if ids.len() > 0 {
        let rest = ids.drop_first();
        lemma_resolves_iff_all_present(log, rest);
        if log_contains(log, ids.first()) {
            if first_missing(log, rest) is None {
                assert forall|k: int| 0 <= k < ids.len() implies log_contains(
                    log,
                    #[trigger] ids[k],
                ) by {
                    if k > 0 {
                        assert(rest[k - 1] == ids[k]);
                    }
                }
            } else {
                let id = first_missing(log, rest)->0;
                let k = choose|k: int| 0 <= k < rest.len() && rest[k] == id;
                assert(ids[k + 1] == id);
            }
        } else {
            assert(ids[0] == ids.first());
        }
    }
}

} // verus!
