//! What a submitter gets back for a task it has just registered.

use vstd::prelude::*;
use crate::task::{Task, TaskEvent, TaskId, TaskStatus, TaskType, TaskView, Timestamp};

verus! {

/// The summary of a freshly registered task: five fields, no more.
#[derive(Debug, PartialEq, Eq)]
pub struct SummarizedTaskView {
    pub task_uid: TaskId,
    pub index_uid: Option<String>,
    pub status: TaskStatus,
    pub task_type: TaskType,
    pub enqueued_at: Timestamp,
}

/// Mathematical value of a [`SummarizedTaskView`].
pub struct SummaryView {
    pub task_uid: TaskId,
    pub index_uid: Option<Seq<char>>,
    pub status: TaskStatus,
    pub task_type: TaskType,
    pub enqueued_at: Timestamp,
}

impl View for SummarizedTaskView {
    type V = SummaryView;

    open spec fn view(&self) -> SummaryView {
        SummaryView {
            task_uid: self.task_uid,
            index_uid: crate::task::option_string_view(self.index_uid),
            status: self.status,
            task_type: self.task_type,
            enqueued_at: self.enqueued_at,
        }
    }
}

/// The summary of a task: its identifier, index and kind, the status
/// enqueued, and the time of its creation. A task whose history does not
/// start with its creation has none.
pub open spec fn summary_of(task: TaskView) -> Option<SummaryView> {
    if task.events.len() > 0 && task.events[0] is Created {
        Some(
            SummaryView {
                task_uid: task.id,
                index_uid: task.index_uid(),
                status: TaskStatus::Enqueued,
                task_type: task.task_type(),
                enqueued_at: task.events[0].timestamp(),
            },
        )
    } else {
        None
    }
}

/// An optional summary as its optional mathematical value.
pub open spec fn option_summary_view(s: Option<SummarizedTaskView>) -> Option<SummaryView> {
    match s {
        Some(s) => Some(s@),
        None => None,
    }
}

impl Task {
    /// Summarizes the task for the submitter.
    pub fn summarize(&self) -> (r: Option<SummarizedTaskView>)
        ensures
            option_summary_view(r) == summary_of(self@),
    {
        if self.events.len() == 0 {
            return None;
        }
        assert(self@.events[0] == self.events@[0]@);
        match &self.events[0] {
            TaskEvent::Created(at) => {
                let index_uid = match self.index_uid() {
                    Some(uid) => Some(uid.clone()),
                    None => None,
                };
                Some(
                    SummarizedTaskView {
                        task_uid: self.id,
                        index_uid,
                        status: TaskStatus::Enqueued,
                        task_type: self.task_type(),
                        enqueued_at: *at,
                    },
                )
            },
            _ => None,
        }
    }
}

} // verus!
