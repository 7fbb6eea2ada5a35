//! Constraints that a query puts on the tasks it wants to see.

use vstd::prelude::*;
use crate::task::{strings_view, Task, TaskStatus, TaskType, TaskView};

verus! {

/// A condition on the status and the kind of a task.
#[derive(Debug, PartialEq, Eq)]
pub enum TaskPredicate {
    /// The status of the task is one of these.
    StatusIn(Vec<TaskStatus>),
    /// The kind of the task is one of these.
    TypeIn(Vec<TaskType>),
    /// Both at once.
    StatusAndTypeIn(Vec<TaskStatus>, Vec<TaskType>),
}

impl TaskPredicate {
    /// Whether a task meets the condition.
    pub open spec fn accepts(self, task: TaskView) -> bool {
        match self {
            TaskPredicate::StatusIn(statuses) => statuses@.contains(task.status()),
            TaskPredicate::TypeIn(types) => types@.contains(task.task_type()),
            TaskPredicate::StatusAndTypeIn(statuses, types) => statuses@.contains(task.status())
                && types@.contains(task.task_type()),
        }
    }

    /// Decides whether a task meets the condition.
    pub fn eval(&self, task: &Task) -> (b: bool)
        ensures
            b == self.accepts(task@),
    {
        match self {
            TaskPredicate::StatusIn(statuses) => contains_status(statuses, task.status()),
            TaskPredicate::TypeIn(types) => contains_type(types, task.task_type()),
            TaskPredicate::StatusAndTypeIn(statuses, types) => contains_status(
                statuses,
                task.status(),
            ) && contains_type(types, task.task_type()),
        }
    }
}

fn contains_status(v: &Vec<TaskStatus>, x: TaskStatus) -> (b: bool)
    ensures
        b == v@.contains(x),
{
    let mut i: usize = 0;
    while i < v.len()
        invariant
            i <= v.len(),
            forall|j: int| 0 <= j < i ==> v@[j] != x,
        decreases v.len() - i,
    {
        if v[i] == x {
            return true;
        }
        i += 1;
    }
    false
}

fn contains_type(v: &Vec<TaskType>, x: TaskType) -> (b: bool)
    ensures
        b == v@.contains(x),
{
    let mut i: usize = 0;
    while i < v.len()
        invariant
            i <= v.len(),
            forall|j: int| 0 <= j < i ==> v@[j] != x,
        decreases v.len() - i,
    {
        if v[i] == x {
            return true;
        }
        i += 1;
    }
    false
}

fn contains_string(v: &Vec<String>, x: &String) -> (b: bool)
    ensures
        b == strings_view(v@).contains(x@),
{
    let mut i: usize = 0;
    while i < v.len()
        invariant
            i <= v.len(),
            forall|j: int| 0 <= j < i ==> strings_view(v@)[j] != x@,
        decreases v.len() - i,
    {
        if v[i] == *x {
            assert(strings_view(v@)[i as int] == x@);
            return true;
        }
        i += 1;
    }
    false
}

/// Defines constraints to be applied when querying for tasks from the store.
#[derive(Debug)]
pub struct TaskFilter {
    indexes: Option<Vec<String>>,
    filter_fn: Option<TaskPredicate>,
}

/// Mathematical value of a [`TaskFilter`]: the set of index names it
/// allows, if it constrains them, and the condition it adds, if any.
pub struct TaskFilterView {
    pub indexes: Option<Set<Seq<char>>>,
    pub predicate: Option<TaskPredicate>,
}

impl TaskFilterView {
    /// The index-membership test: the task targets a known index, and that
    /// index is among the allowed ones where the filter names any.
    pub open spec fn index_test(self, task: TaskView) -> bool {
        match task.index_uid() {
            Some(uid) => match self.indexes {
                Some(allowed) => allowed.contains(uid),
                None => true,
            },
            None => false,
        }
    }

    /// The predicate test: the condition holds of the task, where the filter
    /// has one.
    pub open spec fn predicate_test(self, task: TaskView) -> bool {
        match self.predicate {
            Some(p) => p.accepts(task),
            None => true,
        }
    }

    /// A task passes the filter when it passes both tests.
    pub open spec fn passes(self, task: TaskView) -> bool {
        self.index_test(task) && self.predicate_test(task)
    }
}

/// Whether an optional filter lets a task through: no filter lets every
/// task through.
pub open spec fn admits(filter: Option<TaskFilterView>, task: TaskView) -> bool {
    match filter {
        Some(f) => f.passes(task),
        None => true,
    }
}

/// The view of an optional filter.
pub open spec fn option_filter_view(filter: Option<TaskFilter>) -> Option<TaskFilterView> {
    match filter {
        Some(f) => Some(f@),
        None => None,
    }
}

impl View for TaskFilter {
    type V = TaskFilterView;

    closed spec fn view(&self) -> TaskFilterView {
        TaskFilterView {
            indexes: match self.indexes {
                Some(v) => Some(strings_view(v@).to_set()),
                None => None,
            },
            predicate: self.filter_fn,
        }
    }
}

impl Default for TaskFilter {
    /// The filter that constrains nothing but that a task targets an index.
    fn default() -> (r: Self)
        ensures
            r@.indexes is None,
            r@.predicate is None,
    {
        TaskFilter { indexes: None, filter_fn: None }
    }
}

impl TaskFilter {
    /// Decides whether a task passes the filter.
    pub fn pass(&self, task: &Task) -> (b: bool)
        ensures
            b == self@.passes(task@),
    {
        let index_ok = match task.index_uid() {
            Some(index_uid) => match &self.indexes {
                Some(indexes) => contains_string(indexes, index_uid),
                None => true,
            },
            None => false,
        };
        let predicate_ok = match &self.filter_fn {
            Some(p) => p.eval(task),
            None => true,
        };
        index_ok && predicate_ok
    }

    /// The index names the filter allows, if it constrains them.
    pub fn filtered_indexes(&self) -> (r: Option<&Vec<String>>)
        ensures
            r matches Some(v) ==> self@.indexes == Some(strings_view(v@).to_set()),
            r is None ==> self@.indexes is None,
    {
        self.indexes.as_ref()
    }

    /// Adds an index to the filter, so the filter must match this index.
    pub fn filter_index(&mut self, index: String)
        ensures
            final(self)@.predicate == old(self)@.predicate,
            final(self)@.indexes == Some(
                match old(self)@.indexes {
                    Some(allowed) => allowed.insert(index@),
                    None => set![index@],
                },
            ),
    {
        match &mut self.indexes {
            Some(indexes) => {
                if !contains_string(indexes, &index) {
                    let ghost before = strings_view(indexes@);
                    indexes.push(index);
                    assert(strings_view(indexes@) =~= before.push(index@));
                    assert(before.push(index@).to_set() =~= before.to_set().insert(index@)) by {
                        lemma_push_to_set(before, index@);
                    }
                } else {
                    assert(strings_view(indexes@).to_set().insert(index@) =~= strings_view(
                        indexes@,
                    ).to_set());
                }
            },
            None => {
                let mut indexes: Vec<String> = Vec::new();
                let ghost before = strings_view(indexes@);
                indexes.push(index);
                assert(strings_view(indexes@) =~= before.push(index@));
                assert(before.push(index@).to_set() =~= set![index@]) by {
                    lemma_push_to_set(before, index@);
                    assert(before.to_set() =~= Set::empty());
                }
                self.indexes = Some(indexes);
            },
        }
    }

    /// Sets the condition that a task must meet beside the index test.
    pub fn filter_fn(&mut self, f: TaskPredicate)
        ensures
            final(self)@.indexes == old(self)@.indexes,
            final(self)@.predicate == Some(f),
    {
        self.filter_fn = Some(f);
    }
}

pub(crate) proof fn lemma_push_to_set<A>(s: Seq<A>, x: A)
    ensures
        s.push(x).to_set() =~= s.to_set().insert(x),
{
    let t = s.push(x);
    assert forall|y: A| t.to_set().contains(y) <==> s.to_set().insert(x).contains(y) by {
        if t.to_set().contains(y) {
            let i = choose|i: int| 0 <= i < t.len() && t[i] == y;
            if i < s.len() {
                assert(s[i] == y);
            }
        }
        if s.to_set().contains(y) {
            let i = choose|i: int| 0 <= i < s.len() && s[i] == y;
            assert(t[i] == y);
        }
        if y == x {
            assert(t[s.len() as int] == y);
        }
    }
}

} // verus!
