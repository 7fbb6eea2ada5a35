//! The task model: what a task is, the events of its life, and the status
//! derived from them.

use vstd::prelude::*;

verus! {

/// Identifier of a task in the log.
pub type TaskId = u32;

/// A point in time, in nanoseconds since the Unix epoch (UTC).
pub type Timestamp = i128;

/// Identifier of a payload held by the external payload store.
pub type ContentId = u128;

/// Status of a task, derived from the last event of its history.
#[derive(Clone, Copy, Debug, PartialEq, Eq, Structural)]
pub enum TaskStatus {
    Enqueued,
    Processing,
    Succeeded,
    Failed,
}

/// Kind of a task, derived from its content.
#[derive(Clone, Copy, Debug, PartialEq, Eq, Structural)]
pub enum TaskType {
    IndexCreation,
    IndexUpdate,
    IndexDeletion,
    DocumentAdditionOrUpdate,
    DocumentDeletion,
    SettingsUpdate,
    DumpCreation,
}

impl TaskStatus {
    /// The name of the status as requests and answers spell it.
    pub open spec fn name_of(self) -> Seq<char> {
        match self {
            TaskStatus::Enqueued => "enqueued"@,
            TaskStatus::Processing => "processing"@,
            TaskStatus::Succeeded => "succeeded"@,
            TaskStatus::Failed => "failed"@,
        }
    }

    /// The name of the status as requests and answers spell it.
    pub fn name(&self) -> (r: &'static str)
        ensures
            r@ == self.name_of(),
    {
        match self {
            TaskStatus::Enqueued => "enqueued",
            TaskStatus::Processing => "processing",
            TaskStatus::Succeeded => "succeeded",
            TaskStatus::Failed => "failed",
        }
    }

    /// The status that a name spells, if it spells one.
    pub fn from_name(name: &str) -> (r: Option<TaskStatus>)
        ensures
            r matches Some(status) ==> status.name_of() == name@,
            r is None ==> forall|status: TaskStatus| status.name_of() != name@,
    {
        let name = name.to_owned();
        if name == TaskStatus::Enqueued.name().to_owned() {
            Some(TaskStatus::Enqueued)
        } else if name == TaskStatus::Processing.name().to_owned() {
            Some(TaskStatus::Processing)
        } else if name == TaskStatus::Succeeded.name().to_owned() {
            Some(TaskStatus::Succeeded)
        } else if name == TaskStatus::Failed.name().to_owned() {
            Some(TaskStatus::Failed)
        } else {
            None
        }
    }
}

impl TaskType {
    /// The name of the kind as requests and answers spell it.
    pub open spec fn name_of(self) -> Seq<char> {
        match self {
            TaskType::IndexCreation => "indexCreation"@,
            TaskType::IndexUpdate => "indexUpdate"@,
            TaskType::IndexDeletion => "indexDeletion"@,
            TaskType::DocumentAdditionOrUpdate => "documentAdditionOrUpdate"@,
            TaskType::DocumentDeletion => "documentDeletion"@,
            TaskType::SettingsUpdate => "settingsUpdate"@,
            TaskType::DumpCreation => "dumpCreation"@,
        }
    }

    /// The name of the kind as requests and answers spell it.
    pub fn name(&self) -> (r: &'static str)
        ensures
            r@ == self.name_of(),
    {
        match self {
            TaskType::IndexCreation => "indexCreation",
            TaskType::IndexUpdate => "indexUpdate",
            TaskType::IndexDeletion => "indexDeletion",
            TaskType::DocumentAdditionOrUpdate => "documentAdditionOrUpdate",
            TaskType::DocumentDeletion => "documentDeletion",
            TaskType::SettingsUpdate => "settingsUpdate",
            TaskType::DumpCreation => "dumpCreation",
        }
    }

    /// The kind that a name spells, if it spells one.
    pub fn from_name(name: &str) -> (r: Option<TaskType>)
        ensures
            r matches Some(kind) ==> kind.name_of() == name@,
            r is None ==> forall|kind: TaskType| kind.name_of() != name@,
    {
        let name = name.to_owned();
        if name == TaskType::IndexCreation.name().to_owned() {
            Some(TaskType::IndexCreation)
        } else if name == TaskType::IndexUpdate.name().to_owned() {
            Some(TaskType::IndexUpdate)
        } else if name == TaskType::IndexDeletion.name().to_owned() {
            Some(TaskType::IndexDeletion)
        } else if name == TaskType::DocumentAdditionOrUpdate.name().to_owned() {
            Some(TaskType::DocumentAdditionOrUpdate)
        } else if name == TaskType::DocumentDeletion.name().to_owned() {
            Some(TaskType::DocumentDeletion)
        } else if name == TaskType::SettingsUpdate.name().to_owned() {
            Some(TaskType::SettingsUpdate)
        } else if name == TaskType::DumpCreation.name().to_owned() {
            Some(TaskType::DumpCreation)
        } else {
            None
        }
    }
}

/// No two statuses share a name, and no two kinds do.
pub proof fn lemma_names_are_distinct()
    ensures
        forall|a: TaskStatus, b: TaskStatus| a.name_of() == b.name_of() ==> a == b,
        forall|a: TaskType, b: TaskType| a.name_of() == b.name_of() ==> a == b,
{
    reveal_strlit("enqueued");
    reveal_strlit("processing");
    reveal_strlit("succeeded");
    reveal_strlit("failed");
    reveal_strlit("indexCreation");
    reveal_strlit("indexUpdate");
    reveal_strlit("indexDeletion");
    reveal_strlit("documentAdditionOrUpdate");
    reveal_strlit("documentDeletion");
    reveal_strlit("settingsUpdate");
    reveal_strlit("dumpCreation");
    assert forall|a: TaskStatus, b: TaskStatus| a.name_of() == b.name_of() implies a == b by {
        if a != b {
            assert(a.name_of().len() != b.name_of().len() || a.name_of()[0] != b.name_of()[0]);
        }
    }
    assert forall|a: TaskType, b: TaskType| a.name_of() == b.name_of() implies a == b by {
        if a != b {
            assert(a.name_of().len() != b.name_of().len() || a.name_of()[5] != b.name_of()[5]);
        }
    }
}

/// Outcome recorded with a successful task.
#[derive(Clone, Copy, Debug, PartialEq, Eq, Structural)]
pub enum TaskResult {
    DocumentAddition { indexed_documents: u64 },
    DocumentDeletion { deleted_documents: u64 },
    ClearAll { deleted_documents: u64 },
    Other,
}

/// How added documents are merged with the ones an index already holds.
#[derive(Clone, Copy, Debug, PartialEq, Eq, Structural)]
pub enum IndexDocumentsMethod {
    ReplaceDocuments,
    UpdateDocuments,
}

/// Error payload recorded with a failed task.
#[derive(Debug, PartialEq, Eq)]
pub struct TaskFailure {
    pub message: String,
    pub code: String,
    pub kind: String,
    pub link: String,
}

/// Mathematical value of a [`TaskFailure`].
pub struct TaskFailureView {
    pub message: Seq<char>,
    pub code: Seq<char>,
    pub kind: Seq<char>,
    pub link: Seq<char>,
}

impl View for TaskFailure {
    type V = TaskFailureView;

    open spec fn view(&self) -> TaskFailureView {
        TaskFailureView {
            message: self.message@,
            code: self.code@,
            kind: self.kind@,
            link: self.link@,
        }
    }
}

impl Clone for TaskFailure {
    fn clone(&self) -> (r: Self)
        ensures
            r@ == self@,
    {
        TaskFailure {
            message: self.message.clone(),
            code: self.code.clone(),
            kind: self.kind.clone(),
            link: self.link.clone(),
        }
    }
}

/// One step in the life of a task, stamped with the time it happened.
#[derive(Debug, PartialEq, Eq)]
pub enum TaskEvent {
    Created(Timestamp),
    Processing(Timestamp),
    Succeeded { result: TaskResult, timestamp: Timestamp },
    Failed { error: TaskFailure, timestamp: Timestamp },
}

/// Mathematical value of a [`TaskEvent`].
pub enum TaskEventView {
    Created(Timestamp),
    Processing(Timestamp),
    Succeeded { result: TaskResult, timestamp: Timestamp },
    Failed { error: TaskFailureView, timestamp: Timestamp },
}

impl TaskEventView {
    /// The time the event carries.
    pub open spec fn timestamp(self) -> Timestamp {
        match self {
            TaskEventView::Created(t) => t,
            TaskEventView::Processing(t) => t,
            TaskEventView::Succeeded { timestamp, .. } => timestamp,
            TaskEventView::Failed { timestamp, .. } => timestamp,
        }
    }

    /// Whether the event ends the life of a task.
    pub open spec fn is_terminal(self) -> bool {
        self is Succeeded || self is Failed
    }
}

impl View for TaskEvent {
    type V = TaskEventView;

    open spec fn view(&self) -> TaskEventView {
        match self {
            TaskEvent::Created(t) => TaskEventView::Created(*t),
            TaskEvent::Processing(t) => TaskEventView::Processing(*t),
            TaskEvent::Succeeded { result, timestamp } => TaskEventView::Succeeded {
                result: *result,
                timestamp: *timestamp,
            },
            TaskEvent::Failed { error, timestamp } => TaskEventView::Failed {
                error: error@,
                timestamp: *timestamp,
            },
        }
    }
}

impl Clone for TaskEvent {
    fn clone(&self) -> (r: Self)
        ensures
            r@ == self@,
    {
        match self {
            TaskEvent::Created(t) => TaskEvent::Created(*t),
            TaskEvent::Processing(t) => TaskEvent::Processing(*t),
            TaskEvent::Succeeded { result, timestamp } => TaskEvent::Succeeded {
                result: *result,
                timestamp: *timestamp,
            },
            TaskEvent::Failed { error, timestamp } => TaskEvent::Failed {
                error: error.clone(),
                timestamp: *timestamp,
            },
        }
    }
}

impl TaskEvent {
    /// The time the event carries.
    pub fn timestamp(&self) -> (t: Timestamp)
        ensures
            t == self@.timestamp(),
    {
        match self {
            TaskEvent::Created(t) => *t,
            TaskEvent::Processing(t) => *t,
            TaskEvent::Succeeded { timestamp, .. } => *timestamp,
            TaskEvent::Failed { timestamp, .. } => *timestamp,
        }
    }

    /// Whether the event ends the life of a task.
    pub fn is_terminal(&self) -> (b: bool)
        ensures
            b == self@.is_terminal(),
    {
        match self {
            TaskEvent::Succeeded { .. } => true,
            TaskEvent::Failed { .. } => true,
            _ => false,
        }
    }
}

/// Which documents a deletion removes.
#[derive(Debug, PartialEq, Eq)]
pub enum DocumentDeletion {
    Clear,
    Ids(Vec<String>),
}

/// Mathematical value of a [`DocumentDeletion`].
pub enum DocumentDeletionView {
    Clear,
    Ids(Seq<Seq<char>>),
}

/// The strings of a vector, each as a sequence of characters.
pub open spec fn strings_view(v: Seq<String>) -> Seq<Seq<char>> {
    v.map_values(|s: String| s@)
}

impl View for DocumentDeletion {
    type V = DocumentDeletionView;

    open spec fn view(&self) -> DocumentDeletionView {
        match self {
            DocumentDeletion::Clear => DocumentDeletionView::Clear,
            DocumentDeletion::Ids(ids) => DocumentDeletionView::Ids(strings_view(ids@)),
        }
    }
}

impl Clone for DocumentDeletion {
    fn clone(&self) -> (r: Self)
        ensures
            r@ == self@,
    {
        match self {
            DocumentDeletion::Clear => DocumentDeletion::Clear,
            DocumentDeletion::Ids(ids) => {
                let copy = ids.clone();
                assert(strings_view(copy@) =~= strings_view(ids@));
                DocumentDeletion::Ids(copy)
            },
        }
    }
}

/// What a task asks for.
#[derive(Debug, PartialEq, Eq)]
pub enum TaskContent {
    DocumentAdditionOrUpdate {
        index_uid: String,
        content_uuid: ContentId,
        merge_strategy: IndexDocumentsMethod,
        primary_key: Option<String>,
        documents_count: usize,
        allow_index_creation: bool,
    },
    DocumentDeletion { index_uid: String, deletion: DocumentDeletion },
    SettingsUpdate {
        index_uid: String,
        settings: String,
        is_deletion: bool,
        allow_index_creation: bool,
    },
    IndexDeletion { index_uid: String },
    IndexCreation { index_uid: String, primary_key: Option<String> },
    IndexUpdate { index_uid: String, primary_key: Option<String> },
    Dump { uid: String },
}

/// Mathematical value of a [`TaskContent`].
pub enum TaskContentView {
    DocumentAdditionOrUpdate {
        index_uid: Seq<char>,
        content_uuid: ContentId,
        merge_strategy: IndexDocumentsMethod,
        primary_key: Option<Seq<char>>,
        documents_count: usize,
        allow_index_creation: bool,
    },
    DocumentDeletion { index_uid: Seq<char>, deletion: DocumentDeletionView },
    SettingsUpdate {
        index_uid: Seq<char>,
        settings: Seq<char>,
        is_deletion: bool,
        allow_index_creation: bool,
    },
    IndexDeletion { index_uid: Seq<char> },
    IndexCreation { index_uid: Seq<char>, primary_key: Option<Seq<char>> },
    IndexUpdate { index_uid: Seq<char>, primary_key: Option<Seq<char>> },
    Dump { uid: Seq<char> },
}

/// An optional string as an optional sequence of characters.
pub open spec fn option_string_view(s: Option<String>) -> Option<Seq<char>> {
    match s {
        Some(s) => Some(s@),
        None => None,
    }
}

fn clone_option_string(s: &Option<String>) -> (r: Option<String>)
    ensures
        option_string_view(r) == option_string_view(*s),
{
    match s {
        Some(s) => Some(s.clone()),
        None => None,
    }
}

impl TaskContentView {
    /// The index the content targets; none for an operation across indexes.
    pub open spec fn index_uid(self) -> Option<Seq<char>> {
        match self {
            TaskContentView::DocumentAdditionOrUpdate { index_uid, .. } => Some(index_uid),
            TaskContentView::DocumentDeletion { index_uid, .. } => Some(index_uid),
            TaskContentView::SettingsUpdate { index_uid, .. } => Some(index_uid),
            TaskContentView::IndexDeletion { index_uid } => Some(index_uid),
            TaskContentView::IndexCreation { index_uid, .. } => Some(index_uid),
            TaskContentView::IndexUpdate { index_uid, .. } => Some(index_uid),
            TaskContentView::Dump { .. } => None,
        }
    }

    /// The payload the content refers to, where it has one.
    pub open spec fn content_uuid(self) -> Option<ContentId> {
        match self {
            TaskContentView::DocumentAdditionOrUpdate { content_uuid, .. } => Some(content_uuid),
            _ => None,
        }
    }

    /// The kind of the content.
    pub open spec fn task_type(self) -> TaskType {
        match self {
            TaskContentView::DocumentAdditionOrUpdate { .. } => TaskType::DocumentAdditionOrUpdate,
            TaskContentView::DocumentDeletion { .. } => TaskType::DocumentDeletion,
            TaskContentView::SettingsUpdate { .. } => TaskType::SettingsUpdate,
            TaskContentView::IndexDeletion { .. } => TaskType::IndexDeletion,
            TaskContentView::IndexCreation { .. } => TaskType::IndexCreation,
            TaskContentView::IndexUpdate { .. } => TaskType::IndexUpdate,
            TaskContentView::Dump { .. } => TaskType::DumpCreation,
        }
    }
}

impl View for TaskContent {
    type V = TaskContentView;

    open spec fn view(&self) -> TaskContentView {
        match self {
            TaskContent::DocumentAdditionOrUpdate {
                index_uid,
                content_uuid,
                merge_strategy,
                primary_key,
                documents_count,
                allow_index_creation,
            } => TaskContentView::DocumentAdditionOrUpdate {
                index_uid: index_uid@,
                content_uuid: *content_uuid,
                merge_strategy: *merge_strategy,
                primary_key: option_string_view(*primary_key),
                documents_count: *documents_count,
                allow_index_creation: *allow_index_creation,
            },
            TaskContent::DocumentDeletion { index_uid, deletion } => {
                TaskContentView::DocumentDeletion { index_uid: index_uid@, deletion: deletion@ }
            },
            TaskContent::SettingsUpdate {
                index_uid,
                settings,
                is_deletion,
                allow_index_creation,
            } => TaskContentView::SettingsUpdate {
                index_uid: index_uid@,
                settings: settings@,
                is_deletion: *is_deletion,
                allow_index_creation: *allow_index_creation,
            },
            TaskContent::IndexDeletion { index_uid } => TaskContentView::IndexDeletion {
                index_uid: index_uid@,
            },
            TaskContent::IndexCreation { index_uid, primary_key } => {
                TaskContentView::IndexCreation {
                    index_uid: index_uid@,
                    primary_key: option_string_view(*primary_key),
                }
            },
            TaskContent::IndexUpdate { index_uid, primary_key } => TaskContentView::IndexUpdate {
                index_uid: index_uid@,
                primary_key: option_string_view(*primary_key),
            },
            TaskContent::Dump { uid } => TaskContentView::Dump { uid: uid@ },
        }
    }
}

impl Clone for TaskContent {
    fn clone(&self) -> (r: Self)
        ensures
            r@ == self@,
    {
        match self {
            TaskContent::DocumentAdditionOrUpdate {
                index_uid,
                content_uuid,
                merge_strategy,
                primary_key,
                documents_count,
                allow_index_creation,
            } => TaskContent::DocumentAdditionOrUpdate {
                index_uid: index_uid.clone(),
                content_uuid: *content_uuid,
                merge_strategy: *merge_strategy,
                primary_key: clone_option_string(primary_key),
                documents_count: *documents_count,
                allow_index_creation: *allow_index_creation,
            },
            TaskContent::DocumentDeletion { index_uid, deletion } => TaskContent::DocumentDeletion {
                index_uid: index_uid.clone(),
                deletion: deletion.clone(),
            },
            TaskContent::SettingsUpdate {
                index_uid,
                settings,
                is_deletion,
                allow_index_creation,
            } => TaskContent::SettingsUpdate {
                index_uid: index_uid.clone(),
                settings: settings.clone(),
                is_deletion: *is_deletion,
                allow_index_creation: *allow_index_creation,
            },
            TaskContent::IndexDeletion { index_uid } => TaskContent::IndexDeletion {
                index_uid: index_uid.clone(),
            },
            TaskContent::IndexCreation { index_uid, primary_key } => TaskContent::IndexCreation {
                index_uid: index_uid.clone(),
                primary_key: clone_option_string(primary_key),
            },
            TaskContent::IndexUpdate { index_uid, primary_key } => TaskContent::IndexUpdate {
                index_uid: index_uid.clone(),
                primary_key: clone_option_string(primary_key),
            },
            TaskContent::Dump { uid } => TaskContent::Dump { uid: uid.clone() },
        }
    }
}

impl TaskContent {
    /// The index the content targets; none for an operation across indexes.
    pub fn index_uid(&self) -> (r: Option<&String>)
        ensures
            r matches Some(s) ==> self@.index_uid() == Some(s@),
            r is None ==> self@.index_uid() is None,
    {
        match self {
            TaskContent::DocumentAdditionOrUpdate { index_uid, .. } => Some(index_uid),
            TaskContent::DocumentDeletion { index_uid, .. } => Some(index_uid),
            TaskContent::SettingsUpdate { index_uid, .. } => Some(index_uid),
            TaskContent::IndexDeletion { index_uid } => Some(index_uid),
            TaskContent::IndexCreation { index_uid, .. } => Some(index_uid),
            TaskContent::IndexUpdate { index_uid, .. } => Some(index_uid),
            TaskContent::Dump { .. } => None,
        }
    }

    /// The kind of the content.
    pub fn task_type(&self) -> (r: TaskType)
        ensures
            r == self@.task_type(),
    {
        match self {
            TaskContent::DocumentAdditionOrUpdate { .. } => TaskType::DocumentAdditionOrUpdate,
            TaskContent::DocumentDeletion { .. } => TaskType::DocumentDeletion,
            TaskContent::SettingsUpdate { .. } => TaskType::SettingsUpdate,
            TaskContent::IndexDeletion { .. } => TaskType::IndexDeletion,
            TaskContent::IndexCreation { .. } => TaskType::IndexCreation,
            TaskContent::IndexUpdate { .. } => TaskType::IndexUpdate,
            TaskContent::Dump { .. } => TaskType::DumpCreation,
        }
    }
}

/// The durable unit of work: an identifier, what to do, and what happened so far.
#[derive(Debug, PartialEq, Eq)]
pub struct Task {
    pub id: TaskId,
    pub content: TaskContent,
    pub events: Vec<TaskEvent>,
}

/// Mathematical value of a [`Task`].
pub struct TaskView {
    pub id: TaskId,
    pub content: TaskContentView,
    pub events: Seq<TaskEventView>,
}

/// The events of a vector, each as its mathematical value.
pub open spec fn events_view(v: Seq<TaskEvent>) -> Seq<TaskEventView> {
    v.map_values(|e: TaskEvent| e@)
}

/// The status that a history of events amounts to: that of its last event,
/// and enqueued while nothing but the creation is recorded.
pub open spec fn status_of(events: Seq<TaskEventView>) -> TaskStatus {
    if events.len() == 0 {
        TaskStatus::Enqueued
    } else {
        match events.last() {
            TaskEventView::Created(_) => TaskStatus::Enqueued,
            TaskEventView::Processing(_) => TaskStatus::Processing,
            TaskEventView::Succeeded { .. } => TaskStatus::Succeeded,
            TaskEventView::Failed { .. } => TaskStatus::Failed,
        }
    }
}

/// A history as the lifecycle allows it: it starts with the creation, which
/// occurs once; only the last event may be terminal; and time never runs
/// backwards.
pub open spec fn valid_history(events: Seq<TaskEventView>) -> bool {
    &&& events.len() > 0
    &&& events[0] is Created
    &&& forall|i: int| 0 < i < events.len() ==> !(#[trigger] events[i] is Created)
    &&& forall|i: int| 0 <= i < events.len() - 1 ==> !(#[trigger] events[i]).is_terminal()
    &&& forall|i: int, j: int|
        0 <= i <= j < events.len() ==> (#[trigger] events[i]).timestamp() <= (
        #[trigger] events[j]).timestamp()
}

impl TaskView {
    /// The derived status.
    pub open spec fn status(self) -> TaskStatus {
        status_of(self.events)
    }

    /// Whether the task has reached a terminal state.
    pub open spec fn is_finished(self) -> bool {
        self.events.len() > 0 && self.events.last().is_terminal()
    }

    /// The index the task targets; none for an operation across indexes.
    pub open spec fn index_uid(self) -> Option<Seq<char>> {
        self.content.index_uid()
    }

    /// The payload the task refers to, where it has one.
    pub open spec fn content_uuid(self) -> Option<ContentId> {
        self.content.content_uuid()
    }

    /// The kind of the task.
    pub open spec fn task_type(self) -> TaskType {
        self.content.task_type()
    }
}

impl View for Task {
    type V = TaskView;

    open spec fn view(&self) -> TaskView {
        TaskView { id: self.id, content: self.content@, events: events_view(self.events@) }
    }
}

impl Clone for Task {
    fn clone(&self) -> (r: Self)
        ensures
            r@ == self@,
    {
        let events = self.events.clone();
        assert(events_view(events@) =~= events_view(self.events@));
        Task { id: self.id, content: self.content.clone(), events }
    }
}

impl Task {
    /// Whether the task has reached a terminal state.
    pub fn is_finished(&self) -> (b: bool)
        ensures
            b == self@.is_finished(),
    {
        let n = self.events.len();
        if n == 0 {
            false
        } else {
            self.events[n - 1].is_terminal()
        }
    }

    /// The payload the task refers to, where it has one.
    pub fn get_content_uuid(&self) -> (r: Option<ContentId>)
        ensures
            r == self@.content_uuid(),
    {
        match &self.content {
            TaskContent::DocumentAdditionOrUpdate { content_uuid, .. } => Some(*content_uuid),
            _ => None,
        }
    }

    /// The index the task targets; none for an operation across indexes.
    pub fn index_uid(&self) -> (r: Option<&String>)
        ensures
            r matches Some(s) ==> self@.index_uid() == Some(s@),
            r is None ==> self@.index_uid() is None,
    {
        self.content.index_uid()
    }

    /// The derived status.
    pub fn status(&self) -> (r: TaskStatus)
        ensures
            r == self@.status(),
    {
        let n = self.events.len();
        if n == 0 {
            TaskStatus::Enqueued
        } else {
            match &self.events[n - 1] {
                TaskEvent::Created(_) => TaskStatus::Enqueued,
                TaskEvent::Processing(_) => TaskStatus::Processing,
                TaskEvent::Succeeded { .. } => TaskStatus::Succeeded,
                TaskEvent::Failed { .. } => TaskStatus::Failed,
            }
        }
    }

    /// The kind of the task.
    pub fn task_type(&self) -> (r: TaskType)
        ensures
            r == self@.task_type(),
    {
        self.content.task_type()
    }

    /// Decides whether the history of the task is one that the lifecycle
    /// allows.
    pub fn has_valid_history(&self) -> (b: bool)
        ensures
            b == valid_history(self@.events),
    {
        let ghost events = self@.events;
        let n = self.events.len();
        if n == 0 {
            return false;
        }
        assert(events[0] == self.events@[0]@);
        match &self.events[0] {
            TaskEvent::Created(_) => {},
            _ => {
                return false;
            },
        }
        let mut i: usize = 1;
        while i < n
            invariant
                events == self@.events,
                n == events.len(),
                n == self.events@.len(),
                1 <= i <= n,
                valid_history(events.subrange(0, i as int)),
            decreases n - i,
        {
            let ghost done = events.subrange(0, i as int);
            let ghost next = events.subrange(0, i + 1);
            assert(events[i as int] == self.events@[i as int]@);
            assert(events[i - 1] == self.events@[i - 1]@);
            let created = match &self.events[i] {
                TaskEvent::Created(_) => true,
                _ => false,
            };
            if created || self.events[i - 1].is_terminal() || self.events[i - 1].timestamp()
                > self.events[i].timestamp() {
                proof {
                    if valid_history(events) {
                        assert(!(events[i as int] is Created));
                        assert(!events[i - 1].is_terminal());
                        assert(events[i - 1].timestamp() <= events[i as int].timestamp());
                    }
                }
                return false;
            }
            proof {
                assert(next[0] == done[0]);
                assert forall|k: int| 0 < k < next.len() implies !(#[trigger] next[k] is Created) by {
                    if k < i {
                        assert(next[k] == done[k]);
                    }
                }
                assert forall|k: int| 0 <= k < next.len() - 1 implies !(#[trigger] next[k]).is_terminal() by {
                    if k < i - 1 {
                        assert(next[k] == done[k]);
                    }
                }
                assert forall|a: int, b: int| 0 <= a <= b < next.len() implies (#[trigger] next[a]).timestamp()
                    <= (#[trigger] next[b]).timestamp() by {
                    if b < i {
                        assert(done[a].timestamp() <= done[b].timestamp());
                    } else if a < i {
                        assert(done[a].timestamp() <= done[i - 1].timestamp());
                    }
                }
            }
            i += 1;
        }
        assert(events.subrange(0, n as int) =~= events);
        true
    }

    /// Records the next event of the task, where the lifecycle allows it
    /// after the events so far: a creation comes first and only there, no
    /// event follows a terminal one, and none is dated before the one it
    /// follows. Says whether the event was recorded; the task is unchanged
    /// where it was not.
    pub fn record(&mut self, event: TaskEvent) -> (recorded: bool)
        ensures
            recorded == valid_history(old(self)@.events.push(event@)),
            recorded ==> final(self)@ == (TaskView {
                events: old(self)@.events.push(event@),
                ..old(self)@
            }),
            !recorded ==> final(self)@ == old(self)@,
    {
        let ghost before = self@.events;
        let ghost after = before.push(event@);
        let created = match &event {
            TaskEvent::Created(_) => true,
            _ => false,
        };
        let n = self.events.len();
        if n == 0 {
            assert(after[0] == event@);
            if created {
                self.events.push(event);
                assert(self@.events =~= after);
            }
            return created;
        }
        if !self.has_valid_history() {
            proof {
                if valid_history(after) {
                    lemma_valid_history_prefix(after, before.len() as int);
                    assert(after.subrange(0, before.len() as int) =~= before);
                }
            }
            return false;
        }
        assert(before[n - 1] == self.events@[n - 1]@);
        if created || self.events[n - 1].is_terminal() || self.events[n - 1].timestamp()
            > event.timestamp() {
            proof {
                if valid_history(after) {
                    assert(!(after[n as int] is Created));
                    assert(after[n - 1] == before[n - 1]);
                    assert(!after[n - 1].is_terminal());
                    assert(after[n - 1].timestamp() <= after[n as int].timestamp());
                }
            }
            return false;
        }
        proof {
            assert(after[0] == before[0]);
            assert forall|k: int| 0 < k < after.len() implies !(#[trigger] after[k] is Created) by {
                if k < n {
                    assert(after[k] == before[k]);
                }
            }
            assert forall|k: int| 0 <= k < after.len() - 1 implies !(#[trigger] after[k]).is_terminal() by {
                if k < n - 1 {
                    assert(after[k] == before[k]);
                } else {
                    assert(after[k] == before[n - 1]);
                }
            }
            assert forall|a: int, b: int| 0 <= a <= b < after.len() implies (#[trigger] after[a]).timestamp()
                <= (#[trigger] after[b]).timestamp() by {
                if b < n {
                    assert(before[a].timestamp() <= before[b].timestamp());
                } else if a < n {
                    assert(before[a].timestamp() <= before[n - 1].timestamp());
                }
            }
        }
        self.events.push(event);
        assert(self@.events =~= after);
        true
    }
}

/// What comes first in a valid history is a valid history.
pub proof fn lemma_valid_history_prefix(events: Seq<TaskEventView>, n: int)
    requires
        valid_history(events),
        0 < n <= events.len(),
    ensures
        valid_history(events.subrange(0, n)),
{
    let head = events.subrange(0, n);
    assert(head[0] == events[0]);
    assert forall|i: int| 0 < i < head.len() implies !(#[trigger] head[i] is Created) by {
        assert(head[i] == events[i]);
    }
    assert forall|i: int| 0 <= i < head.len() - 1 implies !(#[trigger] head[i]).is_terminal() by {
        assert(head[i] == events[i]);
    }
    assert forall|i: int, j: int| 0 <= i <= j < head.len() implies (#[trigger] head[i]).timestamp()
        <= (#[trigger] head[j]).timestamp() by {
        assert(events[i].timestamp() <= events[j].timestamp());
    }
}

/// While a history is valid, events are only added at its end, and none
/// after a terminal one: a task has at most one terminal event, the last,
/// and a finished task takes no further event.
pub proof fn lemma_finished_history_is_closed(events: Seq<TaskEventView>, event: TaskEventView)
    requires
        valid_history(events),
        events.last().is_terminal(),
    ensures
        !valid_history(events.push(event)),
{
    let after = events.push(event);
    assert(after[events.len() - 1] == events.last());
}

/// A task is finished exactly when its status is a terminal one.
pub proof fn lemma_finished_iff_terminal_status(t: TaskView)
    ensures
        t.is_finished() <==> (t.status() == TaskStatus::Succeeded || t.status()
            == TaskStatus::Failed),
{
}

} // verus!
