use task_store::error::TaskError;
use task_store::query::{QueryError, TaskQuery};
use task_store::summary::SummarizedTaskView;
use task_store::task::{
    IndexDocumentsMethod, Task, TaskContent, TaskEvent, TaskId, TaskResult, TaskStatus, TaskType,
};
use task_store::task_store::TaskStore;

fn create_index(store: &mut TaskStore, index: &str) -> Task {
    store.register(TaskContent::IndexCreation {
        index_uid: index.to_string(),
        primary_key: None,
    })
}

fn add_documents(store: &mut TaskStore, index: &str) -> Task {
    store.register(TaskContent::DocumentAdditionOrUpdate {
        index_uid: index.to_string(),
        content_uuid: 0x1234_5678_9abc_def0,
        merge_strategy: IndexDocumentsMethod::ReplaceDocuments,
        primary_key: None,
        documents_count: 77,
        allow_index_creation: true,
    })
}

/// Runs a task to its successful end, as the scheduler would.
fn wait_task(store: &mut TaskStore, id: TaskId) {
    let mut task = store.get_task(id, None).unwrap();
    let created = task.events[0].timestamp();
    task.events.push(TaskEvent::Processing(created + 1));
    task.events.push(TaskEvent::Succeeded {
        result: TaskResult::Other,
        timestamp: created + 2,
    });
    store.update_tasks(vec![task]);
}

fn server_with_two_tasks() -> TaskStore {
    let mut store = TaskStore::new();
    create_index(&mut store, "test");
    wait_task(&mut store, 0);
    add_documents(&mut store, "test");
    store
}

fn get(store: &TaskStore, index_uid: Option<&str>, kind: Option<&str>, status: Option<&str>) -> Vec<Task> {
    let query = TaskQuery::parse(index_uid, kind, status).unwrap();
    store.list_tasks(None, query.into_filter(), None)
}

fn filtered_tasks(store: &TaskStore, kinds: &[&str], statuses: &[&str]) -> Vec<Task> {
    let kinds = if kinds.is_empty() { None } else { Some(kinds.join(",")) };
    let statuses = if statuses.is_empty() { None } else { Some(statuses.join(",")) };
    get(store, None, kinds.as_deref(), statuses.as_deref())
}

#[test]
fn error_get_unexisting_task_status() {
    let mut store = TaskStore::new();
    create_index(&mut store, "test");
    wait_task(&mut store, 0);
    let response = store.get_task(1, None);

    assert_eq!(response, Err(TaskError::UnexistingTask(1)));
    let error = response.unwrap_err();
    assert_eq!(error.message(), "Task `1` not found.");
    assert_eq!(error.error_code(), "task_not_found");
    assert!(error.is_not_found());
}

#[test]
fn get_task_status() {
    let mut store = TaskStore::new();
    create_index(&mut store, "test");
    add_documents(&mut store, "test");
    wait_task(&mut store, 0);
    let response = store.get_task(1, None);
    assert!(response.is_ok());
    assert_eq!(response.unwrap().id, 1);
}

#[test]
fn list_tasks() {
    let store = server_with_two_tasks();
    let response = store.list_tasks(None, None, None);
    assert_eq!(response.len(), 2);
}

#[test]
fn list_tasks_with_star_filters() {
    let store = server_with_two_tasks();

    let response = get(&store, Some("test"), None, None);
    assert_eq!(response.len(), 2);

    let response = get(&store, Some("*"), None, None);
    assert_eq!(response.len(), 2);

    let response = get(&store, Some("*,pasteque"), None, None);
    assert_eq!(response.len(), 2);

    let response = get(&store, None, Some("*"), None);
    assert_eq!(response.len(), 2);

    let response = get(&store, None, Some("*,documentAdditionOrUpdate"), Some("*"));
    assert_eq!(response.len(), 2);

    let response = get(
        &store,
        Some("test"),
        Some("*,documentAdditionOrUpdate"),
        Some("*,failed"),
    );
    assert_eq!(response.len(), 2);

    let response = get(
        &store,
        Some("test,*"),
        Some("*,documentAdditionOrUpdate"),
        Some("*,failed"),
    );
    assert_eq!(response.len(), 2);
}

#[test]
fn list_tasks_status_filtered() {
    let mut store = server_with_two_tasks();

    let response = filtered_tasks(&store, &[], &["succeeded"]);
    assert_eq!(response.len(), 1);

    let response = filtered_tasks(&store, &[], &["enqueued"]);
    assert_eq!(response.len(), 1);
    assert_eq!(response[0].id, 1);

    wait_task(&mut store, 1);

    let response = filtered_tasks(&store, &[], &["succeeded"]);
    assert_eq!(response.len(), 2);
}

#[test]
fn list_tasks_type_filtered() {
    let store = server_with_two_tasks();

    let response = filtered_tasks(&store, &["indexCreation"], &[]);
    assert_eq!(response.len(), 1);

    let response = filtered_tasks(&store, &["indexCreation", "documentAdditionOrUpdate"], &[]);
    assert_eq!(response.len(), 2);
}

#[test]
fn list_tasks_status_and_type_filtered() {
    let store = server_with_two_tasks();

    let response = filtered_tasks(&store, &["indexCreation"], &["failed"]);
    assert_eq!(response.len(), 0);

    let response = filtered_tasks(
        &store,
        &["indexCreation", "documentAdditionOrUpdate"],
        &["succeeded", "processing", "enqueued"],
    );
    assert_eq!(response.len(), 2);
}

fn assert_valid_summarized_task(task: &Task, expected_type: &str, index: &str) {
    // The summary has these five fields and no other.
    let SummarizedTaskView { task_uid, index_uid, status, task_type, enqueued_at } =
        task.summarize().expect("missing creation");
    assert_eq!(task_uid, task.id);
    assert_eq!(index_uid.as_deref(), Some(index));
    assert_eq!(status.name(), "enqueued");
    assert_eq!(task_type.name(), expected_type);
    assert_eq!(enqueued_at, task.events[0].timestamp());
}

#[test]
fn test_summarized_task_view() {
    let mut store = TaskStore::new();
    let index = "test".to_string();

    let response = create_index(&mut store, "test");
    assert_valid_summarized_task(&response, "indexCreation", "test");

    let response = store.register(TaskContent::IndexUpdate {
        index_uid: index.clone(),
        primary_key: None,
    });
    assert_valid_summarized_task(&response, "indexUpdate", "test");

    let response = store.register(TaskContent::SettingsUpdate {
        index_uid: index.clone(),
        settings: "{}".to_string(),
        is_deletion: false,
        allow_index_creation: true,
    });
    assert_valid_summarized_task(&response, "settingsUpdate", "test");

    let response = store.register(TaskContent::DocumentAdditionOrUpdate {
        index_uid: index.clone(),
        content_uuid: 1,
        merge_strategy: IndexDocumentsMethod::UpdateDocuments,
        primary_key: None,
        documents_count: 1,
        allow_index_creation: true,
    });
    assert_valid_summarized_task(&response, "documentAdditionOrUpdate", "test");

    let response = add_documents(&mut store, "test");
    assert_valid_summarized_task(&response, "documentAdditionOrUpdate", "test");

    let response = store.register(TaskContent::DocumentDeletion {
        index_uid: index.clone(),
        deletion: task_store::task::DocumentDeletion::Ids(vec!["1".to_string()]),
    });
    assert_valid_summarized_task(&response, "documentDeletion", "test");

    let response = store.register(TaskContent::DocumentDeletion {
        index_uid: index.clone(),
        deletion: task_store::task::DocumentDeletion::Clear,
    });
    assert_valid_summarized_task(&response, "documentDeletion", "test");

    let response = store.register(TaskContent::IndexDeletion { index_uid: index });
    assert_valid_summarized_task(&response, "indexDeletion", "test");
}

#[test]
fn registered_task_is_enqueued_with_one_creation_event() {
    let mut store = TaskStore::new();
    let task = create_index(&mut store, "test");
    assert_eq!(task.id, 0);
    assert_eq!(task.events.len(), 1);
    assert!(matches!(task.events[0], TaskEvent::Created(_)));
    assert_eq!(task.status(), TaskStatus::Enqueued);
    assert_eq!(task.task_type(), TaskType::IndexCreation);
    // The clock is read, not made up: the creation lies after the year 2020.
    assert!(task.events[0].timestamp() > 1_577_836_800_000_000_000);
    assert_eq!(store.get_task(0, None), Ok(task));
}

#[test]
fn a_registered_index_creation_is_fetched_enqueued() {
    let mut store = TaskStore::new();
    create_index(&mut store, "test");
    let task = store.get_task(0, None).unwrap();
    let summary = task.summarize().unwrap();
    assert_eq!(summary.task_uid, 0);
    assert_eq!(summary.status.name(), "enqueued");
    assert_eq!(summary.task_type.name(), "indexCreation");
    assert_eq!(summary.index_uid, Some("test".to_string()));
}

#[test]
fn index_and_star_status_gives_both_tasks() {
    let mut store = TaskStore::new();
    create_index(&mut store, "test");
    add_documents(&mut store, "test");
    let response = get(&store, Some("test"), None, Some("*"));
    assert_eq!(response.len(), 2);
    assert_eq!(response[0].id, 1);
    assert_eq!(response[1].id, 0);
}

#[test]
fn unknown_names_fail_the_query() {
    assert_eq!(
        TaskQuery::parse(None, Some("indexCreation,pasteque"), Some("nope")),
        Err(QueryError::UnknownType("pasteque".to_string()))
    );
    assert_eq!(
        TaskQuery::parse(Some("a"), Some("*"), Some("failed,,enqueued")),
        Err(QueryError::UnknownStatus("".to_string()))
    );
}
