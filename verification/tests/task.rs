use task_store::task::{
    IndexDocumentsMethod, Task, TaskContent, TaskEvent, TaskFailure, TaskResult, TaskStatus,
    TaskType,
};
use task_store::task_store::TaskStore;

fn task(events: Vec<TaskEvent>) -> Task {
    Task {
        id: 3,
        content: TaskContent::DocumentAdditionOrUpdate {
            index_uid: "movies".to_string(),
            content_uuid: 42,
            merge_strategy: IndexDocumentsMethod::ReplaceDocuments,
            primary_key: None,
            documents_count: 2,
            allow_index_creation: true,
        },
        events,
    }
}

fn succeeded(at: i128) -> TaskEvent {
    TaskEvent::Succeeded { result: TaskResult::DocumentAddition { indexed_documents: 2 }, timestamp: at }
}

fn failed(at: i128) -> TaskEvent {
    TaskEvent::Failed {
        error: TaskFailure {
            message: "boom".to_string(),
            code: "internal".to_string(),
            kind: "internal".to_string(),
            link: "".to_string(),
        },
        timestamp: at,
    }
}

#[test]
fn status_is_that_of_the_last_event() {
    assert_eq!(task(vec![]).status(), TaskStatus::Enqueued);
    assert_eq!(task(vec![TaskEvent::Created(1)]).status(), TaskStatus::Enqueued);
    assert_eq!(
        task(vec![TaskEvent::Created(1), TaskEvent::Processing(2)]).status(),
        TaskStatus::Processing
    );
    assert_eq!(
        task(vec![TaskEvent::Created(1), TaskEvent::Processing(2), succeeded(3)]).status(),
        TaskStatus::Succeeded
    );
    assert_eq!(
        task(vec![TaskEvent::Created(1), TaskEvent::Processing(2), failed(3)]).status(),
        TaskStatus::Failed
    );
}

#[test]
fn a_task_is_finished_once_it_succeeded_or_failed() {
    assert!(!task(vec![]).is_finished());
    assert!(!task(vec![TaskEvent::Created(1)]).is_finished());
    assert!(!task(vec![TaskEvent::Created(1), TaskEvent::Processing(2)]).is_finished());
    assert!(task(vec![TaskEvent::Created(1), succeeded(3)]).is_finished());
    assert!(task(vec![TaskEvent::Created(1), failed(3)]).is_finished());
    assert!(succeeded(1).is_terminal());
    assert!(failed(1).is_terminal());
    assert!(!TaskEvent::Processing(1).is_terminal());
    assert_eq!(failed(17).timestamp(), 17);
}

#[test]
fn derived_accessors_read_the_content() {
    let addition = task(vec![TaskEvent::Created(1)]);
    assert_eq!(addition.index_uid(), Some(&"movies".to_string()));
    assert_eq!(addition.get_content_uuid(), Some(42));
    assert_eq!(addition.task_type(), TaskType::DocumentAdditionOrUpdate);

    let dump = Task {
        id: 0,
        content: TaskContent::Dump { uid: "d".to_string() },
        events: vec![TaskEvent::Created(1)],
    };
    assert_eq!(dump.index_uid(), None);
    assert_eq!(dump.get_content_uuid(), None);
    assert_eq!(dump.summarize().unwrap().index_uid, None);

    let deletion = Task {
        id: 0,
        content: TaskContent::IndexDeletion { index_uid: "movies".to_string() },
        events: vec![],
    };
    assert_eq!(deletion.get_content_uuid(), None);
    assert_eq!(deletion.summarize(), None);
    assert_eq!(task(vec![TaskEvent::Processing(1)]).summarize(), None);
}

#[test]
fn valid_histories_start_with_one_creation_and_end_with_at_most_one_terminal_event() {
    assert!(!task(vec![]).has_valid_history());
    assert!(task(vec![TaskEvent::Created(1)]).has_valid_history());
    assert!(task(vec![TaskEvent::Created(1), TaskEvent::Processing(1)]).has_valid_history());
    assert!(task(vec![TaskEvent::Created(1), TaskEvent::Processing(2), succeeded(2)])
        .has_valid_history());
    assert!(task(vec![TaskEvent::Created(1), failed(9)]).has_valid_history());
    assert!(task(vec![
        TaskEvent::Created(1),
        TaskEvent::Processing(2),
        TaskEvent::Processing(5),
        failed(9)
    ])
    .has_valid_history());

    assert!(!task(vec![TaskEvent::Processing(1)]).has_valid_history());
    assert!(!task(vec![TaskEvent::Created(1), TaskEvent::Created(2)]).has_valid_history());
    assert!(!task(vec![TaskEvent::Created(1), succeeded(2), failed(3)]).has_valid_history());
    assert!(!task(vec![TaskEvent::Created(1), succeeded(2), TaskEvent::Processing(3)])
        .has_valid_history());
    assert!(!task(vec![TaskEvent::Created(2), TaskEvent::Processing(1)]).has_valid_history());
    assert!(!task(vec![TaskEvent::Created(1), TaskEvent::Processing(3), succeeded(2)])
        .has_valid_history());
}

#[test]
fn record_appends_only_what_the_lifecycle_allows() {
    let mut t = task(vec![]);
    assert!(!t.record(TaskEvent::Processing(1)));
    assert!(t.events.is_empty());
    assert!(t.record(TaskEvent::Created(5)));
    assert!(!t.record(TaskEvent::Created(6)));
    assert!(!t.record(TaskEvent::Processing(4)));
    assert!(t.record(TaskEvent::Processing(5)));
    assert!(t.record(succeeded(8)));
    assert_eq!(t.events, vec![TaskEvent::Created(5), TaskEvent::Processing(5), succeeded(8)]);
    assert!(!t.record(failed(9)));
    assert!(!t.record(TaskEvent::Processing(9)));
    assert_eq!(t.events.len(), 3);
    assert_eq!(t.status(), TaskStatus::Succeeded);

    let mut broken = task(vec![TaskEvent::Processing(1)]);
    assert!(!broken.record(TaskEvent::Processing(2)));
    assert_eq!(broken.events, vec![TaskEvent::Processing(1)]);
}

#[test]
fn registering_in_a_transaction_allocates_past_its_own_writes() {
    let mut store = TaskStore::new();
    let mut txn = store.wtxn();
    let content = || TaskContent::IndexCreation { index_uid: "a".to_string(), primary_key: None };
    let first = store.register_in_at(&mut txn, content(), 10);
    let raw = Task { id: 6, content: content(), events: vec![TaskEvent::Created(11)] };
    store.register_raw_update(&mut txn, &raw);
    let second = store.register_in(&mut txn, content());
    assert_eq!((first.id, second.id), (0, 7));
    assert_eq!(txn.writes(), &vec![first.clone(), raw.clone(), second.clone()]);
    assert!(store.list_tasks(None, None, None).is_empty());
    store.commit(txn);
    assert_eq!(store.list_tasks(None, None, None), vec![second, raw, first]);

    let txn = store.wtxn();
    assert!(store.can_register(&txn));
    txn.abort();
    assert_eq!(store.register(content()).id, 8);
}

#[test]
fn clones_are_equal_to_what_they_copy() {
    let source = task(vec![TaskEvent::Created(1), TaskEvent::Processing(2), failed(3)]);
    assert_eq!(source.clone(), source);
    let deletion = TaskContent::DocumentDeletion {
        index_uid: "movies".to_string(),
        deletion: task_store::task::DocumentDeletion::Ids(vec!["a".to_string(), "b".to_string()]),
    };
    assert_eq!(deletion.clone(), deletion);
    let settings = TaskContent::SettingsUpdate {
        index_uid: "movies".to_string(),
        settings: "{\"rankingRules\":[]}".to_string(),
        is_deletion: false,
        allow_index_creation: true,
    };
    assert_eq!(settings.clone(), settings);
}
