use task_store::error::TaskError;
use task_store::task::{
    DocumentDeletion, IndexDocumentsMethod, Task, TaskContent, TaskEvent, TaskResult,
};
use task_store::task_store::{DumpEntry, TaskStore};

fn addition(id: u32, payload: u128, events: Vec<TaskEvent>) -> Task {
    Task {
        id,
        content: TaskContent::DocumentAdditionOrUpdate {
            index_uid: "movies".to_string(),
            content_uuid: payload,
            merge_strategy: IndexDocumentsMethod::UpdateDocuments,
            primary_key: None,
            documents_count: 12,
            allow_index_creation: true,
        },
        events,
    }
}

fn sample() -> Vec<Task> {
    vec![
        addition(
            0,
            100,
            vec![
                TaskEvent::Created(1),
                TaskEvent::Processing(2),
                TaskEvent::Succeeded {
                    result: TaskResult::DocumentAddition { indexed_documents: 12 },
                    timestamp: 3,
                },
            ],
        ),
        addition(1, 101, vec![TaskEvent::Created(4), TaskEvent::Processing(5)]),
        Task {
            id: 4,
            content: TaskContent::DocumentDeletion {
                index_uid: "movies".to_string(),
                deletion: DocumentDeletion::Ids(vec!["1".to_string(), "2".to_string()]),
            },
            events: vec![TaskEvent::Created(6)],
        },
        addition(7, 102, vec![TaskEvent::Created(7)]),
    ]
}

fn store_of(tasks: &[Task]) -> TaskStore {
    let mut store = TaskStore::new();
    let mut txn = store.wtxn();
    for task in tasks {
        store.register_raw_update(&mut txn, task);
    }
    store.commit(txn);
    store
}

#[test]
fn dump_lists_every_task_oldest_first_with_the_payloads_to_copy() {
    let tasks = sample();
    let store = store_of(&[tasks[3].clone(), tasks[0].clone(), tasks[2].clone(), tasks[1].clone()]);
    let entries = store.dump();
    assert_eq!(
        entries,
        vec![
            DumpEntry { task: tasks[0].clone(), payload: None },
            DumpEntry { task: tasks[1].clone(), payload: Some(101) },
            DumpEntry { task: tasks[2].clone(), payload: None },
            DumpEntry { task: tasks[3].clone(), payload: Some(102) },
        ]
    );
}

#[test]
fn restoring_a_dump_gives_the_log_back() {
    let store = store_of(&sample());
    let records: Vec<Option<Task>> = store.dump().into_iter().map(|e| Some(e.task)).collect();
    let restored = TaskStore::load_dump(records).unwrap();
    assert_eq!(restored.list_tasks(None, None, None), store.list_tasks(None, None, None));
    assert_eq!(restored.dump(), store.dump());
    assert_eq!(restored.fetch_unfinished_tasks(None), store.fetch_unfinished_tasks(None));
    // Identifiers are kept, gaps included, and the next one follows the greatest.
    let mut restored = restored;
    assert_eq!(restored.register_at(TaskContent::Dump { uid: "x".to_string() }, 9).id, 8);
}

#[test]
fn restoring_keeps_identifiers_whatever_the_order_of_the_records() {
    let tasks = sample();
    let records = vec![
        Some(tasks[2].clone()),
        Some(tasks[0].clone()),
        Some(tasks[3].clone()),
        Some(tasks[1].clone()),
    ];
    let restored = TaskStore::load_dump(records).unwrap();
    let listed = restored.list_tasks(None, None, None);
    assert_eq!(listed.iter().map(|t| t.id).collect::<Vec<_>>(), vec![7, 4, 1, 0]);
    assert_eq!(restored.get_task(4, None), Ok(tasks[2].clone()));
}

#[test]
fn a_record_that_could_not_be_read_fails_the_whole_restore() {
    let tasks = sample();
    let records = vec![Some(tasks[0].clone()), None, Some(tasks[1].clone())];
    let result = TaskStore::load_dump(records);
    assert_eq!(result.as_ref().err(), Some(&TaskError::MalformedDumpRecord));
    assert_eq!(TaskError::MalformedDumpRecord.error_code(), "internal");
    assert!(!TaskError::MalformedDumpRecord.is_not_found());
}

#[test]
fn restoring_no_record_gives_the_empty_store() {
    let restored = TaskStore::load_dump(Vec::new()).unwrap();
    assert!(restored.list_tasks(None, None, None).is_empty());
    assert!(restored.dump().is_empty());
}

#[test]
fn error_messages_write_the_identifier_in_decimal() {
    assert_eq!(TaskError::UnexistingTask(0).message(), "Task `0` not found.");
    assert_eq!(TaskError::UnexistingTask(10).message(), "Task `10` not found.");
    assert_eq!(TaskError::UnexistingTask(4_294_967_295).message(), "Task `4294967295` not found.");
    assert_eq!(task_store::error::to_decimal(1_002_003), "1002003");
}
