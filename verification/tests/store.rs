use std::cell::RefCell;

use proptest::strategy::Strategy;
use proptest::test_runner::{Config, TestRunner};
use task_store::filter::{TaskFilter, TaskPredicate};
use task_store::store::Store;
use task_store::task::{Task, TaskContent, TaskEvent, TaskId, TaskResult, TaskStatus};

fn index_creation(id: TaskId, index: &str) -> Task {
    Task {
        id,
        content: TaskContent::IndexCreation {
            primary_key: None,
            index_uid: index.to_string(),
        },
        events: vec![TaskEvent::Created(1_000 + id as i128)],
    }
}

fn dump_task(id: TaskId) -> Task {
    Task {
        id,
        content: TaskContent::Dump { uid: "20220101-000000000".to_string() },
        events: vec![TaskEvent::Created(1_000 + id as i128)],
    }
}

fn finished(mut task: Task) -> Task {
    let at = task.events[0].timestamp();
    task.events.push(TaskEvent::Processing(at + 1));
    task.events.push(TaskEvent::Succeeded { result: TaskResult::Other, timestamp: at + 2 });
    task
}

fn store_of(tasks: Vec<Task>) -> Store {
    let mut store = Store::new();
    let mut txn = store.wtxn();
    for task in &tasks {
        store.put(&mut txn, task);
    }
    store.commit(txn);
    store
}

fn ids(tasks: &[Task]) -> Vec<TaskId> {
    tasks.iter().map(|t| t.id).collect()
}

#[test]
fn test_increment_task_id() {
    let store = RefCell::new(Store::new());

    let txn = store.borrow().wtxn();
    assert_eq!(store.borrow().next_task_id(&txn), 0);
    txn.abort();

    let gen_task = |id: TaskId| Task {
        id,
        content: TaskContent::IndexCreation {
            primary_key: None,
            index_uid: "test".to_string(),
        },
        events: Vec::new(),
    };

    let mut runner = TestRunner::new(Config::default());
    runner
        .run(&(0..100u32).prop_map(gen_task), |task| {
            let mut store = store.borrow_mut();
            let mut txn = store.wtxn();
            let previous_id = store.next_task_id(&txn);

            store.put(&mut txn, &task);

            let next_id = store.next_task_id(&txn);

            // if we put a task whose task_id is less than the next_id, then the next_id remains
            // unchanged, otherwise it becomes task.id + 1
            if task.id < previous_id {
                assert_eq!(next_id, previous_id)
            } else {
                assert_eq!(next_id, task.id + 1);
            }

            store.commit(txn);

            Ok(())
        })
        .unwrap();
}

#[test]
fn put_keeps_tasks_in_identifier_order() {
    let store = store_of(
        [5u32, 1, 3, 1, 9, 0].iter().map(|id| index_creation(*id, "test")).collect(),
    );
    assert_eq!(ids(store.tasks()), vec![0, 1, 3, 5, 9]);
    assert_eq!(store.len(), 5);
    assert_eq!(store.next_task_id(&store.wtxn()), 10);
    assert_eq!(store.get(3), Some(index_creation(3, "test")));
    assert_eq!(store.get(4), None);
}

#[test]
fn overwrite_replaces_the_task_and_keeps_the_next_identifier() {
    let mut store = store_of(vec![index_creation(0, "a"), index_creation(1, "a")]);
    let before = store.next_task_id(&store.wtxn());
    let mut txn = store.wtxn();
    store.put(&mut txn, &finished(index_creation(0, "a")));
    store.commit(txn);
    assert_eq!(store.next_task_id(&store.wtxn()), before);
    assert_eq!(store.len(), 2);
    assert_eq!(store.get(0).unwrap().status(), TaskStatus::Succeeded);
    assert_eq!(store.get(1), Some(index_creation(1, "a")));
}

#[test]
fn an_aborted_transaction_leaves_the_log_as_it_was() {
    let store = store_of(vec![index_creation(0, "a")]);
    let mut txn = store.wtxn();
    store.put(&mut txn, &index_creation(7, "a"));
    assert_eq!(txn.len(), 1);
    assert_eq!(store.next_task_id(&txn), 8);
    txn.abort();
    assert_eq!(store.len(), 1);
    assert_eq!(store.next_task_id(&store.wtxn()), 1);
    assert_eq!(store.get(7), None);
}

#[test]
fn a_transaction_sees_its_own_writes_when_it_allocates() {
    let store = store_of(vec![index_creation(4, "a")]);
    let mut txn = store.wtxn();
    assert_eq!(store.next_task_id(&txn), 5);
    store.put(&mut txn, &index_creation(2, "a"));
    assert_eq!(store.next_task_id(&txn), 5);
    store.put(&mut txn, &index_creation(5, "a"));
    assert_eq!(store.next_task_id(&txn), 6);
    store.put(&mut txn, &index_creation(41, "a"));
    assert_eq!(store.next_task_id(&txn), 42);
    assert!(store.can_allocate(&txn));
    store.put(&mut txn, &index_creation(u32::MAX, "a"));
    assert!(!store.can_allocate(&txn));
}

#[test]
fn list_tasks_is_most_recent_first_and_cut_at_the_limit() {
    let store = store_of((0..10).map(|id| index_creation(id, "test")).collect());
    assert_eq!(ids(&store.list_tasks(None, None, None)), vec![9, 8, 7, 6, 5, 4, 3, 2, 1, 0]);
    assert_eq!(ids(&store.list_tasks(None, None, Some(3))), vec![9, 8, 7]);
    assert_eq!(ids(&store.list_tasks(Some(4), None, Some(2))), vec![4, 3]);
    assert_eq!(ids(&store.list_tasks(Some(4), None, None)), vec![4, 3, 2, 1, 0]);
    assert_eq!(ids(&store.list_tasks(Some(100), None, Some(1))), vec![9]);
    assert_eq!(ids(&store.list_tasks(Some(u32::MAX), None, Some(1))), vec![9]);
    assert_eq!(ids(&store.list_tasks(None, None, Some(0))), Vec::<TaskId>::new());
    assert_eq!(ids(&store.list_tasks(None, None, Some(100))).len(), 10);
}

#[test]
fn list_tasks_starts_at_the_most_recent_task_at_or_before_the_offset() {
    let store = store_of(vec![
        index_creation(2, "a"),
        index_creation(5, "a"),
        index_creation(9, "a"),
    ]);
    assert_eq!(ids(&store.list_tasks(Some(7), None, None)), vec![5, 2]);
    assert_eq!(ids(&store.list_tasks(Some(1), None, None)), Vec::<TaskId>::new());
    assert_eq!(ids(&store.list_tasks(Some(0), None, None)), Vec::<TaskId>::new());
}

#[test]
fn list_tasks_applies_the_filter_before_the_limit() {
    let store = store_of(vec![
        index_creation(0, "a"),
        index_creation(1, "b"),
        finished(index_creation(2, "a")),
        dump_task(3),
        index_creation(4, "b"),
        index_creation(5, "a"),
    ]);
    let on_a = || {
        let mut filter = TaskFilter::default();
        filter.filter_index("a".to_string());
        filter
    };
    assert_eq!(ids(&store.list_tasks(None, Some(on_a()), None)), vec![5, 2, 0]);
    assert_eq!(ids(&store.list_tasks(None, Some(on_a()), Some(2))), vec![5, 2]);
    assert_eq!(ids(&store.list_tasks(Some(4), Some(on_a()), Some(2))), vec![2, 0]);

    let mut enqueued_on_a = on_a();
    enqueued_on_a.filter_fn(TaskPredicate::StatusIn(vec![TaskStatus::Enqueued]));
    assert_eq!(ids(&store.list_tasks(None, Some(enqueued_on_a), None)), vec![5, 0]);

    // A filter lets through only tasks that target an index; no filter lets all through.
    assert_eq!(ids(&store.list_tasks(None, Some(TaskFilter::default()), None)), vec![5, 4, 2, 1, 0]);
    assert_eq!(ids(&store.list_tasks(None, None, None)), vec![5, 4, 3, 2, 1, 0]);
}

#[test]
fn list_tasks_on_the_empty_log_is_empty() {
    let store = Store::new();
    assert!(store.list_tasks(None, None, None).is_empty());
    assert!(store.list_tasks(Some(3), Some(TaskFilter::default()), Some(2)).is_empty());
    assert!(store.fetch_unfinished_tasks(None).is_empty());
    assert_eq!(store.get(0), None);
}

#[test]
fn fetch_unfinished_tasks_is_oldest_first_from_the_offset() {
    let failed = |id: TaskId| {
        let mut task = index_creation(id, "a");
        task.events.push(TaskEvent::Processing(2_000));
        task.events.push(TaskEvent::Failed {
            error: task_store::task::TaskFailure {
                message: "Index `a` already exists.".to_string(),
                code: "index_already_exists".to_string(),
                kind: "invalid_request".to_string(),
                link: "https://docs.meilisearch.com/errors#index_already_exists".to_string(),
            },
            timestamp: 3_000,
        });
        task
    };
    let processing = |id: TaskId| {
        let mut task = index_creation(id, "a");
        task.events.push(TaskEvent::Processing(2_000));
        task
    };
    let store = store_of(vec![
        finished(index_creation(0, "a")),
        index_creation(1, "a"),
        failed(2),
        processing(3),
        dump_task(6),
        finished(dump_task(7)),
    ]);
    assert_eq!(ids(&store.fetch_unfinished_tasks(None)), vec![1, 3, 6]);
    assert_eq!(ids(&store.fetch_unfinished_tasks(Some(0))), vec![1, 3, 6]);
    assert_eq!(ids(&store.fetch_unfinished_tasks(Some(2))), vec![3, 6]);
    assert_eq!(ids(&store.fetch_unfinished_tasks(Some(3))), vec![3, 6]);
    assert_eq!(ids(&store.fetch_unfinished_tasks(Some(7))), Vec::<TaskId>::new());
    assert_eq!(store.get(2).unwrap().status(), TaskStatus::Failed);
    assert_eq!(store.get(3).unwrap().status(), TaskStatus::Processing);
}
