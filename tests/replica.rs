use taskchampion::error::ErrorKind;
use taskchampion::operation::Operation;
use taskchampion::operations::Operations;
use taskchampion::replica::Replica;
use taskchampion::status::Status;
use taskchampion::thread_guard::ThreadToken;
use taskchampion::timestamp::Timestamp;
use taskchampion::uuid::uuid2tc;
use taskchampion::working_set::WorkingSet;

const A: &str = "aaaaaaaa-0000-0000-0000-000000000001";
const B: &str = "bbbbbbbb-0000-0000-0000-000000000002";
const C: &str = "cccccccc-0000-0000-0000-000000000003";
const T1: ThreadToken = ThreadToken { id: 1 };
const T2: ThreadToken = ThreadToken { id: 2 };
const NOW: Timestamp = Timestamp { seconds: 1_700_000_000 };

#[test]
fn commit_applies_handle_mutations_in_order() {
    let mut replica = Replica::new_in_memory(T1);
    let mut log = Operations::new(T1);
    let mut task = replica.create_task(A, &mut log, T1).unwrap();
    task.set_description("first", NOW, &mut log, T1).unwrap();
    task.set_description("second", NOW, &mut log, T1).unwrap();
    task.set_priority("M", NOW, &mut log, T1).unwrap();
    assert!(replica.task(A, T1).unwrap().is_none());
    replica.commit_operations(&log, T1).unwrap();
    let stored = replica.task(A, T1).unwrap().unwrap();
    assert_eq!(stored.description(T1).unwrap(), "second");
    assert_eq!(stored.priority(T1).unwrap(), "M");
    assert_eq!(replica.task_uuids(T1).unwrap(), vec![A.to_string()]);
    assert_eq!(replica.num_local_operations(T1).unwrap(), 4);
    assert_eq!(log.len(T1).unwrap(), 4);
}

#[test]
fn failed_commit_applies_nothing() {
    let mut replica = Replica::new_in_memory(T1);
    let mut log = Operations::new(T1);
    log.push(&Operation::create(A).unwrap(), T1).unwrap();
    log.push(
        &Operation::update(B, "description".to_string(), NOW, None, Some("x".to_string())).unwrap(),
        T1,
    )
    .unwrap();
    let err = replica.commit_operations(&log, T1).err().unwrap();
    assert_eq!(err.kind, ErrorKind::Storage);
    assert!(replica.task(A, T1).unwrap().is_none());
    assert_eq!(replica.num_local_operations(T1).unwrap(), 0);
}

#[test]
fn committing_the_same_log_twice_fails_the_second_time() {
    let mut replica = Replica::new_in_memory(T1);
    let mut log = Operations::new(T1);
    let mut task = replica.create_task(A, &mut log, T1).unwrap();
    task.set_description("d", NOW, &mut log, T1).unwrap();
    replica.commit_operations(&log, T1).unwrap();
    assert_eq!(replica.commit_operations(&log, T1).err().unwrap().kind, ErrorKind::Storage);
    log.clear(T1).unwrap();
    let mut stored = replica.task(A, T1).unwrap().unwrap();
    stored.set_description("e", NOW, &mut log, T1).unwrap();
    replica.commit_operations(&log, T1).unwrap();
    assert_eq!(replica.task(A, T1).unwrap().unwrap().description(T1).unwrap(), "e");
}

#[test]
fn creating_an_existing_task_fails() {
    let mut replica = Replica::new_in_memory(T1);
    let mut log = Operations::new(T1);
    replica.create_task(A, &mut log, T1).unwrap();
    replica.commit_operations(&log, T1).unwrap();
    let mut log2 = Operations::new(T1);
    let err = replica.create_task(A, &mut log2, T1).err().unwrap();
    assert_eq!(err.kind, ErrorKind::Generic);
    assert_eq!(err.message, "TaskChampion error: Task already exists");
    assert_eq!(log2.len(T1).unwrap(), 0);
    assert_eq!(replica.create_task("nope", &mut log2, T1).err().unwrap().kind, ErrorKind::Validation);
}

#[test]
fn replica_refuses_another_thread() {
    let mut replica = Replica::new_in_memory(T1);
    let mut log = Operations::new(T1);
    assert_eq!(replica.create_task(A, &mut log, T2).err().unwrap().kind, ErrorKind::Thread);
    assert_eq!(replica.commit_operations(&log, T2).err().unwrap().kind, ErrorKind::Thread);
    assert_eq!(replica.tasks(T2).err().unwrap().kind, ErrorKind::Thread);
    assert_eq!(replica.tasks(T1).unwrap().len(), 0);
}

#[test]
fn pending_tasks_join_the_working_set() {
    let mut replica = Replica::new_in_memory(T1);
    let mut log = Operations::new(T1);
    let mut a = replica.create_task(A, &mut log, T1).unwrap();
    a.set_status(Status::Pending, NOW, &mut log, T1).unwrap();
    let mut b = replica.create_task(B, &mut log, T1).unwrap();
    b.set_status(Status::Pending, NOW, &mut log, T1).unwrap();
    log.push(&Operation::undo_point(), T1).unwrap();
    replica.commit_operations(&log, T1).unwrap();
    assert_eq!(replica.num_undo_points(T1).unwrap(), 1);
    assert_eq!(replica.num_local_operations(T1).unwrap(), 4);
    let ws = replica.working_set(T1).unwrap();
    assert_eq!(ws.largest_index(T1).unwrap(), 2);
    assert_eq!(ws.by_index(1, T1).unwrap(), Some(A.to_string()));
    assert_eq!(ws.by_uuid(B, T1).unwrap(), Some(2));

    let mut log2 = Operations::new(T1);
    a.done(NOW, &mut log2, T1).unwrap();
    replica.commit_operations(&log2, T1).unwrap();
    replica.rebuild_working_set(false, T1).unwrap();
    let ws = replica.working_set(T1).unwrap();
    assert_eq!(ws.by_index(1, T1).unwrap(), None);
    assert_eq!(ws.by_uuid(B, T1).unwrap(), Some(2));
    replica.rebuild_working_set(true, T1).unwrap();
    let ws = replica.working_set(T1).unwrap();
    assert_eq!(ws.by_uuid(B, T1).unwrap(), Some(1));
    assert_eq!(ws.largest_index(T1).unwrap(), 1);
    assert_eq!(ws.inspect(T1).unwrap(), "#<Taskchampion::WorkingSet: largest_index=1>");
}

#[test]
fn working_set_lookups() {
    let slots = vec![Some(uuid2tc(A).unwrap()), Some(uuid2tc(B).unwrap())];
    let ws = WorkingSet::from_tc_working_set(slots, T1).unwrap();
    assert_eq!(ws.by_index(1, T1).unwrap(), Some(A.to_string()));
    assert_eq!(ws.by_uuid(A, T1).unwrap(), Some(1));
    assert_eq!(ws.by_index(2, T1).unwrap(), Some(B.to_string()));
    assert_eq!(ws.by_index(99, T1).unwrap(), None);
    assert_eq!(ws.by_index(0, T1).unwrap(), None);
    assert_eq!(ws.by_uuid(C, T1).unwrap(), None);
    assert_eq!(ws.by_uuid("zzz", T1).err().unwrap().kind, ErrorKind::Validation);
    assert_eq!(ws.by_index(1, T2).err().unwrap().kind, ErrorKind::Thread);
}

#[test]
fn working_set_rejects_a_task_at_two_indices() {
    let slots = vec![Some(uuid2tc(A).unwrap()), None, Some(uuid2tc(A).unwrap())];
    assert_eq!(WorkingSet::from_tc_working_set(slots, T1).err().unwrap().kind, ErrorKind::Validation);
}

#[test]
fn dependency_map_from_storage() {
    let mut replica = Replica::new_in_memory(T1);
    let mut log = Operations::new(T1);
    let mut a = replica.create_task(A, &mut log, T1).unwrap();
    replica.create_task(B, &mut log, T1).unwrap();
    a.set_value(&format!("dep_{}", B), Some("x".to_string()), NOW, &mut log, T1).unwrap();
    replica.commit_operations(&log, T1).unwrap();
    let map = replica.dependency_map(false, T1).unwrap();
    assert_eq!(map.dependencies(A, T1).unwrap(), vec![B.to_string()]);
    assert_eq!(map.dependents(B, T1).unwrap(), vec![A.to_string()]);
    assert!(map.has_dependency(A, T1).unwrap());
    assert!(!map.has_dependency(B, T1).unwrap());
    assert!(a.blocked(&map, T1).unwrap());
    assert!(!a.blocking(&map, T1).unwrap());
    let b = replica.task(B, T1).unwrap().unwrap();
    assert!(b.blocking(&map, T1).unwrap());
    assert!(!b.blocked(&map, T1).unwrap());
    assert_eq!(map.dependencies("bad", T1).err().unwrap().kind, ErrorKind::Validation);
}

#[test]
fn expiry_removes_old_deleted_tasks() {
    let mut replica = Replica::new_in_memory(T1);
    let mut log = Operations::new(T1);
    let mut a = replica.create_task(A, &mut log, T1).unwrap();
    a.set_status(Status::Deleted, NOW, &mut log, T1).unwrap();
    a.set_value("modified", Some("1000".to_string()), NOW, &mut log, T1).unwrap();
    let mut b = replica.create_task(B, &mut log, T1).unwrap();
    b.set_status(Status::Deleted, NOW, &mut log, T1).unwrap();
    b.set_value("modified", Some("1699999000".to_string()), NOW, &mut log, T1).unwrap();
    replica.commit_operations(&log, T1).unwrap();
    let before = replica.num_local_operations(T1).unwrap();
    replica.expire_tasks(NOW, T1).unwrap();
    assert!(replica.task(A, T1).unwrap().is_none());
    assert!(replica.task(B, T1).unwrap().is_some());
    assert_eq!(replica.num_local_operations(T1).unwrap(), before + 1);
    assert!(replica.task_data(B, T1).unwrap().is_some());
}
