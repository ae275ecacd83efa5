use taskchampion::error::ErrorKind;
use taskchampion::operation::Operation;
use taskchampion::operations::Operations;
use taskchampion::task_map::TaskMap;
use taskchampion::thread_guard::ThreadToken;
use taskchampion::timestamp::Timestamp;

const U: &str = "12345678-1234-1234-1234-123456789abc";
const T1: ThreadToken = ThreadToken { id: 1 };
const T2: ThreadToken = ThreadToken { id: 2 };

fn update(property: &str, old: Option<&str>, new: Option<&str>) -> Operation {
    Operation::update(
        U,
        property.to_string(),
        Timestamp { seconds: 1_700_000_000 },
        old.map(|s| s.to_string()),
        new.map(|s| s.to_string()),
    )
    .unwrap()
}

#[test]
fn update_record_round_trips_its_fields() {
    let op = update("priority", Some("L"), Some("H"));
    assert_eq!(op.uuid().unwrap(), U);
    assert_eq!(op.property().unwrap(), "priority");
    assert_eq!(op.old_value().unwrap(), Some("L".to_string()));
    assert_eq!(op.value().unwrap(), Some("H".to_string()));
    assert_eq!(op.timestamp().unwrap(), Timestamp { seconds: 1_700_000_000 });
    assert!(op.update_op());
    assert_eq!(op.operation_type(), "update");
}

#[test]
fn property_of_create_is_a_validation_error() {
    let op = Operation::create(U).unwrap();
    let err = op.property().err().unwrap();
    assert_eq!(err.kind, ErrorKind::Validation);
    assert_eq!(op.timestamp().err().unwrap().kind, ErrorKind::Validation);
    assert_eq!(op.old_task().err().unwrap().kind, ErrorKind::Validation);
}

#[test]
fn undo_point_has_no_uuid() {
    let op = Operation::undo_point();
    assert_eq!(op.uuid().err().unwrap().kind, ErrorKind::Validation);
    assert!(op.undo_point_op());
    assert!(!op.create_op());
    assert_eq!(op.to_s(), "Undo point");
    assert_eq!(op.inspect(), "#<Taskchampion::Operation::UndoPoint>");
}

#[test]
fn create_rejects_a_malformed_uuid() {
    assert_eq!(Operation::create("not-a-uuid").err().unwrap().kind, ErrorKind::Validation);
}

#[test]
fn create_brings_uuid_to_lower_case() {
    let op = Operation::create("ABCDEF00-1234-1234-1234-123456789ABC").unwrap();
    assert_eq!(op.uuid().unwrap(), "abcdef00-1234-1234-1234-123456789abc");
}

#[test]
fn delete_keeps_the_old_task() {
    let mut m = TaskMap::new();
    m.set("description", Some("old".to_string()));
    let op = Operation::delete(U, m).unwrap();
    assert!(op.delete_op());
    let old = op.old_task().unwrap();
    assert_eq!(old.get("description"), Some("old".to_string()));
    assert_eq!(op.to_s(), format!("Delete task {}", U));
}

#[test]
fn update_descriptions() {
    assert_eq!(
        update("priority", Some("L"), Some("H")).to_s(),
        format!("Update task {} property 'priority' from 'L' to 'H'", U)
    );
    assert_eq!(
        update("priority", Some("L"), None).to_s(),
        format!("Update task {} property 'priority' from 'L' to nil", U)
    );
    assert_eq!(
        update("priority", None, Some("H")).to_s(),
        format!("Update task {} property 'priority' to 'H'", U)
    );
    assert_eq!(update("priority", None, None).to_s(), format!("Update task {} property 'priority' to nil", U));
    assert_eq!(
        update("priority", None, None).inspect(),
        format!("#<Taskchampion::Operation::Update uuid={} property=priority>", U)
    );
    assert_eq!(Operation::create(U).unwrap().to_s(), format!("Create task {}", U));
}

fn log_of_three() -> Operations {
    let mut log = Operations::new(T1);
    log.push(&Operation::create(U).unwrap(), T1).unwrap();
    log.push(&update("description", None, Some("x")), T1).unwrap();
    log.push(&Operation::undo_point(), T1).unwrap();
    log
}

#[test]
fn negative_index_counts_from_the_end() {
    let log = log_of_three();
    assert_eq!(log.len(T1).unwrap(), 3);
    let last = log.get(-1, T1).unwrap().unwrap();
    let third = log.get(2, T1).unwrap().unwrap();
    assert_eq!(last.to_s(), third.to_s());
    assert!(last.undo_point_op());
    assert_eq!(log.get(-3, T1).unwrap().unwrap().to_s(), log.get(0, T1).unwrap().unwrap().to_s());
    assert!(log.get(-4, T1).unwrap().is_none());
    assert!(log.get(3, T1).unwrap().is_none());
}

#[test]
fn log_push_len_clear() {
    let mut log = log_of_three();
    assert!(!log.empty(T1).unwrap());
    assert_eq!(log.inspect(T1).unwrap(), "#<Taskchampion::Operations: 3 operations>");
    let all = log.to_array(T1).unwrap();
    assert_eq!(all.len(), 3);
    assert!(all[0].create_op());
    log.clear(T1).unwrap();
    assert!(log.empty(T1).unwrap());
    assert_eq!(log.len(T1).unwrap(), 0);
}

#[test]
fn log_refuses_another_thread_and_still_serves_its_own() {
    let mut log = log_of_three();
    assert_eq!(log.len(T2).err().unwrap().kind, ErrorKind::Thread);
    assert_eq!(log.push(&Operation::undo_point(), T2).err().unwrap().kind, ErrorKind::Thread);
    assert_eq!(log.clear(T2).err().unwrap().kind, ErrorKind::Thread);
    assert_eq!(log.len(T1).unwrap(), 3);
}

#[test]
fn extend_appends_in_order() {
    let mut log = Operations::new(T1);
    log.extend_from_tc(vec![Operation::create(U).unwrap(), Operation::undo_point()], T1).unwrap();
    assert_eq!(log.len(T1).unwrap(), 2);
    assert!(log.get(0, T1).unwrap().unwrap().create_op());
    let again = Operations::from_tc_operations(vec![Operation::undo_point()], T1);
    assert_eq!(again.len(T1).unwrap(), 1);
}

#[test]
fn records_compare_by_variant_and_fields() {
    assert!(update("priority", Some("L"), Some("H")).eql(&update("priority", Some("L"), Some("H"))));
    assert!(!update("priority", Some("L"), Some("H")).eql(&update("priority", None, Some("H"))));
    assert!(!Operation::create(U).unwrap().eql(&Operation::undo_point()));
    assert!(Operation::undo_point().eql(&Operation::undo_point()));
    let mut m1 = TaskMap::new();
    m1.set("a", Some("1".to_string()));
    m1.set("b", Some("2".to_string()));
    let mut m2 = TaskMap::new();
    m2.set("b", Some("2".to_string()));
    m2.set("a", Some("1".to_string()));
    assert!(m1.same_contents(&m2));
    let d1 = Operation::delete(U, m1).unwrap();
    let d2 = Operation::delete(U, m2).unwrap();
    assert!(d1.eql(&d2));
    let mut m3 = TaskMap::new();
    m3.set("a", Some("1".to_string()));
    assert!(!d1.eql(&Operation::delete(U, m3).unwrap()));
}

#[test]
fn accessor_errors_name_the_accessor_and_the_variant() {
    let op = Operation::create(U).unwrap();
    assert_eq!(op.property().err().unwrap().message, "property is not available on Create operations");
    assert_eq!(
        Operation::undo_point().uuid().err().unwrap().message,
        "uuid is not available on UndoPoint operations"
    );
    assert_eq!(
        update("p", None, None).old_task().err().unwrap().message,
        "old_task is not available on Update operations"
    );
}
