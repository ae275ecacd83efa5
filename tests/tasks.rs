use taskchampion::error::ErrorKind;
use taskchampion::operations::Operations;
use taskchampion::status::Status;
use taskchampion::tag::Tag;
use taskchampion::task::Task;
use taskchampion::task_data::TaskData;
use taskchampion::task_map::TaskMap;
use taskchampion::thread_guard::ThreadToken;
use taskchampion::timestamp::{SequenceClock, Timestamp};
use taskchampion::uuid::uuid2tc;

const U: &str = "aaaaaaaa-bbbb-cccc-dddd-eeeeeeeeeeee";
const D: &str = "11111111-2222-3333-4444-555555555555";
const T1: ThreadToken = ThreadToken { id: 7 };
const T2: ThreadToken = ThreadToken { id: 8 };
const NOW: Timestamp = Timestamp { seconds: 1_700_000_000 };

fn task_with_description(text: &str) -> Task {
    let mut m = TaskMap::new();
    m.set("description", Some(text.to_string()));
    Task::from_tc_task(uuid2tc(U).unwrap(), m, T1)
}

#[test]
fn empty_description_is_rejected_and_changes_nothing() {
    let mut task = task_with_description("keep me");
    let mut log = Operations::new(T1);
    let err = task.set_description("", NOW, &mut log, T1).err().unwrap();
    assert_eq!(err.kind, ErrorKind::Validation);
    assert_eq!(log.len(T1).unwrap(), 0);
    assert_eq!(task.description(T1).unwrap(), "keep me");
    let err = task.set_description(" \t ", NOW, &mut log, T1).err().unwrap();
    assert_eq!(err.kind, ErrorKind::Validation);
    assert_eq!(log.len(T1).unwrap(), 0);
}

#[test]
fn mutation_shows_on_the_handle_and_in_the_log() {
    let mut task = task_with_description("old");
    let mut log = Operations::new(T1);
    task.set_description("new", NOW, &mut log, T1).unwrap();
    assert_eq!(task.description(T1).unwrap(), "new");
    assert_eq!(log.len(T1).unwrap(), 1);
    let op = log.get(0, T1).unwrap().unwrap();
    assert_eq!(op.uuid().unwrap(), U);
    assert_eq!(op.property().unwrap(), "description");
    assert_eq!(op.old_value().unwrap(), Some("old".to_string()));
    assert_eq!(op.value().unwrap(), Some("new".to_string()));
    assert_eq!(op.timestamp().unwrap(), NOW);
}

#[test]
fn priority_status_and_done() {
    let mut task = task_with_description("x");
    let mut log = Operations::new(T1);
    assert_eq!(task.set_priority("  ", NOW, &mut log, T1).err().unwrap().kind, ErrorKind::Validation);
    task.set_priority("H", NOW, &mut log, T1).unwrap();
    assert_eq!(task.priority(T1).unwrap(), "H");
    assert_eq!(task.status(T1).unwrap(), Status::Pending);
    task.set_status(Status::Deleted, NOW, &mut log, T1).unwrap();
    assert!(task.deleted(T1).unwrap());
    task.done(NOW, &mut log, T1).unwrap();
    assert!(task.completed(T1).unwrap());
    assert_eq!(task.get_value("status", T1).unwrap(), Some("completed".to_string()));
    assert_eq!(log.len(T1).unwrap(), 3);
}

#[test]
fn tags_are_properties() {
    let mut task = task_with_description("x");
    let mut log = Operations::new(T1);
    let tag = Tag::new("home").unwrap();
    task.add_tag(&tag, NOW, &mut log, T1).unwrap();
    assert!(task.has_tag(&tag, T1).unwrap());
    assert_eq!(task.get_value("tag_home", T1).unwrap(), Some(String::new()));
    let tags = task.tags(T1).unwrap();
    assert_eq!(tags.len(), 1);
    assert_eq!(tags[0].to_s(), "home");
    task.remove_tag(&tag, NOW, &mut log, T1).unwrap();
    assert!(!task.has_tag(&tag, T1).unwrap());
    let synthetic = Tag::new("PENDING").unwrap();
    assert!(synthetic.synthetic());
    assert_eq!(task.add_tag(&synthetic, NOW, &mut log, T1).err().unwrap().kind, ErrorKind::Validation);
    assert_eq!(log.len(T1).unwrap(), 2);
}

#[test]
fn udas_use_namespace_and_key() {
    let mut task = task_with_description("x");
    let mut log = Operations::new(T1);
    task.set_uda("ns", "key", "v", NOW, &mut log, T1).unwrap();
    assert_eq!(task.get_uda("ns", "key", T1).unwrap(), Some("v".to_string()));
    assert_eq!(task.get_value("ns.key", T1).unwrap(), Some("v".to_string()));
    assert_eq!(task.set_uda("", "key", "v", NOW, &mut log, T1).err().unwrap().kind, ErrorKind::Validation);
    assert_eq!(task.delete_uda("ns", " ", NOW, &mut log, T1).err().unwrap().kind, ErrorKind::Validation);
    task.delete_uda("ns", "key", NOW, &mut log, T1).unwrap();
    assert_eq!(task.get_uda("ns", "key", T1).unwrap(), None);
    assert_eq!(log.len(T1).unwrap(), 2);
}

#[test]
fn times_are_stored_as_seconds() {
    let mut task = task_with_description("x");
    let mut log = Operations::new(T1);
    task.set_due(Some(Timestamp { seconds: 1_672_574_400 }), NOW, &mut log, T1).unwrap();
    assert_eq!(task.get_value("due", T1).unwrap(), Some("1672574400".to_string()));
    assert_eq!(task.due(T1).unwrap(), Some(Timestamp { seconds: 1_672_574_400 }));
    task.set_entry(Some(Timestamp { seconds: -5 }), NOW, &mut log, T1).unwrap();
    assert_eq!(task.get_value("entry", T1).unwrap(), Some("-5".to_string()));
    assert_eq!(task.entry(T1).unwrap(), Some(Timestamp { seconds: -5 }));
    task.set_due(None, NOW, &mut log, T1).unwrap();
    assert_eq!(task.due(T1).unwrap(), None);
    task.set_timestamp("until", Some(Timestamp { seconds: 42 }), NOW, &mut log, T1).unwrap();
    assert_eq!(task.get_timestamp("until", T1).unwrap(), Some(Timestamp { seconds: 42 }));
    task.set_value("until", Some("soon".to_string()), NOW, &mut log, T1).unwrap();
    assert_eq!(task.get_timestamp("until", T1).unwrap(), None);
    assert_eq!(task.get_timestamp("", T1).err().unwrap().kind, ErrorKind::Validation);
    task.set_value("wait", Some("1800000000".to_string()), NOW, &mut log, T1).unwrap();
    assert!(task.waiting(NOW, T1).unwrap());
    assert!(!task.waiting(Timestamp { seconds: 1_900_000_000 }, T1).unwrap());
    assert_eq!(task.get_timestamp("wait", T1).unwrap(), Some(Timestamp { seconds: 1_800_000_000 }));
    task.set_value("far", Some("9223372036854775807".to_string()), NOW, &mut log, T1).unwrap();
    assert_eq!(task.get_timestamp("far", T1).unwrap(), None);
}

#[test]
fn annotations_take_distinct_times_from_the_clock() {
    let mut task = task_with_description("x");
    let mut log = Operations::new(T1);
    let mut clock = SequenceClock::new();
    let first = clock.next(NOW).unwrap();
    let second = clock.next(NOW).unwrap();
    assert_eq!(first, NOW);
    assert_eq!(second, Timestamp { seconds: NOW.seconds + 1 });
    task.add_annotation("one", first, NOW, &mut log, T1).unwrap();
    task.add_annotation("two", second, NOW, &mut log, T1).unwrap();
    assert_eq!(task.add_annotation("", second, NOW, &mut log, T1).err().unwrap().kind, ErrorKind::Validation);
    let notes = task.annotations(T1).unwrap();
    assert_eq!(notes.len(), 2);
    assert_eq!(notes[0].entry, first);
    assert_eq!(notes[0].description, "one");
    assert_eq!(notes[1].description, "two");
    assert_eq!(task.get_value("annotation_1700000001", T1).unwrap(), Some("two".to_string()));
}

#[test]
fn dependencies_come_from_dep_properties() {
    let mut task = task_with_description("x");
    let mut log = Operations::new(T1);
    task.set_value(&format!("dep_{}", D.to_uppercase()), Some("x".to_string()), NOW, &mut log, T1).unwrap();
    task.set_value("dep_nonsense", Some("x".to_string()), NOW, &mut log, T1).unwrap();
    assert_eq!(task.dependencies(T1).unwrap(), vec![D.to_string()]);
    assert_eq!(task.set_value(" ", None, NOW, &mut log, T1).err().unwrap().kind, ErrorKind::Validation);
}

#[test]
fn task_refuses_another_thread_and_keeps_working_on_its_own() {
    let mut task = task_with_description("x");
    let mut log = Operations::new(T1);
    assert_eq!(task.uuid(T2).err().unwrap().kind, ErrorKind::Thread);
    assert_eq!(task.set_priority("H", NOW, &mut log, T2).err().unwrap().kind, ErrorKind::Thread);
    assert_eq!(log.len(T1).unwrap(), 0);
    assert_eq!(task.priority(T1).unwrap(), "");
    let mut foreign_log = Operations::new(T2);
    assert_eq!(task.set_priority("H", NOW, &mut foreign_log, T1).err().unwrap().kind, ErrorKind::Thread);
    assert_eq!(task.priority(T1).unwrap(), "");
    assert_eq!(task.uuid(T1).unwrap(), U);
    assert_eq!(task.inspect(T1).unwrap(), format!("#<Taskchampion::Task: {}>", U));
}

#[test]
fn task_data_create_update_delete() {
    let mut log = Operations::new(T1);
    let mut data = TaskData::create(U, &mut log, T1).unwrap();
    assert!(log.get(0, T1).unwrap().unwrap().create_op());
    data.update("description", Some("d".to_string()), NOW, &mut log, T1).unwrap();
    data.update("project", Some("p".to_string()), NOW, &mut log, T1).unwrap();
    assert!(data.has("project", T1).unwrap());
    assert_eq!(data.get("description", T1).unwrap(), Some("d".to_string()));
    assert_eq!(data.properties(T1).unwrap(), vec!["description".to_string(), "project".to_string()]);
    let hash = data.to_hash(T1).unwrap();
    assert_eq!(hash[1], ("project".to_string(), "p".to_string()));
    assert_eq!(data.update("", None, NOW, &mut log, T1).err().unwrap().kind, ErrorKind::Validation);
    data.delete(&mut log, T1).unwrap();
    assert_eq!(data.properties(T1).unwrap().len(), 0);
    let del = log.get(-1, T1).unwrap().unwrap();
    assert!(del.delete_op());
    assert_eq!(del.old_task().unwrap().get("project"), Some("p".to_string()));
    assert_eq!(TaskData::create("bad", &mut log, T1).err().unwrap().kind, ErrorKind::Validation);
    assert_eq!(log.len(T1).unwrap(), 4);
}

#[test]
fn writing_the_current_value_is_still_recorded() {
    let mut task = task_with_description("same");
    let mut log = Operations::new(T1);
    task.set_description("same", NOW, &mut log, T1).unwrap();
    assert_eq!(log.len(T1).unwrap(), 1);
    let op = log.get(0, T1).unwrap().unwrap();
    assert_eq!(op.old_value().unwrap(), Some("same".to_string()));
    assert_eq!(op.value().unwrap(), Some("same".to_string()));
}

#[test]
fn udas_are_listed_by_namespace_and_key() {
    let mut task = task_with_description("x");
    let mut log = Operations::new(T1);
    task.set_uda("jira", "id.main", "J-1", NOW, &mut log, T1).unwrap();
    task.set_value("plain", Some("p".to_string()), NOW, &mut log, T1).unwrap();
    let udas = task.udas(T1).unwrap();
    assert_eq!(udas, vec![("jira".to_string(), "id.main".to_string(), "J-1".to_string())]);
}

#[test]
fn an_annotation_time_in_use_is_rejected() {
    let mut task = task_with_description("x");
    let mut log = Operations::new(T1);
    task.add_annotation("one", NOW, NOW, &mut log, T1).unwrap();
    let err = task.add_annotation("two", NOW, NOW, &mut log, T1).err().unwrap();
    assert_eq!(err.kind, ErrorKind::Validation);
    assert_eq!(log.len(T1).unwrap(), 1);
    let notes = task.annotations(T1).unwrap();
    assert_eq!(notes.len(), 1);
    assert_eq!(notes[0].description, "one");
}

#[test]
fn deleted_uda_leaves_the_list() {
    let mut task = task_with_description("x");
    let mut log = Operations::new(T1);
    task.set_uda("ns", "k", "v", NOW, &mut log, T1).unwrap();
    assert_eq!(task.udas(T1).unwrap().len(), 1);
    task.delete_uda("ns", "k", NOW, &mut log, T1).unwrap();
    assert!(task.udas(T1).unwrap().is_empty());
}
