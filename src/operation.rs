use vstd::prelude::*;
use crate::error::{Error, ErrorKind};
use crate::task_map::TaskMap;
use crate::timestamp::Timestamp;
use crate::uuid::{Uuid, uuid2tc, uuid_text, canonical_uuid};

verus! {

/// What an operation record says, over plain mathematical values.
pub enum OpView {
    Create { uuid: Seq<char> },
    Delete { uuid: Seq<char>, old_task: Map<Seq<char>, Seq<char>> },
    Update {
        uuid: Seq<char>,
        property: Seq<char>,
        timestamp: Timestamp,
        old_value: Option<Seq<char>>,
        value: Option<Seq<char>>,
    },
    UndoPoint,
}

pub open spec fn opt_view(o: Option<String>) -> Option<Seq<char>> {
    match o {
        Some(s) => Some(s@),
        None => None,
    }
}

/// One recorded change to the task database.
pub enum Operation {
    /// A task came into being.
    Create { uuid: Uuid },
    /// A task was removed; `old_task` is what it held just before.
    Delete { uuid: Uuid, old_task: TaskMap },
    /// One property of a task changed from `old_value` to `value`.
    Update {
        uuid: Uuid,
        property: String,
        timestamp: Timestamp,
        old_value: Option<String>,
        value: Option<String>,
    },
    /// A boundary for undo.
    UndoPoint,
}

/// The name of a record's variant.
pub open spec fn variant_name(op: OpView) -> Seq<char> {
    match op {
        OpView::Create { .. } => "Create"@,
        OpView::Delete { .. } => "Delete"@,
        OpView::Update { .. } => "Update"@,
        OpView::UndoPoint => "UndoPoint"@,
    }
}

/// The message of an accessor called on a variant that lacks its field.
pub open spec fn misuse_message(accessor: Seq<char>, variant: Seq<char>) -> Seq<char> {
    accessor + " is not available on "@ + variant + " operations"@
}

fn misuse(accessor: &str, op: &Operation) -> (r: Error)
    ensures
        r.kind == ErrorKind::Validation,
        r.message@ == misuse_message(accessor@, variant_name(op.view())),
{
    let mut msg = String::from_str(accessor);
    msg.append(" is not available on ");
    let variant = match op {
        Operation::Create { .. } => "Create",
        Operation::Delete { .. } => "Delete",
        Operation::Update { .. } => "Update",
        Operation::UndoPoint => "UndoPoint",
    };
    msg.append(variant);
    msg.append(" operations");
    Error { kind: ErrorKind::Validation, message: msg }
}

impl Operation {
    pub open spec fn view(&self) -> OpView {
        match self {
            Operation::Create { uuid } => OpView::Create { uuid: uuid.view() },
            Operation::Delete { uuid, old_task } => OpView::Delete { uuid: uuid.view(), old_task: old_task.view() },
            Operation::Update { uuid, property, timestamp, old_value, value } => OpView::Update {
                uuid: uuid.view(),
                property: property@,
                timestamp: *timestamp,
                old_value: opt_view(*old_value),
                value: opt_view(*value),
            },
            Operation::UndoPoint => OpView::UndoPoint,
        }
    }

    pub open spec fn wf(&self) -> bool {
        match self {
            Operation::Create { uuid } => uuid.wf(),
            Operation::Delete { uuid, old_task } => uuid.wf() && old_task.wf(),
            Operation::Update { uuid, .. } => uuid.wf(),
            Operation::UndoPoint => true,
        }
    }

    pub fn create(uuid: &str) -> (r: Result<Operation, Error>)
        ensures
            r is Ok <==> uuid_text(uuid@),
            r is Ok ==> r->Ok_0.wf() && r->Ok_0.view() == (OpView::Create { uuid: canonical_uuid(uuid@) }),
            r is Err ==> r->Err_0.kind == ErrorKind::Validation,
    {
        let id = uuid2tc(uuid)?;
        Ok(Operation::Create { uuid: id })
    }

    pub fn delete(uuid: &str, old_task: TaskMap) -> (r: Result<Operation, Error>)
        requires
            old_task.wf(),
        ensures
            r is Ok <==> uuid_text(uuid@),
            r is Ok ==> r->Ok_0.wf() && r->Ok_0.view() == (OpView::Delete {
                uuid: canonical_uuid(uuid@),
                old_task: old_task.view(),
            }),
            r is Err ==> r->Err_0.kind == ErrorKind::Validation,
    {
        let id = uuid2tc(uuid)?;
        Ok(Operation::Delete { uuid: id, old_task })
    }

    pub fn update(
        uuid: &str,
        property: String,
        timestamp: Timestamp,
        old_value: Option<String>,
        value: Option<String>,
    ) -> (r: Result<Operation, Error>)
        ensures
            r is Ok <==> uuid_text(uuid@),
            r is Ok ==> r->Ok_0.wf() && r->Ok_0.view() == (OpView::Update {
                uuid: canonical_uuid(uuid@),
                property: property@,
                timestamp,
                old_value: opt_view(old_value),
                value: opt_view(value),
            }),
            r is Err ==> r->Err_0.kind == ErrorKind::Validation,
    {
        let id = uuid2tc(uuid)?;
        Ok(Operation::Update { uuid: id, property, timestamp, old_value, value })
    }

    pub fn undo_point() -> (r: Operation)
        ensures
            r.wf(),
            r.view() == OpView::UndoPoint,
    {
        Operation::UndoPoint
    }

    pub fn create_op(&self) -> (r: bool)
        ensures
            r == self.view() is Create,
    {
        matches!(self, Operation::Create { .. })
    }

    pub fn delete_op(&self) -> (r: bool)
        ensures
            r == self.view() is Delete,
    {
        matches!(self, Operation::Delete { .. })
    }

    pub fn update_op(&self) -> (r: bool)
        ensures
            r == self.view() is Update,
    {
        matches!(self, Operation::Update { .. })
    }

    pub fn undo_point_op(&self) -> (r: bool)
        ensures
            r == self.view() is UndoPoint,
    {
        matches!(self, Operation::UndoPoint)
    }

    /// The name of the variant: `create`, `delete`, `update` or `undo_point`.
    pub fn operation_type(&self) -> (r: &'static str)
        ensures
            r@ == match self.view() {
                OpView::Create { .. } => "create"@,
                OpView::Delete { .. } => "delete"@,
                OpView::Update { .. } => "update"@,
                OpView::UndoPoint => "undo_point"@,
            },
    {
        match self {
            Operation::Create { .. } => "create",
            Operation::Delete { .. } => "delete",
            Operation::Update { .. } => "update",
            Operation::UndoPoint => "undo_point",
        }
    }

    /// The task the record is about; an undo point has none.
    pub fn uuid(&self) -> (r: Result<String, Error>)
        ensures
            r is Ok <==> !(self.view() is UndoPoint),
            r is Ok ==> r->Ok_0@ == match self.view() {
                OpView::Create { uuid } => uuid,
                OpView::Delete { uuid, .. } => uuid,
                OpView::Update { uuid, .. } => uuid,
                OpView::UndoPoint => Seq::empty(),
            },
            r is Err ==> r->Err_0.kind == ErrorKind::Validation,
            r is Err ==> r->Err_0.message@ == misuse_message("uuid"@, variant_name(self.view())),
    {
        match self {
            Operation::Create { uuid } => Ok(uuid.to_string()),
            Operation::Delete { uuid, .. } => Ok(uuid.to_string()),
            Operation::Update { uuid, .. } => Ok(uuid.to_string()),
            Operation::UndoPoint => Err(misuse("uuid", self)),
        }
    }

    /// The task as it was before a delete.
    pub fn old_task(&self) -> (r: Result<TaskMap, Error>)
        ensures
            r is Ok <==> self.view() is Delete,
            r is Ok ==> r->Ok_0.view() == self.view()->Delete_old_task,
            r is Ok && self.wf() ==> r->Ok_0.wf(),
            r is Err ==> r->Err_0.kind == ErrorKind::Validation,
            r is Err ==> r->Err_0.message@ == misuse_message("old_task"@, variant_name(self.view())),
    {
        match self {
            Operation::Delete { old_task, .. } => Ok(old_task.clone()),
            _ => Err(misuse("old_task", self)),
        }
    }

    pub fn property(&self) -> (r: Result<String, Error>)
        ensures
            r is Ok <==> self.view() is Update,
            r is Ok ==> r->Ok_0@ == self.view()->Update_property,
            r is Err ==> r->Err_0.kind == ErrorKind::Validation,
            r is Err ==> r->Err_0.message@ == misuse_message("property"@, variant_name(self.view())),
    {
        match self {
            Operation::Update { property, .. } => Ok(property.clone()),
            _ => Err(misuse("property", self)),
        }
    }

    pub fn timestamp(&self) -> (r: Result<Timestamp, Error>)
        ensures
            r is Ok <==> self.view() is Update,
            r is Ok ==> r->Ok_0 == self.view()->Update_timestamp,
            r is Err ==> r->Err_0.kind == ErrorKind::Validation,
            r is Err ==> r->Err_0.message@ == misuse_message("timestamp"@, variant_name(self.view())),
    {
        match self {
            Operation::Update { timestamp, .. } => Ok(*timestamp),
            _ => Err(misuse("timestamp", self)),
        }
    }

    pub fn old_value(&self) -> (r: Result<Option<String>, Error>)
        ensures
            r is Ok <==> self.view() is Update,
            r is Ok ==> opt_view(r->Ok_0) == self.view()->Update_old_value,
            r is Err ==> r->Err_0.kind == ErrorKind::Validation,
            r is Err ==> r->Err_0.message@ == misuse_message("old_value"@, variant_name(self.view())),
    {
        match self {
            Operation::Update { old_value, .. } => Ok(old_value.clone()),
            _ => Err(misuse("old_value", self)),
        }
    }

    pub fn value(&self) -> (r: Result<Option<String>, Error>)
        ensures
            r is Ok <==> self.view() is Update,
            r is Ok ==> opt_view(r->Ok_0) == self.view()->Update_value,
            r is Err ==> r->Err_0.kind == ErrorKind::Validation,
            r is Err ==> r->Err_0.message@ == misuse_message("value"@, variant_name(self.view())),
    {
        match self {
            Operation::Update { value, .. } => Ok(value.clone()),
            _ => Err(misuse("value", self)),
        }
    }
}

/// How an update's change of value reads in a description.
pub open spec fn change_text(old_value: Option<Seq<char>>, value: Option<Seq<char>>) -> Seq<char> {
    match (old_value, value) {
        (Some(o), Some(n)) => "from '"@ + o + "' to '"@ + n + "'"@,
        (Some(o), None) => "from '"@ + o + "' to nil"@,
        (None, Some(n)) => "to '"@ + n + "'"@,
        (None, None) => "to nil"@,
    }
}

/// A one-line description of a record for people.
pub open spec fn describe(op: OpView) -> Seq<char> {
    match op {
        OpView::Create { uuid } => "Create task "@ + uuid,
        OpView::Delete { uuid, .. } => "Delete task "@ + uuid,
        OpView::Update { uuid, property, old_value, value, .. } => "Update task "@ + uuid + " property '"@
            + property + "' "@ + change_text(old_value, value),
        OpView::UndoPoint => "Undo point"@,
    }
}

/// A debugging rendition of a record.
pub open spec fn inspect_text(op: OpView) -> Seq<char> {
    match op {
        OpView::Create { uuid } => "#<Taskchampion::Operation::Create uuid="@ + uuid + ">"@,
        OpView::Delete { uuid, .. } => "#<Taskchampion::Operation::Delete uuid="@ + uuid + ">"@,
        OpView::Update { uuid, property, .. } => "#<Taskchampion::Operation::Update uuid="@ + uuid
            + " property="@ + property + ">"@,
        OpView::UndoPoint => "#<Taskchampion::Operation::UndoPoint>"@,
    }
}

fn change_string(old_value: &Option<String>, value: &Option<String>) -> (r: String)
    ensures
        r@ == change_text(opt_view(*old_value), opt_view(*value)),
{
    match (old_value, value) {
        (Some(o), Some(n)) => {
            let mut t = String::from_str("from '");
            t.append(o.as_str());
            t.append("' to '");
            t.append(n.as_str());
            t.append("'");
            t
        },
        (Some(o), None) => {
            let mut t = String::from_str("from '");
            t.append(o.as_str());
            t.append("' to nil");
            t
        },
        (None, Some(n)) => {
            let mut t = String::from_str("to '");
            t.append(n.as_str());
            t.append("'");
            t
        },
        (None, None) => String::from_str("to nil"),
    }
}

impl Operation {
    pub fn to_s(&self) -> (r: String)
        ensures
            r@ == describe(self.view()),
    {
        match self {
            Operation::Create { uuid } => {
                let mut t = String::from_str("Create task ");
                t.append(uuid.as_str());
                t
            },
            Operation::Delete { uuid, .. } => {
                let mut t = String::from_str("Delete task ");
                t.append(uuid.as_str());
                t
            },
            Operation::Update { uuid, property, old_value, value, .. } => {
                let mut t = String::from_str("Update task ");
                t.append(uuid.as_str());
                t.append(" property '");
                t.append(property.as_str());
                t.append("' ");
                let change = change_string(old_value, value);
                t.append(change.as_str());
                t
            },
            Operation::UndoPoint => String::from_str("Undo point"),
        }
    }

    pub fn inspect(&self) -> (r: String)
        ensures
            r@ == inspect_text(self.view()),
    {
        match self {
            Operation::Create { uuid } => {
                let mut t = String::from_str("#<Taskchampion::Operation::Create uuid=");
                t.append(uuid.as_str());
                t.append(">");
                t
            },
            Operation::Delete { uuid, .. } => {
                let mut t = String::from_str("#<Taskchampion::Operation::Delete uuid=");
                t.append(uuid.as_str());
                t.append(">");
                t
            },
            Operation::Update { uuid, property, .. } => {
                let mut t = String::from_str("#<Taskchampion::Operation::Update uuid=");
                t.append(uuid.as_str());
                t.append(" property=");
                t.append(property.as_str());
                t.append(">");
                t
            },
            Operation::UndoPoint => String::from_str("#<Taskchampion::Operation::UndoPoint>"),
        }
    }
}

impl Clone for Operation {
    fn clone(&self) -> (r: Self)
        ensures
            r.view() == self.view(),
            self.wf() ==> r.wf(),
    {
        match self {
            Operation::Create { uuid } => Operation::Create { uuid: uuid.clone() },
            Operation::Delete { uuid, old_task } => Operation::Delete { uuid: uuid.clone(), old_task: old_task.clone() },
            Operation::Update { uuid, property, timestamp, old_value, value } => Operation::Update {
                uuid: uuid.clone(),
                property: property.clone(),
                timestamp: *timestamp,
                old_value: old_value.clone(),
                value: value.clone(),
            },
            Operation::UndoPoint => Operation::UndoPoint,
        }
    }
}

/// A property map after setting `key` to `value`, or removing it when `value` is `None`.
pub open spec fn apply_value(
    m: Map<Seq<char>, Seq<char>>,
    key: Seq<char>,
    value: Option<Seq<char>>,
) -> Map<Seq<char>, Seq<char>> {
    match value {
        Some(v) => m.insert(key, v),
        None => m.remove(key),
    }
}

/// The value of `key` in `m`, if it is set.
pub open spec fn lookup(m: Map<Seq<char>, Seq<char>>, key: Seq<char>) -> Option<Seq<char>> {
    if m.contains_key(key) {
        Some(m[key])
    } else {
        None
    }
}

/// The record of setting `key` to `value` on task `uuid` whose properties were `m`.
pub open spec fn update_record(
    uuid: Seq<char>,
    m: Map<Seq<char>, Seq<char>>,
    key: Seq<char>,
    value: Option<Seq<char>>,
    now: Timestamp,
) -> OpView {
    OpView::Update { uuid, property: key, timestamp: now, old_value: lookup(m, key), value }
}

fn same_option(a: &Option<String>, b: &Option<String>) -> (r: bool)
    ensures
        r == (opt_view(*a) == opt_view(*b)),
{
    match (a, b) {
        (Some(x), Some(y)) => *x == *y,
        (None, None) => true,
        _ => false,
    }
}

impl Operation {
    /// Two records are equal when they are of one variant with equal fields.
    pub fn eql(&self, other: &Operation) -> (r: bool)
        requires
            self.wf(),
            other.wf(),
        ensures
            r == (self.view() == other.view()),
    {
        match (self, other) {
            (Operation::Create { uuid: a }, Operation::Create { uuid: b }) => a.same(b),
            (Operation::Delete { uuid: a, old_task: m }, Operation::Delete { uuid: b, old_task: n }) => {
                a.same(b) && m.same_contents(n)
            },
            (
                Operation::Update { uuid: a, property: p, timestamp: t, old_value: o, value: v },
                Operation::Update { uuid: b, property: q, timestamp: u, old_value: o2, value: v2 },
            ) => a.same(b) && *p == *q && *t == *u && same_option(o, o2) && same_option(v, v2),
            (Operation::UndoPoint, Operation::UndoPoint) => true,
            _ => false,
        }
    }
}

} // verus!
