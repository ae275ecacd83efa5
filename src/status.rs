use vstd::prelude::*;
use crate::error::{Error, ErrorKind};
use crate::text::str_eq;

verus! {

/// The state of a task in its life cycle.
#[derive(PartialEq, Eq, Structural, Clone, Copy, Debug, Hash)]
pub enum Status {
    Pending,
    Completed,
    Deleted,
    Recurring,
    Unknown,
}

/// The name of a status, as symbols and strings spell it.
pub open spec fn status_name(s: Status) -> Seq<char> {
    match s {
        Status::Pending => "pending"@,
        Status::Completed => "completed"@,
        Status::Deleted => "deleted"@,
        Status::Recurring => "recurring"@,
        Status::Unknown => "unknown"@,
    }
}

/// The value a task's `status` property holds for a status.
pub open spec fn status_value(s: Status) -> Seq<char> {
    match s {
        Status::Unknown => "unknown status"@,
        _ => status_name(s),
    }
}

/// The status that a `status` property value stands for.
pub open spec fn status_of_value(v: Seq<char>) -> Status {
    if v == "pending"@ {
        Status::Pending
    } else if v == "completed"@ {
        Status::Completed
    } else if v == "deleted"@ {
        Status::Deleted
    } else if v == "recurring"@ {
        Status::Recurring
    } else {
        Status::Unknown
    }
}

impl Status {
    pub fn pending() -> (r: Status)
        ensures
            r == Status::Pending,
    {
        Status::Pending
    }

    pub fn completed() -> (r: Status)
        ensures
            r == Status::Completed,
    {
        Status::Completed
    }

    pub fn deleted() -> (r: Status)
        ensures
            r == Status::Deleted,
    {
        Status::Deleted
    }

    pub fn recurring() -> (r: Status)
        ensures
            r == Status::Recurring,
    {
        Status::Recurring
    }

    pub fn unknown() -> (r: Status)
        ensures
            r == Status::Unknown,
    {
        Status::Unknown
    }

    pub fn is_pending(&self) -> (r: bool)
        ensures
            r == (*self == Status::Pending),
    {
        *self == Status::Pending
    }

    pub fn is_completed(&self) -> (r: bool)
        ensures
            r == (*self == Status::Completed),
    {
        *self == Status::Completed
    }

    pub fn is_deleted(&self) -> (r: bool)
        ensures
            r == (*self == Status::Deleted),
    {
        *self == Status::Deleted
    }

    pub fn is_recurring(&self) -> (r: bool)
        ensures
            r == (*self == Status::Recurring),
    {
        *self == Status::Recurring
    }

    pub fn is_unknown(&self) -> (r: bool)
        ensures
            r == (*self == Status::Unknown),
    {
        *self == Status::Unknown
    }

    pub fn to_s(&self) -> (r: &'static str)
        ensures
            r@ == status_name(*self),
    {
        match self {
            Status::Pending => "pending",
            Status::Completed => "completed",
            Status::Deleted => "deleted",
            Status::Recurring => "recurring",
            Status::Unknown => "unknown",
        }
    }

    /// The symbol name of the status; the same as `to_s`.
    pub fn to_symbol(&self) -> (r: &'static str)
        ensures
            r@ == status_name(*self),
    {
        self.to_s()
    }

    pub fn inspect(&self) -> (r: String)
        ensures
            r@ == "#<Taskchampion::Status:"@ + status_name(*self) + ">"@,
    {
        let mut t = String::from_str("#<Taskchampion::Status:");
        t.append(self.to_s());
        t.append(">");
        t
    }

    pub fn eq(&self, other: &Status) -> (r: bool)
        ensures
            r == (*self == *other),
    {
        *self == *other
    }

    pub fn eql(&self, other: &Status) -> (r: bool)
        ensures
            r == (*self == *other),
    {
        *self == *other
    }

    /// The status a symbol names; any other name is rejected.
    pub fn from_symbol(sym: &str) -> (r: Result<Status, Error>)
        ensures
            r is Ok <==> exists|s: Status| status_name(s) == sym@,
            r is Ok ==> status_name(r->Ok_0) == sym@,
            r is Err ==> r->Err_0.kind == ErrorKind::Validation,
    {
        if str_eq(sym, "pending") {
            assert(status_name(Status::Pending) == sym@);
            Ok(Status::Pending)
        } else if str_eq(sym, "completed") {
            assert(status_name(Status::Completed) == sym@);
            Ok(Status::Completed)
        } else if str_eq(sym, "deleted") {
            assert(status_name(Status::Deleted) == sym@);
            Ok(Status::Deleted)
        } else if str_eq(sym, "recurring") {
            assert(status_name(Status::Recurring) == sym@);
            Ok(Status::Recurring)
        } else if str_eq(sym, "unknown") {
            assert(status_name(Status::Unknown) == sym@);
            Ok(Status::Unknown)
        } else {
            let mut msg = String::from_str("Invalid status: :");
            msg.append(sym);
            msg.append(" - Expected one of: :pending, :completed, :deleted, :recurring, :unknown");
            assert forall|s: Status| status_name(s) != sym@ by {
                match s {
                    Status::Pending => {},
                    Status::Completed => {},
                    Status::Deleted => {},
                    Status::Recurring => {},
                    Status::Unknown => {},
                }
            }
            Err(Error { kind: ErrorKind::Validation, message: msg })
        }
    }

    /// The text stored in a task's `status` property for this status.
    pub fn to_taskmap(&self) -> (r: &'static str)
        ensures
            r@ == status_value(*self),
    {
        match self {
            Status::Unknown => "unknown status",
            _ => self.to_s(),
        }
    }

    /// The status a `status` property value stands for.
    pub fn from_taskmap(value: &str) -> (r: Status)
        ensures
            r == status_of_value(value@),
    {
        if str_eq(value, "pending") {
            Status::Pending
        } else if str_eq(value, "completed") {
            Status::Completed
        } else if str_eq(value, "deleted") {
            Status::Deleted
        } else if str_eq(value, "recurring") {
            Status::Recurring
        } else {
            Status::Unknown
        }
    }
}

} // verus!
