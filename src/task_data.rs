use vstd::prelude::*;
use crate::error::{Error, ErrorKind, validation_error};
use crate::operation::{Operation, OpView, apply_value, lookup, opt_view, update_record};
use crate::operations::Operations;
use crate::task::{TaskState, record_update};
use crate::task_map::{TaskMap, names_after};
use crate::text::{blank, is_blank};
use crate::thread_guard::{ThreadBound, ThreadToken};
use crate::timestamp::Timestamp;
use crate::uuid::{Uuid, uuid2tc, uuid_text, canonical_uuid};

verus! {

/// A low-level handle on one task's properties, confined to the thread that
/// obtained it. Changes are recorded in a log as with `Task`.
pub struct TaskData {
    inner: ThreadBound<TaskState>,
}

impl TaskData {
    pub closed spec fn uuid_view(&self) -> Seq<char> {
        self.inner.value().uuid.view()
    }

    pub closed spec fn props(&self) -> Map<Seq<char>, Seq<char>> {
        self.inner.value().data.view()
    }

    pub closed spec fn names(&self) -> Seq<Seq<char>> {
        self.inner.value().data.names()
    }

    pub closed spec fn owner(&self) -> ThreadToken {
        self.inner.owner()
    }

    pub closed spec fn wf(&self) -> bool {
        self.inner.value().wf()
    }

    pub fn from_tc_task_data(uuid: Uuid, data: TaskMap, thread: ThreadToken) -> (r: TaskData)
        requires
            uuid.wf(),
            data.wf(),
        ensures
            r.wf(),
            r.uuid_view() == uuid.view(),
            r.props() == data.view(),
            r.owner() == thread,
    {
        TaskData { inner: ThreadBound::new(TaskState { uuid, data }, thread) }
    }

    /// A new task without properties; its creation is recorded in the log.
    pub fn create(uuid: &str, ops: &mut Operations, thread: ThreadToken) -> (r: Result<TaskData, Error>)
        requires
            old(ops).wf(),
        ensures
            final(ops).wf(),
            final(ops).owner() == old(ops).owner(),
            r is Ok <==> uuid_text(uuid@) && thread == old(ops).owner(),
            r is Ok ==> r->Ok_0.wf() && r->Ok_0.uuid_view() == canonical_uuid(uuid@) && r->Ok_0.props()
                == Map::<Seq<char>, Seq<char>>::empty() && r->Ok_0.owner() == thread
                && final(ops).view() == old(ops).view().push(OpView::Create { uuid: canonical_uuid(uuid@) }),
            r is Err ==> final(ops).view() == old(ops).view(),
            r is Err && !uuid_text(uuid@) ==> r->Err_0.kind == ErrorKind::Validation,
            r is Err && uuid_text(uuid@) ==> r->Err_0.kind == ErrorKind::Thread,
    {
        let id = uuid2tc(uuid)?;
        ops.append(Operation::Create { uuid: id.clone() }, thread)?;
        Ok(TaskData::from_tc_task_data(id, TaskMap::new(), thread))
    }

    pub fn uuid(&self, thread: ThreadToken) -> (r: Result<String, Error>)
        ensures
            r is Ok <==> thread == self.owner(),
            r is Ok ==> r->Ok_0@ == self.uuid_view(),
            r is Err ==> r->Err_0.kind == ErrorKind::Thread,
    {
        let state = self.inner.get(thread)?;
        Ok(state.uuid.to_string())
    }

    pub fn inspect(&self, thread: ThreadToken) -> (r: Result<String, Error>)
        ensures
            r is Ok <==> thread == self.owner(),
            r is Ok ==> r->Ok_0@ == "#<Taskchampion::TaskData: "@ + self.uuid_view() + ">"@,
            r is Err ==> r->Err_0.kind == ErrorKind::Thread,
    {
        let state = self.inner.get(thread)?;
        let mut t = String::from_str("#<Taskchampion::TaskData: ");
        t.append(state.uuid.as_str());
        t.append(">");
        Ok(t)
    }

    pub fn get(&self, property: &str, thread: ThreadToken) -> (r: Result<Option<String>, Error>)
        requires
            self.wf(),
        ensures
            r is Ok <==> thread == self.owner(),
            r is Ok ==> opt_view(r->Ok_0) == lookup(self.props(), property@),
            r is Err ==> r->Err_0.kind == ErrorKind::Thread,
    {
        let state = self.inner.get(thread)?;
        Ok(state.data.get(property))
    }

    pub fn has(&self, property: &str, thread: ThreadToken) -> (r: Result<bool, Error>)
        requires
            self.wf(),
        ensures
            r is Ok <==> thread == self.owner(),
            r is Ok ==> r->Ok_0 == self.props().contains_key(property@),
            r is Err ==> r->Err_0.kind == ErrorKind::Thread,
    {
        let state = self.inner.get(thread)?;
        Ok(state.data.has(property))
    }

    /// The property names, in the order in which they were first set.
    pub fn properties(&self, thread: ThreadToken) -> (r: Result<Vec<String>, Error>)
        requires
            self.wf(),
        ensures
            r is Ok <==> thread == self.owner(),
            r is Ok ==> r->Ok_0@.map_values(|s: String| s@) == self.names()
                && self.names().to_set() == self.props().dom(),
            r is Err ==> r->Err_0.kind == ErrorKind::Thread,
    {
        let state = self.inner.get(thread)?;
        proof {
            state.data.lemma_names();
        }
        Ok(state.data.properties())
    }

    /// Every property with its value, in the order in which they were first set.
    pub fn to_hash(&self, thread: ThreadToken) -> (r: Result<Vec<(String, String)>, Error>)
        requires
            self.wf(),
        ensures
            r is Ok <==> thread == self.owner(),
            r is Ok ==> r->Ok_0@.len() == self.names().len() && forall|i: int| 0 <= i < r->Ok_0@.len() ==>
                (#[trigger] r->Ok_0@[i]).0@ == self.names()[i] && self.props().contains_key(r->Ok_0@[i].0@)
                && r->Ok_0@[i].1@ == self.props()[r->Ok_0@[i].0@],
            r is Ok ==> self.names().to_set() == self.props().dom(),
            r is Err ==> r->Err_0.kind == ErrorKind::Thread,
    {
        let state = self.inner.get(thread)?;
        proof {
            state.data.lemma_names();
        }
        Ok(state.data.pairs())
    }

    /// Sets or clears a property, whose name may not be blank.
    pub fn update(
        &mut self,
        property: &str,
        value: Option<String>,
        now: Timestamp,
        ops: &mut Operations,
        thread: ThreadToken,
    ) -> (r: Result<(), Error>)
        requires
            old(self).wf(),
            old(ops).wf(),
        ensures
            final(self).wf(),
            final(ops).wf(),
            final(self).owner() == old(self).owner(),
            final(ops).owner() == old(ops).owner(),
            final(self).uuid_view() == old(self).uuid_view(),
            r is Ok <==> !blank(property@) && thread == old(self).owner() && thread == old(ops).owner(),
            r is Ok ==> final(self).props() == apply_value(old(self).props(), property@, opt_view(value))
                && final(self).names() == names_after(old(self).names(), property@, value is Some)
                && final(ops).view() == old(ops).view().push(
                update_record(old(self).uuid_view(), old(self).props(), property@, opt_view(value), now),
            ),
            r is Err ==> final(self).props() == old(self).props() && final(self).names() == old(self).names()
                && final(ops).view() == old(ops).view(),
            r is Err && blank(property@) ==> r->Err_0.kind == ErrorKind::Validation,
            r is Err && !blank(property@) ==> r->Err_0.kind == ErrorKind::Thread,
    {
        if is_blank(property) {
            return Err(validation_error("Property name cannot be empty or whitespace-only"));
        }
        self.inner.check_thread(thread)?;
        ops.check_thread(thread)?;
        let state = self.inner.get_mut(thread)?;
        record_update(&state.uuid, &mut state.data, property, value, now, ops, thread);
        Ok(())
    }

    /// Deletes the task: the log records what it held, and the handle is left empty.
    pub fn delete(&mut self, ops: &mut Operations, thread: ThreadToken) -> (r: Result<(), Error>)
        requires
            old(self).wf(),
            old(ops).wf(),
        ensures
            final(self).wf(),
            final(ops).wf(),
            final(self).owner() == old(self).owner(),
            final(ops).owner() == old(ops).owner(),
            final(self).uuid_view() == old(self).uuid_view(),
            r is Ok <==> thread == old(self).owner() && thread == old(ops).owner(),
            r is Ok ==> final(self).props() == Map::<Seq<char>, Seq<char>>::empty()
                && final(self).names() == Seq::<Seq<char>>::empty()
                && final(ops).view() == old(ops).view().push(
                OpView::Delete { uuid: old(self).uuid_view(), old_task: old(self).props() },
            ),
            r is Err ==> r->Err_0.kind == ErrorKind::Thread && final(self).props() == old(self).props()
                && final(self).names() == old(self).names() && final(ops).view() == old(ops).view(),
    {
        self.inner.check_thread(thread)?;
        ops.check_thread(thread)?;
        let state = self.inner.get_mut(thread)?;
        let old_task = state.data.clone();
        let op = Operation::Delete { uuid: state.uuid.clone(), old_task };
        let _ = ops.append(op, thread);
        state.data = TaskMap::new();
        Ok(())
    }
}

} // verus!
