use vstd::prelude::*;
use crate::error::{Error, ErrorKind, category_of, map_taskchampion_error, storage_error};
use crate::operation::{Operation, OpView};
use crate::operations::{Operations, ops_view, all_wf};
use crate::storage::{DbView, TaskDb, apply_ops, apply_all};
use crate::task::Task;
use crate::task_data::TaskData;
use crate::task_map::TaskMap;
use crate::thread_guard::{ThreadBound, ThreadToken};
use crate::uuid::{Uuid, uuid2tc, uuid_text, canonical_uuid};
use crate::text::{parse_i64, parsed_i64};
use crate::timestamp::Timestamp;
use crate::working_set::{WorkingSet, slots_view, distinct_slots};
use crate::dependency_map::{DependencyMap, edges_view, strings_view};
use crate::task::{dep_targets, depends_on, uuids_view};

verus! {

/// Whether an operation makes its task pending.
pub open spec fn makes_pending(op: OpView) -> bool {
    op matches OpView::Update { property, value, .. } && property == "status"@ && value == Some("pending"@)
}

pub open spec fn op_uuid(op: OpView) -> Seq<char> {
    match op {
        OpView::Create { uuid } => uuid,
        OpView::Delete { uuid, .. } => uuid,
        OpView::Update { uuid, .. } => uuid,
        OpView::UndoPoint => Seq::empty(),
    }
}

/// The working set after a commit of `ops`: each task that an operation makes
/// pending takes the next index, unless it holds one already.
pub open spec fn numbered_after(s: Seq<Option<Seq<char>>>, ops: Seq<OpView>) -> Seq<Option<Seq<char>>>
    decreases ops.len(),
{
    if ops.len() == 0 {
        s
    } else {
        let before = numbered_after(s, ops.drop_last());
        let op = ops.last();
        if makes_pending(op) && !before.contains(Some(op_uuid(op))) {
            before.push(Some(op_uuid(op)))
        } else {
            before
        }
    }
}

/// How many of the operations are undo points.
pub open spec fn undo_count(h: Seq<OpView>) -> nat
    decreases h.len(),
{
    if h.len() == 0 {
        0
    } else {
        undo_count(h.drop_last()) + if h.last() is UndoPoint { 1nat } else { 0nat }
    }
}

pub proof fn lemma_undo_count_bound(h: Seq<OpView>)
    ensures
        undo_count(h) <= h.len(),
    decreases h.len(),
{
    if h.len() > 0 {
        lemma_undo_count_bound(h.drop_last());
    }
}

/// What a replica holds: the tasks, the working-set numbering, and the
/// operations committed locally.
pub struct ReplicaState {
    db: TaskDb,
    working_set: Vec<Option<Uuid>>,
    history: Vec<Operation>,
}

/// A task database kept in memory, confined to the thread that opened it.
pub struct Replica {
    inner: ThreadBound<ReplicaState>,
}

impl Replica {
    pub closed spec fn db(&self) -> DbView {
        self.inner.value().db.view()
    }

    pub closed spec fn order(&self) -> Seq<Seq<char>> {
        self.inner.value().db.order()
    }

    pub closed spec fn numbering(&self) -> Seq<Option<Seq<char>>> {
        slots_view(self.inner.value().working_set@)
    }

    pub closed spec fn history(&self) -> Seq<OpView> {
        ops_view(self.inner.value().history@)
    }

    pub closed spec fn owner(&self) -> ThreadToken {
        self.inner.owner()
    }

    pub closed spec fn wf(&self) -> bool {
        &&& self.inner.value().db.wf()
        &&& all_wf(self.inner.value().history@)
        &&& distinct_slots(self.numbering())
        &&& forall|i: int| 0 <= i < self.inner.value().working_set@.len() ==>
            (#[trigger] self.inner.value().working_set@[i] matches Some(u) ==> u.wf())
    }

    /// An empty replica held in memory.
    pub fn new_in_memory(thread: ThreadToken) -> (r: Replica)
        ensures
            r.wf(),
            r.db() == DbView::empty(),
            r.numbering() == Seq::<Option<Seq<char>>>::empty(),
            r.history() == Seq::<OpView>::empty(),
            r.owner() == thread,
    {
        let state = ReplicaState { db: TaskDb::new(), working_set: Vec::new(), history: Vec::new() };
        let r = Replica { inner: ThreadBound::new(state, thread) };
        assert(r.numbering() =~= Seq::<Option<Seq<char>>>::empty());
        assert(r.history() =~= Seq::<OpView>::empty());
        r
    }

    /// Records the creation of a task that storage does not hold yet, and hands
    /// out a handle on it. Storage sees it once the log is committed.
    pub fn create_task(&self, uuid: &str, ops: &mut Operations, thread: ThreadToken) -> (r: Result<Task, Error>)
        requires
            self.wf(),
            old(ops).wf(),
        ensures
            final(ops).wf(),
            final(ops).owner() == old(ops).owner(),
            r is Ok <==> thread == self.owner() && uuid_text(uuid@) && thread == old(ops).owner()
                && !self.db().contains_key(canonical_uuid(uuid@)),
            r is Ok ==> r->Ok_0.wf() && r->Ok_0.uuid_view() == canonical_uuid(uuid@) && r->Ok_0.props()
                == Map::<Seq<char>, Seq<char>>::empty() && r->Ok_0.owner() == thread
                && final(ops).view() == old(ops).view().push(OpView::Create { uuid: canonical_uuid(uuid@) }),
            r is Err ==> final(ops).view() == old(ops).view(),
            r is Err && (thread != self.owner() || thread != old(ops).owner()) && uuid_text(uuid@) ==>
                r->Err_0.kind == ErrorKind::Thread,
            r is Err && thread == self.owner() && !uuid_text(uuid@) ==> r->Err_0.kind == ErrorKind::Validation,
            r is Err && thread == self.owner() && uuid_text(uuid@) && thread == old(ops).owner() ==>
                r->Err_0.kind == category_of("Task already exists"@),
    {
        let state = self.inner.get(thread)?;
        let id = uuid2tc(uuid)?;
        ops.check_thread(thread)?;
        if state.db.find(&id).is_some() {
            return Err(map_taskchampion_error("Task already exists"));
        }
        let _ = ops.append(Operation::Create { uuid: id.clone() }, thread);
        Ok(Task::from_tc_task(id, TaskMap::new(), thread))
    }

    /// Applies every operation of the log, in order, as one unit: either all of
    /// them take effect or, where one cannot apply, none does. The log is left
    /// as it was.
    pub fn commit_operations(&mut self, ops: &Operations, thread: ThreadToken) -> (r: Result<(), Error>)
        requires
            old(self).wf(),
            ops.wf(),
        ensures
            final(self).wf(),
            final(self).owner() == old(self).owner(),
            r is Ok <==> thread == old(self).owner() && thread == ops.owner()
                && apply_ops(old(self).db(), ops.view()) is Some,
            r is Ok ==> final(self).db() == apply_ops(old(self).db(), ops.view())->0
                && final(self).history() == old(self).history() + ops.view()
                && final(self).numbering() == numbered_after(old(self).numbering(), ops.view()),
            r is Err ==> final(self).db() == old(self).db() && final(self).history() == old(self).history()
                && final(self).numbering() == old(self).numbering(),
            r is Err && thread == old(self).owner() && thread == ops.owner() ==> r->Err_0.kind
                == ErrorKind::Storage,
            r is Err && (thread != old(self).owner() || thread != ops.owner()) ==> r->Err_0.kind
                == ErrorKind::Thread,
    {
        self.inner.check_thread(thread)?;
        let pending = ops.clone_inner(thread)?;
        let state = self.inner.get_mut(thread)?;
        let next = match apply_all(&state.db, &pending) {
            Some(db) => db,
            None => {
                return Err(storage_error("An operation could not be applied; nothing was committed"));
            },
        };
        state.db = next;
        let ghost db_after = state.db.view();
        let ghost h0 = state.history@;
        let ghost w0 = slots_view(state.working_set@);
        let mut i: usize = 0;
        while i < pending.len()
            invariant
                all_wf(pending@),
                all_wf(h0),
                state.db.wf(),
                state.db.view() == db_after,
                i <= pending@.len(),
                all_wf(state.history@),
                ops_view(state.history@) == ops_view(h0) + ops_view(pending@.subrange(0, i as int)),
                slots_view(state.working_set@) == numbered_after(w0, ops_view(pending@.subrange(0, i as int))),
                distinct_slots(slots_view(state.working_set@)),
                forall|k: int| 0 <= k < state.working_set@.len() ==>
                    (#[trigger] state.working_set@[k] matches Some(u) ==> u.wf()),
            decreases pending@.len() - i,
        {
            let ghost prev = ops_view(pending@.subrange(0, i as int));
            let ghost next_ops = ops_view(pending@.subrange(0, i + 1));
            proof {
                assert(next_ops.drop_last() =~= prev);
                assert(next_ops.last() == pending@[i as int].view());
                assert(pending@[i as int].wf());
            }
            let op = pending[i].clone();
            let target = pending_target(&op);
            let ghost before = slots_view(state.working_set@);
            let ghost old_ws = state.working_set@;
            if let Some(uuid) = target {
                let pos = find_slot(&state.working_set, &uuid);
                if pos.is_none() {
                    state.working_set.push(Some(uuid));
                    proof {
                        assert(slots_view(state.working_set@) =~= before.push(Some(op_uuid(op.view()))));
                        let after = slots_view(state.working_set@);
                        assert forall|a: int, b: int|
                            0 <= a < after.len() && 0 <= b < after.len() && a != b && #[trigger] after[a] is Some
                                && #[trigger] after[b] is Some implies after[a]->0 != after[b]->0 by {
                            if a < before.len() && b < before.len() {
                                assert(after[a] == before[a]);
                                assert(after[b] == before[b]);
                            } else if a < before.len() {
                                assert(after[a] == before[a]);
                                assert(before[a] != Some(op_uuid(op.view())));
                            } else if b < before.len() {
                                assert(after[b] == before[b]);
                                assert(before[b] != Some(op_uuid(op.view())));
                            }
                        }
                        assert forall|k: int| 0 <= k < state.working_set@.len() implies
                            (#[trigger] state.working_set@[k] matches Some(u) ==> u.wf()) by {
                            if k < before.len() {
                                assert(state.working_set@[k] == old_ws[k]);
                            }
                        }
                    }
                }
            }
            proof {
                assert(slots_view(state.working_set@) == numbered_after(w0, next_ops));
            }
            let ghost hb = state.history@;
            state.history.push(op);
            proof {
                assert(ops_view(state.history@) =~= ops_view(hb).push(pending@[i as int].view()));
                assert(ops_view(pending@.subrange(0, i + 1)) =~= prev.push(pending@[i as int].view()));
                assert(ops_view(h0) + next_ops =~= (ops_view(h0) + prev).push(pending@[i as int].view()));
            }
            i = i + 1;
        }
        proof {
            assert(pending@.subrange(0, i as int) =~= pending@);
        }
        Ok(())
    }

    /// The identifiers of all tasks.
    pub fn task_uuids(&self, thread: ThreadToken) -> (r: Result<Vec<String>, Error>)
        requires
            self.wf(),
        ensures
            r is Ok <==> thread == self.owner(),
            r is Ok ==> strings_view(r->Ok_0@) == self.order() && self.order().to_set() == self.db().dom()
                && self.order().no_duplicates(),
            r is Err ==> r->Err_0.kind == ErrorKind::Thread,
    {
        let state = self.inner.get(thread)?;
        proof {
            state.db.lemma_order();
        }
        let mut out: Vec<String> = Vec::new();
        let mut i: usize = 0;
        while i < state.db.len()
            invariant
                state.db.wf(),
                i <= state.db.order().len(),
                out@.len() == i,
                forall|j: int| 0 <= j < i ==> (#[trigger] out@[j])@ == state.db.order()[j],
            decreases state.db.order().len() - i,
        {
            let (id, _) = state.db.entry(i);
            out.push(id.to_string());
            i = i + 1;
        }
        assert(strings_view(out@) =~= state.db.order());
        Ok(out)
    }

    /// A handle on each task, in storage order.
    pub fn tasks(&self, thread: ThreadToken) -> (r: Result<Vec<Task>, Error>)
        requires
            self.wf(),
        ensures
            r is Ok <==> thread == self.owner(),
            r is Ok ==> r->Ok_0@.len() == self.order().len() && forall|i: int| 0 <= i < r->Ok_0@.len() ==> {
                let t = #[trigger] r->Ok_0@[i];
                &&& t.wf()
                &&& t.owner() == thread
                &&& t.uuid_view() == self.order()[i]
                &&& self.db().contains_key(t.uuid_view())
                &&& t.props() == self.db()[t.uuid_view()]
            },
            r is Err ==> r->Err_0.kind == ErrorKind::Thread,
    {
        let state = self.inner.get(thread)?;
        let mut out: Vec<Task> = Vec::new();
        let mut i: usize = 0;
        while i < state.db.len()
            invariant
                state.db.wf(),
                state.db.order() == self.order(),
                state.db.view() == self.db(),
                i <= state.db.order().len(),
                out@.len() == i,
                forall|j: int| 0 <= j < i ==> {
                    let t = #[trigger] out@[j];
                    &&& t.wf()
                    &&& t.owner() == thread
                    &&& t.uuid_view() == self.order()[j]
                    &&& self.db().contains_key(t.uuid_view())
                    &&& t.props() == self.db()[t.uuid_view()]
                },
            decreases state.db.order().len() - i,
        {
            let (id, data) = state.db.entry(i);
            out.push(Task::from_tc_task(id, data, thread));
            i = i + 1;
        }
        Ok(out)
    }

    /// A handle on one task; `None` where storage does not hold it. A malformed
    /// identifier is rejected.
    pub fn task(&self, uuid: &str, thread: ThreadToken) -> (r: Result<Option<Task>, Error>)
        requires
            self.wf(),
        ensures
            r is Ok <==> thread == self.owner() && uuid_text(uuid@),
            r is Ok ==> (r->Ok_0 is Some <==> self.db().contains_key(canonical_uuid(uuid@))),
            r is Ok && r->Ok_0 is Some ==> r->Ok_0->0.wf() && r->Ok_0->0.owner() == thread
                && r->Ok_0->0.uuid_view() == canonical_uuid(uuid@)
                && r->Ok_0->0.props() == self.db()[canonical_uuid(uuid@)],
            r is Err && thread != self.owner() ==> r->Err_0.kind == ErrorKind::Thread,
            r is Err && thread == self.owner() ==> r->Err_0.kind == ErrorKind::Validation,
    {
        let state = self.inner.get(thread)?;
        let id = uuid2tc(uuid)?;
        match state.db.get(&id) {
            Some(data) => Ok(Some(Task::from_tc_task(id, data, thread))),
            None => Ok(None),
        }
    }

    /// A low-level handle on one task; `None` where storage does not hold it. A
    /// malformed identifier is rejected.
    pub fn task_data(&self, uuid: &str, thread: ThreadToken) -> (r: Result<Option<TaskData>, Error>)
        requires
            self.wf(),
        ensures
            r is Ok <==> thread == self.owner() && uuid_text(uuid@),
            r is Ok ==> (r->Ok_0 is Some <==> self.db().contains_key(canonical_uuid(uuid@))),
            r is Ok && r->Ok_0 is Some ==> r->Ok_0->0.wf() && r->Ok_0->0.owner() == thread
                && r->Ok_0->0.uuid_view() == canonical_uuid(uuid@)
                && r->Ok_0->0.props() == self.db()[canonical_uuid(uuid@)],
            r is Err && thread != self.owner() ==> r->Err_0.kind == ErrorKind::Thread,
            r is Err && thread == self.owner() ==> r->Err_0.kind == ErrorKind::Validation,
    {
        let state = self.inner.get(thread)?;
        let id = uuid2tc(uuid)?;
        match state.db.get(&id) {
            Some(data) => Ok(Some(TaskData::from_tc_task_data(id, data, thread))),
            None => Ok(None),
        }
    }

    /// The working-set numbering as it stands now.
    pub fn working_set(&self, thread: ThreadToken) -> (r: Result<WorkingSet, Error>)
        requires
            self.wf(),
        ensures
            r is Ok <==> thread == self.owner(),
            r is Ok ==> r->Ok_0.wf() && r->Ok_0.view() == self.numbering() && r->Ok_0.owner() == thread,
            r is Err ==> r->Err_0.kind == ErrorKind::Thread,
    {
        let state = self.inner.get(thread)?;
        let slots = copy_slots(&state.working_set);
        WorkingSet::from_tc_working_set(slots, thread)
    }

    /// The number of locally committed operations, undo points aside.
    pub fn num_local_operations(&self, thread: ThreadToken) -> (r: Result<usize, Error>)
        requires
            self.wf(),
        ensures
            r is Ok <==> thread == self.owner(),
            r is Ok ==> r->Ok_0 == self.history().len() - undo_count(self.history()),
            r is Err ==> r->Err_0.kind == ErrorKind::Thread,
    {
        let undo = self.num_undo_points(thread)?;
        let state = self.inner.get(thread)?;
        proof {
            lemma_undo_count_bound(self.history());
        }
        Ok(state.history.len() - undo)
    }

    /// The number of undo points among the locally committed operations.
    pub fn num_undo_points(&self, thread: ThreadToken) -> (r: Result<usize, Error>)
        requires
            self.wf(),
        ensures
            r is Ok <==> thread == self.owner(),
            r is Ok ==> r->Ok_0 == undo_count(self.history()),
            r is Err ==> r->Err_0.kind == ErrorKind::Thread,
    {
        let state = self.inner.get(thread)?;
        let mut count: usize = 0;
        let mut i: usize = 0;
        while i < state.history.len()
            invariant
                i <= state.history@.len(),
                count == undo_count(ops_view(state.history@.subrange(0, i as int))),
                count <= i,
            decreases state.history@.len() - i,
        {
            let ghost prev = ops_view(state.history@.subrange(0, i as int));
            let ghost next = ops_view(state.history@.subrange(0, i + 1));
            proof {
                assert(next.drop_last() =~= prev);
                assert(next.last() == state.history@[i as int].view());
            }
            if state.history[i].undo_point_op() {
                count = count + 1;
            }
            i = i + 1;
        }
        assert(state.history@.subrange(0, i as int) =~= state.history@);
        Ok(count)
    }
}

/// The task that an operation makes pending, if it does.
fn pending_target(op: &Operation) -> (r: Option<Uuid>)
    requires
        op.wf(),
    ensures
        r is Some <==> makes_pending(op.view()),
        r is Some ==> r->0.wf() && r->0.view() == op_uuid(op.view()),
{
    match op {
        Operation::Update { uuid, property, value, .. } => {
            match value {
                Some(v) => {
                    if crate::text::str_eq(property.as_str(), "status") && crate::text::str_eq(v.as_str(), "pending") {
                        Some(uuid.clone())
                    } else {
                        None
                    }
                },
                None => None,
            }
        },
        _ => None,
    }
}

/// The position of a task in a working set.
fn find_slot(slots: &Vec<Option<Uuid>>, uuid: &Uuid) -> (r: Option<usize>)
    ensures
        r is None <==> !slots_view(slots@).contains(Some(uuid.view())),
        r is Some ==> r->0 < slots@.len() && slots_view(slots@)[r->0 as int] == Some(uuid.view()),
{
    let ghost sv = slots_view(slots@);
    let mut i: usize = 0;
    while i < slots.len()
        invariant
            sv == slots_view(slots@),
            i <= slots@.len(),
            forall|k: int| 0 <= k < i ==> #[trigger] sv[k] != Some(uuid.view()),
        decreases slots@.len() - i,
    {
        if let Some(w) = &slots[i] {
            if w.same(uuid) {
                assert(sv[i as int] == Some(uuid.view()));
                return Some(i);
            }
        }
        i = i + 1;
    }
    None
}

fn copy_slots(slots: &Vec<Option<Uuid>>) -> (r: Vec<Option<Uuid>>)
    ensures
        r@ == slots@,
{
    let mut out: Vec<Option<Uuid>> = Vec::new();
    let mut i: usize = 0;
    while i < slots.len()
        invariant
            i <= slots@.len(),
            out@ == slots@.subrange(0, i as int),
        decreases slots@.len() - i,
    {
        let s = match &slots[i] {
            Some(u) => Some(u.clone()),
            None => None,
        };
        out.push(s);
        proof {
            assert(out@ =~= slots@.subrange(0, i + 1));
        }
        i = i + 1;
    }
    assert(slots@.subrange(0, i as int) =~= slots@);
    out
}

impl Replica {
    /// Which tasks depend on which, as storage records it now. Nothing is
    /// cached, so every call computes the map afresh and `force` changes nothing.
    pub fn dependency_map(&self, force: bool, thread: ThreadToken) -> (r: Result<DependencyMap, Error>)
        requires
            self.wf(),
        ensures
            r is Ok <==> thread == self.owner(),
            r is Ok ==> r->Ok_0.owner() == thread && forall|a: Seq<char>, b: Seq<char>|
                r->Ok_0.view().contains((a, b)) <==> self.db().contains_key(a) && depends_on(self.db()[a], b),
            r is Err ==> r->Err_0.kind == ErrorKind::Thread,
    {
        let state = self.inner.get(thread)?;
        proof {
            state.db.lemma_order();
        }
        let ghost order = state.db.order();
        let ghost db = state.db.view();
        let mut edges: Vec<(Uuid, Uuid)> = Vec::new();
        let mut i: usize = 0;
        while i < state.db.len()
            invariant
                state.db.wf(),
                order == state.db.order(),
                db == state.db.view(),
                order.to_set() == db.dom(),
                i <= order.len(),
                forall|a: Seq<char>, b: Seq<char>| #[trigger] edges_view(edges@).contains((a, b)) <==>
                    order.subrange(0, i as int).contains(a) && db.contains_key(a) && depends_on(db[a], b),
            decreases order.len() - i,
        {
            let (id, data) = state.db.entry(i);
            let targets = dep_targets(&data);
            let ghost start = edges_view(edges@);
            assert forall|a: Seq<char>, b: Seq<char>| start.contains((a, b)) <==>
                order.subrange(0, i as int).contains(a) && db.contains_key(a) && depends_on(db[a], b) by {
                assert(edges_view(edges@).contains((a, b)) <==>
                    order.subrange(0, i as int).contains(a) && db.contains_key(a) && depends_on(db[a], b));
            }
            let mut j: usize = 0;
            while j < targets.len()
                invariant
                    j <= targets@.len(),
                    i < order.len(),
                    id.view() == order[i as int],
                    db.contains_key(id.view()),
                    data.view() == db[id.view()],
                    forall|b: Seq<char>| uuids_view(targets@).contains(b) <==> depends_on(data.view(), b),
                    forall|a: Seq<char>, b: Seq<char>| start.contains((a, b)) <==>
                        order.subrange(0, i as int).contains(a) && db.contains_key(a) && depends_on(db[a], b),
                    edges_view(edges@) == start + uuids_view(targets@).subrange(0, j as int).map_values(
                        |t: Seq<char>| (id.view(), t),
                    ),
                decreases targets@.len() - j,
            {
                let ghost before = edges_view(edges@);
                edges.push((id.clone(), targets[j].clone()));
                proof {
                    assert(edges_view(edges@) =~= before.push((id.view(), targets@[j as int].view())));
                    assert(uuids_view(targets@).subrange(0, j + 1).map_values(|t: Seq<char>| (id.view(), t))
                        =~= uuids_view(targets@).subrange(0, j as int).map_values(|t: Seq<char>| (id.view(), t)).push(
                        (id.view(), targets@[j as int].view()),
                    ));
                }
                j = j + 1;
            }
            proof {
                let added = uuids_view(targets@).map_values(|t: Seq<char>| (id.view(), t));
                assert(uuids_view(targets@).subrange(0, j as int) =~= uuids_view(targets@));
                let pre = order.subrange(0, i as int);
                let nxt = order.subrange(0, i + 1);
                assert forall|a: Seq<char>, b: Seq<char>| #[trigger] edges_view(edges@).contains((a, b)) <==>
                    order.subrange(0, i + 1).contains(a) && db.contains_key(a) && depends_on(db[a], b) by {
                    let all = edges_view(edges@);
                    assert(all == start + added);
                    if all.contains((a, b)) {
                        let k = choose|k: int| 0 <= k < all.len() && all[k] == (a, b);
                        if k < start.len() {
                            assert(start[k] == (a, b));
                            assert(start.contains((a, b)));
                            let m = choose|m: int| 0 <= m < pre.len() && pre[m] == a;
                            assert(nxt[m] == a);
                        } else {
                            assert(added[k - start.len()] == (a, b));
                            assert(uuids_view(targets@)[k - start.len()] == b);
                            assert(uuids_view(targets@).contains(b));
                            assert(a == order[i as int]);
                            assert(nxt[i as int] == a);
                        }
                    }
                    if nxt.contains(a) && db.contains_key(a) && depends_on(db[a], b) {
                        let m = choose|m: int| 0 <= m < nxt.len() && nxt[m] == a;
                        if m < i {
                            assert(pre[m] == a);
                            assert(start.contains((a, b)));
                            let k = choose|k: int| 0 <= k < start.len() && start[k] == (a, b);
                            assert(all[k] == (a, b));
                        } else {
                            assert(a == id.view());
                            assert(uuids_view(targets@).contains(b));
                            let k = choose|k: int| 0 <= k < uuids_view(targets@).len() && uuids_view(targets@)[k] == b;
                            assert(added[k] == (a, b));
                            assert(all[start.len() + k] == (a, b));
                        }
                    }
                }
            }
            i = i + 1;
        }
        proof {
            assert(order.subrange(0, i as int) =~= order);
            assert forall|a: Seq<char>| db.contains_key(a) implies order.contains(a) by {
                assert(order.to_set().contains(a));
            }
            assert forall|a: Seq<char>, b: Seq<char>| edges_view(edges@).contains((a, b)) <==>
                db.contains_key(a) && depends_on(db[a], b) by {
                assert(edges_view(edges@).contains((a, b)) <==>
                    order.subrange(0, i as int).contains(a) && db.contains_key(a) && depends_on(db[a], b));
                if db.contains_key(a) {
                    assert(order.contains(a));
                }
            }
        }
        let ghost ev = edges_view(edges@);
        let dm = DependencyMap::from_tc_dependency_map(edges, thread);
        proof {
            assert forall|a: Seq<char>, b: Seq<char>| dm.view().contains((a, b)) <==> self.db().contains_key(a)
                && depends_on(self.db()[a], b) by {
                assert(ev.contains((a, b)) <==> db.contains_key(a) && depends_on(db[a], b));
            }
        }
        Ok(dm)
    }
}

/// Whether a task belongs in the working set: storage holds it and its status
/// is pending or recurring.
pub open spec fn belongs_in_working_set(db: DbView, u: Seq<char>) -> bool {
    db.contains_key(u) && db[u].contains_key("status"@) && (db[u]["status"@] == "pending"@ || db[u]["status"@]
        == "recurring"@)
}

/// The first pass of a rebuild: tasks that still belong keep their index; the
/// others leave a free index behind, or, when renumbering, close up.
pub open spec fn kept_slots(db: DbView, s: Seq<Option<Seq<char>>>, renumber: bool) -> Seq<Option<Seq<char>>>
    decreases s.len(),
{
    if s.len() == 0 {
        Seq::empty()
    } else {
        let before = kept_slots(db, s.drop_last(), renumber);
        let last = s.last();
        if last is Some && belongs_in_working_set(db, last->0) && !before.contains(last) {
            before.push(last)
        } else if !renumber {
            before.push(None)
        } else {
            before
        }
    }
}

/// The second pass of a rebuild: tasks that belong but hold no index take the
/// next ones, in storage order.
pub open spec fn appended_slots(db: DbView, acc: Seq<Option<Seq<char>>>, order: Seq<Seq<char>>) -> Seq<
    Option<Seq<char>>,
>
    decreases order.len(),
{
    if order.len() == 0 {
        acc
    } else {
        let before = appended_slots(db, acc, order.drop_last());
        let t = order.last();
        if belongs_in_working_set(db, t) && !before.contains(Some(t)) {
            before.push(Some(t))
        } else {
            before
        }
    }
}

fn belongs(db: &TaskDb, u: &Uuid) -> (r: bool)
    requires
        db.wf(),
    ensures
        r == belongs_in_working_set(db.view(), u.view()),
{
    match db.get(u) {
        Some(data) => match data.get("status") {
            Some(st) => crate::text::str_eq(st.as_str(), "pending") || crate::text::str_eq(st.as_str(), "recurring"),
            None => false,
        },
        None => false,
    }
}

/// Pushing a slot that the numbering does not hold yet keeps every task at one index.
proof fn lemma_push_distinct(s: Seq<Option<Seq<char>>>, x: Option<Seq<char>>)
    requires
        distinct_slots(s),
        x is None || !s.contains(x),
    ensures
        distinct_slots(s.push(x)),
{
    let t = s.push(x);
    assert forall|a: int, b: int|
        0 <= a < t.len() && 0 <= b < t.len() && a != b && #[trigger] t[a] is Some && #[trigger] t[b] is Some
            implies t[a]->0 != t[b]->0 by {
        if a < s.len() && b < s.len() {
            assert(t[a] == s[a] && t[b] == s[b]);
        } else if a < s.len() {
            assert(t[a] == s[a]);
            assert(s[a] != x);
        } else if b < s.len() {
            assert(t[b] == s[b]);
            assert(s[b] != x);
        }
    }
}

impl Replica {
    /// Rebuilds the working-set numbering from the tasks in storage: tasks
    /// that are no longer pending or recurring give up their index, and those
    /// that are but hold none take new indices at the end. With `renumber`, the
    /// indices that remain are closed up from 1.
    pub fn rebuild_working_set(&mut self, renumber: bool, thread: ThreadToken) -> (r: Result<(), Error>)
        requires
            old(self).wf(),
        ensures
            final(self).wf(),
            final(self).owner() == old(self).owner(),
            final(self).db() == old(self).db(),
            final(self).history() == old(self).history(),
            r is Ok <==> thread == old(self).owner(),
            r is Ok ==> final(self).numbering() == appended_slots(
                old(self).db(),
                kept_slots(old(self).db(), old(self).numbering(), renumber),
                old(self).order(),
            ),
            r is Err ==> r->Err_0.kind == ErrorKind::Thread && final(self).numbering() == old(self).numbering(),
    {
        let state = self.inner.get_mut(thread)?;
        let ghost db = state.db.view();
        let ghost order = state.db.order();
        let ghost s0 = slots_view(state.working_set@);
        let mut kept: Vec<Option<Uuid>> = Vec::new();
        let mut i: usize = 0;
        while i < state.working_set.len()
            invariant
                state.db.wf(),
                state.db.view() == db,
                s0 == slots_view(state.working_set@),
                i <= state.working_set@.len(),
                slots_view(kept@) == kept_slots(db, s0.subrange(0, i as int), renumber),
                distinct_slots(slots_view(kept@)),
                forall|k: int| 0 <= k < kept@.len() ==> (#[trigger] kept@[k] matches Some(u) ==> u.wf()),
                forall|k: int| 0 <= k < state.working_set@.len() ==>
                    (#[trigger] state.working_set@[k] matches Some(u) ==> u.wf()),
            decreases state.working_set@.len() - i,
        {
            let ghost prefix = s0.subrange(0, i as int);
            let ghost next = s0.subrange(0, i + 1);
            let ghost before = slots_view(kept@);
            proof {
                assert(next.drop_last() =~= prefix);
                assert(next.last() == s0[i as int]);
            }
            let mut keep = false;
            if let Some(u) = &state.working_set[i] {
                if belongs(&state.db, u) && find_slot(&kept, u).is_none() {
                    keep = true;
                }
            }
            if keep {
                let slot = match &state.working_set[i] {
                    Some(u) => Some(u.clone()),
                    None => None,
                };
                kept.push(slot);
                proof {
                    assert(slots_view(kept@) =~= before.push(s0[i as int]));
                    lemma_push_distinct(before, s0[i as int]);
                }
            } else if !renumber {
                kept.push(None);
                proof {
                    assert(slots_view(kept@) =~= before.push(None));
                    lemma_push_distinct(before, None);
                }
            }
            i = i + 1;
        }
        proof {
            assert(s0.subrange(0, i as int) =~= s0);
        }
        let ghost k0 = slots_view(kept@);
        let mut j: usize = 0;
        while j < state.db.len()
            invariant
                state.db.wf(),
                state.db.view() == db,
                state.db.order() == order,
                j <= order.len(),
                slots_view(kept@) == appended_slots(db, k0, order.subrange(0, j as int)),
                distinct_slots(slots_view(kept@)),
                forall|k: int| 0 <= k < kept@.len() ==> (#[trigger] kept@[k] matches Some(u) ==> u.wf()),
            decreases order.len() - j,
        {
            let ghost prefix = order.subrange(0, j as int);
            let ghost next = order.subrange(0, j + 1);
            let ghost before = slots_view(kept@);
            proof {
                assert(next.drop_last() =~= prefix);
                assert(next.last() == order[j as int]);
            }
            let (id, _) = state.db.entry(j);
            if belongs(&state.db, &id) && find_slot(&kept, &id).is_none() {
                let ghost v = id.view();
                kept.push(Some(id));
                proof {
                    assert(slots_view(kept@) =~= before.push(Some(v)));
                    lemma_push_distinct(before, Some(v));
                }
            }
            j = j + 1;
        }
        proof {
            assert(order.subrange(0, j as int) =~= order);
        }
        state.working_set = kept;
        Ok(())
    }
}

/// How long a deleted task is kept after its last change: 180 days, in seconds.
pub const EXPIRY_SECONDS: i64 = 15_552_000;

/// Whether a task is due to be expunged: it is deleted and was last changed
/// before `cutoff`.
pub open spec fn expired(m: Map<Seq<char>, Seq<char>>, cutoff: int) -> bool {
    &&& m.contains_key("status"@)
    &&& m["status"@] == "deleted"@
    &&& m.contains_key("modified"@)
    &&& parsed_i64(m["modified"@]) is Some
    &&& parsed_i64(m["modified"@])->0 < cutoff
}

/// The delete records for the expired tasks, in storage order.
pub open spec fn expiry_records(db: DbView, order: Seq<Seq<char>>, cutoff: int) -> Seq<OpView>
    decreases order.len(),
{
    if order.len() == 0 {
        Seq::empty()
    } else {
        let before = expiry_records(db, order.drop_last(), cutoff);
        let t = order.last();
        if db.contains_key(t) && expired(db[t], cutoff) {
            before.push(OpView::Delete { uuid: t, old_task: db[t] })
        } else {
            before
        }
    }
}

/// The database without its expired tasks.
pub open spec fn without_expired(db: DbView, cutoff: int) -> DbView {
    Map::new(|k: Seq<char>| db.contains_key(k) && !expired(db[k], cutoff), |k: Seq<char>| db[k])
}

fn is_expired(data: &TaskMap, cutoff: i128) -> (r: bool)
    requires
        data.wf(),
    ensures
        r == expired(data.view(), cutoff as int),
{
    match data.get("status") {
        Some(st) => {
            if !crate::text::str_eq(st.as_str(), "deleted") {
                return false;
            }
            match data.get("modified") {
                Some(m) => match parse_i64(m.as_str()) {
                    Some(v) => (v as i128) < cutoff,
                    None => false,
                },
                None => false,
            }
        },
        None => false,
    }
}

impl Replica {
    /// Expunges the tasks that were deleted and last changed more than 180 days
    /// before `now`, recording a delete of each among the local operations.
    pub fn expire_tasks(&mut self, now: Timestamp, thread: ThreadToken) -> (r: Result<(), Error>)
        requires
            old(self).wf(),
        ensures
            final(self).wf(),
            final(self).owner() == old(self).owner(),
            final(self).numbering() == old(self).numbering(),
            r is Ok <==> thread == old(self).owner(),
            r is Ok ==> final(self).db() == without_expired(old(self).db(), now.seconds - EXPIRY_SECONDS)
                && final(self).history() == old(self).history() + expiry_records(
                old(self).db(),
                old(self).order(),
                now.seconds - EXPIRY_SECONDS,
            ),
            r is Err ==> r->Err_0.kind == ErrorKind::Thread && final(self).db() == old(self).db()
                && final(self).history() == old(self).history(),
    {
        let state = self.inner.get_mut(thread)?;
        let cutoff: i128 = now.seconds as i128 - EXPIRY_SECONDS as i128;
        let ghost db = state.db.view();
        let ghost order = state.db.order();
        let ghost h0 = ops_view(state.history@);
        let ghost ws0 = state.working_set@;
        proof {
            state.db.lemma_order();
        }
        let mut kept = TaskDb::new();
        let mut i: usize = 0;
        while i < state.db.len()
            invariant
                state.db.wf(),
                state.db.view() == db,
                state.db.order() == order,
                order.no_duplicates(),
                forall|k: int| 0 <= k < order.len() ==> db.contains_key(#[trigger] order[k]),
                i <= order.len(),
                kept.wf(),
                forall|k: Seq<char>| #[trigger] kept.view().contains_key(k) ==> order.subrange(0, i as int).contains(k),
                kept.view() == Map::new(
                    |k: Seq<char>| order.subrange(0, i as int).contains(k) && db.contains_key(k) && !expired(db[k], cutoff as int),
                    |k: Seq<char>| db[k],
                ),
                all_wf(state.history@),
                state.working_set@ == ws0,
                ops_view(state.history@) == h0 + expiry_records(db, order.subrange(0, i as int), cutoff as int),
            decreases order.len() - i,
        {
            let ghost prefix = order.subrange(0, i as int);
            let ghost next = order.subrange(0, i + 1);
            proof {
                assert(next.drop_last() =~= prefix);
                assert(next.last() == order[i as int]);
                assert(!prefix.contains(order[i as int])) by {
                    if prefix.contains(order[i as int]) {
                        let k = choose|k: int| 0 <= k < prefix.len() && prefix[k] == order[i as int];
                        assert(order[k] == order[i as int]);
                    }
                }
                assert forall|q: Seq<char>| next.contains(q) <==> (prefix.contains(q) || q == order[i as int]) by {
                    if next.contains(q) {
                        let k = choose|k: int| 0 <= k < next.len() && next[k] == q;
                        if k < i {
                            assert(prefix[k] == q);
                        }
                    }
                    if prefix.contains(q) {
                        let k = choose|k: int| 0 <= k < prefix.len() && prefix[k] == q;
                        assert(next[k] == q);
                    }
                    if q == order[i as int] {
                        assert(next[i as int] == q);
                    }
                }
            }
            let (id, data) = state.db.entry(i);
            if is_expired(&data, cutoff) {
                let ghost hb = state.history@;
                state.history.push(Operation::Delete { uuid: id, old_task: data });
                proof {
                    assert(ops_view(state.history@) =~= ops_view(hb).push(
                        OpView::Delete { uuid: order[i as int], old_task: db[order[i as int]] },
                    ));
                    assert(kept.view() =~= Map::new(
                        |k: Seq<char>| next.contains(k) && db.contains_key(k) && !expired(db[k], cutoff as int),
                        |k: Seq<char>| db[k],
                    ));
                }
            } else {
                let ghost kb = kept.view();
                proof {
                    assert(!kb.contains_key(order[i as int]));
                }
                kept.insert_new(id, data);
                proof {
                    assert(kept.view() =~= Map::new(
                        |k: Seq<char>| next.contains(k) && db.contains_key(k) && !expired(db[k], cutoff as int),
                        |k: Seq<char>| db[k],
                    ));
                    assert forall|k: Seq<char>| #[trigger] kept.view().contains_key(k) implies next.contains(k) by {}
                }
            }
            i = i + 1;
        }
        proof {
            assert(order.subrange(0, i as int) =~= order);
            assert(kept.view() =~= without_expired(db, cutoff as int)) by {
                assert forall|k: Seq<char>| db.contains_key(k) implies order.contains(k) by {
                    assert(order.to_set().contains(k));
                }
            }
        }
        state.db = kept;
        Ok(())
    }
}

} // verus!
