use vstd::prelude::*;
use crate::operation::{Operation, OpView, apply_value, update_record};
use crate::operations::{ops_view, all_wf};
use crate::task_map::TaskMap;
use crate::uuid::Uuid;

verus! {

/// The state of the task database: each task's identifier and its properties.
pub type DbView = Map<Seq<char>, Map<Seq<char>, Seq<char>>>;

/// The database after one operation, or `None` where the operation cannot
/// apply: creating a task that exists, or deleting or updating one that does not.
pub open spec fn apply_op(db: DbView, op: OpView) -> Option<DbView> {
    match op {
        OpView::Create { uuid } => if db.contains_key(uuid) {
            None
        } else {
            Some(db.insert(uuid, Map::empty()))
        },
        OpView::Delete { uuid, .. } => if db.contains_key(uuid) {
            Some(db.remove(uuid))
        } else {
            None
        },
        OpView::Update { uuid, property, value, .. } => if db.contains_key(uuid) {
            Some(db.insert(uuid, apply_value(db[uuid], property, value)))
        } else {
            None
        },
        OpView::UndoPoint => Some(db),
    }
}

/// The database after the operations in order, or `None` where one of them cannot apply.
pub open spec fn apply_ops(db: DbView, ops: Seq<OpView>) -> Option<DbView>
    decreases ops.len(),
{
    if ops.len() == 0 {
        Some(db)
    } else {
        match apply_ops(db, ops.drop_last()) {
            Some(d) => apply_op(d, ops.last()),
            None => None,
        }
    }
}

/// Tasks held in memory, keyed by identifier.
pub struct TaskDb {
    entries: Vec<(Uuid, TaskMap)>,
    db: Ghost<DbView>,
}

impl TaskDb {
    pub closed spec fn view(&self) -> DbView {
        self.db@
    }

    /// The identifiers in storage order.
    pub closed spec fn order(&self) -> Seq<Seq<char>> {
        self.entries@.map_values(|e: (Uuid, TaskMap)| e.0.view())
    }

    pub closed spec fn wf(&self) -> bool {
        &&& forall|i: int, j: int|
            0 <= i < j < self.entries@.len() ==> #[trigger] self.entries@[i].0.view() != #[trigger] self.entries@[j].0.view()
        &&& forall|i: int|
            0 <= i < self.entries@.len() ==> (#[trigger] self.entries@[i]).0.wf() && self.entries@[i].1.wf()
                && self.db@.contains_key(self.entries@[i].0.view()) && self.db@[self.entries@[i].0.view()]
                == self.entries@[i].1.view()
        &&& forall|k: Seq<char>|
            #[trigger] self.db@.contains_key(k) ==> exists|i: int|
                0 <= i < self.entries@.len() && #[trigger] self.entries@[i].0.view() == k
    }

    pub fn new() -> (r: Self)
        ensures
            r.wf(),
            r.view() == DbView::empty(),
    {
        TaskDb { entries: Vec::new(), db: Ghost(Map::empty()) }
    }

    pub fn len(&self) -> (r: usize)
        requires
            self.wf(),
        ensures
            r == self.order().len(),
    {
        self.entries.len()
    }

    /// The identifier and properties of the task at storage position `i`.
    pub fn entry(&self, i: usize) -> (r: (Uuid, TaskMap))
        requires
            self.wf(),
            i < self.order().len(),
        ensures
            r.0.wf() && r.1.wf(),
            r.0.view() == self.order()[i as int],
            self.view().contains_key(r.0.view()),
            r.1.view() == self.view()[r.0.view()],
    {
        assert(self.entries@[i as int].0.wf());
        (self.entries[i].0.clone(), self.entries[i].1.clone())
    }

    pub proof fn lemma_order(&self)
        requires
            self.wf(),
        ensures
            self.order().to_set() == self.view().dom(),
            self.order().no_duplicates(),
            forall|i: int| 0 <= i < self.order().len() ==> self.view().contains_key(#[trigger] self.order()[i]),
    {
        assert(self.order().to_set() =~= self.view().dom()) by {
            assert forall|k: Seq<char>| self.view().dom().contains(k) implies self.order().to_set().contains(k) by {
                let i = choose|i: int| 0 <= i < self.entries@.len() && #[trigger] self.entries@[i].0.view() == k;
                assert(self.order()[i] == k);
            }
            assert forall|k: Seq<char>| self.order().to_set().contains(k) implies self.view().dom().contains(k) by {
                let i = choose|i: int| 0 <= i < self.order().len() && self.order()[i] == k;
                assert(self.entries@[i].0.view() == k);
            }
        }
        assert forall|i: int| 0 <= i < self.order().len() implies self.view().contains_key(#[trigger] self.order()[i]) by {
            assert(self.entries@[i].0.view() == self.order()[i]);
        }
        assert(self.order().no_duplicates()) by {
            assert forall|i: int, j: int| 0 <= i < self.order().len() && 0 <= j < self.order().len() && i != j
                implies self.order()[i] != self.order()[j] by {
                if i < j {
                    assert(self.entries@[i].0.view() != self.entries@[j].0.view());
                } else {
                    assert(self.entries@[j].0.view() != self.entries@[i].0.view());
                }
            }
        }
    }

    /// The storage position of a task.
    pub fn find(&self, uuid: &Uuid) -> (r: Option<usize>)
        requires
            self.wf(),
        ensures
            r is None <==> !self.view().contains_key(uuid.view()),
            r is Some ==> r->0 < self.order().len() && self.order()[r->0 as int] == uuid.view(),
    {
        let mut i: usize = 0;
        while i < self.entries.len()
            invariant
                self.wf(),
                i <= self.entries@.len(),
                forall|k: int| 0 <= k < i ==> #[trigger] self.entries@[k].0.view() != uuid.view(),
            decreases self.entries@.len() - i,
        {
            if self.entries[i].0.same(uuid) {
                return Some(i);
            }
            i = i + 1;
        }
        None
    }

    /// The properties of a task, if it exists.
    pub fn get(&self, uuid: &Uuid) -> (r: Option<TaskMap>)
        requires
            self.wf(),
        ensures
            r is Some <==> self.view().contains_key(uuid.view()),
            r is Some ==> r->0.wf() && r->0.view() == self.view()[uuid.view()],
    {
        match self.find(uuid) {
            Some(i) => {
                assert(self.entries@[i as int].1.wf());
                Some(self.entries[i].1.clone())
            },
            None => None,
        }
    }

    pub fn insert_new(&mut self, uuid: Uuid, data: TaskMap)
        requires
            old(self).wf(),
            uuid.wf(),
            data.wf(),
            !old(self).view().contains_key(uuid.view()),
        ensures
            final(self).wf(),
            final(self).view() == old(self).view().insert(uuid.view(), data.view()),
    {
        let ghost key = uuid.view();
        let ghost m = self.db@.insert(key, data.view());
        let ghost old_entries = self.entries@;
        self.entries.push((uuid, data));
        self.db = Ghost(m);
        proof {
            assert forall|j: int| 0 <= j < old_entries.len() implies #[trigger] self.entries@[j] == old_entries[j] by {}
            assert forall|j: int| 0 <= j < old_entries.len() implies old_entries[j].0.view() != key by {
                assert(old(self).db@.contains_key(old_entries[j].0.view()));
            }
            assert forall|k: Seq<char>| #[trigger] self.db@.contains_key(k) implies exists|j: int|
                0 <= j < self.entries@.len() && #[trigger] self.entries@[j].0.view() == k by {
                if k != key {
                    let j = choose|j: int| 0 <= j < old_entries.len() && #[trigger] old_entries[j].0.view() == k;
                    assert(self.entries@[j] == old_entries[j]);
                } else {
                    assert(self.entries@[old_entries.len() as int].0.view() == k);
                }
            }
        }
    }

    fn replace_at(&mut self, i: usize, data: TaskMap)
        requires
            old(self).wf(),
            data.wf(),
            i < old(self).order().len(),
        ensures
            final(self).wf(),
            final(self).order() == old(self).order(),
            final(self).view() == old(self).view().insert(old(self).order()[i as int], data.view()),
    {
        let ghost key = self.entries@[i as int].0.view();
        let ghost m = self.db@.insert(key, data.view());
        let ghost old_entries = self.entries@;
        let id = self.entries[i].0.clone();
        self.entries.set(i, (id, data));
        self.db = Ghost(m);
        proof {
            assert forall|j: int| 0 <= j < self.entries@.len() && j != i implies #[trigger] self.entries@[j] == old_entries[j] by {}
            assert forall|a: int, b: int| 0 <= a < b < self.entries@.len() implies
                #[trigger] self.entries@[a].0.view() != #[trigger] self.entries@[b].0.view() by {
                assert(old_entries[a].0.view() != old_entries[b].0.view());
            }
            assert forall|j: int| 0 <= j < self.entries@.len() implies (#[trigger] self.entries@[j]).0.wf()
                && self.entries@[j].1.wf() && self.db@.contains_key(self.entries@[j].0.view())
                && self.db@[self.entries@[j].0.view()] == self.entries@[j].1.view() by {
                if j != i {
                    assert(self.entries@[j] == old_entries[j]);
                    assert(old(self).db@.contains_key(old_entries[j].0.view()));
                    if j < i {
                        assert(old_entries[j].0.view() != old_entries[i as int].0.view());
                    } else {
                        assert(old_entries[i as int].0.view() != old_entries[j].0.view());
                    }
                }
            }
            assert forall|k: Seq<char>| #[trigger] self.db@.contains_key(k) implies exists|j: int|
                0 <= j < self.entries@.len() && #[trigger] self.entries@[j].0.view() == k by {
                let j = choose|j: int| 0 <= j < old_entries.len() && #[trigger] old_entries[j].0.view() == k;
                assert(self.entries@[j].0.view() == k);
            }
            assert(self.order() =~= old(self).order());
        }
    }

    fn remove_at(&mut self, i: usize)
        requires
            old(self).wf(),
            i < old(self).order().len(),
        ensures
            final(self).wf(),
            final(self).view() == old(self).view().remove(old(self).order()[i as int]),
    {
        let ghost key = self.entries@[i as int].0.view();
        let ghost m = self.db@.remove(key);
        let ghost old_entries = self.entries@;
        self.entries.remove(i);
        self.db = Ghost(m);
        proof {
            assert forall|j: int| 0 <= j < self.entries@.len() implies
                #[trigger] self.entries@[j] == old_entries[if j < i { j } else { j + 1 }] by {}
            assert forall|a: int, b: int| 0 <= a < b < self.entries@.len() implies
                #[trigger] self.entries@[a].0.view() != #[trigger] self.entries@[b].0.view() by {
                let a0 = if a < i { a } else { a + 1 };
                let b0 = if b < i { b } else { b + 1 };
                assert(self.entries@[a] == old_entries[a0]);
                assert(self.entries@[b] == old_entries[b0]);
            }
            assert forall|j: int| 0 <= j < self.entries@.len() implies (#[trigger] self.entries@[j]).0.wf()
                && self.entries@[j].1.wf() && self.db@.contains_key(self.entries@[j].0.view())
                && self.db@[self.entries@[j].0.view()] == self.entries@[j].1.view() by {
                let j0 = if j < i { j } else { j + 1 };
                assert(self.entries@[j] == old_entries[j0]);
                assert(old(self).db@.contains_key(old_entries[j0].0.view()));
                if j0 < i {
                    assert(old_entries[j0].0.view() != old_entries[i as int].0.view());
                } else {
                    assert(old_entries[i as int].0.view() != old_entries[j0].0.view());
                }
            }
            assert forall|k: Seq<char>| #[trigger] self.db@.contains_key(k) implies exists|j: int|
                0 <= j < self.entries@.len() && #[trigger] self.entries@[j].0.view() == k by {
                let j0 = choose|j: int| 0 <= j < old_entries.len() && #[trigger] old_entries[j].0.view() == k;
                assert(j0 != i);
                let j = if j0 < i { j0 } else { j0 - 1 };
                assert(self.entries@[j] == old_entries[j0]);
            }
        }
    }

    /// Applies one operation. Where it cannot apply, returns false and leaves the
    /// database as it was.
    pub fn apply(&mut self, op: &Operation) -> (r: bool)
        requires
            old(self).wf(),
            op.wf(),
        ensures
            final(self).wf(),
            r == (apply_op(old(self).view(), op.view()) is Some),
            r ==> final(self).view() == apply_op(old(self).view(), op.view())->0,
            !r ==> final(self).view() == old(self).view(),
    {
        match op {
            Operation::Create { uuid } => {
                if self.find(uuid).is_some() {
                    return false;
                }
                self.insert_new(uuid.clone(), TaskMap::new());
                true
            },
            Operation::Delete { uuid, .. } => {
                match self.find(uuid) {
                    Some(i) => {
                        self.remove_at(i);
                        true
                    },
                    None => false,
                }
            },
            Operation::Update { uuid, property, value, .. } => {
                match self.find(uuid) {
                    Some(i) => {
                        assert(self.entries@[i as int].1.wf());
                        let mut data = self.entries[i].1.clone();
                        let _ = data.set(property.as_str(), value.clone());
                        self.replace_at(i, data);
                        true
                    },
                    None => false,
                }
            },
            Operation::UndoPoint => true,
        }
    }
}

impl Clone for TaskDb {
    fn clone(&self) -> (r: Self)
        ensures
            r.view() == self.view(),
            self.wf() ==> r.wf(),
    {
        let mut entries: Vec<(Uuid, TaskMap)> = Vec::new();
        let mut i: usize = 0;
        while i < self.entries.len()
            invariant
                i <= self.entries@.len(),
                entries@.len() == i,
                forall|j: int| 0 <= j < i ==> (#[trigger] entries@[j]).0 == self.entries@[j].0
                    && entries@[j].1.view() == self.entries@[j].1.view()
                    && (self.entries@[j].1.wf() ==> entries@[j].1.wf()),
            decreases self.entries@.len() - i,
        {
            entries.push((self.entries[i].0.clone(), self.entries[i].1.clone()));
            i = i + 1;
        }
        let r = TaskDb { entries, db: Ghost(self.db@) };
        proof {
            if self.wf() {
                assert forall|k: Seq<char>| #[trigger] r.db@.contains_key(k) implies exists|j: int|
                    0 <= j < r.entries@.len() && #[trigger] r.entries@[j].0.view() == k by {
                    let j = choose|j: int| 0 <= j < self.entries@.len() && #[trigger] self.entries@[j].0.view() == k;
                    assert(r.entries@[j].0.view() == k);
                }
            }
        }
        r
    }
}

/// Applies the operations in order to a copy of `db`; the copy is returned only
/// if every one of them applied.
pub fn apply_all(db: &TaskDb, ops: &Vec<Operation>) -> (r: Option<TaskDb>)
    requires
        db.wf(),
        all_wf(ops@),
    ensures
        r is Some <==> apply_ops(db.view(), ops_view(ops@)) is Some,
        r is Some ==> r->0.wf() && r->0.view() == apply_ops(db.view(), ops_view(ops@))->0,
{
    let mut work = db.clone();
    let mut i: usize = 0;
    while i < ops.len()
        invariant
            all_wf(ops@),
            i <= ops@.len(),
            work.wf(),
            apply_ops(db.view(), ops_view(ops@.subrange(0, i as int))) == Some(work.view()),
        decreases ops@.len() - i,
    {
        let ghost prefix = ops_view(ops@.subrange(0, i as int));
        let ghost next = ops_view(ops@.subrange(0, i + 1));
        proof {
            assert(next.drop_last() =~= prefix);
            assert(next.last() == ops@[i as int].view());
            assert(ops@[i as int].wf());
        }
        let ghost before = work.view();
        if !work.apply(&ops[i]) {
            proof {
                assert(apply_ops(db.view(), next) == apply_op(before, next.last()));
                assert(ops_view(ops@).subrange(0, i + 1) =~= next);
                lemma_apply_ops_stuck(db.view(), ops_view(ops@), i as int + 1);
            }
            return None;
        }
        i = i + 1;
    }
    assert(ops@.subrange(0, i as int) =~= ops@);
    Some(work)
}

/// Once a prefix of the operations cannot apply, neither can the whole.
pub proof fn lemma_apply_ops_stuck(db: DbView, ops: Seq<OpView>, k: int)
    requires
        0 <= k <= ops.len(),
        apply_ops(db, ops.subrange(0, k)) is None,
    ensures
        apply_ops(db, ops) is None,
    decreases ops.len() - k,
{
    if k < ops.len() {
        let next = ops.subrange(0, k + 1);
        assert(next.drop_last() =~= ops.subrange(0, k));
        lemma_apply_ops_stuck(db, ops, k + 1);
    } else {
        assert(ops.subrange(0, k) =~= ops);
    }
}

/// Whether every record is an update of task `uuid`.
pub open spec fn updates_of(uuid: Seq<char>, ops: Seq<OpView>) -> bool {
    forall|i: int| 0 <= i < ops.len() ==> (#[trigger] ops[i] matches OpView::Update { uuid: u, .. } && u == uuid)
}

/// A task's properties after replaying update records on them, in order.
pub open spec fn replay(m: Map<Seq<char>, Seq<char>>, ops: Seq<OpView>) -> Map<Seq<char>, Seq<char>>
    decreases ops.len(),
{
    if ops.len() == 0 {
        m
    } else {
        let before = replay(m, ops.drop_last());
        match ops.last() {
            OpView::Update { property, value, .. } => apply_value(before, property, value),
            _ => before,
        }
    }
}

/// A handle write keeps the handle in step with its records: if the snapshot is
/// the replay of the records so far, then after the write it is the replay of
/// those records and the write's own.
pub proof fn lemma_write_extends_replay(
    start: Map<Seq<char>, Seq<char>>,
    recs: Seq<OpView>,
    uuid: Seq<char>,
    key: Seq<char>,
    value: Option<Seq<char>>,
    now: crate::timestamp::Timestamp,
)
    requires
        updates_of(uuid, recs),
    ensures
        updates_of(uuid, recs.push(update_record(uuid, replay(start, recs), key, value, now))),
        replay(start, recs.push(update_record(uuid, replay(start, recs), key, value, now)))
            == apply_value(replay(start, recs), key, value),
{
    let next = recs.push(update_record(uuid, replay(start, recs), key, value, now));
    assert(next.drop_last() =~= recs);
    assert forall|i: int| 0 <= i < next.len() implies (#[trigger] next[i] matches OpView::Update { uuid: u, .. } && u
        == uuid) by {
        if i < recs.len() {
            assert(next[i] == recs[i]);
        }
    }
}

/// Committing the update records of a task that storage holds leaves every
/// other task as it was and gives that task the replay of the records: after
/// a run of writes through one handle, storage holds what the handle shows.
pub proof fn lemma_commit_reflects_handle(db: DbView, uuid: Seq<char>, recs: Seq<OpView>)
    requires
        db.contains_key(uuid),
        updates_of(uuid, recs),
    ensures
        apply_ops(db, recs) == Some(db.insert(uuid, replay(db[uuid], recs))),
    decreases recs.len(),
{
    if recs.len() == 0 {
        assert(db.insert(uuid, db[uuid]) =~= db);
    } else {
        let prefix = recs.drop_last();
        assert forall|i: int| 0 <= i < prefix.len() implies (#[trigger] prefix[i] matches OpView::Update { uuid: u, .. }
            && u == uuid) by {
            assert(prefix[i] == recs[i]);
        }
        lemma_commit_reflects_handle(db, uuid, prefix);
        let last = recs.last();
        assert(recs[recs.len() - 1] == last);
        let mid = db.insert(uuid, replay(db[uuid], prefix));
        assert(mid.contains_key(uuid));
        assert(mid.insert(uuid, apply_value(mid[uuid], last->Update_property, last->Update_value)) =~= db.insert(
            uuid,
            replay(db[uuid], recs),
        ));
    }
}

/// Applying two runs of operations one after the other is applying their concatenation.
pub proof fn lemma_apply_concat(db: DbView, a: Seq<OpView>, b: Seq<OpView>)
    ensures
        apply_ops(db, a + b) == match apply_ops(db, a) {
            Some(d) => apply_ops(d, b),
            None => None,
        },
    decreases b.len(),
{
    if b.len() == 0 {
        assert(a + b =~= a);
    } else {
        lemma_apply_concat(db, a, b.drop_last());
        assert((a + b).drop_last() =~= a + b.drop_last());
        assert((a + b).last() == b.last());
    }
}

/// Committing a log that creates a task and then holds the writes made through
/// its handle leaves storage holding exactly what the handle shows: the writes
/// replayed on an empty task.
pub proof fn lemma_commit_new_task(db: DbView, uuid: Seq<char>, recs: Seq<OpView>)
    requires
        !db.contains_key(uuid),
        updates_of(uuid, recs),
    ensures
        apply_ops(db, seq![OpView::Create { uuid }] + recs) == Some(
            db.insert(uuid, replay(Map::empty(), recs)),
        ),
{
    let first = seq![OpView::Create { uuid }];
    assert(first.drop_last() =~= Seq::<OpView>::empty());
    assert(apply_ops(db, Seq::<OpView>::empty()) == Some(db));
    assert(first.last() == OpView::Create { uuid });
    assert(apply_ops(db, first) == Some(db.insert(uuid, Map::empty())));
    lemma_apply_concat(db, first, recs);
    let created = db.insert(uuid, Map::<Seq<char>, Seq<char>>::empty());
    lemma_commit_reflects_handle(created, uuid, recs);
    assert(created.insert(uuid, replay(created[uuid], recs)) =~= db.insert(uuid, replay(Map::empty(), recs)));
}

} // verus!
