use vstd::prelude::*;
use crate::error::{Error, ErrorKind, validation_error};
use crate::text::{decimal_text, u64_to_text};
use crate::thread_guard::{ThreadBound, ThreadToken};
use crate::uuid::{Uuid, uuid2tc, uuid_text, canonical_uuid};

verus! {

pub open spec fn slot_view(s: Option<Uuid>) -> Option<Seq<char>> {
    match s {
        Some(u) => Some(u.view()),
        None => None,
    }
}

pub open spec fn slots_view(v: Seq<Option<Uuid>>) -> Seq<Option<Seq<char>>> {
    v.map_values(|s: Option<Uuid>| slot_view(s))
}

/// No task holds two indices.
pub open spec fn distinct_slots(s: Seq<Option<Seq<char>>>) -> bool {
    forall|i: int, j: int|
        0 <= i < s.len() && 0 <= j < s.len() && i != j && #[trigger] s[i] is Some && #[trigger] s[j] is Some
            ==> s[i]->0 != s[j]->0
}

/// The task at a working-set index. Index 0 is never used: the first task is at 1.
pub open spec fn slot_at(s: Seq<Option<Seq<char>>>, index: int) -> Option<Seq<char>> {
    if 1 <= index <= s.len() {
        s[index - 1]
    } else {
        None
    }
}

/// The working-set index of a task.
pub open spec fn index_of(s: Seq<Option<Seq<char>>>, u: Seq<char>) -> Option<int> {
    if exists|i: int| 1 <= i <= s.len() && #[trigger] slot_at(s, i) == Some(u) {
        Some(choose|i: int| 1 <= i <= s.len() && #[trigger] slot_at(s, i) == Some(u))
    } else {
        None
    }
}

/// A numbering of tasks by small integers, taken at one moment and then fixed.
#[derive(Debug)]
pub struct WorkingSet {
    inner: ThreadBound<Vec<Option<Uuid>>>,
}

impl WorkingSet {
    pub closed spec fn view(&self) -> Seq<Option<Seq<char>>> {
        slots_view(self.inner.value()@)
    }

    pub closed spec fn owner(&self) -> ThreadToken {
        self.inner.owner()
    }

    pub open spec fn wf(&self) -> bool {
        distinct_slots(self.view())
    }

    /// A working set whose index `i` holds `slots[i - 1]`. No task may hold two indices.
    pub fn from_tc_working_set(slots: Vec<Option<Uuid>>, thread: ThreadToken) -> (r: Result<WorkingSet, Error>)
        ensures
            r is Ok <==> distinct_slots(slots_view(slots@)),
            r is Ok ==> r->Ok_0.wf() && r->Ok_0.view() == slots_view(slots@) && r->Ok_0.owner() == thread,
            r is Err ==> r->Err_0.kind == ErrorKind::Validation,
    {
        let ghost sv = slots_view(slots@);
        let n = slots.len();
        let mut i: usize = 0;
        while i < n
            invariant
                n == slots@.len() == sv.len(),
                sv == slots_view(slots@),
                i <= n,
                forall|a: int, b: int|
                    0 <= a < i && 0 <= b < n && a != b && #[trigger] sv[a] is Some && #[trigger] sv[b] is Some
                        ==> sv[a]->0 != sv[b]->0,
            decreases n - i,
        {
            if let Some(u) = &slots[i] {
                let mut j: usize = 0;
                while j < n
                    invariant
                        n == slots@.len() == sv.len(),
                        sv == slots_view(slots@),
                        i < n,
                        j <= n,
                        slots@[i as int] == Some(*u),
                        forall|a: int, b: int|
                            0 <= a < i && 0 <= b < n && a != b && #[trigger] sv[a] is Some && #[trigger] sv[b] is Some
                                ==> sv[a]->0 != sv[b]->0,
                        forall|b: int| 0 <= b < j && b != i && #[trigger] sv[b] is Some ==> sv[b]->0 != u.view(),
                    decreases n - j,
                {
                    if j != i {
                        if let Some(w) = &slots[j] {
                            if w.same(u) {
                                proof {
                                    assert(sv[i as int] is Some && sv[j as int] is Some);
                                }
                                return Err(validation_error("A task cannot hold two working-set indices"));
                            }
                        }
                    }
                    j = j + 1;
                }
            }
            i = i + 1;
        }
        Ok(WorkingSet { inner: ThreadBound::new(slots, thread) })
    }

    /// The largest index the set numbers.
    pub fn largest_index(&self, thread: ThreadToken) -> (r: Result<usize, Error>)
        ensures
            r is Ok <==> thread == self.owner(),
            r is Ok ==> r->Ok_0 == self.view().len(),
            r is Err ==> r->Err_0.kind == ErrorKind::Thread,
    {
        let slots = self.inner.get(thread)?;
        Ok(slots.len())
    }

    /// The task at an index; `None` for index 0, a free index, or one past the end.
    pub fn by_index(&self, index: usize, thread: ThreadToken) -> (r: Result<Option<String>, Error>)
        ensures
            r is Ok <==> thread == self.owner(),
            r is Ok ==> match r->Ok_0 {
                Some(s) => slot_at(self.view(), index as int) == Some(s@),
                None => slot_at(self.view(), index as int) is None,
            },
            r is Err ==> r->Err_0.kind == ErrorKind::Thread,
    {
        let slots = self.inner.get(thread)?;
        if index == 0 || index > slots.len() {
            return Ok(None);
        }
        match &slots[index - 1] {
            Some(u) => Ok(Some(u.to_string())),
            None => Ok(None),
        }
    }

    /// The index of a task; `None` for a task the set does not number. A
    /// malformed identifier is rejected.
    pub fn by_uuid(&self, uuid: &str, thread: ThreadToken) -> (r: Result<Option<usize>, Error>)
        requires
            self.wf(),
        ensures
            r is Ok <==> uuid_text(uuid@) && thread == self.owner(),
            r is Ok ==> match r->Ok_0 {
                Some(i) => index_of(self.view(), canonical_uuid(uuid@)) == Some(i as int),
                None => index_of(self.view(), canonical_uuid(uuid@)) is None,
            },
            r is Err && !uuid_text(uuid@) ==> r->Err_0.kind == ErrorKind::Validation,
            r is Err && uuid_text(uuid@) ==> r->Err_0.kind == ErrorKind::Thread,
    {
        let id = uuid2tc(uuid)?;
        let slots = self.inner.get(thread)?;
        let ghost sv = self.view();
        let ghost u = id.view();
        let mut i: usize = 0;
        while i < slots.len()
            invariant
                sv == slots_view(slots@),
                distinct_slots(sv),
                sv == self.view(),
                u == id.view(),
                u == canonical_uuid(uuid@),
                uuid_text(uuid@),
                thread == self.owner(),
                i <= slots@.len(),
                forall|k: int| 0 <= k < i ==> #[trigger] sv[k] != Some(u),
            decreases slots@.len() - i,
        {
            if let Some(w) = &slots[i] {
                if w.same(&id) {
                    proof {
                        assert(sv[i as int] == Some(u));
                        assert(slot_at(sv, i + 1) == Some(u));
                        let c = choose|c: int| 1 <= c <= sv.len() && #[trigger] slot_at(sv, c) == Some(u);
                        assert(sv[c - 1] is Some && sv[i as int] is Some);
                    }
                    return Ok(Some(i + 1));
                }
            }
            i = i + 1;
        }
        proof {
            assert forall|c: int| 1 <= c <= sv.len() implies #[trigger] slot_at(sv, c) != Some(u) by {
                assert(sv[c - 1] != Some(u));
            }
        }
        Ok(None)
    }

    pub fn inspect(&self, thread: ThreadToken) -> (r: Result<String, Error>)
        ensures
            r is Ok <==> thread == self.owner(),
            r is Ok ==> r->Ok_0@ == "#<Taskchampion::WorkingSet: largest_index="@ + decimal_text(self.view().len())
                + ">"@,
            r is Err ==> r->Err_0.kind == ErrorKind::Thread,
    {
        let n = self.largest_index(thread)?;
        let mut t = String::from_str("#<Taskchampion::WorkingSet: largest_index=");
        let digits = u64_to_text(n as u64);
        t.append(digits.as_str());
        t.append(">");
        Ok(t)
    }
}

/// Index and identifier lookups are inverse to each other: a task sits at an
/// index exactly when that index is the one its identifier looks up.
pub proof fn lemma_index_uuid_inverse(s: Seq<Option<Seq<char>>>, index: int, u: Seq<char>)
    requires
        distinct_slots(s),
    ensures
        slot_at(s, index) == Some(u) <==> index_of(s, u) == Some(index),
{
    if slot_at(s, index) == Some(u) {
        let c = choose|c: int| 1 <= c <= s.len() && #[trigger] slot_at(s, c) == Some(u);
        assert(s[c - 1] is Some && s[index - 1] is Some);
    }
    if index_of(s, u) == Some(index) {
        let c = choose|c: int| 1 <= c <= s.len() && #[trigger] slot_at(s, c) == Some(u);
        assert(c == index);
    }
}

} // verus!
