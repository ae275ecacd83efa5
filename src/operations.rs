use vstd::prelude::*;
use crate::error::{Error, ErrorKind};
use crate::operation::{Operation, OpView};
use crate::text::{decimal_text, u64_to_text};
use crate::thread_guard::{ThreadBound, ThreadToken};

verus! {

pub open spec fn ops_view(v: Seq<Operation>) -> Seq<OpView> {
    v.map_values(|o: Operation| o.view())
}

pub open spec fn all_wf(v: Seq<Operation>) -> bool {
    forall|i: int| 0 <= i < v.len() ==> (#[trigger] v[i]).wf()
}

/// The position that `index` names in a sequence of length `len`: a negative
/// index counts back from the end.
pub open spec fn resolve_index(len: int, index: int) -> int {
    if index < 0 {
        len + index
    } else {
        index
    }
}

/// An ordered log of pending operations, confined to the thread that made it.
pub struct Operations {
    inner: ThreadBound<Vec<Operation>>,
}

impl Operations {
    pub closed spec fn view(&self) -> Seq<OpView> {
        ops_view(self.inner.value()@)
    }

    pub closed spec fn owner(&self) -> ThreadToken {
        self.inner.owner()
    }

    pub closed spec fn wf(&self) -> bool {
        all_wf(self.inner.value()@)
    }

    pub fn new(thread: ThreadToken) -> (r: Self)
        ensures
            r.wf(),
            r.view() == Seq::<OpView>::empty(),
            r.owner() == thread,
    {
        let r = Operations { inner: ThreadBound::new(Vec::new(), thread) };
        assert(r.view() =~= Seq::<OpView>::empty());
        r
    }

    /// A log holding `ops`, in their order.
    pub fn from_tc_operations(ops: Vec<Operation>, thread: ThreadToken) -> (r: Self)
        requires
            all_wf(ops@),
        ensures
            r.wf(),
            r.view() == ops_view(ops@),
            r.owner() == thread,
    {
        Operations { inner: ThreadBound::new(ops, thread) }
    }

    /// Appends one operation (the log keeps its own copy).
    pub fn push(&mut self, operation: &Operation, thread: ThreadToken) -> (r: Result<(), Error>)
        requires
            old(self).wf(),
            operation.wf(),
        ensures
            final(self).wf(),
            final(self).owner() == old(self).owner(),
            r is Ok <==> thread == old(self).owner(),
            r is Ok ==> final(self).view() == old(self).view().push(operation.view()),
            r is Err ==> r->Err_0.kind == ErrorKind::Thread && final(self).view() == old(self).view(),
    {
        let op = operation.clone();
        self.append(op, thread)
    }

    /// Appends one operation, taking it.
    pub fn append(&mut self, operation: Operation, thread: ThreadToken) -> (r: Result<(), Error>)
        requires
            old(self).wf(),
            operation.wf(),
        ensures
            final(self).wf(),
            final(self).owner() == old(self).owner(),
            r is Ok <==> thread == old(self).owner(),
            r is Ok ==> final(self).view() == old(self).view().push(operation.view()),
            r is Err ==> r->Err_0.kind == ErrorKind::Thread && final(self).view() == old(self).view(),
    {
        let v = self.inner.get_mut(thread)?;
        v.push(operation);
        proof {
            assert(ops_view(self.inner.value()@) =~= ops_view(old(self).inner.value()@).push(operation.view()));
        }
        Ok(())
    }

    pub fn len(&self, thread: ThreadToken) -> (r: Result<usize, Error>)
        ensures
            r is Ok <==> thread == self.owner(),
            r is Ok ==> r->Ok_0 == self.view().len(),
            r is Err ==> r->Err_0.kind == ErrorKind::Thread,
    {
        let v = self.inner.get(thread)?;
        Ok(v.len())
    }

    pub fn empty(&self, thread: ThreadToken) -> (r: Result<bool, Error>)
        ensures
            r is Ok <==> thread == self.owner(),
            r is Ok ==> r->Ok_0 == (self.view().len() == 0),
            r is Err ==> r->Err_0.kind == ErrorKind::Thread,
    {
        let v = self.inner.get(thread)?;
        Ok(v.len() == 0)
    }
    /// The operation at `index`; a negative index counts back from the end, and
    /// a position outside the log gives `None`.
    pub fn get(&self, index: isize, thread: ThreadToken) -> (r: Result<Option<Operation>, Error>)
        requires
            self.wf(),
        ensures
            r is Ok <==> thread == self.owner(),
            r is Ok ==> (r->Ok_0 is Some <==> 0 <= resolve_index(self.view().len() as int, index as int)
                < self.view().len()),
            r is Ok && r->Ok_0 is Some ==> r->Ok_0->0.wf() && r->Ok_0->0.view()
                == self.view()[resolve_index(self.view().len() as int, index as int)],
            r is Err ==> r->Err_0.kind == ErrorKind::Thread,
    {
        let v = self.inner.get(thread)?;
        let len = v.len();
        if index < 0 {
            let back: usize = ((-(index + 1)) as usize) + 1;
            if back > len {
                return Ok(None);
            }
            let op = v[len - back].clone();
            assert(all_wf(v@) && v@[len - back].wf());
            Ok(Some(op))
        } else {
            let i = index as usize;
            if i >= len {
                return Ok(None);
            }
            let op = v[i].clone();
            assert(all_wf(v@) && v@[i as int].wf());
            Ok(Some(op))
        }
    }

    /// Copies of all operations, in order.
    pub fn to_array(&self, thread: ThreadToken) -> (r: Result<Vec<Operation>, Error>)
        requires
            self.wf(),
        ensures
            r is Ok <==> thread == self.owner(),
            r is Ok ==> ops_view(r->Ok_0@) == self.view() && all_wf(r->Ok_0@),
            r is Err ==> r->Err_0.kind == ErrorKind::Thread,
    {
        let v = self.inner.get(thread)?;
        let mut out: Vec<Operation> = Vec::new();
        let mut i: usize = 0;
        while i < v.len()
            invariant
                all_wf(v@),
                i <= v@.len(),
                out@.len() == i,
                all_wf(out@),
                forall|j: int| 0 <= j < i ==> (#[trigger] out@[j]).view() == v@[j].view(),
            decreases v@.len() - i,
        {
            assert(v@[i as int].wf());
            out.push(v[i].clone());
            i = i + 1;
        }
        assert(ops_view(out@) =~= ops_view(v@));
        Ok(out)
    }

    /// The pending operations, for committing.
    pub fn clone_inner(&self, thread: ThreadToken) -> (r: Result<Vec<Operation>, Error>)
        requires
            self.wf(),
        ensures
            r is Ok <==> thread == self.owner(),
            r is Ok ==> ops_view(r->Ok_0@) == self.view() && all_wf(r->Ok_0@),
            r is Err ==> r->Err_0.kind == ErrorKind::Thread,
    {
        self.to_array(thread)
    }

    /// Empties the log; what it held is discarded.
    pub fn clear(&mut self, thread: ThreadToken) -> (r: Result<(), Error>)
        requires
            old(self).wf(),
        ensures
            final(self).wf(),
            final(self).owner() == old(self).owner(),
            r is Ok <==> thread == old(self).owner(),
            r is Ok ==> final(self).view() == Seq::<OpView>::empty(),
            r is Err ==> r->Err_0.kind == ErrorKind::Thread && final(self).view() == old(self).view(),
    {
        let v = self.inner.get_mut(thread)?;
        v.clear();
        proof {
            assert(ops_view(self.inner.value()@) =~= Seq::<OpView>::empty());
        }
        Ok(())
    }

    /// Appends each of `ops`, in order.
    pub fn extend_from_tc(&mut self, ops: Vec<Operation>, thread: ThreadToken) -> (r: Result<(), Error>)
        requires
            old(self).wf(),
            all_wf(ops@),
        ensures
            final(self).wf(),
            final(self).owner() == old(self).owner(),
            r is Ok <==> thread == old(self).owner(),
            r is Ok ==> final(self).view() == old(self).view() + ops_view(ops@),
            r is Err ==> r->Err_0.kind == ErrorKind::Thread && final(self).view() == old(self).view(),
    {
        let v = self.inner.get_mut(thread)?;
        let ghost start = v@;
        let mut i: usize = 0;
        while i < ops.len()
            invariant
                all_wf(ops@),
                all_wf(start),
                i <= ops@.len(),
                all_wf(v@),
                ops_view(v@) == ops_view(start) + ops_view(ops@.subrange(0, i as int)),
            decreases ops@.len() - i,
        {
            assert(ops@[i as int].wf());
            let ghost before = v@;
            v.push(ops[i].clone());
            proof {
                assert(ops_view(ops@.subrange(0, i + 1)) =~= ops_view(ops@.subrange(0, i as int)).push(ops@[i as int].view()));
                assert(ops_view(v@) =~= ops_view(before).push(ops@[i as int].view()));
            }
            i = i + 1;
        }
        assert(ops@.subrange(0, i as int) =~= ops@);
        Ok(())
    }

    /// A short rendition naming the number of operations.
    pub fn inspect(&self, thread: ThreadToken) -> (r: Result<String, Error>)
        ensures
            r is Ok <==> thread == self.owner(),
            r is Ok ==> r->Ok_0@ == "#<Taskchampion::Operations: "@ + decimal_text(self.view().len())
                + " operations>"@,
            r is Err ==> r->Err_0.kind == ErrorKind::Thread,
    {
        let n = self.len(thread)?;
        let mut t = String::from_str("#<Taskchampion::Operations: ");
        let digits = u64_to_text(n as u64);
        t.append(digits.as_str());
        t.append(" operations>");
        Ok(t)
    }
}

impl Operations {
    pub fn check_thread(&self, thread: ThreadToken) -> (r: Result<(), Error>)
        ensures
            r is Ok <==> thread == self.owner(),
            r is Err ==> r->Err_0.kind == ErrorKind::Thread,
    {
        self.inner.check_thread(thread)
    }
}

/// Negative indices count back from the end: `-k` names the same position as
/// `len - k`, and one that reaches before the start names no position.
pub proof fn lemma_negative_index(len: int, k: int)
    requires
        0 <= len,
        1 <= k,
    ensures
        k <= len ==> resolve_index(len, -k) == resolve_index(len, len - k) && 0 <= resolve_index(len, -k) < len,
        k > len ==> resolve_index(len, -k) < 0,
{
}

} // verus!
