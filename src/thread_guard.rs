use vstd::prelude::*;
use crate::error::{Error, ErrorKind, thread_error};

verus! {

/// The identity of an execution context. Whoever runs the library hands the
/// token of the calling thread to each access of a confined object.
#[derive(PartialEq, Eq, Structural, Clone, Copy, Debug)]
pub struct ThreadToken {
    pub id: u64,
}

/// A value confined to the thread that created it: every access names the
/// calling thread and fails, changing nothing, when that is another thread.
#[derive(Debug)]
pub struct ThreadBound<T> {
    inner: T,
    thread_id: ThreadToken,
}

impl<T> ThreadBound<T> {
    pub closed spec fn value(&self) -> T {
        self.inner
    }

    pub closed spec fn owner(&self) -> ThreadToken {
        self.thread_id
    }

    pub fn new(inner: T, thread: ThreadToken) -> (r: Self)
        ensures
            r.value() == inner,
            r.owner() == thread,
    {
        ThreadBound { inner, thread_id: thread }
    }

    pub fn owner_thread(&self) -> (r: ThreadToken)
        ensures
            r == self.owner(),
    {
        self.thread_id
    }

    pub fn check_thread(&self, current: ThreadToken) -> (r: Result<(), Error>)
        ensures
            r is Ok <==> current == self.owner(),
            r is Err ==> r->Err_0.kind == ErrorKind::Thread,
    {
        if self.thread_id != current {
            return Err(thread_error("Object cannot be accessed from a different thread"));
        }
        Ok(())
    }

    pub fn get(&self, current: ThreadToken) -> (r: Result<&T, Error>)
        ensures
            r is Ok <==> current == self.owner(),
            r is Ok ==> *r->Ok_0 == self.value(),
            r is Err ==> r->Err_0.kind == ErrorKind::Thread,
    {
        self.check_thread(current)?;
        Ok(&self.inner)
    }

    pub fn get_mut(&mut self, current: ThreadToken) -> (r: Result<&mut T, Error>)
        ensures
            r is Ok <==> current == old(self).owner(),
            r is Ok ==> *r->Ok_0 == old(self).value(),
            r is Ok ==> final(self).value() == *final(r->Ok_0),
            final(self).owner() == old(self).owner(),
            r is Err ==> r->Err_0.kind == ErrorKind::Thread && *final(self) == *old(self),
    {
        self.check_thread(current)?;
        Ok(&mut self.inner)
    }

    pub fn into_inner(self, current: ThreadToken) -> (r: Result<T, Error>)
        ensures
            r is Ok <==> current == self.owner(),
            r is Ok ==> r->Ok_0 == self.value(),
            r is Err ==> r->Err_0.kind == ErrorKind::Thread,
    {
        if self.thread_id != current {
            return Err(thread_error("Object cannot be extracted from a different thread"));
        }
        Ok(self.inner)
    }
}

impl<T> ThreadBound<T> {
    /// Whether an access from `thread` is admitted.
    pub open spec fn admits(&self, thread: ThreadToken) -> bool {
        thread == self.owner()
    }
}

/// Confinement survives a refused access: a guard made on thread `a` refuses
/// thread `b`, and whatever a refused access leaves behind (the guard as it
/// was, with its value) still admits `a`.
pub proof fn lemma_confinement_survives_refusal<T>(made: ThreadBound<T>, after: ThreadBound<T>, a: ThreadToken, b: ThreadToken)
    requires
        made.owner() == a,
        a != b,
        after.owner() == made.owner(),
        after.value() == made.value(),
    ensures
        !made.admits(b),
        after.admits(a),
        !after.admits(b),
{
}

} // verus!
