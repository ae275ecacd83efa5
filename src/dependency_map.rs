use vstd::prelude::*;
use crate::error::{Error, ErrorKind};
use crate::thread_guard::{ThreadBound, ThreadToken};
use crate::uuid::{Uuid, uuid2tc, uuid_text, canonical_uuid};

verus! {

/// An edge `(a, b)`: task `a` depends on task `b`.
pub open spec fn edges_view(v: Seq<(Uuid, Uuid)>) -> Seq<(Seq<char>, Seq<char>)> {
    v.map_values(|e: (Uuid, Uuid)| (e.0.view(), e.1.view()))
}

/// The tasks that `u` depends on, in edge order.
pub open spec fn dependencies_of(edges: Seq<(Seq<char>, Seq<char>)>, u: Seq<char>) -> Seq<Seq<char>>
    decreases edges.len(),
{
    if edges.len() == 0 {
        Seq::empty()
    } else {
        let rest = dependencies_of(edges.drop_last(), u);
        if edges.last().0 == u {
            rest.push(edges.last().1)
        } else {
            rest
        }
    }
}

/// The tasks that depend on `u`, in edge order.
pub open spec fn dependents_of(edges: Seq<(Seq<char>, Seq<char>)>, u: Seq<char>) -> Seq<Seq<char>>
    decreases edges.len(),
{
    if edges.len() == 0 {
        Seq::empty()
    } else {
        let rest = dependents_of(edges.drop_last(), u);
        if edges.last().1 == u {
            rest.push(edges.last().0)
        } else {
            rest
        }
    }
}

pub open spec fn strings_view(v: Seq<String>) -> Seq<Seq<char>> {
    v.map_values(|s: String| s@)
}

/// Which tasks depend on which, taken at one moment and then fixed.
#[derive(Debug)]
pub struct DependencyMap {
    inner: ThreadBound<Vec<(Uuid, Uuid)>>,
}

impl DependencyMap {
    pub closed spec fn view(&self) -> Seq<(Seq<char>, Seq<char>)> {
        edges_view(self.inner.value()@)
    }

    pub closed spec fn owner(&self) -> ThreadToken {
        self.inner.owner()
    }

    pub fn from_tc_dependency_map(edges: Vec<(Uuid, Uuid)>, thread: ThreadToken) -> (r: DependencyMap)
        ensures
            r.view() == edges_view(edges@),
            r.owner() == thread,
    {
        DependencyMap { inner: ThreadBound::new(edges, thread) }
    }

    /// The tasks that `uuid` depends on. A malformed identifier is rejected.
    pub fn dependencies(&self, uuid: &str, thread: ThreadToken) -> (r: Result<Vec<String>, Error>)
        ensures
            r is Ok <==> uuid_text(uuid@) && thread == self.owner(),
            r is Ok ==> strings_view(r->Ok_0@) == dependencies_of(self.view(), canonical_uuid(uuid@)),
            r is Err && !uuid_text(uuid@) ==> r->Err_0.kind == ErrorKind::Validation,
            r is Err && uuid_text(uuid@) ==> r->Err_0.kind == ErrorKind::Thread,
    {
        let id = uuid2tc(uuid)?;
        let edges = self.inner.get(thread)?;
        let mut out: Vec<String> = Vec::new();
        let mut i: usize = 0;
        while i < edges.len()
            invariant
                i <= edges@.len(),
                strings_view(out@) == dependencies_of(edges_view(edges@).subrange(0, i as int), id.view()),
            decreases edges@.len() - i,
        {
            let ghost prev = edges_view(edges@).subrange(0, i as int);
            let ghost next = edges_view(edges@).subrange(0, i + 1);
            proof {
                assert(next.drop_last() =~= prev);
            }
            if edges[i].0.same(&id) {
                out.push(edges[i].1.to_string());
                proof {
                    assert(strings_view(out@) =~= dependencies_of(prev, id.view()).push(edges@[i as int].1.view()));
                }
            }
            i = i + 1;
        }
        assert(edges_view(edges@).subrange(0, i as int) =~= edges_view(edges@));
        Ok(out)
    }

    /// The tasks that depend on `uuid`. A malformed identifier is rejected.
    pub fn dependents(&self, uuid: &str, thread: ThreadToken) -> (r: Result<Vec<String>, Error>)
        ensures
            r is Ok <==> uuid_text(uuid@) && thread == self.owner(),
            r is Ok ==> strings_view(r->Ok_0@) == dependents_of(self.view(), canonical_uuid(uuid@)),
            r is Err && !uuid_text(uuid@) ==> r->Err_0.kind == ErrorKind::Validation,
            r is Err && uuid_text(uuid@) ==> r->Err_0.kind == ErrorKind::Thread,
    {
        let id = uuid2tc(uuid)?;
        let edges = self.inner.get(thread)?;
        let mut out: Vec<String> = Vec::new();
        let mut i: usize = 0;
        while i < edges.len()
            invariant
                i <= edges@.len(),
                strings_view(out@) == dependents_of(edges_view(edges@).subrange(0, i as int), id.view()),
            decreases edges@.len() - i,
        {
            let ghost prev = edges_view(edges@).subrange(0, i as int);
            let ghost next = edges_view(edges@).subrange(0, i + 1);
            proof {
                assert(next.drop_last() =~= prev);
            }
            if edges[i].1.same(&id) {
                out.push(edges[i].0.to_string());
                proof {
                    assert(strings_view(out@) =~= dependents_of(prev, id.view()).push(edges@[i as int].0.view()));
                }
            }
            i = i + 1;
        }
        assert(edges_view(edges@).subrange(0, i as int) =~= edges_view(edges@));
        Ok(out)
    }

    /// Whether `uuid` depends on any task.
    pub fn has_dependency(&self, uuid: &str, thread: ThreadToken) -> (r: Result<bool, Error>)
        ensures
            r is Ok <==> uuid_text(uuid@) && thread == self.owner(),
            r is Ok ==> r->Ok_0 == (dependencies_of(self.view(), canonical_uuid(uuid@)).len() > 0),
            r is Err && !uuid_text(uuid@) ==> r->Err_0.kind == ErrorKind::Validation,
            r is Err && uuid_text(uuid@) ==> r->Err_0.kind == ErrorKind::Thread,
    {
        let deps = self.dependencies(uuid, thread)?;
        Ok(deps.len() > 0)
    }

    pub fn inspect(&self) -> (r: &'static str)
        ensures
            r@ == "#<Taskchampion::DependencyMap>"@,
    {
        "#<Taskchampion::DependencyMap>"
    }
}

} // verus!
