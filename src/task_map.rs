use vstd::prelude::*;

verus! {

/// The properties of one task: distinct names, each with a text value, kept in
/// the order in which they were first set.
pub struct TaskMap {
    entries: Vec<(String, String)>,
    map: Ghost<Map<Seq<char>, Seq<char>>>,
}

impl TaskMap {
    pub closed spec fn view(&self) -> Map<Seq<char>, Seq<char>> {
        self.map@
    }

    /// The property names in the order in which they were first set.
    pub closed spec fn names(&self) -> Seq<Seq<char>> {
        self.entries@.map_values(|e: (String, String)| e.0@)
    }

    pub closed spec fn wf(&self) -> bool {
        &&& forall|i: int, j: int|
            0 <= i < j < self.entries@.len() ==> #[trigger] self.entries@[i].0@ != #[trigger] self.entries@[j].0@
        &&& forall|i: int|
            0 <= i < self.entries@.len() ==> #[trigger] self.map@.contains_key(self.entries@[i].0@)
                && self.map@[self.entries@[i].0@] == self.entries@[i].1@
        &&& forall|k: Seq<char>|
            #[trigger] self.map@.contains_key(k) ==> exists|i: int|
                0 <= i < self.entries@.len() && #[trigger] self.entries@[i].0@ == k
    }

    pub proof fn lemma_names(&self)
        requires
            self.wf(),
        ensures
            self.names().to_set() == self.view().dom(),
            self.names().no_duplicates(),
            self.names().len() == self.view().dom().len(),
    {
        assert(self.names().to_set() =~= self.view().dom()) by {
            assert forall|k: Seq<char>| self.view().dom().contains(k) implies self.names().to_set().contains(k) by {
                let i = choose|i: int| 0 <= i < self.entries@.len() && #[trigger] self.entries@[i].0@ == k;
                assert(self.names()[i] == k);
            }
        }
        assert(self.names().no_duplicates()) by {
            assert forall|i: int, j: int| 0 <= i < self.names().len() && 0 <= j < self.names().len() && i != j
                implies self.names()[i] != self.names()[j] by {
                if i < j {
                    assert(self.entries@[i].0@ != self.entries@[j].0@);
                } else {
                    assert(self.entries@[j].0@ != self.entries@[i].0@);
                }
            }
        }
        self.names().unique_seq_to_set();
    }

    pub fn new() -> (r: Self)
        ensures
            r.wf(),
            r.view() == Map::<Seq<char>, Seq<char>>::empty(),
            r.names() == Seq::<Seq<char>>::empty(),
    {
        let r = TaskMap { entries: Vec::new(), map: Ghost(Map::empty()) };
        assert(r.names() =~= Seq::<Seq<char>>::empty());
        r
    }

    fn find(&self, key: &String) -> (r: Option<usize>)
        requires
            self.wf(),
        ensures
            r is None <==> !self.view().contains_key(key@),
            r is Some ==> r->0 < self.entries@.len() && self.entries@[r->0 as int].0@ == key@,
    {
        let mut i: usize = 0;
        while i < self.entries.len()
            invariant
                self.wf(),
                i <= self.entries@.len(),
                forall|k: int| 0 <= k < i ==> #[trigger] self.entries@[k].0@ != key@,
            decreases self.entries@.len() - i,
        {
            if self.entries[i].0 == *key {
                return Some(i);
            }
            i = i + 1;
        }
        None
    }

    /// The value of a property, if it is set.
    pub fn get(&self, key: &str) -> (r: Option<String>)
        requires
            self.wf(),
        ensures
            r is Some <==> self.view().contains_key(key@),
            r is Some ==> r->0@ == self.view()[key@],
    {
        let k = String::from_str(key);
        match self.find(&k) {
            Some(i) => Some(self.entries[i].1.clone()),
            None => None,
        }
    }

    pub fn has(&self, key: &str) -> (r: bool)
        requires
            self.wf(),
        ensures
            r == self.view().contains_key(key@),
    {
        let k = String::from_str(key);
        self.find(&k).is_some()
    }

    /// Sets a property to `value`, or removes it when `value` is `None`; returns
    /// the value it had before.
    pub fn set(&mut self, key: &str, value: Option<String>) -> (r: Option<String>)
        requires
            old(self).wf(),
        ensures
            final(self).wf(),
            r is Some <==> old(self).view().contains_key(key@),
            r is Some ==> r->0@ == old(self).view()[key@],
            final(self).view() == (match value {
                Some(v) => old(self).view().insert(key@, v@),
                None => old(self).view().remove(key@),
            }),
            final(self).names() == names_after(old(self).names(), key@, value is Some),
    {
        proof {
            old(self).lemma_names();
        }
        let k = String::from_str(key);
        let found = self.find(&k);
        match found {
            Some(i) => {
                let previous = self.entries[i].1.clone();
                match value {
                    Some(v) => {
                        let ghost m = self.map@.insert(key@, v@);
                        let ghost old_entries = self.entries@;
                        self.entries.set(i, (k, v));
                        self.map = Ghost(m);
                        proof {
                            assert(self.names() =~= old(self).names());
                            assert(old(self).names()[i as int] == key@);
                            assert(old(self).names().contains(key@));
                            assert forall|j: int| 0 <= j < self.entries@.len() && j != i implies
                                #[trigger] self.entries@[j] == old_entries[j] by {}
                            assert forall|a: int, b: int| 0 <= a < b < self.entries@.len() implies
                                #[trigger] self.entries@[a].0@ != #[trigger] self.entries@[b].0@ by {
                                assert(old_entries[a].0@ != old_entries[b].0@);
                                assert(self.entries@[a].0@ == old_entries[a].0@);
                                assert(self.entries@[b].0@ == old_entries[b].0@);
                            }
                            assert forall|j: int| 0 <= j < self.entries@.len() implies
                                #[trigger] self.map@.contains_key(self.entries@[j].0@)
                                && self.map@[self.entries@[j].0@] == self.entries@[j].1@ by {
                                if j != i {
                                    assert(self.entries@[j] == old_entries[j]);
                                    assert(old(self).map@.contains_key(old_entries[j].0@));
                                    if j < i {
                                        assert(old_entries[j].0@ != old_entries[i as int].0@);
                                    } else {
                                        assert(old_entries[i as int].0@ != old_entries[j].0@);
                                    }
                                }
                            }
                            assert forall|k2: Seq<char>| #[trigger] self.map@.contains_key(k2) implies exists|j: int|
                                0 <= j < self.entries@.len() && #[trigger] self.entries@[j].0@ == k2 by {
                                if k2 != key@ {
                                    let j = choose|j: int| 0 <= j < old(self).entries@.len() && #[trigger] old(self).entries@[j].0@ == k2;
                                    assert(self.entries@[j].0@ == k2);
                                } else {
                                    assert(self.entries@[i as int].0@ == k2);
                                }
                            }
                        }
                    },
                    None => {
                        let ghost m = self.map@.remove(key@);
                        let ghost old_entries = self.entries@;
                        self.entries.remove(i);
                        self.map = Ghost(m);
                        proof {
                            let on = old(self).names();
                            assert(self.names() =~= on.remove(i as int));
                            assert forall|j: int| 0 <= j < on.len() && j != i implies on[j] != key@ by {
                                if j < i {
                                    assert(old_entries[j].0@ != old_entries[i as int].0@);
                                } else {
                                    assert(old_entries[i as int].0@ != old_entries[j].0@);
                                }
                            }
                            lemma_without_unique(on, key@, i as int);
                            assert forall|j: int| 0 <= j < self.entries@.len() implies
                                #[trigger] self.entries@[j] == old_entries[if j < i { j } else { j + 1 }] by {}
                            assert forall|a: int, b: int| 0 <= a < b < self.entries@.len() implies
                                #[trigger] self.entries@[a].0@ != #[trigger] self.entries@[b].0@ by {
                                let a0 = if a < i { a } else { a + 1 };
                                let b0 = if b < i { b } else { b + 1 };
                                assert(self.entries@[a] == old_entries[a0]);
                                assert(self.entries@[b] == old_entries[b0]);
                            }
                            assert forall|j: int| 0 <= j < self.entries@.len() implies
                                #[trigger] self.map@.contains_key(self.entries@[j].0@)
                                && self.map@[self.entries@[j].0@] == self.entries@[j].1@ by {
                                let j0 = if j < i { j } else { j + 1 };
                                assert(self.entries@[j] == old_entries[j0]);
                                assert(old(self).map@.contains_key(old_entries[j0].0@));
                                if j0 < i {
                                    assert(old_entries[j0].0@ != old_entries[i as int].0@);
                                } else {
                                    assert(old_entries[i as int].0@ != old_entries[j0].0@);
                                }
                            }
                            assert forall|k2: Seq<char>| #[trigger] self.map@.contains_key(k2) implies exists|j: int|
                                0 <= j < self.entries@.len() && #[trigger] self.entries@[j].0@ == k2 by {
                                let j0 = choose|j: int| 0 <= j < old_entries.len() && #[trigger] old_entries[j].0@ == k2;
                                assert(j0 != i);
                                let j = if j0 < i { j0 } else { j0 - 1 };
                                assert(self.entries@[j] == old_entries[j0]);
                            }
                        }
                    },
                }
                Some(previous)
            },
            None => {
                match value {
                    Some(v) => {
                        let ghost m = self.map@.insert(key@, v@);
                        let ghost old_entries = self.entries@;
                        self.entries.push((k, v));
                        self.map = Ghost(m);
                        proof {
                            assert(self.names() =~= old(self).names().push(key@));
                            assert(!old(self).names().contains(key@)) by {
                                if old(self).names().contains(key@) {
                                    assert(old(self).names().to_set().contains(key@));
                                }
                            }
                            assert forall|j: int| 0 <= j < old_entries.len() implies
                                #[trigger] self.entries@[j] == old_entries[j] by {}
                            assert forall|k2: Seq<char>| #[trigger] self.map@.contains_key(k2) implies exists|j: int|
                                0 <= j < self.entries@.len() && #[trigger] self.entries@[j].0@ == k2 by {
                                if k2 != key@ {
                                    let j = choose|j: int| 0 <= j < old_entries.len() && #[trigger] old_entries[j].0@ == k2;
                                    assert(self.entries@[j] == old_entries[j]);
                                } else {
                                    assert(self.entries@[old_entries.len() as int].0@ == k2);
                                }
                            }
                        }
                    },
                    None => {
                        assert(self.map@.remove(key@) =~= self.map@);
                        proof {
                            assert(!old(self).names().contains(key@)) by {
                                if old(self).names().contains(key@) {
                                    assert(old(self).names().to_set().contains(key@));
                                }
                            }
                            lemma_without_absent(old(self).names(), key@);
                        }
                    },
                }
                None
            },
        }
    }

    /// The property names, in the order in which they were first set.
    pub fn properties(&self) -> (r: Vec<String>)
        requires
            self.wf(),
        ensures
            r@.map_values(|s: String| s@) == self.names(),
    {
        let mut out: Vec<String> = Vec::new();
        let mut i: usize = 0;
        while i < self.entries.len()
            invariant
                i <= self.entries@.len(),
                out@.len() == i,
                forall|j: int| 0 <= j < i ==> (#[trigger] out@[j])@ == self.entries@[j].0@,
            decreases self.entries@.len() - i,
        {
            out.push(self.entries[i].0.clone());
            i = i + 1;
        }
        assert(out@.map_values(|s: String| s@) =~= self.names());
        out
    }

    /// All name and value pairs, in the order in which the names were first set.
    pub fn pairs(&self) -> (r: Vec<(String, String)>)
        requires
            self.wf(),
        ensures
            r@.len() == self.names().len(),
            forall|i: int| 0 <= i < r@.len() ==> (#[trigger] r@[i]).0@ == self.names()[i]
                && self.view().contains_key(r@[i].0@) && r@[i].1@ == self.view()[r@[i].0@],
    {
        let mut out: Vec<(String, String)> = Vec::new();
        let mut i: usize = 0;
        while i < self.entries.len()
            invariant
                self.wf(),
                i <= self.entries@.len(),
                out@.len() == i,
                forall|j: int| 0 <= j < i ==> (#[trigger] out@[j]).0@ == self.entries@[j].0@
                    && out@[j].1@ == self.entries@[j].1@,
            decreases self.entries@.len() - i,
        {
            out.push((self.entries[i].0.clone(), self.entries[i].1.clone()));
            i = i + 1;
        }
        out
    }
}

impl Clone for TaskMap {
    fn clone(&self) -> (r: Self)
        ensures
            r.view() == self.view(),
            r.names() == self.names(),
            self.wf() ==> r.wf(),
    {
        let mut entries: Vec<(String, String)> = Vec::new();
        let mut i: usize = 0;
        while i < self.entries.len()
            invariant
                i <= self.entries@.len(),
                entries@.len() == i,
                forall|j: int| 0 <= j < i ==> #[trigger] entries@[j].0@ == self.entries@[j].0@
                    && entries@[j].1@ == self.entries@[j].1@,
            decreases self.entries@.len() - i,
        {
            entries.push((self.entries[i].0.clone(), self.entries[i].1.clone()));
            i = i + 1;
        }
        let r = TaskMap { entries, map: Ghost(self.map@) };
        assert(r.names() =~= self.names());
        proof {
            if self.wf() {
                assert forall|k: Seq<char>| #[trigger] r.map@.contains_key(k) implies exists|j: int|
                    0 <= j < r.entries@.len() && #[trigger] r.entries@[j].0@ == k by {
                    let j = choose|j: int| 0 <= j < self.entries@.len() && #[trigger] self.entries@[j].0@ == k;
                    assert(r.entries@[j].0@ == k);
                }
            }
        }
        r
    }
}

impl TaskMap {
    /// Whether every property of `self` is set in `other` to the same value.
    fn within(&self, other: &TaskMap) -> (r: bool)
        requires
            self.wf(),
            other.wf(),
        ensures
            r == (forall|k: Seq<char>| #[trigger] self.view().contains_key(k) ==> other.view().contains_key(k)
                && other.view()[k] == self.view()[k]),
    {
        let mut i: usize = 0;
        while i < self.entries.len()
            invariant
                self.wf(),
                other.wf(),
                i <= self.entries@.len(),
                forall|j: int| 0 <= j < i ==> other.view().contains_key(#[trigger] self.entries@[j].0@)
                    && other.view()[self.entries@[j].0@] == self.entries@[j].1@,
            decreases self.entries@.len() - i,
        {
            match other.get(self.entries[i].0.as_str()) {
                Some(v) => {
                    if !(v == self.entries[i].1) {
                        assert(self.view().contains_key(self.entries@[i as int].0@));
                        return false;
                    }
                },
                None => {
                    assert(self.view().contains_key(self.entries@[i as int].0@));
                    return false;
                },
            }
            i = i + 1;
        }
        proof {
            assert forall|k: Seq<char>| #[trigger] self.view().contains_key(k) implies other.view().contains_key(k)
                && other.view()[k] == self.view()[k] by {
                let j = choose|j: int| 0 <= j < self.entries@.len() && #[trigger] self.entries@[j].0@ == k;
            }
        }
        true
    }

    /// Whether two maps hold the same properties with the same values,
    /// whatever the order in which they were set.
    pub fn same_contents(&self, other: &TaskMap) -> (r: bool)
        requires
            self.wf(),
            other.wf(),
        ensures
            r == (self.view() == other.view()),
    {
        let r = self.within(other) && other.within(self);
        proof {
            if r {
                assert(self.view() =~= other.view());
            }
        }
        r
    }
}

/// The names with every occurrence of `key` left out.
pub open spec fn without(s: Seq<Seq<char>>, key: Seq<char>) -> Seq<Seq<char>>
    decreases s.len(),
{
    if s.len() == 0 {
        s
    } else {
        let rest = without(s.drop_last(), key);
        if s.last() == key {
            rest
        } else {
            rest.push(s.last())
        }
    }
}

/// The property names after setting `key` (`present`) or removing it: a new
/// name goes to the end, and a removed one leaves its place.
pub open spec fn names_after(names: Seq<Seq<char>>, key: Seq<char>, present: bool) -> Seq<Seq<char>> {
    if present {
        if names.contains(key) {
            names
        } else {
            names.push(key)
        }
    } else {
        without(names, key)
    }
}

pub proof fn lemma_without_absent(s: Seq<Seq<char>>, key: Seq<char>)
    requires
        !s.contains(key),
    ensures
        without(s, key) == s,
    decreases s.len(),
{
    if s.len() > 0 {
        assert(!s.drop_last().contains(key)) by {
            if s.drop_last().contains(key) {
                let j = choose|j: int| 0 <= j < s.drop_last().len() && s.drop_last()[j] == key;
                assert(s[j] == key);
            }
        }
        lemma_without_absent(s.drop_last(), key);
        assert(s.last() != key) by {
            assert(s[s.len() - 1] == s.last());
        }
        assert(s.drop_last().push(s.last()) =~= s);
    }
}

pub proof fn lemma_without_unique(s: Seq<Seq<char>>, key: Seq<char>, i: int)
    requires
        0 <= i < s.len(),
        s[i] == key,
        forall|j: int| 0 <= j < s.len() && j != i ==> s[j] != key,
    ensures
        without(s, key) == s.remove(i),
    decreases s.len(),
{
    let d = s.drop_last();
    if i == s.len() - 1 {
        assert(!d.contains(key)) by {
            if d.contains(key) {
                let j = choose|j: int| 0 <= j < d.len() && d[j] == key;
                assert(s[j] == key);
            }
        }
        lemma_without_absent(d, key);
        assert(s.remove(i) =~= d);
    } else {
        assert(s.last() == s[s.len() - 1]);
        lemma_without_unique(d, key, i);
        assert(s.remove(i) =~= d.remove(i).push(s.last()));
    }
}

/// Leaving `key` out leaves no `key` behind.
pub proof fn lemma_without_excludes(s: Seq<Seq<char>>, key: Seq<char>)
    ensures
        !without(s, key).contains(key),
        forall|k: Seq<char>| k != key && #[trigger] s.contains(k) ==> without(s, key).contains(k),
    decreases s.len(),
{
    if s.len() > 0 {
        let d = s.drop_last();
        lemma_without_excludes(d, key);
        let r = without(d, key);
        assert forall|k: Seq<char>| k != key && #[trigger] s.contains(k) implies without(s, key).contains(k) by {
            let j = choose|j: int| 0 <= j < s.len() && s[j] == k;
            if j < s.len() - 1 {
                assert(d[j] == k);
                assert(d.contains(k));
                let m = choose|m: int| 0 <= m < r.len() && r[m] == k;
                if s.last() != key {
                    assert(r.push(s.last())[m] == k);
                }
            } else {
                assert(s.last() == k);
                assert(r.push(s.last())[r.len() as int] == k);
            }
        }
        if s.last() != key {
            assert(!r.push(s.last()).contains(key)) by {
                if r.push(s.last()).contains(key) {
                    let m = choose|m: int| 0 <= m < r.len() + 1 && r.push(s.last())[m] == key;
                    if m < r.len() {
                        assert(r[m] == key);
                    }
                }
            }
        }
    }
}

} // verus!
