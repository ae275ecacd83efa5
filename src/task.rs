use vstd::prelude::*;
use crate::error::{Error, ErrorKind, validation_error};
use crate::operation::{Operation, apply_value, lookup, opt_view, update_record};
use crate::operations::Operations;
use crate::status::{Status, status_value, status_of_value};
use crate::tag::{Tag, valid_tag};
use crate::annotation::Annotation;
use crate::task_map::{TaskMap, names_after, lemma_without_excludes};
use crate::text::{
    blank, is_blank, i64_to_text, signed_decimal_text, parse_i64, parsed_i64, has_prefix, strip_prefix, first_index,
    find_char, first_at,
};
use crate::thread_guard::{ThreadBound, ThreadToken};
use crate::timestamp::{Timestamp, from_timestamp, representable_seconds};
use crate::uuid::{Uuid, uuid2tc, uuid_text, canonical_uuid};
use crate::dependency_map::{DependencyMap, dependencies_of, dependents_of, strings_view};

verus! {

/// One task as the handle last saw it: its identifier and its properties.
pub struct TaskState {
    pub uuid: Uuid,
    pub data: TaskMap,
}

impl TaskState {
    pub open spec fn wf(&self) -> bool {
        self.uuid.wf() && self.data.wf()
    }
}

/// The property text of a time: its seconds in decimal.
pub open spec fn time_value(t: Option<Timestamp>) -> Option<Seq<char>> {
    match t {
        Some(t) => Some(signed_decimal_text(t.seconds as int)),
        None => None,
    }
}

/// Writes `value` into the snapshot and records the change in the log.
pub fn record_update(
    uuid: &Uuid,
    data: &mut TaskMap,
    property: &str,
    value: Option<String>,
    now: Timestamp,
    ops: &mut Operations,
    thread: ThreadToken,
)
    requires
        uuid.wf(),
        old(data).wf(),
        old(ops).wf(),
        old(ops).owner() == thread,
    ensures
        final(data).wf(),
        final(ops).wf(),
        final(ops).owner() == old(ops).owner(),
        final(data).view() == apply_value(old(data).view(), property@, opt_view(value)),
        final(data).names() == names_after(old(data).names(), property@, value is Some),
        final(ops).view() == old(ops).view().push(
            update_record(uuid.view(), old(data).view(), property@, opt_view(value), now),
        ),
{
    let value_copy = value.clone();
    let previous = data.set(property, value);
    let op = Operation::Update {
        uuid: uuid.clone(),
        property: String::from_str(property),
        timestamp: now,
        old_value: previous,
        value: value_copy,
    };
    let _ = ops.append(op, thread);
}

/// A task handle, confined to the thread that obtained it. Its mutators change
/// the handle's own snapshot at once and record each change in a log; storage
/// sees the change only when that log is committed.
pub struct Task {
    inner: ThreadBound<TaskState>,
}

impl Task {
    pub closed spec fn uuid_view(&self) -> Seq<char> {
        self.inner.value().uuid.view()
    }

    pub closed spec fn props(&self) -> Map<Seq<char>, Seq<char>> {
        self.inner.value().data.view()
    }

    pub closed spec fn owner(&self) -> ThreadToken {
        self.inner.owner()
    }

    /// The property names in the order in which they were first set.
    pub closed spec fn names(&self) -> Seq<Seq<char>> {
        self.inner.value().data.names()
    }

    pub closed spec fn wf(&self) -> bool {
        self.inner.value().wf()
    }

    /// The property names are those of the properties, each once.
    pub proof fn lemma_names_props(&self)
        requires
            self.wf(),
        ensures
            self.names().to_set() == self.props().dom(),
            self.names().no_duplicates(),
    {
        self.inner.value().data.lemma_names();
    }

    /// A handle on the task `uuid` whose properties are `data`.
    pub fn from_tc_task(uuid: Uuid, data: TaskMap, thread: ThreadToken) -> (r: Task)
        requires
            uuid.wf(),
            data.wf(),
        ensures
            r.wf(),
            r.uuid_view() == uuid.view(),
            r.props() == data.view(),
            r.owner() == thread,
    {
        Task { inner: ThreadBound::new(TaskState { uuid, data }, thread) }
    }

    /// Sets (or, with `None`, removes) a property: the common path of all mutators.
    fn write(
        &mut self,
        property: &str,
        value: Option<String>,
        now: Timestamp,
        ops: &mut Operations,
        thread: ThreadToken,
    ) -> (r: Result<(), Error>)
        requires
            old(self).wf(),
            old(ops).wf(),
        ensures
            final(self).wf(),
            final(ops).wf(),
            final(self).owner() == old(self).owner(),
            final(ops).owner() == old(ops).owner(),
            final(self).uuid_view() == old(self).uuid_view(),
            r is Ok <==> thread == old(self).owner() && thread == old(ops).owner(),
            r is Ok ==> final(self).props() == apply_value(old(self).props(), property@, opt_view(value))
                && final(self).names() == names_after(old(self).names(), property@, value is Some)
                && final(ops).view() == old(ops).view().push(
                update_record(old(self).uuid_view(), old(self).props(), property@, opt_view(value), now),
            ),
            r is Err ==> r->Err_0.kind == ErrorKind::Thread && final(self).props() == old(self).props()
                && final(self).names() == old(self).names() && final(ops).view() == old(ops).view(),
    {
        self.inner.check_thread(thread)?;
        ops.check_thread(thread)?;
        let state = self.inner.get_mut(thread)?;
        record_update(&state.uuid, &mut state.data, property, value, now, ops, thread);
        Ok(())
    }
}

/// The property that records a user tag.
pub open spec fn tag_key(tag: Seq<char>) -> Seq<char> {
    "tag_"@ + tag
}

/// The property that records an annotation made at `entry`.
pub open spec fn annotation_key(entry: Timestamp) -> Seq<char> {
    "annotation_"@ + signed_decimal_text(entry.seconds as int)
}

/// The property that records a user-defined attribute.
pub open spec fn uda_key(namespace: Seq<char>, key: Seq<char>) -> Seq<char> {
    namespace + "."@ + key
}

fn tag_property(tag: &Tag) -> (r: String)
    ensures
        r@ == tag_key(tag.view()),
{
    let mut t = String::from_str("tag_");
    t.append(tag.as_str());
    t
}

fn annotation_property(entry: Timestamp) -> (r: String)
    ensures
        r@ == annotation_key(entry),
{
    let mut t = String::from_str("annotation_");
    let digits = i64_to_text(entry.seconds);
    t.append(digits.as_str());
    t
}

fn uda_property(namespace: &str, key: &str) -> (r: String)
    ensures
        r@ == uda_key(namespace@, key@),
{
    let mut t = String::from_str(namespace);
    t.append(".");
    t.append(key);
    t
}

fn time_text(t: Option<Timestamp>) -> (r: Option<String>)
    ensures
        opt_view(r) == time_value(t),
{
    match t {
        Some(t) => Some(i64_to_text(t.seconds)),
        None => None,
    }
}

impl Task {
    /// What every mutator keeps: well-formedness, the owning threads and the task's identity.
    pub open spec fn kept_identity(old_t: Task, new_t: Task, old_ops: Operations, new_ops: Operations) -> bool {
        &&& new_t.wf()
        &&& new_ops.wf()
        &&& new_t.owner() == old_t.owner()
        &&& new_ops.owner() == old_ops.owner()
        &&& new_t.uuid_view() == old_t.uuid_view()
    }

    /// The snapshot took the new value of `key` and the log gained exactly its record.
    pub open spec fn wrote(
        old_t: Task,
        new_t: Task,
        old_ops: Operations,
        new_ops: Operations,
        key: Seq<char>,
        value: Option<Seq<char>>,
        now: Timestamp,
    ) -> bool {
        &&& new_t.props() == apply_value(old_t.props(), key, value)
        &&& new_t.names() == names_after(old_t.names(), key, value is Some)
        &&& new_ops.view() == old_ops.view().push(update_record(old_t.uuid_view(), old_t.props(), key, value, now))
    }

    /// Neither the snapshot nor the log changed.
    pub open spec fn kept(old_t: Task, new_t: Task, old_ops: Operations, new_ops: Operations) -> bool {
        new_t.props() == old_t.props() && new_t.names() == old_t.names() && new_ops.view() == old_ops.view()
    }

    /// Sets the description, which may not be blank.
    pub fn set_description(
        &mut self,
        description: &str,
        now: Timestamp,
        ops: &mut Operations,
        thread: ThreadToken,
    ) -> (r: Result<(), Error>)
        requires
            old(self).wf(),
            old(ops).wf(),
        ensures
            Task::kept_identity(*old(self), *final(self), *old(ops), *final(ops)),
            r is Ok <==> !blank(description@) && thread == old(self).owner() && thread == old(ops).owner(),
            r is Err && blank(description@) ==> r->Err_0.kind == ErrorKind::Validation,
            r is Err && !blank(description@) ==> r->Err_0.kind == ErrorKind::Thread,
            r is Ok ==> Task::wrote(
                *old(self),
                *final(self),
                *old(ops),
                *final(ops),
                "description"@,
                Some(description@),
                now,
            ),
            r is Err ==> Task::kept(*old(self), *final(self), *old(ops), *final(ops)),
    {
        if is_blank(description) {
            return Err(validation_error("Description cannot be empty or whitespace-only"));
        }
        self.write("description", Some(String::from_str(description)), now, ops, thread)
    }

    /// Sets the status.
    pub fn set_status(
        &mut self,
        status: Status,
        now: Timestamp,
        ops: &mut Operations,
        thread: ThreadToken,
    ) -> (r: Result<(), Error>)
        requires
            old(self).wf(),
            old(ops).wf(),
        ensures
            Task::kept_identity(*old(self), *final(self), *old(ops), *final(ops)),
            r is Ok <==> thread == old(self).owner() && thread == old(ops).owner(),
            r is Err ==> r->Err_0.kind == ErrorKind::Thread,
            r is Ok ==> Task::wrote(
                *old(self),
                *final(self),
                *old(ops),
                *final(ops),
                "status"@,
                Some(status_value(status)),
                now,
            ),
            r is Err ==> Task::kept(*old(self), *final(self), *old(ops), *final(ops)),
    {
        self.write("status", Some(String::from_str(status.to_taskmap())), now, ops, thread)
    }

    /// Sets the priority, which may not be blank.
    pub fn set_priority(
        &mut self,
        priority: &str,
        now: Timestamp,
        ops: &mut Operations,
        thread: ThreadToken,
    ) -> (r: Result<(), Error>)
        requires
            old(self).wf(),
            old(ops).wf(),
        ensures
            Task::kept_identity(*old(self), *final(self), *old(ops), *final(ops)),
            r is Ok <==> !blank(priority@) && thread == old(self).owner() && thread == old(ops).owner(),
            r is Err && blank(priority@) ==> r->Err_0.kind == ErrorKind::Validation,
            r is Err && !blank(priority@) ==> r->Err_0.kind == ErrorKind::Thread,
            r is Ok ==> Task::wrote(
                *old(self),
                *final(self),
                *old(ops),
                *final(ops),
                "priority"@,
                Some(priority@),
                now,
            ),
            r is Err ==> Task::kept(*old(self), *final(self), *old(ops), *final(ops)),
    {
        if is_blank(priority) {
            return Err(validation_error("Priority cannot be empty or whitespace-only"));
        }
        self.write("priority", Some(String::from_str(priority)), now, ops, thread)
    }

    /// Adds a user tag; synthetic tags cannot be set.
    pub fn add_tag(
        &mut self,
        tag: &Tag,
        now: Timestamp,
        ops: &mut Operations,
        thread: ThreadToken,
    ) -> (r: Result<(), Error>)
        requires
            old(self).wf(),
            old(ops).wf(),
        ensures
            Task::kept_identity(*old(self), *final(self), *old(ops), *final(ops)),
            r is Ok <==> !tag.is_synthetic_spec() && thread == old(self).owner() && thread == old(ops).owner(),
            r is Err && tag.is_synthetic_spec() ==> r->Err_0.kind == ErrorKind::Validation,
            r is Err && !tag.is_synthetic_spec() ==> r->Err_0.kind == ErrorKind::Thread,
            r is Ok ==> Task::wrote(
                *old(self),
                *final(self),
                *old(ops),
                *final(ops),
                tag_key(tag.view()),
                Some(""@),
                now,
            ),
            r is Err ==> Task::kept(*old(self), *final(self), *old(ops), *final(ops)),
            r is Ok && tag.wf() ==> tags_in(prefixed_entries(final(self).names(), final(self).props(), "tag_"@)).contains(
                tag.view(),
            ),
    {
        if tag.synthetic() {
            return Err(validation_error("Synthetic tags cannot be modified"));
        }
        let key = tag_property(tag);
        let marker = String::new();
        proof {
            reveal_strlit("");
            assert(marker@ =~= ""@);
        }
        let r = self.write(key.as_str(), Some(marker), now, ops, thread);
        proof {
            if r is Ok && tag.wf() {
                let names = self.names();
                let k = tag_key(tag.view());
                let p = "tag_"@;
                if !old(self).names().contains(k) {
                    assert(names == old(self).names().push(k));
                    assert(names[names.len() - 1] == k);
                }
                assert(names.contains(k));
                let i = choose|i: int| 0 <= i < names.len() && names[i] == k;
                assert(k.subrange(0, p.len() as int) =~= p);
                assert(k.subrange(p.len() as int, k.len() as int) =~= tag.view());
                lemma_prefixed_entries_contains(names, self.props(), p);
                let e = (tag.view(), self.props()[k]);
                assert(has_prefix(names[i], p));
                let entries = prefixed_entries(names, self.props(), p);
                assert(entries.contains(e));
                let j = choose|j: int| 0 <= j < entries.len() && entries[j] == e;
                lemma_tags_in_contains(entries);
                assert(entries[j].0 == tag.view());
            }
        }
        r
    }

    /// Removes a user tag; synthetic tags cannot be removed.
    pub fn remove_tag(
        &mut self,
        tag: &Tag,
        now: Timestamp,
        ops: &mut Operations,
        thread: ThreadToken,
    ) -> (r: Result<(), Error>)
        requires
            old(self).wf(),
            old(ops).wf(),
        ensures
            Task::kept_identity(*old(self), *final(self), *old(ops), *final(ops)),
            r is Ok <==> !tag.is_synthetic_spec() && thread == old(self).owner() && thread == old(ops).owner(),
            r is Err && tag.is_synthetic_spec() ==> r->Err_0.kind == ErrorKind::Validation,
            r is Err && !tag.is_synthetic_spec() ==> r->Err_0.kind == ErrorKind::Thread,
            r is Ok ==> Task::wrote(
                *old(self),
                *final(self),
                *old(ops),
                *final(ops),
                tag_key(tag.view()),
                None,
                now,
            ),
            r is Err ==> Task::kept(*old(self), *final(self), *old(ops), *final(ops)),
            r is Ok ==> !tags_in(prefixed_entries(final(self).names(), final(self).props(), "tag_"@)).contains(
                tag.view(),
            ),
    {
        if tag.synthetic() {
            return Err(validation_error("Synthetic tags cannot be modified"));
        }
        let key = tag_property(tag);
        let r = self.write(key.as_str(), None, now, ops, thread);
        proof {
            if r is Ok {
                let names = self.names();
                let k = tag_key(tag.view());
                let p = "tag_"@;
                lemma_without_excludes(old(self).names(), k);
                let entries = prefixed_entries(names, self.props(), p);
                lemma_tags_in_contains(entries);
                lemma_prefixed_entries_contains(names, self.props(), p);
                if tags_in(entries).contains(tag.view()) {
                    let j = choose|j: int| 0 <= j < entries.len() && (#[trigger] entries[j]).0 == tag.view();
                    assert(entries.contains(entries[j]));
                    let i = choose|i: int| 0 <= i < names.len() && has_prefix(#[trigger] names[i], p) && entries[j] == (
                        names[i].subrange(p.len() as int, names[i].len() as int),
                        self.props()[names[i]],
                    );
                    assert(names[i] =~= p + tag.view());
                    assert(names.contains(k));
                }
            }
        }
        r
    }

    /// Adds an annotation made at `entry`; its description may not be blank.
    pub fn add_annotation(
        &mut self,
        description: &str,
        entry: Timestamp,
        now: Timestamp,
        ops: &mut Operations,
        thread: ThreadToken,
    ) -> (r: Result<(), Error>)
        requires
            old(self).wf(),
            old(ops).wf(),
        ensures
            Task::kept_identity(*old(self), *final(self), *old(ops), *final(ops)),
            r is Ok <==> !blank(description@) && thread == old(self).owner() && !old(self).props().contains_key(
                annotation_key(entry),
            ) && thread == old(ops).owner(),
            r is Err && blank(description@) ==> r->Err_0.kind == ErrorKind::Validation,
            r is Err && !blank(description@) && thread != old(self).owner() ==> r->Err_0.kind == ErrorKind::Thread,
            r is Err && !blank(description@) && thread == old(self).owner() && old(self).props().contains_key(
                annotation_key(entry),
            ) ==> r->Err_0.kind == ErrorKind::Validation,
            r is Err && !blank(description@) && thread == old(self).owner() && !old(self).props().contains_key(
                annotation_key(entry),
            ) ==> r->Err_0.kind == ErrorKind::Thread,
            r is Ok ==> Task::wrote(
                *old(self),
                *final(self),
                *old(ops),
                *final(ops),
                annotation_key(entry),
                Some(description@),
                now,
            ),
            r is Err ==> Task::kept(*old(self), *final(self), *old(ops), *final(ops)),
            r is Ok ==> annotations_in(prefixed_entries(final(self).names(), final(self).props(), "annotation_"@))
                == annotations_in(prefixed_entries(old(self).names(), old(self).props(), "annotation_"@)).push(
                (entry.seconds, description@),
            ),
    {
        if is_blank(description) {
            return Err(validation_error("Annotation description cannot be empty or whitespace-only"));
        }
        let key = annotation_property(entry);
        let taken = {
            let state = self.inner.get(thread)?;
            state.data.has(key.as_str())
        };
        if taken {
            return Err(validation_error("An annotation with that time already exists"));
        }
        let r = self.write(key.as_str(), Some(String::from_str(description)), now, ops, thread);
        proof {
            if r is Ok {
                let k = annotation_key(entry);
                let p = "annotation_"@;
                let n0 = old(self).names();
                let m0 = old(self).props();
                let m1 = self.props();
                old(self).lemma_names_props();
                assert(!n0.contains(k)) by {
                    if n0.contains(k) {
                        assert(n0.to_set().contains(k));
                    }
                }
                assert(self.names() == n0.push(k));
                assert(n0.push(k).drop_last() =~= n0);
                assert(k.subrange(0, p.len() as int) =~= p);
                let text = signed_decimal_text(entry.seconds as int);
                assert(k.subrange(p.len() as int, k.len() as int) =~= text);
                assert forall|i: int| 0 <= i < n0.len() implies m1[#[trigger] n0[i]] == m0[n0[i]] by {
                    assert(n0.contains(n0[i]));
                }
                lemma_prefixed_frame(n0, m1, m0, p);
                let before = prefixed_entries(n0, m0, p);
                let after = prefixed_entries(n0.push(k), m1, p);
                assert(after == before.push((text, description@)));
                crate::text::lemma_decimal_round_trip(entry.seconds);
                assert(after.drop_last() =~= before);
            }
        }
        r
    }

    /// Sets or clears the due time.
    pub fn set_due(
        &mut self,
        due: Option<Timestamp>,
        now: Timestamp,
        ops: &mut Operations,
        thread: ThreadToken,
    ) -> (r: Result<(), Error>)
        requires
            old(self).wf(),
            old(ops).wf(),
        ensures
            Task::kept_identity(*old(self), *final(self), *old(ops), *final(ops)),
            r is Ok <==> thread == old(self).owner() && thread == old(ops).owner(),
            r is Err ==> r->Err_0.kind == ErrorKind::Thread,
            r is Ok ==> Task::wrote(
                *old(self),
                *final(self),
                *old(ops),
                *final(ops),
                "due"@,
                time_value(due),
                now,
            ),
            r is Err ==> Task::kept(*old(self), *final(self), *old(ops), *final(ops)),
    {
        self.write("due", time_text(due), now, ops, thread)
    }

    /// Sets or clears the entry time.
    pub fn set_entry(
        &mut self,
        entry: Option<Timestamp>,
        now: Timestamp,
        ops: &mut Operations,
        thread: ThreadToken,
    ) -> (r: Result<(), Error>)
        requires
            old(self).wf(),
            old(ops).wf(),
        ensures
            Task::kept_identity(*old(self), *final(self), *old(ops), *final(ops)),
            r is Ok <==> thread == old(self).owner() && thread == old(ops).owner(),
            r is Err ==> r->Err_0.kind == ErrorKind::Thread,
            r is Ok ==> Task::wrote(
                *old(self),
                *final(self),
                *old(ops),
                *final(ops),
                "entry"@,
                time_value(entry),
                now,
            ),
            r is Err ==> Task::kept(*old(self), *final(self), *old(ops), *final(ops)),
    {
        self.write("entry", time_text(entry), now, ops, thread)
    }

    /// Sets or clears a named property, whose name may not be blank.
    pub fn set_value(
        &mut self,
        property: &str,
        value: Option<String>,
        now: Timestamp,
        ops: &mut Operations,
        thread: ThreadToken,
    ) -> (r: Result<(), Error>)
        requires
            old(self).wf(),
            old(ops).wf(),
        ensures
            Task::kept_identity(*old(self), *final(self), *old(ops), *final(ops)),
            r is Ok <==> !blank(property@) && thread == old(self).owner() && thread == old(ops).owner(),
            r is Err && blank(property@) ==> r->Err_0.kind == ErrorKind::Validation,
            r is Err && !blank(property@) ==> r->Err_0.kind == ErrorKind::Thread,
            r is Ok ==> Task::wrote(
                *old(self),
                *final(self),
                *old(ops),
                *final(ops),
                property@,
                opt_view(value),
                now,
            ),
            r is Err ==> Task::kept(*old(self), *final(self), *old(ops), *final(ops)),
    {
        if is_blank(property) {
            return Err(validation_error("Property name cannot be empty or whitespace-only"));
        }
        self.write(property, value, now, ops, thread)
    }

    /// Sets or clears a named property holding a time, whose name may not be blank.
    pub fn set_timestamp(
        &mut self,
        property: &str,
        timestamp: Option<Timestamp>,
        now: Timestamp,
        ops: &mut Operations,
        thread: ThreadToken,
    ) -> (r: Result<(), Error>)
        requires
            old(self).wf(),
            old(ops).wf(),
        ensures
            Task::kept_identity(*old(self), *final(self), *old(ops), *final(ops)),
            r is Ok <==> !blank(property@) && thread == old(self).owner() && thread == old(ops).owner(),
            r is Err && blank(property@) ==> r->Err_0.kind == ErrorKind::Validation,
            r is Err && !blank(property@) ==> r->Err_0.kind == ErrorKind::Thread,
            r is Ok ==> Task::wrote(
                *old(self),
                *final(self),
                *old(ops),
                *final(ops),
                property@,
                time_value(timestamp),
                now,
            ),
            r is Err ==> Task::kept(*old(self), *final(self), *old(ops), *final(ops)),
    {
        if is_blank(property) {
            return Err(validation_error("Property name cannot be empty or whitespace-only"));
        }
        self.write(property, time_text(timestamp), now, ops, thread)
    }

    /// Sets a user-defined attribute; neither namespace nor key may be blank.
    pub fn set_uda(
        &mut self,
        namespace: &str,
        key: &str,
        value: &str,
        now: Timestamp,
        ops: &mut Operations,
        thread: ThreadToken,
    ) -> (r: Result<(), Error>)
        requires
            old(self).wf(),
            old(ops).wf(),
        ensures
            Task::kept_identity(*old(self), *final(self), *old(ops), *final(ops)),
            r is Ok <==> !(blank(namespace@) || blank(key@)) && thread == old(self).owner() && thread == old(ops).owner(),
            r is Err && (blank(namespace@) || blank(key@)) ==> r->Err_0.kind == ErrorKind::Validation,
            r is Err && !(blank(namespace@) || blank(key@)) ==> r->Err_0.kind == ErrorKind::Thread,
            r is Ok ==> Task::wrote(
                *old(self),
                *final(self),
                *old(ops),
                *final(ops),
                uda_key(namespace@,
                key@), Some(value@),
                now,
            ),
            r is Err ==> Task::kept(*old(self), *final(self), *old(ops), *final(ops)),
            r is Ok && !namespace@.contains('.') ==> udas_in(final(self).names(), final(self).props()).contains(
                (namespace@, key@, value@),
            ),
    {
        if is_blank(namespace) || is_blank(key) {
            return Err(validation_error("UDA namespace and key cannot be empty or whitespace-only"));
        }
        let name = uda_property(namespace, key);
        let r = self.write(name.as_str(), Some(String::from_str(value)), now, ops, thread);
        proof {
            if r is Ok && !namespace@.contains('.') {
                let names = self.names();
                let k = uda_key(namespace@, key@);
                if !old(self).names().contains(k) {
                    assert(names == old(self).names().push(k));
                    assert(names[names.len() - 1] == k);
                }
                assert(names.contains(k));
                let i = choose|i: int| 0 <= i < names.len() && names[i] == k;
                lemma_uda_key_split(namespace@, key@, k);
                lemma_udas_in_contains(names, self.props());
                assert(first_index(names[i], '.') is Some);
            }
        }
        r
    }

    /// Removes a user-defined attribute; neither namespace nor key may be blank.
    pub fn delete_uda(
        &mut self,
        namespace: &str,
        key: &str,
        now: Timestamp,
        ops: &mut Operations,
        thread: ThreadToken,
    ) -> (r: Result<(), Error>)
        requires
            old(self).wf(),
            old(ops).wf(),
        ensures
            Task::kept_identity(*old(self), *final(self), *old(ops), *final(ops)),
            r is Ok <==> !(blank(namespace@) || blank(key@)) && thread == old(self).owner() && thread == old(ops).owner(),
            r is Err && (blank(namespace@) || blank(key@)) ==> r->Err_0.kind == ErrorKind::Validation,
            r is Err && !(blank(namespace@) || blank(key@)) ==> r->Err_0.kind == ErrorKind::Thread,
            r is Ok ==> Task::wrote(
                *old(self),
                *final(self),
                *old(ops),
                *final(ops),
                uda_key(namespace@,
                key@), None,
                now,
            ),
            r is Err ==> Task::kept(*old(self), *final(self), *old(ops), *final(ops)),
            r is Ok && !namespace@.contains('.') ==> forall|v: Seq<char>|
                !udas_in(final(self).names(), final(self).props()).contains((namespace@, key@, v)),
    {
        if is_blank(namespace) || is_blank(key) {
            return Err(validation_error("UDA namespace and key cannot be empty or whitespace-only"));
        }
        let name = uda_property(namespace, key);
        let r = self.write(name.as_str(), None, now, ops, thread);
        proof {
            if r is Ok && !namespace@.contains('.') {
                let names = self.names();
                let k = uda_key(namespace@, key@);
                lemma_without_excludes(old(self).names(), k);
                lemma_udas_in_contains(names, self.props());
                assert forall|v: Seq<char>| !udas_in(names, self.props()).contains((namespace@, key@, v)) by {
                    if udas_in(names, self.props()).contains((namespace@, key@, v)) {
                        let i = choose|i: int| 0 <= i < names.len() && first_index(#[trigger] names[i], '.') is Some
                            && (namespace@, key@, v) == (
                            names[i].subrange(0, first_index(names[i], '.')->0),
                            names[i].subrange(first_index(names[i], '.')->0 + 1, names[i].len() as int),
                            self.props()[names[i]],
                        );
                        lemma_uda_key_split(namespace@, key@, names[i]);
                        assert(names.contains(k));
                    }
                }
            }
        }
        r
    }

    /// Marks the task completed.
    pub fn done(
        &mut self,
        now: Timestamp,
        ops: &mut Operations,
        thread: ThreadToken,
    ) -> (r: Result<(), Error>)
        requires
            old(self).wf(),
            old(ops).wf(),
        ensures
            Task::kept_identity(*old(self), *final(self), *old(ops), *final(ops)),
            r is Ok <==> thread == old(self).owner() && thread == old(ops).owner(),
            r is Err ==> r->Err_0.kind == ErrorKind::Thread,
            r is Ok ==> Task::wrote(
                *old(self),
                *final(self),
                *old(ops),
                *final(ops),
                "status"@,
                Some(status_value(Status::Completed)),
                now,
            ),
            r is Err ==> Task::kept(*old(self), *final(self), *old(ops), *final(ops)),
    {
        self.write("status", Some(String::from_str(Status::Completed.to_taskmap())), now, ops, thread)
    }
}

/// The time a property holds, as its seconds in decimal.
pub open spec fn time_of(m: Map<Seq<char>, Seq<char>>, key: Seq<char>) -> Option<Timestamp> {
    if m.contains_key(key) && parsed_i64(m[key]) is Some {
        Some(Timestamp { seconds: parsed_i64(m[key])->0 as i64 })
    } else {
        None
    }
}

/// The status a property map records; a task without one is pending.
pub open spec fn status_in(m: Map<Seq<char>, Seq<char>>) -> Status {
    if m.contains_key("status"@) {
        status_of_value(m["status"@])
    } else {
        Status::Pending
    }
}

/// The text of a property, or empty where it is not set.
pub open spec fn text_or_empty(m: Map<Seq<char>, Seq<char>>, key: Seq<char>) -> Seq<char> {
    if m.contains_key(key) {
        m[key]
    } else {
        Seq::empty()
    }
}

fn read_time(data: &TaskMap, key: &str) -> (r: Option<Timestamp>)
    requires
        data.wf(),
    ensures
        r == time_of(data.view(), key@),
{
    match data.get(key) {
        Some(text) => match parse_i64(text.as_str()) {
            Some(v) => Some(Timestamp { seconds: v }),
            None => None,
        },
        None => None,
    }
}

impl Task {
    pub fn uuid(&self, thread: ThreadToken) -> (r: Result<String, Error>)
        ensures
            r is Ok <==> thread == self.owner(),
            r is Ok ==> r->Ok_0@ == self.uuid_view(),
            r is Err ==> r->Err_0.kind == ErrorKind::Thread,
    {
        let state = self.inner.get(thread)?;
        Ok(state.uuid.to_string())
    }

    pub fn inspect(&self, thread: ThreadToken) -> (r: Result<String, Error>)
        ensures
            r is Ok <==> thread == self.owner(),
            r is Ok ==> r->Ok_0@ == "#<Taskchampion::Task: "@ + self.uuid_view() + ">"@,
            r is Err ==> r->Err_0.kind == ErrorKind::Thread,
    {
        let state = self.inner.get(thread)?;
        let mut t = String::from_str("#<Taskchampion::Task: ");
        t.append(state.uuid.as_str());
        t.append(">");
        Ok(t)
    }

    pub fn status(&self, thread: ThreadToken) -> (r: Result<Status, Error>)
        requires
            self.wf(),
        ensures
            r is Ok <==> thread == self.owner(),
            r is Ok ==> r->Ok_0 == status_in(self.props()),
            r is Err ==> r->Err_0.kind == ErrorKind::Thread,
    {
        let state = self.inner.get(thread)?;
        match state.data.get("status") {
            Some(v) => Ok(Status::from_taskmap(v.as_str())),
            None => Ok(Status::Pending),
        }
    }

    pub fn description(&self, thread: ThreadToken) -> (r: Result<String, Error>)
        requires
            self.wf(),
        ensures
            r is Ok <==> thread == self.owner(),
            r is Ok ==> r->Ok_0@ == text_or_empty(self.props(), "description"@),
            r is Err ==> r->Err_0.kind == ErrorKind::Thread,
    {
        let state = self.inner.get(thread)?;
        match state.data.get("description") {
            Some(v) => Ok(v),
            None => Ok(String::new()),
        }
    }

    pub fn priority(&self, thread: ThreadToken) -> (r: Result<String, Error>)
        requires
            self.wf(),
        ensures
            r is Ok <==> thread == self.owner(),
            r is Ok ==> r->Ok_0@ == text_or_empty(self.props(), "priority"@),
            r is Err ==> r->Err_0.kind == ErrorKind::Thread,
    {
        let state = self.inner.get(thread)?;
        match state.data.get("priority") {
            Some(v) => Ok(v),
            None => Ok(String::new()),
        }
    }

    pub fn get_value(&self, property: &str, thread: ThreadToken) -> (r: Result<Option<String>, Error>)
        requires
            self.wf(),
        ensures
            r is Ok <==> thread == self.owner(),
            r is Ok ==> opt_view(r->Ok_0) == lookup(self.props(), property@),
            r is Err ==> r->Err_0.kind == ErrorKind::Thread,
    {
        let state = self.inner.get(thread)?;
        Ok(state.data.get(property))
    }

    pub fn get_uda(&self, namespace: &str, key: &str, thread: ThreadToken) -> (r: Result<Option<String>, Error>)
        requires
            self.wf(),
        ensures
            r is Ok <==> thread == self.owner(),
            r is Ok ==> opt_view(r->Ok_0) == lookup(self.props(), uda_key(namespace@, key@)),
            r is Err ==> r->Err_0.kind == ErrorKind::Thread,
    {
        let state = self.inner.get(thread)?;
        let name = uda_property(namespace, key);
        Ok(state.data.get(name.as_str()))
    }

    /// Whether the task carries a user tag. Synthetic tags are derived from the
    /// task's state by the storage engine and are never among its properties.
    pub fn has_tag(&self, tag: &Tag, thread: ThreadToken) -> (r: Result<bool, Error>)
        requires
            self.wf(),
        ensures
            r is Ok <==> thread == self.owner(),
            r is Ok ==> r->Ok_0 == self.props().contains_key(tag_key(tag.view())),
            r is Err ==> r->Err_0.kind == ErrorKind::Thread,
    {
        let state = self.inner.get(thread)?;
        let key = tag_property(tag);
        Ok(state.data.has(key.as_str()))
    }

    pub fn completed(&self, thread: ThreadToken) -> (r: Result<bool, Error>)
        requires
            self.wf(),
        ensures
            r is Ok <==> thread == self.owner(),
            r is Ok ==> r->Ok_0 == (status_in(self.props()) == Status::Completed),
            r is Err ==> r->Err_0.kind == ErrorKind::Thread,
    {
        let s = self.status(thread)?;
        Ok(s == Status::Completed)
    }

    pub fn deleted(&self, thread: ThreadToken) -> (r: Result<bool, Error>)
        requires
            self.wf(),
        ensures
            r is Ok <==> thread == self.owner(),
            r is Ok ==> r->Ok_0 == (status_in(self.props()) == Status::Deleted),
            r is Err ==> r->Err_0.kind == ErrorKind::Thread,
    {
        let s = self.status(thread)?;
        Ok(s == Status::Deleted)
    }

    pub fn pending(&self, thread: ThreadToken) -> (r: Result<bool, Error>)
        requires
            self.wf(),
        ensures
            r is Ok <==> thread == self.owner(),
            r is Ok ==> r->Ok_0 == (status_in(self.props()) == Status::Pending),
            r is Err ==> r->Err_0.kind == ErrorKind::Thread,
    {
        let s = self.status(thread)?;
        Ok(s == Status::Pending)
    }

    /// A task is active once it has been started.
    pub fn active(&self, thread: ThreadToken) -> (r: Result<bool, Error>)
        requires
            self.wf(),
        ensures
            r is Ok <==> thread == self.owner(),
            r is Ok ==> r->Ok_0 == self.props().contains_key("start"@),
            r is Err ==> r->Err_0.kind == ErrorKind::Thread,
    {
        let state = self.inner.get(thread)?;
        Ok(state.data.has("start"))
    }

    /// A task is waiting while its wait time lies after `now`.
    pub fn waiting(&self, now: Timestamp, thread: ThreadToken) -> (r: Result<bool, Error>)
        requires
            self.wf(),
        ensures
            r is Ok <==> thread == self.owner(),
            r is Ok ==> r->Ok_0 == (time_of(self.props(), "wait"@) matches Some(w) && w.seconds > now.seconds),
            r is Err ==> r->Err_0.kind == ErrorKind::Thread,
    {
        let state = self.inner.get(thread)?;
        match read_time(&state.data, "wait") {
            Some(w) => Ok(w.seconds > now.seconds),
            None => Ok(false),
        }
    }

    pub fn entry(&self, thread: ThreadToken) -> (r: Result<Option<Timestamp>, Error>)
        requires
            self.wf(),
        ensures
            r is Ok <==> thread == self.owner(),
            r is Ok ==> r->Ok_0 == time_of(self.props(), "entry"@),
            r is Err ==> r->Err_0.kind == ErrorKind::Thread,
    {
        let state = self.inner.get(thread)?;
        Ok(read_time(&state.data, "entry"))
    }

    pub fn wait(&self, thread: ThreadToken) -> (r: Result<Option<Timestamp>, Error>)
        requires
            self.wf(),
        ensures
            r is Ok <==> thread == self.owner(),
            r is Ok ==> r->Ok_0 == time_of(self.props(), "wait"@),
            r is Err ==> r->Err_0.kind == ErrorKind::Thread,
    {
        let state = self.inner.get(thread)?;
        Ok(read_time(&state.data, "wait"))
    }

    pub fn modified(&self, thread: ThreadToken) -> (r: Result<Option<Timestamp>, Error>)
        requires
            self.wf(),
        ensures
            r is Ok <==> thread == self.owner(),
            r is Ok ==> r->Ok_0 == time_of(self.props(), "modified"@),
            r is Err ==> r->Err_0.kind == ErrorKind::Thread,
    {
        let state = self.inner.get(thread)?;
        Ok(read_time(&state.data, "modified"))
    }

    pub fn due(&self, thread: ThreadToken) -> (r: Result<Option<Timestamp>, Error>)
        requires
            self.wf(),
        ensures
            r is Ok <==> thread == self.owner(),
            r is Ok ==> r->Ok_0 == time_of(self.props(), "due"@),
            r is Err ==> r->Err_0.kind == ErrorKind::Thread,
    {
        let state = self.inner.get(thread)?;
        Ok(read_time(&state.data, "due"))
    }

    /// The time a named property holds; `None` where it is unset, not a whole
    /// number of seconds, or out of the representable range. The name may not be blank.
    pub fn get_timestamp(&self, property: &str, thread: ThreadToken) -> (r: Result<Option<Timestamp>, Error>)
        requires
            self.wf(),
        ensures
            r is Ok <==> !blank(property@) && thread == self.owner(),
            r is Ok ==> r->Ok_0 == (match time_of(self.props(), property@) {
                Some(t) => if representable_seconds(t.seconds) { Some(t) } else { None },
                None => None,
            }),
            r is Err && blank(property@) ==> r->Err_0.kind == ErrorKind::Validation,
            r is Err && !blank(property@) ==> r->Err_0.kind == ErrorKind::Thread,
    {
        if is_blank(property) {
            return Err(validation_error("Property name cannot be empty or whitespace-only"));
        }
        let state = self.inner.get(thread)?;
        match read_time(&state.data, property) {
            Some(t) => Ok(from_timestamp(t.seconds)),
            None => Ok(None),
        }
    }
}

/// Whether a property map records that its task depends on task `b`: a
/// property `dep_<x>` where `x` is a UUID text whose canonical form is `b`.
pub open spec fn depends_on(m: Map<Seq<char>, Seq<char>>, b: Seq<char>) -> bool {
    exists|x: Seq<char>| #[trigger] m.contains_key("dep_"@ + x) && uuid_text(x) && canonical_uuid(x) == b
}

pub open spec fn uuids_view(v: Seq<Uuid>) -> Seq<Seq<char>> {
    v.map_values(|u: Uuid| u.view())
}

/// The tasks that a property map records as dependencies, without repeats.
pub fn dep_targets(data: &TaskMap) -> (r: Vec<Uuid>)
    requires
        data.wf(),
    ensures
        forall|b: Seq<char>| uuids_view(r@).contains(b) <==> depends_on(data.view(), b),
        uuids_view(r@).no_duplicates(),
        forall|i: int| 0 <= i < r@.len() ==> (#[trigger] r@[i]).wf(),
{
    let names = data.properties();
    proof {
        data.lemma_names();
    }
    let ghost nv = names@.map_values(|s: String| s@);
    let mut out: Vec<Uuid> = Vec::new();
    let mut i: usize = 0;
    while i < names.len()
        invariant
            nv == names@.map_values(|s: String| s@),
            nv == data.names(),
            nv.to_set() == data.view().dom(),
            i <= names@.len(),
            uuids_view(out@).no_duplicates(),
            forall|k: int| 0 <= k < out@.len() ==> (#[trigger] out@[k]).wf(),
            forall|b: Seq<char>| uuids_view(out@).contains(b) <==> exists|x: Seq<char>|
                #[trigger] nv.subrange(0, i as int).contains("dep_"@ + x) && uuid_text(x) && canonical_uuid(x) == b,
        decreases names@.len() - i,
    {
        let ghost before = uuids_view(out@);
        let ghost name = nv[i as int];
        proof {
            assert(names@[i as int]@ == name);
        }
        let rest = strip_prefix(names[i].as_str(), "dep_");
        let mut found: Option<Uuid> = None;
        if let Some(x) = &rest {
            if let Ok(id) = uuid2tc(x.as_str()) {
                found = Some(id);
            }
        }
        proof {
            assert forall|x: Seq<char>| name == "dep_"@ + x implies has_prefix(name, "dep_"@)
                && x == name.subrange(("dep_"@).len() as int, name.len() as int) by {
                assert(name.subrange(0, ("dep_"@).len() as int) =~= "dep_"@);
                assert(x =~= name.subrange(("dep_"@).len() as int, name.len() as int));
            }
            if rest is Some {
                assert(name =~= "dep_"@ + rest->0@);
            }
        }
        let ghost fv: Option<Seq<char>> = match &found {
            Some(id) => Some(id.view()),
            None => None,
        };
        proof {
            if fv is Some {
                assert(rest is Some && uuid_text(rest->0@) && fv->0 == canonical_uuid(rest->0@));
            } else {
                assert forall|x: Seq<char>| name == "dep_"@ + x implies !uuid_text(x) by {}
            }
        }
        match found {
            Some(id) => {
                let pos = find_uuid(&out, &id);
                if pos.is_none() {
                    out.push(id);
                    proof {
                        assert(uuids_view(out@) =~= before.push(fv->0));
                    }
                }
            },
            None => {},
        }
        proof {
            let now_v = uuids_view(out@);
            assert forall|b: Seq<char>| now_v.contains(b) <==> (before.contains(b) || fv == Some(b)) by {
                if fv is Some && now_v != before {
                    assert(now_v == before.push(fv->0));
                    if now_v.contains(b) {
                        let k = choose|k: int| 0 <= k < now_v.len() && now_v[k] == b;
                        if k < before.len() {
                            assert(before[k] == b);
                        }
                    }
                    if before.contains(b) {
                        let k = choose|k: int| 0 <= k < before.len() && before[k] == b;
                        assert(now_v[k] == b);
                    }
                    if fv == Some(b) {
                        assert(now_v[before.len() as int] == b);
                    }
                }
            }
            let pre = nv.subrange(0, i as int);
            let nxt = nv.subrange(0, i + 1);
            assert(nxt =~= pre.push(name));
            assert forall|q: Seq<char>| nxt.contains(q) <==> (pre.contains(q) || q == name) by {
                if nxt.contains(q) {
                    let k = choose|k: int| 0 <= k < nxt.len() && nxt[k] == q;
                    if k < i {
                        assert(pre[k] == q);
                    }
                }
                if pre.contains(q) {
                    let k = choose|k: int| 0 <= k < pre.len() && pre[k] == q;
                    assert(nxt[k] == q);
                }
                if q == name {
                    assert(nxt[i as int] == q);
                }
            }
            assert forall|b: Seq<char>| uuids_view(out@).contains(b) <==> exists|x: Seq<char>|
                #[trigger] nxt.contains("dep_"@ + x) && uuid_text(x) && canonical_uuid(x) == b by {
                if uuids_view(out@).contains(b) {
                    if before.contains(b) {
                        let x = choose|x: Seq<char>| #[trigger] pre.contains("dep_"@ + x) && uuid_text(x) && canonical_uuid(x) == b;
                        assert(nxt.contains("dep_"@ + x));
                    } else {
                        let x = rest->0@;
                        assert(nxt.contains("dep_"@ + x));
                    }
                }
                if exists|x: Seq<char>| #[trigger] nxt.contains("dep_"@ + x) && uuid_text(x) && canonical_uuid(x) == b {
                    let x = choose|x: Seq<char>| #[trigger] nxt.contains("dep_"@ + x) && uuid_text(x) && canonical_uuid(x) == b;
                    if pre.contains("dep_"@ + x) {
                        assert(before.contains(b));
                    } else {
                        assert(name == "dep_"@ + x);
                        assert(fv is Some);
                        assert(x == rest->0@);
                    }
                }
            }
        }
        i = i + 1;
    }
    proof {
        assert(nv.subrange(0, i as int) =~= nv);
        assert forall|b: Seq<char>| uuids_view(out@).contains(b) <==> depends_on(data.view(), b) by {
            if depends_on(data.view(), b) {
                let x = choose|x: Seq<char>| #[trigger] data.view().contains_key("dep_"@ + x) && uuid_text(x) && canonical_uuid(x) == b;
                assert(nv.to_set().contains("dep_"@ + x));
                assert(nv.contains("dep_"@ + x));
            }
            if uuids_view(out@).contains(b) {
                let x = choose|x: Seq<char>| #[trigger] nv.contains("dep_"@ + x) && uuid_text(x) && canonical_uuid(x) == b;
                assert(nv.to_set().contains("dep_"@ + x));
            }
        }
    }
    out
}

/// The position of a task among others.
fn find_uuid(v: &Vec<Uuid>, u: &Uuid) -> (r: Option<usize>)
    ensures
        r is None <==> !uuids_view(v@).contains(u.view()),
{
    let mut i: usize = 0;
    while i < v.len()
        invariant
            i <= v@.len(),
            forall|k: int| 0 <= k < i ==> #[trigger] v@[k].view() != u.view(),
        decreases v@.len() - i,
    {
        if v[i].same(u) {
            assert(uuids_view(v@)[i as int] == u.view());
            return Some(i);
        }
        i = i + 1;
    }
    proof {
        assert forall|k: int| 0 <= k < uuids_view(v@).len() implies uuids_view(v@)[k] != u.view() by {
            assert(v@[k].view() != u.view());
        }
    }
    None
}

impl Task {
    /// The tasks this one depends on.
    pub fn dependencies(&self, thread: ThreadToken) -> (r: Result<Vec<String>, Error>)
        requires
            self.wf(),
        ensures
            r is Ok <==> thread == self.owner(),
            r is Ok ==> (forall|b: Seq<char>| strings_view(r->Ok_0@).contains(b) <==> depends_on(self.props(), b))
                && strings_view(r->Ok_0@).no_duplicates(),
            r is Err ==> r->Err_0.kind == ErrorKind::Thread,
    {
        let state = self.inner.get(thread)?;
        let targets = dep_targets(&state.data);
        let mut out: Vec<String> = Vec::new();
        let mut i: usize = 0;
        while i < targets.len()
            invariant
                i <= targets@.len(),
                out@.len() == i,
                forall|k: int| 0 <= k < i ==> (#[trigger] out@[k])@ == targets@[k].view(),
            decreases targets@.len() - i,
        {
            out.push(targets[i].to_string());
            i = i + 1;
        }
        assert(strings_view(out@) =~= uuids_view(targets@));
        Ok(out)
    }
}

/// For each property whose name begins with `p`, in name order: the rest of
/// its name and its value.
pub open spec fn prefixed_entries(names: Seq<Seq<char>>, m: Map<Seq<char>, Seq<char>>, p: Seq<char>) -> Seq<
    (Seq<char>, Seq<char>),
>
    decreases names.len(),
{
    if names.len() == 0 {
        Seq::empty()
    } else {
        let before = prefixed_entries(names.drop_last(), m, p);
        let k = names.last();
        if has_prefix(k, p) {
            before.push((k.subrange(p.len() as int, k.len() as int), m[k]))
        } else {
            before
        }
    }
}

/// The tags among `tag_` property suffixes, in order.
pub open spec fn tags_in(entries: Seq<(Seq<char>, Seq<char>)>) -> Seq<Seq<char>>
    decreases entries.len(),
{
    if entries.len() == 0 {
        Seq::empty()
    } else {
        let before = tags_in(entries.drop_last());
        if valid_tag(entries.last().0) {
            before.push(entries.last().0)
        } else {
            before
        }
    }
}

/// The annotations among `annotation_` property suffixes, in order: the suffix
/// is the time in seconds, the value the description.
pub open spec fn annotations_in(entries: Seq<(Seq<char>, Seq<char>)>) -> Seq<(i64, Seq<char>)>
    decreases entries.len(),
{
    if entries.len() == 0 {
        Seq::empty()
    } else {
        let before = annotations_in(entries.drop_last());
        let e = entries.last();
        if parsed_i64(e.0) is Some {
            before.push((parsed_i64(e.0)->0 as i64, e.1))
        } else {
            before
        }
    }
}

fn prefixed(data: &TaskMap, prefix: &str) -> (r: Vec<(String, String)>)
    requires
        data.wf(),
    ensures
        r@.map_values(|e: (String, String)| (e.0@, e.1@)) == prefixed_entries(data.names(), data.view(), prefix@),
{
    let pairs = data.pairs();
    let ghost names = data.names();
    let mut out: Vec<(String, String)> = Vec::new();
    let mut i: usize = 0;
    while i < pairs.len()
        invariant
            names == data.names(),
            pairs@.len() == names.len(),
            forall|k: int| 0 <= k < pairs@.len() ==> (#[trigger] pairs@[k]).0@ == names[k]
                && data.view().contains_key(pairs@[k].0@) && pairs@[k].1@ == data.view()[pairs@[k].0@],
            i <= pairs@.len(),
            out@.map_values(|e: (String, String)| (e.0@, e.1@)) == prefixed_entries(
                names.subrange(0, i as int),
                data.view(),
                prefix@,
            ),
        decreases pairs@.len() - i,
    {
        let ghost before = out@.map_values(|e: (String, String)| (e.0@, e.1@));
        proof {
            assert(names.subrange(0, i + 1).drop_last() =~= names.subrange(0, i as int));
            assert(names.subrange(0, i + 1).last() == names[i as int]);
        }
        match strip_prefix(pairs[i].0.as_str(), prefix) {
            Some(rest) => {
                let ghost rv = rest@;
                out.push((rest, pairs[i].1.clone()));
                proof {
                    assert(out@.map_values(|e: (String, String)| (e.0@, e.1@)) =~= before.push((rv, pairs@[i as int].1@)));
                }
            },
            None => {},
        }
        i = i + 1;
    }
    assert(names.subrange(0, i as int) =~= names);
    out
}

/// An entry is among the prefixed entries exactly when some name carries the
/// prefix and yields it.
pub proof fn lemma_prefixed_entries_contains(names: Seq<Seq<char>>, m: Map<Seq<char>, Seq<char>>, p: Seq<char>)
    ensures
        forall|e: (Seq<char>, Seq<char>)| #[trigger] prefixed_entries(names, m, p).contains(e) <==> exists|i: int|
            0 <= i < names.len() && has_prefix(#[trigger] names[i], p) && e == (
                names[i].subrange(p.len() as int, names[i].len() as int),
                m[names[i]],
            ),
    decreases names.len(),
{
    if names.len() > 0 {
        let d = names.drop_last();
        lemma_prefixed_entries_contains(d, m, p);
        let before = prefixed_entries(d, m, p);
        let all = prefixed_entries(names, m, p);
        let k = names.last();
        assert forall|e: (Seq<char>, Seq<char>)| #[trigger] all.contains(e) <==> exists|i: int|
            0 <= i < names.len() && has_prefix(#[trigger] names[i], p) && e == (
                names[i].subrange(p.len() as int, names[i].len() as int),
                m[names[i]],
            ) by {
            if all.contains(e) {
                let j = choose|j: int| 0 <= j < all.len() && all[j] == e;
                if j < before.len() {
                    assert(before[j] == e);
                    assert(before.contains(e));
                    let i = choose|i: int| 0 <= i < d.len() && has_prefix(#[trigger] d[i], p) && e == (
                        d[i].subrange(p.len() as int, d[i].len() as int),
                        m[d[i]],
                    );
                    assert(names[i] == d[i]);
                } else {
                    assert(names[names.len() - 1] == k);
                }
            }
            if exists|i: int| 0 <= i < names.len() && has_prefix(#[trigger] names[i], p) && e == (
                names[i].subrange(p.len() as int, names[i].len() as int),
                m[names[i]],
            ) {
                let i = choose|i: int| 0 <= i < names.len() && has_prefix(#[trigger] names[i], p) && e == (
                    names[i].subrange(p.len() as int, names[i].len() as int),
                    m[names[i]],
                );
                if i < names.len() - 1 {
                    assert(d[i] == names[i]);
                    assert(before.contains(e));
                    let j = choose|j: int| 0 <= j < before.len() && before[j] == e;
                    if has_prefix(k, p) {
                        assert(all[j] == e);
                    } else {
                        assert(all[j] == e);
                    }
                } else {
                    assert(names[i] == k);
                    assert(all[before.len() as int] == e);
                }
            }
        }
    }
}

/// A tag is listed exactly when some entry names it and it is a valid tag.
pub proof fn lemma_tags_in_contains(entries: Seq<(Seq<char>, Seq<char>)>)
    ensures
        forall|t: Seq<char>| #[trigger] tags_in(entries).contains(t) <==> valid_tag(t) && exists|j: int|
            0 <= j < entries.len() && (#[trigger] entries[j]).0 == t,
    decreases entries.len(),
{
    if entries.len() > 0 {
        let d = entries.drop_last();
        lemma_tags_in_contains(d);
        let before = tags_in(d);
        let all = tags_in(entries);
        assert forall|t: Seq<char>| #[trigger] all.contains(t) <==> valid_tag(t) && exists|j: int|
            0 <= j < entries.len() && (#[trigger] entries[j]).0 == t by {
            if all.contains(t) {
                let x = choose|x: int| 0 <= x < all.len() && all[x] == t;
                if x < before.len() {
                    assert(before[x] == t);
                    assert(before.contains(t));
                    let j = choose|j: int| 0 <= j < d.len() && (#[trigger] d[j]).0 == t;
                    assert(entries[j] == d[j]);
                } else {
                    assert(entries[entries.len() - 1] == entries.last());
                }
            }
            if valid_tag(t) && exists|j: int| 0 <= j < entries.len() && (#[trigger] entries[j]).0 == t {
                let j = choose|j: int| 0 <= j < entries.len() && (#[trigger] entries[j]).0 == t;
                if j < entries.len() - 1 {
                    assert(d[j] == entries[j]);
                    assert(before.contains(t));
                    let x = choose|x: int| 0 <= x < before.len() && before[x] == t;
                    assert(all[x] == t);
                } else {
                    assert(entries.last().0 == t);
                    assert(all[before.len() as int] == t);
                }
            }
        }
    }
}

/// A triple is listed exactly when some name holds a dot and splits into it.
pub proof fn lemma_udas_in_contains(names: Seq<Seq<char>>, m: Map<Seq<char>, Seq<char>>)
    ensures
        forall|t: (Seq<char>, Seq<char>, Seq<char>)| #[trigger] udas_in(names, m).contains(t) <==> exists|i: int|
            0 <= i < names.len() && first_index(#[trigger] names[i], '.') is Some && t == (
                names[i].subrange(0, first_index(names[i], '.')->0),
                names[i].subrange(first_index(names[i], '.')->0 + 1, names[i].len() as int),
                m[names[i]],
            ),
    decreases names.len(),
{
    if names.len() > 0 {
        let d = names.drop_last();
        lemma_udas_in_contains(d, m);
        let before = udas_in(d, m);
        let all = udas_in(names, m);
        let k = names.last();
        assert forall|t: (Seq<char>, Seq<char>, Seq<char>)| #[trigger] all.contains(t) <==> exists|i: int|
            0 <= i < names.len() && first_index(#[trigger] names[i], '.') is Some && t == (
                names[i].subrange(0, first_index(names[i], '.')->0),
                names[i].subrange(first_index(names[i], '.')->0 + 1, names[i].len() as int),
                m[names[i]],
            ) by {
            if all.contains(t) {
                let x = choose|x: int| 0 <= x < all.len() && all[x] == t;
                if x < before.len() {
                    assert(before[x] == t);
                    assert(before.contains(t));
                    let i = choose|i: int| 0 <= i < d.len() && first_index(#[trigger] d[i], '.') is Some && t == (
                        d[i].subrange(0, first_index(d[i], '.')->0),
                        d[i].subrange(first_index(d[i], '.')->0 + 1, d[i].len() as int),
                        m[d[i]],
                    );
                    assert(names[i] == d[i]);
                } else {
                    assert(names[names.len() - 1] == k);
                }
            }
            if exists|i: int| 0 <= i < names.len() && first_index(#[trigger] names[i], '.') is Some && t == (
                names[i].subrange(0, first_index(names[i], '.')->0),
                names[i].subrange(first_index(names[i], '.')->0 + 1, names[i].len() as int),
                m[names[i]],
            ) {
                let i = choose|i: int| 0 <= i < names.len() && first_index(#[trigger] names[i], '.') is Some && t == (
                    names[i].subrange(0, first_index(names[i], '.')->0),
                    names[i].subrange(first_index(names[i], '.')->0 + 1, names[i].len() as int),
                    m[names[i]],
                );
                if i < names.len() - 1 {
                    assert(d[i] == names[i]);
                    assert(before.contains(t));
                    let x = choose|x: int| 0 <= x < before.len() && before[x] == t;
                    assert(all[x] == t);
                } else {
                    assert(names[i] == k);
                    assert(all[before.len() as int] == t);
                }
            }
        }
    }
}

/// A name of the form `<namespace>.<key>`, with no dot in the namespace,
/// splits back into that namespace and key, and only such a name does.
pub proof fn lemma_uda_key_split(ns: Seq<char>, key: Seq<char>, k: Seq<char>)
    requires
        !ns.contains('.'),
    ensures
        k == uda_key(ns, key) ==> first_index(k, '.') == Some(ns.len() as int) && k.subrange(0, ns.len() as int)
            == ns && k.subrange(ns.len() as int + 1, k.len() as int) == key,
        first_index(k, '.') is Some && k.subrange(0, first_index(k, '.')->0) == ns && k.subrange(
            first_index(k, '.')->0 + 1,
            k.len() as int,
        ) == key ==> k == uda_key(ns, key),
{
    reveal_strlit(".");
    if k == uda_key(ns, key) {
        let n = ns.len() as int;
        assert(k[n] == '.');
        assert forall|j: int| 0 <= j < n implies k[j] != '.' by {
            assert(k[j] == ns[j]);
            if ns[j] == '.' {
                assert(ns.contains('.'));
            }
        }
        assert(first_at(k, '.', n));
        let c = choose|c: int| first_at(k, '.', c);
        if c < n {
            assert(k[c] != '.');
        } else if c > n {
            assert(k[n] != '.');
        }
        assert(k.subrange(0, n) =~= ns);
        assert(k.subrange(n + 1, k.len() as int) =~= key);
    }
    if first_index(k, '.') is Some {
        let d = first_index(k, '.')->0;
        let c = choose|c: int| first_at(k, '.', c);
        assert(first_at(k, '.', d));
        if k.subrange(0, d) == ns && k.subrange(d + 1, k.len() as int) == key {
            assert(k =~= ns + "."@ + key);
        }
    }
}

/// Replaying prefixed entries reads a map only at the names.
proof fn lemma_prefixed_frame(
    names: Seq<Seq<char>>,
    m1: Map<Seq<char>, Seq<char>>,
    m2: Map<Seq<char>, Seq<char>>,
    p: Seq<char>,
)
    requires
        forall|i: int| 0 <= i < names.len() ==> m1[#[trigger] names[i]] == m2[names[i]],
    ensures
        prefixed_entries(names, m1, p) == prefixed_entries(names, m2, p),
    decreases names.len(),
{
    if names.len() > 0 {
        let d = names.drop_last();
        assert forall|i: int| 0 <= i < d.len() implies m1[#[trigger] d[i]] == m2[d[i]] by {
            assert(d[i] == names[i]);
        }
        lemma_prefixed_frame(d, m1, m2, p);
        assert(names[names.len() - 1] == names.last());
    }
}

pub open spec fn tags_view(v: Seq<Tag>) -> Seq<Seq<char>> {
    v.map_values(|t: Tag| t.view())
}

pub open spec fn annotations_view(v: Seq<Annotation>) -> Seq<(i64, Seq<char>)> {
    v.map_values(|a: Annotation| (a.entry.seconds, a.description@))
}

impl Task {
    /// The task's user tags, from its `tag_` properties, in the order they were set.
    pub fn tags(&self, thread: ThreadToken) -> (r: Result<Vec<Tag>, Error>)
        requires
            self.wf(),
        ensures
            r is Ok <==> thread == self.owner(),
            r is Ok ==> tags_view(r->Ok_0@) == tags_in(
                prefixed_entries(self.names(), self.props(), "tag_"@),
            ),
            r is Err ==> r->Err_0.kind == ErrorKind::Thread,
    {
        let state = self.inner.get(thread)?;
        let entries = prefixed(&state.data, "tag_");
        let ghost ev = entries@.map_values(|e: (String, String)| (e.0@, e.1@));
        let mut out: Vec<Tag> = Vec::new();
        let mut i: usize = 0;
        while i < entries.len()
            invariant
                ev == entries@.map_values(|e: (String, String)| (e.0@, e.1@)),
                i <= entries@.len(),
                tags_view(out@) == tags_in(ev.subrange(0, i as int)),
            decreases entries@.len() - i,
        {
            proof {
                assert(ev.subrange(0, i + 1).drop_last() =~= ev.subrange(0, i as int));
                assert(ev.subrange(0, i + 1).last() == ev[i as int]);
            }
            let ghost before = tags_view(out@);
            match Tag::new(entries[i].0.as_str()) {
                Ok(t) => {
                    out.push(t);
                    proof {
                        assert(tags_view(out@) =~= before.push(ev[i as int].0));
                    }
                },
                Err(_) => {},
            }
            i = i + 1;
        }
        assert(ev.subrange(0, i as int) =~= ev);
        Ok(out)
    }

    /// The task's annotations, from its `annotation_<seconds>` properties, in the
    /// order they were made.
    pub fn annotations(&self, thread: ThreadToken) -> (r: Result<Vec<Annotation>, Error>)
        requires
            self.wf(),
        ensures
            r is Ok <==> thread == self.owner(),
            r is Ok ==> annotations_view(r->Ok_0@) == annotations_in(
                prefixed_entries(self.names(), self.props(), "annotation_"@),
            ),
            r is Err ==> r->Err_0.kind == ErrorKind::Thread,
    {
        let state = self.inner.get(thread)?;
        let entries = prefixed(&state.data, "annotation_");
        let ghost ev = entries@.map_values(|e: (String, String)| (e.0@, e.1@));
        let mut out: Vec<Annotation> = Vec::new();
        let mut i: usize = 0;
        while i < entries.len()
            invariant
                ev == entries@.map_values(|e: (String, String)| (e.0@, e.1@)),
                i <= entries@.len(),
                annotations_view(out@) == annotations_in(ev.subrange(0, i as int)),
            decreases entries@.len() - i,
        {
            proof {
                assert(ev.subrange(0, i + 1).drop_last() =~= ev.subrange(0, i as int));
                assert(ev.subrange(0, i + 1).last() == ev[i as int]);
            }
            let ghost before = annotations_view(out@);
            match parse_i64(entries[i].0.as_str()) {
                Some(secs) => {
                    out.push(Annotation::new(Timestamp { seconds: secs }, entries[i].1.as_str()));
                    proof {
                        assert(annotations_view(out@) =~= before.push((secs, ev[i as int].1)));
                    }
                },
                None => {},
            }
            i = i + 1;
        }
        assert(ev.subrange(0, i as int) =~= ev);
        Ok(out)
    }
}

/// The user-defined attributes among a task's properties, in name order: each
/// property named `<namespace>.<key>`, split at its first dot, with its value.
pub open spec fn udas_in(names: Seq<Seq<char>>, m: Map<Seq<char>, Seq<char>>) -> Seq<
    (Seq<char>, Seq<char>, Seq<char>),
>
    decreases names.len(),
{
    if names.len() == 0 {
        Seq::empty()
    } else {
        let before = udas_in(names.drop_last(), m);
        let k = names.last();
        match first_index(k, '.') {
            Some(d) => before.push((k.subrange(0, d), k.subrange(d + 1, k.len() as int), m[k])),
            None => before,
        }
    }
}

pub open spec fn triples_view(v: Seq<(String, String, String)>) -> Seq<(Seq<char>, Seq<char>, Seq<char>)> {
    v.map_values(|t: (String, String, String)| (t.0@, t.1@, t.2@))
}

impl Task {
    /// The user-defined attributes as (namespace, key, value).
    pub fn udas(&self, thread: ThreadToken) -> (r: Result<Vec<(String, String, String)>, Error>)
        requires
            self.wf(),
        ensures
            r is Ok <==> thread == self.owner(),
            r is Ok ==> triples_view(r->Ok_0@) == udas_in(self.names(), self.props()),
            r is Err ==> r->Err_0.kind == ErrorKind::Thread,
    {
        let state = self.inner.get(thread)?;
        let pairs = state.data.pairs();
        let ghost names = state.data.names();
        let mut out: Vec<(String, String, String)> = Vec::new();
        let mut i: usize = 0;
        while i < pairs.len()
            invariant
                names == self.names(),
                pairs@.len() == names.len(),
                forall|k: int| 0 <= k < pairs@.len() ==> (#[trigger] pairs@[k]).0@ == names[k]
                    && self.props().contains_key(pairs@[k].0@) && pairs@[k].1@ == self.props()[pairs@[k].0@],
                i <= pairs@.len(),
                triples_view(out@) == udas_in(names.subrange(0, i as int), self.props()),
            decreases pairs@.len() - i,
        {
            proof {
                assert(names.subrange(0, i + 1).drop_last() =~= names.subrange(0, i as int));
                assert(names.subrange(0, i + 1).last() == names[i as int]);
            }
            let ghost before = triples_view(out@);
            let name = pairs[i].0.as_str();
            match find_char(name, '.') {
                Some(d) => {
                    let n = name.unicode_len();
                    let ns = String::from_str(name.substring_char(0, d));
                    let key = String::from_str(name.substring_char(d + 1, n));
                    let ghost t = (ns@, key@, pairs@[i as int].1@);
                    out.push((ns, key, pairs[i].1.clone()));
                    proof {
                        assert(triples_view(out@) =~= before.push(t));
                    }
                },
                None => {},
            }
            i = i + 1;
        }
        assert(names.subrange(0, i as int) =~= names);
        Ok(out)
    }
}

impl Task {
    /// A task is blocked while the dependency map lists tasks it depends on.
    pub fn blocked(&self, deps: &DependencyMap, thread: ThreadToken) -> (r: Result<bool, Error>)
        requires
            self.wf(),
        ensures
            r is Ok <==> thread == self.owner() && thread == deps.owner(),
            r is Ok ==> r->Ok_0 == (dependencies_of(deps.view(), self.uuid_view()).len() > 0),
            r is Err ==> r->Err_0.kind == ErrorKind::Thread,
    {
        let state = self.inner.get(thread)?;
        let found = deps.dependencies(state.uuid.as_str(), thread)?;
        Ok(found.len() > 0)
    }

    /// A task is blocking while the dependency map lists tasks that depend on it.
    pub fn blocking(&self, deps: &DependencyMap, thread: ThreadToken) -> (r: Result<bool, Error>)
        requires
            self.wf(),
        ensures
            r is Ok <==> thread == self.owner() && thread == deps.owner(),
            r is Ok ==> r->Ok_0 == (dependents_of(deps.view(), self.uuid_view()).len() > 0),
            r is Err ==> r->Err_0.kind == ErrorKind::Thread,
    {
        let state = self.inner.get(thread)?;
        let found = deps.dependents(state.uuid.as_str(), thread)?;
        Ok(found.len() > 0)
    }
}

} // verus!
