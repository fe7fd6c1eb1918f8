//! Deferred work: tasks referencing committed stores, and the work queue.
//!
//! Two tasks are the same piece of work exactly when they have the same
//! variant and reference the same store, so the queue deduplicates by the
//! task's ordering key. A store's identity is an explicit numeric handle
//! handed out at commit time, never a memory address, which keeps the order
//! deterministic and testable.

use vstd::prelude::*;
use std::sync::Arc;
use crate::mailbox::Mailbox;
use crate::mailbox::Notification;

verus! {

/// Relies on `Arc::clone` from std: the clone is another handle to the same
/// allocation, so it carries the same value.
#[verifier::external_body]
pub(crate) fn arc_clone<T>(a: &Arc<T>) -> (r: Arc<T>)
    ensures
        r == *a,
{
    Arc::clone(a)
}

/// A shared store handle with an explicit, comparable identity.
///
/// Equal identities stand for the same allocation only as long as the maker
/// of the handles keeps that discipline; the scanner does, by handing each
/// committed store exactly one fresh identity, its commit-time index.
#[derive(Debug)]
pub struct ArcCmp<T> {
    /// The identity the handle compares by: assigned once at commit time.
    pub id: u64,
    /// The shared value itself.
    pub ptr: Arc<T>,
}

impl<T> ArcCmp<T> {
    /// Wrap a shared value under the identity `id`.
    pub fn new(id: u64, inner: Arc<T>) -> (r: ArcCmp<T>)
        ensures
            r.id == id,
            r.ptr == inner,
    {
        ArcCmp { id, ptr: inner }
    }

    /// Give the shared value back, shedding the identity.
    pub fn into_inner(self) -> (r: Arc<T>)
        ensures
            r == self.ptr,
    {
        self.ptr
    }
}

/// A unit of deferred work against a committed store.
#[derive(Debug)]
pub enum Task {
    /// Re-read the referenced store and refresh its cache.
    Rescan(ArcCmp<Mailbox>),
}

impl Task {
    /// Ordering rank of the variant; present so that future variants order
    /// before or after rescans by a stable number.
    pub open spec fn rank(self) -> u64 {
        match self {
            Task::Rescan(_) => 0,
        }
    }

    /// The identity of the referenced store.
    pub open spec fn ident(self) -> u64 {
        match self {
            Task::Rescan(a) => a.id,
        }
    }

    /// Tasks order by variant rank first, then by store identity.
    pub open spec fn le(self, other: Task) -> bool {
        self.rank() < other.rank() || (self.rank() == other.rank() && self.ident()
            <= other.ident())
    }

    /// Strict version of the task order.
    pub open spec fn lt(self, other: Task) -> bool {
        self.rank() < other.rank() || (self.rank() == other.rank() && self.ident()
            < other.ident())
    }

    /// The store the task references.
    pub open spec fn store(self) -> Arc<Mailbox> {
        match self {
            Task::Rescan(a) => a.ptr,
        }
    }

    /// Two tasks are the same piece of work: same variant, same store.
    pub open spec fn same_ident(self, other: Task) -> bool {
        self.rank() == other.rank() && self.ident() == other.ident()
    }

    /// The event reported when the task has been performed.
    pub open spec fn performed_note(self) -> Notification {
        match self {
            Task::Rescan(a) => Notification::MailboxContent(a.ptr),
        }
    }

    /// A rescan task for the store `mbox`, committed under identity `id`.
    pub fn rescan(id: u64, mbox: Arc<Mailbox>) -> (t: Task)
        ensures
            t == Task::Rescan(ArcCmp::<Mailbox> { id, ptr: mbox }),
    {
        Task::Rescan(ArcCmp::new(id, mbox))
    }

    /// Perform the task. Reading the store incrementally is the store
    /// cache collaborator's work; the core's observable effect is the
    /// content event reported to the sink.
    pub fn perform(self, sink: &mut Vec<Notification>)
        ensures
            final(sink)@ == old(sink)@.push(self.performed_note()),
    {
        match self {
            Task::Rescan(a) => Notification::send(
                Notification::MailboxContent(a.into_inner()),
                sink,
            ),
        }
    }

    fn lt_exec(&self, other: &Task) -> (r: bool)
        ensures
            r == self.lt(*other),
    {
        let (r1, i1) = self.key();
        let (r2, i2) = other.key();
        r1 < r2 || (r1 == r2 && i1 < i2)
    }

    fn same_ident_exec(&self, other: &Task) -> (r: bool)
        ensures
            r == self.same_ident(*other),
    {
        let (r1, i1) = self.key();
        let (r2, i2) = other.key();
        r1 == r2 && i1 == i2
    }

    fn key(&self) -> (r: (u64, u64))
        ensures
            r.0 == self.rank(),
            r.1 == self.ident(),
    {
        match self {
            Task::Rescan(a) => (0, a.id),
        }
    }
}

/// The tasks are strictly ascending in the task order: sorted, and no two
/// are the same piece of work.
pub open spec fn sorted(s: Seq<Task>) -> bool {
    forall|i: int, j: int| 0 <= i < j < s.len() ==> s[i].lt(s[j])
}

/// Whether `s` already holds the same piece of work as `t`.
pub open spec fn has_same(s: Seq<Task>, t: Task) -> bool {
    exists|i: int| 0 <= i < s.len() && s[i].same_ident(t)
}

/// Where pushing `t` takes an ascending task sequence: inserted in order,
/// or merged silently with the task it duplicates.
pub open spec fn spec_insert(s: Seq<Task>, t: Task) -> Seq<Task>
    decreases s.len(),
{
    if s.len() == 0 {
        seq![t]
    } else if t.lt(s[0]) {
        seq![t] + s
    } else if t.same_ident(s[0]) {
        s
    } else {
        seq![s[0]] + spec_insert(s.drop_first(), t)
    }
}

/// Inserting keeps the sequence strictly ascending.
pub proof fn lemma_insert_sorted(s: Seq<Task>, t: Task)
    requires
        sorted(s),
    ensures
        sorted(spec_insert(s, t)),
        spec_insert(s, t).len() <= s.len() + 1,
        forall|i: int|
            0 <= i < spec_insert(s, t).len() ==> spec_insert(s, t)[i] == t || s.contains(
                #[trigger] spec_insert(s, t)[i],
            ),
    decreases s.len(),
{
    if s.len() == 0 {
    } else if t.lt(s[0]) {
        let r = seq![t] + s;
        assert forall|i: int, j: int| 0 <= i < j < r.len() implies r[i].lt(r[j]) by {
            if i == 0 {
                assert(r[j] == s[j - 1]);
                if j > 1 {
                    assert(s[0].lt(s[j - 1]));
                }
            } else {
                assert(s[i - 1].lt(s[j - 1]));
            }
        }
    } else if t.same_ident(s[0]) {
    } else {
        assert(sorted(s.drop_first()));
        lemma_insert_sorted(s.drop_first(), t);
        let r = seq![s[0]] + spec_insert(s.drop_first(), t);
        assert forall|i: int, j: int| 0 <= i < j < r.len() implies r[i].lt(r[j]) by {
            if i == 0 {
                let e = r[j];
                assert(e == t || s.drop_first().contains(e));
                if e == t {
                    assert(s[0].lt(t));
                } else {
                    let k = choose|k: int|
                        0 <= k < s.drop_first().len() && s.drop_first()[k] == e;
                    assert(s[0].lt(s[k + 1]));
                }
            } else {
                assert(spec_insert(s.drop_first(), t)[i - 1].lt(
                    spec_insert(s.drop_first(), t)[j - 1],
                ));
            }
        }
        assert forall|i: int| 0 <= i < r.len() implies r[i] == t || s.contains(#[trigger] r[i]) by {
            if i == 0 {
                assert(s.contains(s[0]));
            } else {
                if spec_insert(s.drop_first(), t)[i - 1] != t {
                    let e = spec_insert(s.drop_first(), t)[i - 1];
                    let k = choose|k: int|
                        0 <= k < s.drop_first().len() && s.drop_first()[k] == e;
                    assert(s[k + 1] == e);
                }
            }
        }
    }
}

/// Inserting a task above everything queued appends it: a freshly handed
/// out identity is larger than every queued one, so its task goes last.
pub proof fn lemma_insert_of_greatest(s: Seq<Task>, t: Task)
    requires
        forall|i: int| 0 <= i < s.len() ==> (#[trigger] s[i]).lt(t),
    ensures
        spec_insert(s, t) == s.push(t),
    decreases s.len(),
{
    if s.len() == 0 {
        assert(spec_insert(s, t) =~= s.push(t));
    } else {
        assert(s[0].lt(t));
        assert forall|i: int| 0 <= i < s.drop_first().len() implies (#[trigger] s.drop_first()[i])
            .lt(t) by {
            assert(s[i + 1] == s.drop_first()[i]);
        }
        lemma_insert_of_greatest(s.drop_first(), t);
        assert(seq![s[0]] + s.drop_first().push(t) =~= s.push(t));
    }
}

/// When the same piece of work is already queued, pushing is a no-op.
pub proof fn lemma_insert_finds_same(s: Seq<Task>, t: Task)
    requires
        sorted(s),
        has_same(s, t),
    ensures
        spec_insert(s, t) == s,
    decreases s.len(),
{
    let k = choose|k: int| 0 <= k < s.len() && s[k].same_ident(t);
    if t.lt(s[0]) {
        if k > 0 {
            assert(s[0].lt(s[k]));
        }
        assert(false);
    } else if t.same_ident(s[0]) {
    } else {
        assert(k != 0);
        assert(s.drop_first()[k - 1].same_ident(t));
        assert(sorted(s.drop_first()));
        lemma_insert_finds_same(s.drop_first(), t);
        assert(seq![s[0]] + s.drop_first() =~= s);
    }
}

/// When the work is new, pushing grows the queue by one and queues it.
pub proof fn lemma_insert_new(s: Seq<Task>, t: Task)
    requires
        !has_same(s, t),
    ensures
        spec_insert(s, t).len() == s.len() + 1,
        has_same(spec_insert(s, t), t),
    decreases s.len(),
{
    if s.len() == 0 {
        assert(spec_insert(s, t)[0].same_ident(t));
    } else if t.lt(s[0]) {
        assert(spec_insert(s, t)[0].same_ident(t));
    } else if t.same_ident(s[0]) {
        assert(false);
    } else {
        assert forall|i: int| 0 <= i < s.drop_first().len() implies !s.drop_first()[i].same_ident(
            t,
        ) by {
            assert(s[i + 1] == s.drop_first()[i]);
        }
        lemma_insert_new(s.drop_first(), t);
        let k = choose|k: int|
            0 <= k < spec_insert(s.drop_first(), t).len() && spec_insert(s.drop_first(), t)[k]
                .same_ident(t);
        assert((seq![s[0]] + spec_insert(s.drop_first(), t))[k + 1].same_ident(t));
    }
}

/// Pushing the same piece of work twice leaves the queue exactly as after
/// the first push, its size included.
pub proof fn lemma_push_merges_duplicate(s: Seq<Task>, t1: Task, t2: Task)
    requires
        sorted(s),
        t2.same_ident(t1),
    ensures
        spec_insert(spec_insert(s, t1), t2) == spec_insert(s, t1),
        spec_insert(spec_insert(s, t1), t2).len() == spec_insert(s, t1).len(),
{
    lemma_insert_sorted(s, t1);
    if has_same(s, t1) {
        lemma_insert_finds_same(s, t1);
        let k = choose|k: int| 0 <= k < s.len() && s[k].same_ident(t1);
        assert(s[k].same_ident(t2));
        lemma_insert_finds_same(s, t2);
    } else {
        lemma_insert_new(s, t1);
        let r = spec_insert(s, t1);
        let k = choose|k: int| 0 <= k < r.len() && r[k].same_ident(t1);
        assert(r[k].same_ident(t2));
        lemma_insert_finds_same(r, t2);
    }
}

/// Draining an ascending queue yields tasks in non-decreasing order: the
/// element popped at position `i` precedes every later one.
pub proof fn lemma_drain_nondecreasing(s: Seq<Task>, i: int, j: int)
    requires
        sorted(s),
        0 <= i <= j < s.len(),
    ensures
        s[i].le(s[j]),
{
    if i < j {
        assert(s[i].lt(s[j]));
    }
}

/// An ordered, self-deduplicating collection of pending tasks.
#[derive(Debug)]
pub struct Queue {
    pub tasks: Vec<Task>,
}

impl Queue {
    /// The queue's invariant: strictly ascending, hence duplicate-free.
    pub open spec fn wf(&self) -> bool {
        sorted(self.tasks@)
    }

    /// The empty queue.
    pub fn new() -> (q: Queue)
        ensures
            q.tasks@.len() == 0,
            q.wf(),
    {
        Queue { tasks: Vec::new() }
    }

    /// Insert a task; a task for the same work that is already pending
    /// merges silently, leaving the queue unchanged.
    #[verifier::rlimit(40)]
    #[verifier::loop_isolation(false)]
    pub fn push(&mut self, task: Task)
        requires
            old(self).wf(),
        ensures
            final(self).wf(),
            final(self).tasks@ == spec_insert(old(self).tasks@, task),
            has_same(old(self).tasks@, task) ==> final(self).tasks@ == old(self).tasks@,
            !has_same(old(self).tasks@, task) ==> final(self).tasks@.len() == old(
                self,
            ).tasks@.len() + 1,
    {
        proof {
            lemma_insert_sorted(self.tasks@, task);
            if has_same(self.tasks@, task) {
                lemma_insert_finds_same(self.tasks@, task);
            } else {
                lemma_insert_new(self.tasks@, task);
            }
        }
        let ghost s0 = self.tasks@;
        proof {
            assert(s0.skip(0) =~= s0);
            assert(s0.take(0) + spec_insert(s0, task) =~= spec_insert(s0, task));
        }
        let mut i: usize = 0;
        while i < self.tasks.len()
            invariant
                i <= self.tasks.len(),
                self.tasks@ == s0,
                forall|j: int| 0 <= j < i ==> s0[j].lt(task) && !s0[j].same_ident(task),
                spec_insert(s0, task) == s0.take(i as int) + spec_insert(s0.skip(i as int), task),
            decreases self.tasks.len() - i,
        {
            if task.lt_exec(&self.tasks[i]) {
                self.tasks.insert(i, task);
                proof {
                    assert(s0.skip(i as int)[0] == s0[i as int]);
                    assert(spec_insert(s0.skip(i as int), task) == seq![task] + s0.skip(i as int));
                    assert(s0.take(i as int) + (seq![task] + s0.skip(i as int)) =~= s0.insert(
                        i as int,
                        task,
                    ));
                }
                return ;
            }
            if task.same_ident_exec(&self.tasks[i]) {
                proof {
                    assert(s0.skip(i as int)[0] == s0[i as int]);
                    assert(spec_insert(s0.skip(i as int), task) == s0.skip(i as int));
                    assert(s0.take(i as int) + s0.skip(i as int) =~= s0);
                }
                return ;
            }
            proof {
                let rest = s0.skip(i as int);
                assert(rest[0] == s0[i as int]);
                assert(spec_insert(rest, task) == seq![rest[0]] + spec_insert(
                    rest.drop_first(),
                    task,
                ));
                assert(rest.drop_first() =~= s0.skip(i as int + 1));
                assert(s0.take(i as int) + (seq![rest[0]] + spec_insert(
                    s0.skip(i as int + 1),
                    task,
                )) =~= s0.take(i as int + 1) + spec_insert(s0.skip(i as int + 1), task));
            }
            i += 1;
        }
        self.tasks.push(task);
        proof {
            assert(s0.skip(i as int).len() == 0);
            assert(spec_insert(s0.skip(i as int), task) == seq![task]);
            assert(s0.take(i as int) + seq![task] =~= s0.push(task));
        }
    }

    /// Remove and return the least pending task, or nothing from an empty
    /// queue; an emptied queue stays empty and keeps yielding nothing.
    pub fn pop(&mut self) -> (r: Option<Task>)
        requires
            old(self).wf(),
        ensures
            final(self).wf(),
            match r {
                None => old(self).tasks@.len() == 0 && *final(self) == *old(self),
                Some(t) => old(self).tasks@.len() > 0 && t == old(self).tasks@[0]
                    && final(self).tasks@ == old(self).tasks@.drop_first() && forall|i: int|
                    0 <= i < old(self).tasks@.len() ==> t.le(#[trigger] old(self).tasks@[i]),
            },
    {
        if self.tasks.len() == 0 {
            return None;
        }
        let t = self.tasks.remove(0);
        proof {
            assert(self.tasks@ =~= old(self).tasks@.drop_first());
            assert forall|i: int| 0 <= i < old(self).tasks@.len() implies t.le(
                #[trigger] old(self).tasks@[i],
            ) by {
                if i > 0 {
                    assert(old(self).tasks@[0].lt(old(self).tasks@[i]));
                }
            }
        }
        Some(t)
    }

    /// One turn of the queue: pop the least task and perform it, reporting
    /// to the sink. Returns whether there was a task.
    pub fn turn(&mut self, sink: &mut Vec<Notification>) -> (r: bool)
        requires
            old(self).wf(),
        ensures
            final(self).wf(),
            r == (old(self).tasks@.len() > 0),
            !r ==> *final(self) == *old(self) && *final(sink) == *old(sink),
            r ==> final(self).tasks@ == old(self).tasks@.drop_first() && final(sink)@
                == old(sink)@.push(old(self).tasks@[0].performed_note()),
    {
        match self.pop() {
            Some(task) => {
                task.perform(sink);
                true
            },
            None => false,
        }
    }
}

} // verus!
