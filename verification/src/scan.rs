//! One scan pass: duplicate suppression, classification, commit.
//!
//! The traversal itself (walking directories, following symlinks, probing
//! files) is outside work; the caller turns each visited entry into an
//! [`Entry`](crate::mailbox::Entry) with its canonical path and hands it
//! here, in depth-first order. Every decision — cutoff, classification,
//! customization override, commit, task and event emission — is verified.
//! Script customization runs between detection and commit; a caller with
//! scripts detects, customizes and commits through the same functions this
//! module's own driver uses.

use vstd::prelude::*;
use std::sync::Arc;
use crate::config::MetaOverride;
use crate::config::StorageMeta;
use crate::config::spec_meta_for;
use crate::config::meta_for;
use crate::config::path_in;
use crate::config::path_set_contains;
use crate::mailbox::Mailbox;
use crate::mailbox::MailboxV;
use crate::mailbox::Entry;
use crate::mailbox::Notification;
use crate::mailbox::ScanError;
use crate::mailbox::Type;
use crate::mailbox::Cache;
use crate::mailbox::Mbox;
use crate::mailbox::Mdir;
use crate::mailbox::scan_cutoff;
use crate::mailbox::spec_cutoff;
use crate::mailbox::spec_guess;
use crate::mailbox::spec_default_name;
use crate::registry::Registry;
use crate::registry::contains_name;
use crate::task::Queue;
use crate::task::Task;
use crate::task::ArcCmp;
use crate::task::arc_clone;
use crate::task::spec_insert;
use crate::task::has_same;

verus! {

/// The cache seed a freshly detected store of format `tp` gets.
pub open spec fn spec_cache_for(tp: Type) -> Cache {
    match tp {
        Type::Plain => Cache::Mbox(Mbox {  }),
        Type::Gzip => Cache::Mbox(Mbox {  }),
        Type::Dir => Cache::Mdir(Mdir {  }),
    }
}

/// The store value detection builds for a store of format `tp` at `path`.
pub open spec fn spec_detected(path: Seq<Seq<char>>, tp: Type) -> MailboxV {
    MailboxV {
        path,
        name: spec_default_name(path),
        tp,
        cache: spec_cache_for(tp),
        prio: 0,
        shortcut: None,
    }
}

/// How a configured override lands on a store, as the last step before
/// commit: a matching override's priority always wins, its shortcut wins
/// when it carries one; without a match the store keeps what scripting set.
pub open spec fn spec_apply_meta(m: MailboxV, o: Option<StorageMeta>) -> MailboxV {
    match o {
        None => m,
        Some(sm) => MailboxV {
            prio: sm.prio as usize,
            shortcut: if sm.shortcut is Some {
                sm.shortcut
            } else {
                m.shortcut
            },
            ..m
        },
    }
}

/// Customization precedence: when no configured override matches a store's
/// path, commit publishes exactly what the scripting callbacks left behind;
/// a matching override is applied last and wins on the fields it carries.
pub proof fn lemma_meta_precedence(m: MailboxV, o: Option<StorageMeta>)
    ensures
        o is None ==> spec_apply_meta(m, o) == m,
        match o {
            None => true,
            Some(sm) => spec_apply_meta(m, o) == (MailboxV {
                prio: sm.prio as usize,
                shortcut: if sm.shortcut is Some {
                    sm.shortcut
                } else {
                    m.shortcut
                },
                ..m
            }),
        },
{
}

/// A path already claimed as a store is always cut off when it is visited
/// again, whatever the entry looks like: revisiting it can commit nothing.
pub proof fn lemma_claimed_path_is_cut(dedup: Seq<Seq<Seq<char>>>, entry: Entry)
    requires
        path_in(dedup, entry.path.deep_view()),
    ensures
        spec_cutoff(dedup, entry),
{
}

/// Whether `p` lies strictly under one of the `pruned` paths, so that the
/// traversal was told not to descend to it.
pub open spec fn spec_suppressed(pruned: Seq<Seq<Seq<char>>>, p: Seq<Seq<char>>) -> bool {
    exists|i: int|
        0 <= i < pruned.len() && pruned[i].len() < p.len() && #[trigger] pruned[i].is_prefix_of(p)
}

/// Whether `a` is a proper prefix of the path `b`.
fn path_is_proper_prefix(a: &Vec<String>, b: &Vec<String>) -> (r: bool)
    ensures
        r == (a.deep_view().len() < b.deep_view().len() && a.deep_view().is_prefix_of(
            b.deep_view(),
        )),
{
    if a.len() >= b.len() {
        return false;
    }
    let mut i: usize = 0;
    while i < a.len()
        invariant
            i <= a.len(),
            a.len() < b.len(),
            forall|j: int| 0 <= j < i ==> a.deep_view()[j] == b.deep_view()[j],
        decreases a.len() - i,
    {
        if !(a[i] == b[i]) {
            assert(a.deep_view()[i as int] != b.deep_view()[i as int]);
            assert(!a.deep_view().is_prefix_of(b.deep_view()));
            return false;
        }
        i += 1;
    }
    proof {
        assert(a.deep_view() =~= b.deep_view().subrange(0, a.deep_view().len() as int));
    }
    true
}

fn suppressed_exec(pruned: &Vec<Vec<String>>, p: &Vec<String>) -> (r: bool)
    ensures
        r == spec_suppressed(pruned.deep_view(), p.deep_view()),
{
    let mut i: usize = 0;
    while i < pruned.len()
        invariant
            i <= pruned.len(),
            forall|j: int|
                0 <= j < i ==> !(pruned.deep_view()[j].len() < p.deep_view().len()
                    && #[trigger] pruned.deep_view()[j].is_prefix_of(p.deep_view())),
        decreases pruned.len() - i,
    {
        if path_is_proper_prefix(&pruned[i], p) {
            proof {
                assert(pruned.deep_view()[i as int] == pruned@[i as int].deep_view());
                assert(pruned.deep_view()[i as int].is_prefix_of(p.deep_view()));
            }
            return true;
        }
        i += 1;
    }
    false
}

/// The pure image of one queued task: the identity and the value of the
/// store it references.
pub ghost struct TaskV {
    pub id: u64,
    pub store: MailboxV,
}

/// The pure image of one emitted event.
pub ghost enum NoteV {
    Appeared(MailboxV),
    Content(MailboxV),
}

/// The image of a task.
pub open spec fn task_v(t: Task) -> TaskV {
    TaskV { id: t.ident(), store: t.store()@ }
}

/// The image of an event.
pub open spec fn note_v(n: Notification) -> NoteV {
    match n {
        Notification::MailboxAppeared(a) => NoteV::Appeared(a@),
        Notification::MailboxContent(a) => NoteV::Content(a@),
    }
}

/// The images of the committed stores, in commit order.
pub open spec fn stores_v(stores: Seq<Arc<Mailbox>>) -> Seq<MailboxV> {
    Seq::new(stores.len(), |i: int| stores[i]@)
}

/// The images of the queued tasks, in queue order.
pub open spec fn tasks_v(tasks: Seq<Task>) -> Seq<TaskV> {
    Seq::new(tasks.len(), |i: int| task_v(tasks[i]))
}

/// The images of the emitted events, in emission order.
pub open spec fn notes_v(notes: Seq<Notification>) -> Seq<NoteV> {
    Seq::new(notes.len(), |i: int| note_v(notes[i]))
}

/// Whether a committed store image is named `n`.
pub open spec fn model_contains_name(stores: Seq<MailboxV>, n: Seq<char>) -> bool {
    exists|i: int| 0 <= i < stores.len() && stores[i].name == n
}

/// The model sees a name exactly when the registry holds it.
pub proof fn lemma_model_contains(stores: Seq<Arc<Mailbox>>, n: Seq<char>)
    ensures
        model_contains_name(stores_v(stores), n) == contains_name(stores, n),
{
    if contains_name(stores, n) {
        let i = choose|i: int| 0 <= i < stores.len() && stores[i]@.name == n;
        assert(stores_v(stores)[i].name == n);
    }
    if model_contains_name(stores_v(stores), n) {
        let i = choose|i: int| 0 <= i < stores_v(stores).len() && stores_v(stores)[i].name == n;
        assert(stores[i]@.name == n);
    }
}

/// The state of a scan pass, as pure values.
#[verifier::ext_equal]
pub ghost struct ScanState {
    pub dedup: Seq<Seq<Seq<char>>>,
    pub pruned: Seq<Seq<Seq<char>>>,
    pub stores: Seq<MailboxV>,
    pub tasks: Seq<TaskV>,
    pub notes: Seq<NoteV>,
}

/// What visiting one entry does to the scan state: nothing under a pruned
/// subtree; pruning at the cutoff; nothing for entries that are no store or
/// fail to classify (they are skipped); and for a classified store, the
/// customized store is committed, its rescan task queued under the next
/// identity and its discovery event emitted — unless the name is taken,
/// which is the one fatal outcome.
pub open spec fn spec_visit(s: ScanState, meta: Seq<MetaOverride>, e: Entry) -> (
    ScanState,
    Result<(), ScanError>,
) {
    let path = e.path.deep_view();
    if spec_suppressed(s.pruned, path) {
        (s, Ok(()))
    } else if spec_cutoff(s.dedup, e) {
        ((ScanState { pruned: s.pruned.push(path), ..s }), Ok(()))
    } else {
        match spec_guess(e) {
            Err(_) => (s, Ok(())),
            Ok(None) => (s, Ok(())),
            Ok(Some(tp)) => {
                let m = spec_apply_meta(spec_detected(path, tp), spec_meta_for(meta, path));
                if model_contains_name(s.stores, m.name) {
                    (s, Err(ScanError::DuplicateName))
                } else {
                    (
                        (ScanState {
                            dedup: s.dedup.push(path),
                            pruned: s.pruned,
                            stores: s.stores.push(m),
                            tasks: s.tasks.push(TaskV { id: s.stores.len() as u64, store: m }),
                            notes: s.notes.push(NoteV::Appeared(m)),
                        }),
                        Ok(()),
                    )
                }
            },
        }
    }
}

/// Folding visits over traversal entries in order, stopping at the first
/// fatal outcome.
pub open spec fn spec_scan(s: ScanState, meta: Seq<MetaOverride>, entries: Seq<Entry>) -> (
    ScanState,
    Result<(), ScanError>,
)
    decreases entries.len(),
{
    if entries.len() == 0 {
        (s, Ok(()))
    } else {
        let step = spec_visit(s, meta, entries[0]);
        if step.1 is Err {
            step
        } else {
            spec_scan(step.0, meta, entries.drop_first())
        }
    }
}

/// What one visit did.
#[derive(Debug)]
pub enum Visited {
    /// The entry lies under a pruned subtree; the traversal already stopped
    /// descending above it.
    Suppressed,
    /// The cutoff fired: the entry is an already claimed store, or a
    /// maildir-internal subdirectory of one. Its subtree is pruned.
    Cut,
    /// Classified as no mail store.
    NotStore,
    /// Classification failed; the entry is skipped, the scan continues.
    Failed(ScanError),
    /// A store was committed, customized and queued for rescan.
    Committed(Arc<Mailbox>),
}

/// The state of one scan pass over the configured roots.
#[derive(Debug)]
pub struct Scanner {
    /// Per-path overrides from the configuration.
    pub meta: Vec<MetaOverride>,
    /// Scan-local set of paths already claimed as stores.
    pub dedup: Vec<Vec<String>>,
    /// Paths whose subtrees the traversal was told not to descend into.
    pub pruned: Vec<Vec<String>>,
    /// The catalog being filled; shared with the rest of the process after
    /// the scan.
    pub registry: Registry,
    /// The queue of follow-up work being filled.
    pub queue: Queue,
    /// Discovery events emitted so far.
    pub notifications: Vec<Notification>,
}

impl Scanner {
    /// The scan invariant: unique names in the registry, an ascending
    /// queue, and every queued task referencing the committed store whose
    /// commit-time index is the task's identity.
    pub open spec fn wf(&self) -> bool {
        &&& self.registry.wf()
        &&& self.queue.wf()
        &&& forall|i: int|
            0 <= i < self.queue.tasks@.len() ==> (#[trigger] self.queue.tasks@[i]).ident()
                < self.registry.stores@.len()
        &&& forall|i: int|
            0 <= i < self.queue.tasks@.len() ==> (#[trigger] self.queue.tasks@[i]).store()
                == self.registry.stores@[self.queue.tasks@[i].ident() as int]
    }

    /// The scanner's state as pure values.
    pub open spec fn model(&self) -> ScanState {
        ScanState {
            dedup: self.dedup.deep_view(),
            pruned: self.pruned.deep_view(),
            stores: stores_v(self.registry.stores@),
            tasks: tasks_v(self.queue.tasks@),
            notes: notes_v(self.notifications@),
        }
    }

    /// A fresh pass: nothing claimed, nothing committed, nothing queued.
    pub fn new(meta: Vec<MetaOverride>) -> (s: Scanner)
        ensures
            s.wf(),
            s.meta == meta,
            s.dedup@.len() == 0,
            s.pruned@.len() == 0,
            s.registry.stores@.len() == 0,
            s.queue.tasks@.len() == 0,
            s.notifications@.len() == 0,
    {
        Scanner {
            meta,
            dedup: Vec::new(),
            pruned: Vec::new(),
            registry: Registry::new(),
            queue: Queue::new(),
            notifications: Vec::new(),
        }
    }

    /// Commit one detected, customized store: apply the configured override
    /// for its path, publish it in the registry under its name, queue a
    /// rescan task under a fresh identity, emit the discovery event, and
    /// claim the path. A duplicate name or an already claimed path is
    /// signalled and changes nothing.
    pub fn commit(&mut self, mbox: Mailbox) -> (r: Result<Arc<Mailbox>, ScanError>)
        requires
            old(self).wf(),
        ensures
            final(self).wf(),
            final(self).meta == old(self).meta,
            match r {
                Err(ScanError::AlreadyClaimed) => path_in(
                    old(self).dedup.deep_view(),
                    mbox@.path,
                ) && *final(self) == *old(self),
                Err(ScanError::DuplicateName) => !path_in(old(self).dedup.deep_view(), mbox@.path)
                    && contains_name(old(self).registry.stores@, mbox@.name) && *final(self)
                    == *old(self),
                Err(ScanError::Decompress) => false,
                Ok(arc) => !path_in(old(self).dedup.deep_view(), mbox@.path) && !contains_name(
                    old(self).registry.stores@,
                    mbox@.name,
                ) && arc@ == spec_apply_meta(
                    mbox@,
                    spec_meta_for(old(self).meta@, mbox@.path),
                ) && final(self).registry.stores@ == old(self).registry.stores@.push(arc) && final(self).queue.tasks@ == spec_insert(
                    old(self).queue.tasks@,
                    Task::Rescan(
                        ArcCmp::<Mailbox> {
                            id: old(self).registry.stores@.len() as u64,
                            ptr: arc,
                        },
                    ),
                ) && final(self).queue.tasks@.len() == old(self).queue.tasks@.len() + 1
                    && final(self).queue.tasks@ == old(self).queue.tasks@.push(
                    Task::Rescan(
                        ArcCmp::<Mailbox> {
                            id: old(self).registry.stores@.len() as u64,
                            ptr: arc,
                        },
                    ),
                ) && final(self).notifications@ == old(self).notifications@.push(
                    Notification::MailboxAppeared(arc),
                ) && final(self).dedup.deep_view() == old(self).dedup.deep_view().push(mbox@.path)
                    && final(self).pruned == old(self).pruned,
            },
    {
        let mut m = mbox;
        match meta_for(&self.meta, &m.path) {
            Some(sm) => {
                m.prio = sm.prio as usize;
                if sm.shortcut.is_some() {
                    m.shortcut = sm.shortcut;
                }
            },
            None => {},
        }
        if path_set_contains(&self.dedup, &m.path) {
            return Err(ScanError::AlreadyClaimed);
        }
        let claimed = m.path.clone();
        proof {
            assert(claimed.deep_view() =~= m.path.deep_view());
        }
        let id = self.registry.len() as u64;
        let arc = Arc::new(m);
        match self.registry.insert(arc_clone(&arc)) {
            Err(e) => Err(e),
            Ok(_) => {
                let ghost tasks0 = self.queue.tasks@;
                let ghost task = Task::Rescan(ArcCmp::<Mailbox> { id, ptr: arc });
                proof {
                    assert forall|i: int| 0 <= i < tasks0.len() implies !(#[trigger] tasks0[i])
                        .same_ident(task) by {
                        assert(tasks0[i].ident() < id);
                    }
                    assert(!has_same(tasks0, task));
                }
                self.queue.push(Task::rescan(id, arc_clone(&arc)));
                Notification::send(
                    Notification::MailboxAppeared(arc_clone(&arc)),
                    &mut self.notifications,
                );
                self.dedup.push(claimed);
                proof {
                    assert(self.dedup.deep_view() =~= old(self).dedup.deep_view().push(
                        mbox@.path,
                    ));
                    crate::task::lemma_insert_sorted(tasks0, task);
                    assert forall|i: int| 0 <= i < tasks0.len() implies (#[trigger] tasks0[i]).lt(
                        task,
                    ) by {
                        assert(tasks0[i].ident() < id);
                    }
                    crate::task::lemma_insert_of_greatest(tasks0, task);
                }
                Ok(arc)
            },
        }
    }

    /// Visit one traversal entry: suppress it under a pruned subtree, prune
    /// it at the cutoff, classify it, and commit what classifies. Per-entry
    /// classification failures are reported and skipped; only the commit's
    /// duplicate-name condition aborts the scan.
    pub fn visit(&mut self, entry: &Entry) -> (r: Result<Visited, ScanError>)
        requires
            old(self).wf(),
        ensures
            final(self).wf(),
            final(self).meta == old(self).meta,
            final(self).model() == spec_visit(old(self).model(), old(self).meta@, *entry).0,
            (r matches Ok(_)) == (spec_visit(old(self).model(), old(self).meta@, *entry).1
                is Ok),
            r matches Err(e) ==> spec_visit(old(self).model(), old(self).meta@, *entry).1
                == Err::<(), ScanError>(e),
            match r {
                Ok(Visited::Suppressed) => spec_suppressed(
                    old(self).pruned.deep_view(),
                    entry.path.deep_view(),
                ) && *final(self) == *old(self),
                Ok(Visited::Cut) => !spec_suppressed(
                    old(self).pruned.deep_view(),
                    entry.path.deep_view(),
                ) && spec_cutoff(old(self).dedup.deep_view(), *entry) && final(self).pruned.deep_view()
                    == old(self).pruned.deep_view().push(entry.path.deep_view())
                    && final(self).dedup == old(self).dedup
                    && final(self).registry == old(self).registry && final(self).queue == old(self).queue && final(self).notifications == old(self).notifications,
                Ok(Visited::NotStore) => !spec_suppressed(
                    old(self).pruned.deep_view(),
                    entry.path.deep_view(),
                ) && !spec_cutoff(old(self).dedup.deep_view(), *entry) && spec_guess(*entry)
                    == Ok::<Option<Type>, ScanError>(None) && *final(self) == *old(self),
                Ok(Visited::Failed(e)) => !spec_suppressed(
                    old(self).pruned.deep_view(),
                    entry.path.deep_view(),
                ) && !spec_cutoff(old(self).dedup.deep_view(), *entry) && spec_guess(*entry)
                    == Err::<Option<Type>, ScanError>(e) && *final(self) == *old(self),
                Ok(Visited::Committed(arc)) => !spec_suppressed(
                    old(self).pruned.deep_view(),
                    entry.path.deep_view(),
                ) && !spec_cutoff(old(self).dedup.deep_view(), *entry) && spec_guess(*entry)
                    == Ok::<Option<Type>, ScanError>(Some(arc@.tp)) && arc@ == spec_apply_meta(
                    spec_detected(entry.path.deep_view(), arc@.tp),
                    spec_meta_for(old(self).meta@, entry.path.deep_view()),
                ) && final(self).registry.stores@ == old(self).registry.stores@.push(arc) && final(self).queue.tasks@.len() == old(self).queue.tasks@.len() + 1 && final(self).notifications@ == old(self).notifications@.push(
                    Notification::MailboxAppeared(arc),
                ) && final(self).dedup.deep_view() == old(self).dedup.deep_view().push(
                    entry.path.deep_view(),
                ) && final(self).pruned == old(self).pruned,
                Err(e) => e == ScanError::DuplicateName && !spec_suppressed(
                    old(self).pruned.deep_view(),
                    entry.path.deep_view(),
                ) && !spec_cutoff(old(self).dedup.deep_view(), *entry) && (spec_guess(
                    *entry,
                ) matches Ok(Some(_))) && contains_name(
                    old(self).registry.stores@,
                    spec_default_name(entry.path.deep_view()),
                ) && *final(self) == *old(self),
            },
    {
        let ghost step = spec_visit(old(self).model(), old(self).meta@, *entry);
        if suppressed_exec(&self.pruned, &entry.path) {
            return Ok(Visited::Suppressed);
        }
        if scan_cutoff(&self.dedup, entry) {
            let c = entry.path.clone();
            proof {
                assert(c.deep_view() =~= entry.path.deep_view());
            }
            self.pruned.push(c);
            proof {
                assert(self.pruned.deep_view() =~= old(self).pruned.deep_view().push(
                    entry.path.deep_view(),
                ));
                assert(self.model() =~= step.0);
            }
            return Ok(Visited::Cut);
        }
        match Mailbox::detect(entry) {
            Err(e) => Ok(Visited::Failed(e)),
            Ok(None) => Ok(Visited::NotStore),
            Ok(Some(m)) => {
                proof {
                    assert(!path_in(self.dedup.deep_view(), m@.path));
                    lemma_model_contains(self.registry.stores@, m@.name);
                }
                let ghost stores0 = self.registry.stores@;
                let ghost tasks0 = self.queue.tasks@;
                let ghost notes0 = self.notifications@;
                match self.commit(m) {
                    Ok(arc) => {
                        proof {
                            let path = entry.path.deep_view();
                            let mm = spec_apply_meta(
                                spec_detected(path, arc@.tp),
                                spec_meta_for(old(self).meta@, path),
                            );
                            assert(stores_v(self.registry.stores@) =~= stores_v(stores0).push(
                                arc@,
                            ));
                            assert(tasks_v(self.queue.tasks@) =~= tasks_v(tasks0).push(
                                TaskV { id: stores0.len() as u64, store: mm },
                            ));
                            assert(notes_v(self.notifications@) =~= notes_v(notes0).push(
                                NoteV::Appeared(mm),
                            ));
                            assert(self.model() =~= step.0);
                        }
                        Ok(Visited::Committed(arc))
                    },
                    Err(e) => Err(e),
                }
            },
        }
    }

    /// Run the whole pass over traversal entries in depth-first order: the
    /// verified core of the initial scan. The final state and result are
    /// exactly the fold of [`spec_visit`] over the entries; in particular
    /// exactly one rescan task and one discovery event exist per committed
    /// store, and only the duplicate-name condition stops the pass.
    #[verifier::loop_isolation(false)]
    pub fn scan_entries(&mut self, entries: &Vec<Entry>) -> (r: Result<(), ScanError>)
        requires
            old(self).wf(),
        ensures
            final(self).wf(),
            final(self).meta == old(self).meta,
            final(self).model() == spec_scan(old(self).model(), old(self).meta@, entries@).0,
            r == spec_scan(old(self).model(), old(self).meta@, entries@).1,
            old(self).registry.stores@.is_prefix_of(final(self).registry.stores@),
            final(self).registry.stores@.len() - old(self).registry.stores@.len() == final(self).queue.tasks@.len() - old(self).queue.tasks@.len(),
            final(self).registry.stores@.len() - old(self).registry.stores@.len() == final(self).notifications@.len() - old(self).notifications@.len(),
            r matches Err(e) ==> e == ScanError::DuplicateName,
    {
        proof {
            assert(entries@.skip(0) =~= entries@);
        }
        let mut i: usize = 0;
        while i < entries.len()
            invariant
                i <= entries@.len(),
                self.wf(),
                self.meta == old(self).meta,
                spec_scan(old(self).model(), old(self).meta@, entries@) == spec_scan(
                    self.model(),
                    old(self).meta@,
                    entries@.skip(i as int),
                ),
                old(self).registry.stores@.is_prefix_of(self.registry.stores@),
                self.registry.stores@.len() - old(self).registry.stores@.len()
                    == self.queue.tasks@.len() - old(self).queue.tasks@.len(),
                self.registry.stores@.len() - old(self).registry.stores@.len()
                    == self.notifications@.len() - old(self).notifications@.len(),
            decreases entries@.len() - i,
        {
            let ghost before = self.registry.stores@;
            let ghost m0 = self.model();
            let ghost rest = entries@.skip(i as int);
            proof {
                assert(rest[0] == entries@[i as int]);
                assert(rest.drop_first() =~= entries@.skip(i + 1));
            }
            match self.visit(&entries[i]) {
                Ok(_) => {},
                Err(e) => {
                    proof {
                        assert(spec_visit(m0, old(self).meta@, entries@[i as int]).1
                            == Err::<(), ScanError>(e));
                    }
                    return Err(e);
                },
            }
            proof {
                if self.registry.stores@ != before {
                    assert(before.is_prefix_of(self.registry.stores@));
                }
                assert(spec_scan(m0, old(self).meta@, rest) == spec_scan(
                    self.model(),
                    old(self).meta@,
                    entries@.skip(i + 1),
                ));
            }
            i += 1;
        }
        proof {
            assert(entries@.skip(entries@.len() as int).len() == 0);
        }
        Ok(())
    }
}

} // verus!
