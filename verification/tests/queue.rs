use std::sync::Arc;

use mailscan::mailbox::Cache;
use mailscan::mailbox::Mailbox;
use mailscan::mailbox::Mbox;
use mailscan::mailbox::Notification;
use mailscan::mailbox::Type;
use mailscan::task::ArcCmp;
use mailscan::task::Queue;
use mailscan::task::Task;

fn store(name: &str) -> Arc<Mailbox> {
    Arc::new(Mailbox {
        path: vec!["home".to_string(), name.to_string()],
        name: name.to_string(),
        tp: Type::Plain,
        cache: Cache::Mbox(Mbox {}),
        prio: 0,
        shortcut: None,
    })
}

fn task_id(t: &Task) -> u64 {
    match t {
        Task::Rescan(a) => a.id,
    }
}

#[test]
fn arccmp_keeps_identity_and_value() {
    let s = store("alpha");
    let handle = ArcCmp::new(7, Arc::clone(&s));
    assert_eq!(handle.id, 7);
    let back = handle.into_inner();
    assert_eq!(back.name(), "alpha");
    assert!(Arc::ptr_eq(&back, &s));
}

#[test]
fn rescan_references_the_store() {
    let s = store("alpha");
    let t = Task::rescan(3, Arc::clone(&s));
    assert_eq!(task_id(&t), 3);
    match &t {
        Task::Rescan(a) => assert_eq!(a.ptr.name(), "alpha"),
    }
}

#[test]
fn pop_yields_least_identity_first() {
    let mut q = Queue::new();
    q.push(Task::rescan(3, store("c")));
    q.push(Task::rescan(1, store("a")));
    q.push(Task::rescan(2, store("b")));
    assert_eq!(q.tasks.len(), 3);
    assert_eq!(task_id(&q.pop().unwrap()), 1);
    assert_eq!(task_id(&q.pop().unwrap()), 2);
    assert_eq!(task_id(&q.pop().unwrap()), 3);
    assert!(q.pop().is_none());
}

#[test]
fn pushing_same_identity_twice_keeps_size() {
    let s = store("alpha");
    let mut q = Queue::new();
    q.push(Task::rescan(5, Arc::clone(&s)));
    assert_eq!(q.tasks.len(), 1);
    q.push(Task::rescan(5, Arc::clone(&s)));
    assert_eq!(q.tasks.len(), 1);
    q.push(Task::rescan(6, s));
    assert_eq!(q.tasks.len(), 2);
}

#[test]
fn drain_is_nondecreasing_and_stays_empty() {
    let mut q = Queue::new();
    for id in [9u64, 2, 7, 4, 0, 2] {
        q.push(Task::rescan(id, store(&format!("s{id}"))));
    }
    assert_eq!(q.tasks.len(), 5);
    let mut seen: Vec<u64> = Vec::new();
    while let Some(t) = q.pop() {
        seen.push(task_id(&t));
    }
    assert_eq!(seen, vec![0, 2, 4, 7, 9]);
    assert!(q.pop().is_none());
    assert!(q.pop().is_none());
    assert_eq!(q.tasks.len(), 0);
}

#[test]
fn turn_performs_and_reports_content() {
    let mut q = Queue::new();
    q.push(Task::rescan(1, store("alpha")));
    let mut sink: Vec<Notification> = Vec::new();
    assert!(q.turn(&mut sink));
    assert_eq!(sink.len(), 1);
    match &sink[0] {
        Notification::MailboxContent(m) => assert_eq!(m.name(), "alpha"),
        other => panic!("unexpected notification {other:?}"),
    }
    assert!(!q.turn(&mut sink));
    assert_eq!(sink.len(), 1);
}

#[test]
fn send_appends_to_the_sink() {
    let mut sink: Vec<Notification> = Vec::new();
    Notification::send(Notification::MailboxAppeared(store("alpha")), &mut sink);
    Notification::send(Notification::MailboxContent(store("beta")), &mut sink);
    assert_eq!(sink.len(), 2);
    assert!(matches!(&sink[0], Notification::MailboxAppeared(m) if m.name() == "alpha"));
    assert!(matches!(&sink[1], Notification::MailboxContent(m) if m.name() == "beta"));
}
