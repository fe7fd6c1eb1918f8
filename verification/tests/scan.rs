use std::sync::Arc;

use mailscan::config::MetaOverride;
use mailscan::config::StorageMeta;
use mailscan::mailbox::Cache;
use mailscan::mailbox::Entry;
use mailscan::mailbox::EntryData;
use mailscan::mailbox::Mailbox;
use mailscan::mailbox::Mbox;
use mailscan::mailbox::ScanError;
use mailscan::mailbox::Type;
use mailscan::registry::Registry;
use mailscan::scan::Scanner;
use mailscan::scan::Visited;

fn gzip_bytes(payload: &[u8]) -> Vec<u8> {
    let mut enc = flate2::write::GzEncoder::new(Vec::new(), flate2::Compression::default());
    std::io::Write::write_all(&mut enc, payload).unwrap();
    enc.finish().unwrap()
}

fn path(parts: &[&str]) -> Vec<String> {
    parts.iter().map(|s| s.to_string()).collect()
}

fn file_entry(p: &[&str], bytes: Vec<u8>) -> Entry {
    Entry { path: path(p), data: EntryData::FileBytes(bytes) }
}

fn dir_entry(p: &[&str], has_cur: bool, has_new: bool, has_tmp: bool) -> Entry {
    Entry { path: path(p), data: EntryData::DirProbe { has_cur, has_new, has_tmp } }
}

fn plain_store(p: &[&str], name: &str) -> Mailbox {
    Mailbox {
        path: path(p),
        name: name.to_string(),
        tp: Type::Plain,
        cache: Cache::Mbox(Mbox {}),
        prio: 0,
        shortcut: None,
    }
}

#[test]
fn registry_insert_then_lookup_finds_the_store() {
    let mut r = Registry::new();
    let s = Arc::new(plain_store(&["home", "box"], "box"));
    assert!(r.insert(Arc::clone(&s)).is_ok());
    let found = r.lookup(&"box".to_string()).expect("store should be committed");
    assert_eq!(found.name(), "box");
    assert!(Arc::ptr_eq(&found, &s));
    assert_eq!(r.len(), 1);
}

#[test]
fn registry_duplicate_name_is_signalled() {
    let mut r = Registry::new();
    r.insert(Arc::new(plain_store(&["home", "box"], "box"))).unwrap();
    let dup = Arc::new(plain_store(&["elsewhere", "box"], "box"));
    assert_eq!(r.insert(dup), Err(ScanError::DuplicateName));
    assert_eq!(r.len(), 1);
}

#[test]
fn registry_lookup_missing_name_is_none() {
    let r = Registry::new();
    assert!(r.lookup(&"nothing".to_string()).is_none());
}

#[test]
fn commit_publishes_queues_and_claims() {
    let mut sc = Scanner::new(Vec::new());
    let arc = sc.commit(plain_store(&["home", "box"], "box")).unwrap();
    assert_eq!(arc.name(), "box");
    assert_eq!(sc.registry.len(), 1);
    assert_eq!(sc.queue.tasks.len(), 1);
    assert_eq!(sc.notifications.len(), 1);
    // The claimed path is refused a second time.
    let again = sc.commit(plain_store(&["home", "box"], "other"));
    assert_eq!(again.unwrap_err(), ScanError::AlreadyClaimed);
    assert_eq!(sc.registry.len(), 1);
}

#[test]
fn commit_duplicate_name_aborts_nothing_else() {
    let mut sc = Scanner::new(Vec::new());
    sc.commit(plain_store(&["a", "box"], "box")).unwrap();
    let r = sc.commit(plain_store(&["b", "box"], "box"));
    assert_eq!(r.unwrap_err(), ScanError::DuplicateName);
    assert_eq!(sc.registry.len(), 1);
    assert_eq!(sc.queue.tasks.len(), 1);
}

#[test]
fn commit_applies_matching_path_override_last() {
    let meta = vec![MetaOverride {
        path: path(&["home", "box"]),
        meta: StorageMeta { shortcut: Some('x'), prio: 7 },
    }];
    let mut sc = Scanner::new(meta);
    let mut m = plain_store(&["home", "box"], "box");
    // Scripting customized first; the configured override wins afterwards.
    m.set_prio(5);
    m.set_shortcut("a".to_string());
    let arc = sc.commit(m).unwrap();
    assert_eq!(arc.prio, 7);
    assert_eq!(arc.shortcut, Some('x'));
    // A store on another path keeps what scripting set.
    let mut other = plain_store(&["home", "other"], "other");
    other.set_prio(5);
    other.set_shortcut("a".to_string());
    let arc2 = sc.commit(other).unwrap();
    assert_eq!(arc2.prio, 5);
    assert_eq!(arc2.shortcut, Some('a'));
}

#[test]
fn script_customization_lands_on_every_committed_store() {
    // The scripting host applies each registered callback to every detected
    // store; a script setting priority 5 and shortcut 'a' reduces to these
    // setter calls between detection and commit.
    let mut sc = Scanner::new(Vec::new());
    let entries = [
        file_entry(&["r", "one"], b"From a".to_vec()),
        file_entry(&["r", "two"], b"From b".to_vec()),
    ];
    for e in &entries {
        let mut m = Mailbox::detect(e).unwrap().unwrap();
        m.set_prio(5);
        m.set_shortcut("a".to_string());
        sc.commit(m).unwrap();
    }
    assert_eq!(sc.registry.len(), 2);
    for s in sc.registry.stores() {
        assert_eq!(s.prio, 5);
        assert_eq!(s.shortcut, Some('a'));
    }
}

#[test]
fn visit_commits_and_cuts() {
    let mut sc = Scanner::new(Vec::new());
    let r = sc.visit(&dir_entry(&["r", "mail"], true, true, true)).unwrap();
    assert!(matches!(r, Visited::Committed(_)));
    // The same canonical path again: cut off, nothing committed.
    let r2 = sc.visit(&dir_entry(&["r", "mail"], true, true, true)).unwrap();
    assert!(matches!(r2, Visited::Cut));
    assert_eq!(sc.registry.len(), 1);
    assert_eq!(sc.queue.tasks.len(), 1);
}

#[test]
fn full_scan_commits_three_stores() {
    let mut sc = Scanner::new(Vec::new());
    let entries = vec![
        dir_entry(&["r"], false, false, false),
        file_entry(&["r", "plainbox"], b"From alice\nhello".to_vec()),
        file_entry(&["r", "packed"], gzip_bytes(b"From bob\nhello")),
        dir_entry(&["r", "mail"], true, true, true),
        dir_entry(&["r", "mail", "cur"], false, false, false),
        file_entry(&["r", "mail", "cur", "msg1"], b"From carol".to_vec()),
        dir_entry(&["r", "mail", "new"], false, false, false),
        dir_entry(&["r", "mail", "tmp"], false, false, false),
        file_entry(&["r", "unrelated"], Vec::new()),
    ];
    sc.scan_entries(&entries).unwrap();
    assert_eq!(sc.registry.len(), 3);
    let kinds: Vec<Type> = sc.registry.stores().iter().map(|s| s.tp).collect();
    assert_eq!(kinds, vec![Type::Plain, Type::Gzip, Type::Dir]);
    assert_eq!(sc.queue.tasks.len(), 3);
    assert_eq!(sc.notifications.len(), 3);
    let names: Vec<&str> = sc.registry.stores().iter().map(|s| s.name()).collect();
    assert_eq!(names, vec!["plainbox", "packed", "mail"]);
}

#[test]
fn maildir_reached_twice_is_committed_once() {
    let mut sc = Scanner::new(Vec::new());
    // First root: the maildir itself, with its internal subdirectories.
    // Second root resolves (canonically) to the maildir's cur subdirectory.
    let entries = vec![
        dir_entry(&["r", "mail"], true, true, true),
        dir_entry(&["r", "mail", "cur"], false, false, false),
        file_entry(&["r", "mail", "cur", "msg1"], b"From carol".to_vec()),
        // Second configured root enters cur independently.
        dir_entry(&["r", "mail", "cur"], false, false, false),
        file_entry(&["r", "mail", "cur", "msg1"], b"From carol".to_vec()),
    ];
    sc.scan_entries(&entries).unwrap();
    assert_eq!(sc.registry.len(), 1);
    assert_eq!(sc.registry.stores()[0].name(), "mail");
    assert_eq!(sc.queue.tasks.len(), 1);
}

#[test]
fn scan_aborts_on_duplicate_name() {
    let mut sc = Scanner::new(Vec::new());
    let entries = vec![
        file_entry(&["a", "box"], b"From a".to_vec()),
        file_entry(&["b", "box"], b"From b".to_vec()),
    ];
    let r = sc.scan_entries(&entries);
    assert_eq!(r.unwrap_err(), ScanError::DuplicateName);
    assert_eq!(sc.registry.len(), 1);
}

#[test]
fn scan_skips_classifier_failures() {
    let mut sc = Scanner::new(Vec::new());
    let entries = vec![
        file_entry(&["r", "bad"], vec![0x1f, 0x8b, 0xff, 0x00, 0x00]),
        file_entry(&["r", "good"], b"From a".to_vec()),
    ];
    sc.scan_entries(&entries).unwrap();
    assert_eq!(sc.registry.len(), 1);
    assert_eq!(sc.registry.stores()[0].name(), "good");
}
