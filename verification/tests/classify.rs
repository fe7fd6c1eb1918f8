use mailscan::mailbox::Cache;
use mailscan::mailbox::Entry;
use mailscan::mailbox::EntryData;
use mailscan::mailbox::Mailbox;
use mailscan::mailbox::ScanError;
use mailscan::mailbox::Type;

fn gzip_bytes(payload: &[u8]) -> Vec<u8> {
    let mut enc = flate2::write::GzEncoder::new(Vec::new(), flate2::Compression::default());
    std::io::Write::write_all(&mut enc, payload).unwrap();
    enc.finish().unwrap()
}

fn file_entry(path: &[&str], bytes: Vec<u8>) -> Entry {
    Entry {
        path: path.iter().map(|s| s.to_string()).collect(),
        data: EntryData::FileBytes(bytes),
    }
}

fn dir_entry(path: &[&str], has_cur: bool, has_new: bool, has_tmp: bool) -> Entry {
    Entry {
        path: path.iter().map(|s| s.to_string()).collect(),
        data: EntryData::DirProbe { has_cur, has_new, has_tmp },
    }
}

#[test]
fn plain_mbox_is_classified() {
    let e = file_entry(&["home", "box"], b"From someone@example".to_vec());
    assert_eq!(Type::guess(&e), Ok(Some(Type::Plain)));
}

#[test]
fn exactly_five_magic_bytes_suffice() {
    let e = file_entry(&["home", "box"], b"From ".to_vec());
    assert_eq!(Type::guess(&e), Ok(Some(Type::Plain)));
}

#[test]
fn short_file_is_no_store() {
    let e = file_entry(&["home", "tiny"], b"From".to_vec());
    assert_eq!(Type::guess(&e), Ok(None));
    let empty = file_entry(&["home", "empty"], Vec::new());
    assert_eq!(Type::guess(&empty), Ok(None));
}

#[test]
fn other_file_is_no_store() {
    let e = file_entry(&["home", "notes"], b"Hello world".to_vec());
    assert_eq!(Type::guess(&e), Ok(None));
}

#[test]
fn gzipped_mbox_is_classified() {
    let e = file_entry(&["home", "box.gz"], gzip_bytes(b"From someone@example\nbody"));
    assert_eq!(Type::guess(&e), Ok(Some(Type::Gzip)));
}

#[test]
fn gzipped_other_payload_is_no_store() {
    let e = file_entry(&["home", "data.gz"], gzip_bytes(b"Hello world"));
    assert_eq!(Type::guess(&e), Ok(None));
}

#[test]
fn gzipped_short_payload_is_no_store() {
    let e = file_entry(&["home", "tiny.gz"], gzip_bytes(b"Fro"));
    assert_eq!(Type::guess(&e), Ok(None));
}

#[test]
fn corrupt_gzip_is_an_error() {
    // Gzip magic followed by an invalid compression method byte.
    let bytes = vec![0x1f, 0x8b, 0xff, 0x00, 0x00, 0x00, 0x00];
    let e = file_entry(&["home", "bad.gz"], bytes);
    assert_eq!(Type::guess(&e), Err(ScanError::Decompress));
}

#[test]
fn maildir_is_classified() {
    let e = dir_entry(&["home", "mail"], true, true, true);
    assert_eq!(Type::guess(&e), Ok(Some(Type::Dir)));
}

#[test]
fn directory_missing_a_subdir_is_no_store() {
    assert_eq!(Type::guess(&dir_entry(&["h", "d"], false, true, true)), Ok(None));
    assert_eq!(Type::guess(&dir_entry(&["h", "d"], true, false, true)), Ok(None));
    assert_eq!(Type::guess(&dir_entry(&["h", "d"], true, true, false)), Ok(None));
    assert_eq!(Type::guess(&dir_entry(&["h", "d"], false, false, false)), Ok(None));
}

#[test]
fn special_entry_is_no_store() {
    let e = Entry { path: vec!["dev".to_string(), "null".to_string()], data: EntryData::Other };
    assert_eq!(Type::guess(&e), Ok(None));
}

#[test]
fn detect_builds_store_with_defaults() {
    let e = file_entry(&["home", "box"], b"From a".to_vec());
    let m = Mailbox::detect(&e).unwrap().unwrap();
    assert_eq!(m.name(), "box");
    assert_eq!(m.tp, Type::Plain);
    assert!(matches!(m.cache, Cache::Mbox(_)));
    assert_eq!(m.prio, 0);
    assert_eq!(m.shortcut, None);
    assert_eq!(m.path, vec!["home".to_string(), "box".to_string()]);
}

#[test]
fn detect_maildir_gets_dir_cache() {
    let e = dir_entry(&["home", "mail"], true, true, true);
    let m = Mailbox::detect(&e).unwrap().unwrap();
    assert_eq!(m.tp, Type::Dir);
    assert!(matches!(m.cache, Cache::Mdir(_)));
    assert_eq!(m.name(), "mail");
}

#[test]
fn detect_at_empty_path_uses_placeholder_name() {
    let e = file_entry(&[], b"From a".to_vec());
    let m = Mailbox::detect(&e).unwrap().unwrap();
    assert_eq!(m.name(), "<???>");
}

#[test]
fn detect_non_store_is_none() {
    let e = file_entry(&["home", "notes"], b"not a mailbox".to_vec());
    assert!(Mailbox::detect(&e).unwrap().is_none());
}

#[test]
fn setters_change_one_field_each() {
    let e = file_entry(&["home", "box"], b"From a".to_vec());
    let mut m = Mailbox::detect(&e).unwrap().unwrap();
    m.set_name("renamed".to_string());
    assert_eq!(m.name(), "renamed");
    assert_eq!(m.prio, 0);
    m.set_prio(9);
    assert_eq!(m.prio, 9);
    assert_eq!(m.name(), "renamed");
    m.set_shortcut("abc".to_string());
    assert_eq!(m.shortcut, Some('a'));
    m.set_shortcut(String::new());
    assert_eq!(m.shortcut, None);
}
