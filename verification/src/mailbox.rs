//! Mail store classification and the store value itself.
//!
//! A filesystem entry is handed to the classifier as an [`Entry`]: its path
//! components plus what a probe of the entry found (the file's bytes, or
//! which maildir subdirectories a directory has). Reading the filesystem is
//! the caller's business; deciding what the probe means is verified here.

use vstd::prelude::*;
use std::sync::Arc;
use crate::config::path_in;
use crate::config::path_set_contains;

verus! {

broadcast use vstd::string::axiom_spec_iter;

/// The three recognized on-disk mail store formats.
#[derive(Clone, Copy, Debug, PartialEq, Eq, Structural)]
pub enum Type {
    /// Uncompressed single-file mailbox: starts with the ASCII bytes `From `.
    Plain,
    /// Gzip-compressed single-file mailbox.
    Gzip,
    /// Maildir-style directory: has `cur`, `new` and `tmp` subdirectories.
    Dir,
}

/// Seed of the incremental read state for a single-file mailbox. The store
/// cache itself is an outside collaborator; the core only owns its seed.
#[derive(Clone, Copy, Debug, PartialEq, Eq, Structural)]
pub struct Mbox {}

/// Seed of the incremental read state for a maildir.
#[derive(Clone, Copy, Debug, PartialEq, Eq, Structural)]
pub struct Mdir {}

/// Store-cache seed, one variant per family of store formats.
#[derive(Clone, Copy, Debug, PartialEq, Eq, Structural)]
pub enum Cache {
    Mbox(Mbox),
    Mdir(Mdir),
}

/// What can go wrong inside the discovery core.
#[derive(Clone, Copy, Debug, PartialEq, Eq, Structural)]
pub enum ScanError {
    /// A candidate file began with the gzip magic but decompressing it
    /// failed. Per-entry condition: the caller logs it and scans on.
    Decompress,
    /// A store with the same name is already committed. Scan-fatal.
    DuplicateName,
    /// The store's path was already claimed by an earlier commit. Scan-fatal;
    /// the cutoff test makes this unreachable in the normal flow.
    AlreadyClaimed,
}

/// What a probe of one filesystem entry found.
pub enum EntryData {
    /// A regular file and its raw bytes.
    FileBytes(Vec<u8>),
    /// A directory, and whether each of the three maildir subdirectories
    /// exists as a directory directly under it.
    DirProbe { has_cur: bool, has_new: bool, has_tmp: bool },
    /// Any other entry kind (unresolved symlink, special file).
    Other,
}

/// One visited filesystem entry: its path as components, and the probe.
pub struct Entry {
    pub path: Vec<String>,
    pub data: EntryData,
}

/// The five bytes `From ` that open an mbox file.
pub open spec fn mbox_magic() -> Seq<u8> {
    seq![70u8, 114u8, 111u8, 109u8, 32u8]
}

/// Whether `d` starts with the mbox magic.
pub open spec fn is_mbox_magic(d: Seq<u8>) -> bool {
    d.len() >= 5 && d.subrange(0, 5) == mbox_magic()
}

/// Whether `d` starts with the two gzip magic bytes.
pub open spec fn is_gzip_magic(d: Seq<u8>) -> bool {
    d.len() >= 2 && d[0] == 0x1fu8 && d[1] == 0x8bu8
}

/// The first (up to) five bytes that gzip-decompressing `data` yields, or
/// `None` if decompression fails. Decompression is a pure function of the
/// bytes, so the result only gets a name here; `gunzip_first` relies on it.
pub uninterp spec fn gunzip_probe(data: Seq<u8>) -> Option<Seq<u8>>;

/// Declares `std::io::Error`, the error flate2's reader yields on a corrupt
/// stream; it is carried opaquely and mapped to [`ScanError::Decompress`].
#[verifier::external_type_specification]
#[verifier::external_body]
pub struct ExIoError(std::io::Error);

/// Relies on flate2's `GzDecoder` over an in-memory byte slice: the
/// decompressed stream, and whether decompression fails, are functions of
/// the input bytes alone. `Read::take(5)` caps the probe at five bytes; a
/// clean short stream comes back as a short `Ok` vector, a corrupt stream
/// as `Err`.
#[verifier::external_body]
fn gunzip_first(data: &Vec<u8>) -> (r: Result<Vec<u8>, std::io::Error>)
    ensures
        match r {
            Ok(v) => gunzip_probe(data@) == Some(v@) && v@.len() <= 5,
            Err(_) => gunzip_probe(data@) is None,
        },
{
    let gz = flate2::read::GzDecoder::new(data.as_slice());
    let mut out = Vec::new();
    match std::io::Read::read_to_end(&mut std::io::Read::take(gz, 5), &mut out) {
        Ok(_) => Ok(out),
        Err(e) => Err(e),
    }
}

/// What a decompressed probe classifies as: a gzip-compressed mailbox
/// exactly when the probe is the mbox magic.
pub open spec fn spec_classify_decompressed(p: Seq<u8>) -> Option<Type> {
    if is_mbox_magic(p) {
        Some(Type::Gzip)
    } else {
        None
    }
}

/// Classification of a regular file from its bytes. Files shorter than the
/// five-byte probe are legitimately not mailboxes, never an error.
pub open spec fn spec_guess_file(data: Seq<u8>) -> Result<Option<Type>, ScanError> {
    if data.len() < 5 {
        Ok(None)
    } else if is_mbox_magic(data) {
        Ok(Some(Type::Plain))
    } else if is_gzip_magic(data) {
        match gunzip_probe(data) {
            Some(p) => Ok(spec_classify_decompressed(p)),
            None => Err(ScanError::Decompress),
        }
    } else {
        Ok(None)
    }
}

/// Classification of a directory: a maildir has all three subdirectories.
pub open spec fn spec_guess_dir(has_cur: bool, has_new: bool, has_tmp: bool) -> Option<Type> {
    if has_cur && has_new && has_tmp {
        Some(Type::Dir)
    } else {
        None
    }
}

/// Classification of an arbitrary entry.
pub open spec fn spec_guess(entry: Entry) -> Result<Option<Type>, ScanError> {
    match entry.data {
        EntryData::FileBytes(d) => spec_guess_file(d@),
        EntryData::DirProbe { has_cur, has_new, has_tmp } => Ok(
            spec_guess_dir(has_cur, has_new, has_tmp),
        ),
        EntryData::Other => Ok(None),
    }
}

/// A file whose first five bytes are exactly `From ` always classifies as
/// a plain mailbox.
pub proof fn lemma_plain_mbox_classified(data: Seq<u8>)
    requires
        is_mbox_magic(data),
    ensures
        spec_guess_file(data) == Ok::<Option<Type>, ScanError>(Some(Type::Plain)),
{
}

/// A file that starts with the gzip magic classifies by its decompressed
/// stream alone: a gzip mailbox when that stream starts with `From `, no
/// store when it starts with anything else.
pub proof fn lemma_gzip_mbox_classified(data: Seq<u8>, p: Seq<u8>)
    requires
        data.len() >= 5,
        is_gzip_magic(data),
        gunzip_probe(data) == Some(p),
    ensures
        is_mbox_magic(p) ==> spec_guess_file(data) == Ok::<Option<Type>, ScanError>(
            Some(Type::Gzip),
        ),
        !is_mbox_magic(p) ==> spec_guess_file(data) == Ok::<Option<Type>, ScanError>(None),
{
    if is_mbox_magic(data) {
        assert(data.subrange(0, 5)[0] == data[0]);
        assert(mbox_magic()[0] == 70);
        assert(false);
    }
}

/// A directory classifies as a maildir exactly when all three of its fixed
/// subdirectories exist; with any one missing it is no store.
pub proof fn lemma_maildir_classified(has_cur: bool, has_new: bool, has_tmp: bool)
    ensures
        (has_cur && has_new && has_tmp) == (spec_guess_dir(has_cur, has_new, has_tmp)
            == Some(Type::Dir)),
        !(has_cur && has_new && has_tmp) ==> spec_guess_dir(has_cur, has_new, has_tmp) is None,
{
}

/// Whether the bytes start with `From `.
fn mbox_magic_prefix(d: &Vec<u8>) -> (r: bool)
    ensures
        r == is_mbox_magic(d@),
{
    if d.len() < 5 {
        return false;
    }
    let r = d[0] == 70 && d[1] == 114 && d[2] == 111 && d[3] == 109 && d[4] == 32;
    proof {
        if r {
            assert(d@.subrange(0, 5) =~= mbox_magic());
        } else {
            assert(d@.subrange(0, 5)[0] == d@[0]);
            assert(d@.subrange(0, 5)[1] == d@[1]);
            assert(d@.subrange(0, 5)[2] == d@[2]);
            assert(d@.subrange(0, 5)[3] == d@[3]);
            assert(d@.subrange(0, 5)[4] == d@[4]);
        }
    }
    r
}

/// Decide what a decompressed probe means, independently of how it was
/// produced: a gzip mailbox exactly when the probe is `From `.
pub fn classify_decompressed(p: &Vec<u8>) -> (r: Option<Type>)
    ensures
        r == spec_classify_decompressed(p@),
{
    if mbox_magic_prefix(p) {
        Some(Type::Gzip)
    } else {
        None
    }
}

impl Type {
    /// Classify one filesystem entry from its probe.
    pub fn guess(entry: &Entry) -> (r: Result<Option<Type>, ScanError>)
        ensures
            r == spec_guess(*entry),
    {
        match &entry.data {
            EntryData::FileBytes(d) => {
                if d.len() < 5 {
                    Ok(None)
                } else if mbox_magic_prefix(d) {
                    Ok(Some(Type::Plain))
                } else if d[0] == 0x1f && d[1] == 0x8b {
                    match gunzip_first(d) {
                        Ok(p) => Ok(classify_decompressed(&p)),
                        Err(_) => Err(ScanError::Decompress),
                    }
                } else {
                    Ok(None)
                }
            },
            EntryData::DirProbe { has_cur, has_new, has_tmp } => {
                if *has_cur && *has_new && *has_tmp {
                    Ok(Some(Type::Dir))
                } else {
                    Ok(None)
                }
            },
            EntryData::Other => Ok(None),
        }
    }
}

/// Whether a cache seed fits a store format.
pub open spec fn cache_matches(tp: Type, cache: Cache) -> bool {
    match tp {
        Type::Plain => cache is Mbox,
        Type::Gzip => cache is Mbox,
        Type::Dir => cache is Mdir,
    }
}

/// A discovered mail store.
#[derive(Clone, Debug)]
pub struct Mailbox {
    /// Filesystem location, as path components; set at discovery.
    pub path: Vec<String>,
    /// Display identifier; defaults to the final path component.
    pub name: String,
    /// The store's format.
    pub tp: Type,
    /// Store-cache seed whose variant matches `tp`.
    pub cache: Cache,
    /// Unsigned ranking, default 0.
    pub prio: usize,
    /// Optional single-character shortcut, default none.
    pub shortcut: Option<char>,
}

/// Mathematical image of a store.
pub ghost struct MailboxV {
    pub path: Seq<Seq<char>>,
    pub name: Seq<char>,
    pub tp: Type,
    pub cache: Cache,
    pub prio: usize,
    pub shortcut: Option<char>,
}

impl View for Mailbox {
    type V = MailboxV;

    open spec fn view(&self) -> MailboxV {
        MailboxV {
            path: self.path.deep_view(),
            name: self.name@,
            tp: self.tp,
            cache: self.cache,
            prio: self.prio,
            shortcut: self.shortcut,
        }
    }
}

/// The default display name of a store at `path`: its final component, or a
/// placeholder for a store at a root without one.
pub open spec fn spec_default_name(path: Seq<Seq<char>>) -> Seq<char> {
    if path.len() > 0 {
        path.last()
    } else {
        "<???>"@
    }
}

impl Mailbox {
    /// The store's invariant: the cache seed fits the format.
    pub open spec fn wf(&self) -> bool {
        cache_matches(self.tp, self.cache)
    }

    /// Probe one entry and build the store for it: classified format, path
    /// of the entry, default name, fresh cache seed, default rank and no
    /// shortcut. `Ok(None)` when the entry is no store; errors are the
    /// classifier's.
    pub fn detect(entry: &Entry) -> (r: Result<Option<Mailbox>, ScanError>)
        ensures
            match r {
                Ok(Some(m)) => spec_guess(*entry) == Ok::<Option<Type>, ScanError>(Some(m.tp))
                    && m@.path == entry.path.deep_view() && m@.name == spec_default_name(
                    entry.path.deep_view(),
                ) && m.wf() && m.prio == 0 && m.shortcut is None,
                Ok(None) => spec_guess(*entry) == Ok::<Option<Type>, ScanError>(None),
                Err(e) => spec_guess(*entry) == Err::<Option<Type>, ScanError>(e),
            },
    {
        let mt = match Type::guess(entry) {
            Ok(Some(mt)) => mt,
            Ok(None) => {
                return Ok(None);
            },
            Err(e) => {
                return Err(e);
            },
        };
        let name: String = if entry.path.len() > 0 {
            let n = entry.path[entry.path.len() - 1].clone();
            proof {
                assert(entry.path.deep_view().last() == entry.path@.last()@);
            }
            n
        } else {
            "<???>".to_owned()
        };
        let cache = match mt {
            Type::Plain => Cache::Mbox(Mbox {  }),
            Type::Gzip => Cache::Mbox(Mbox {  }),
            Type::Dir => Cache::Mdir(Mdir {  }),
        };
        let path = entry.path.clone();
        proof {
            assert(path.deep_view() =~= entry.path.deep_view());
        }
        Ok(Some(Mailbox { path, name, tp: mt, cache, prio: 0, shortcut: None }))
    }

    /// The store's display name.
    pub fn name(&self) -> (r: &str)
        ensures
            r@ == self.name@,
    {
        self.name.as_str()
    }

    /// Replace the display name; the scripting boundary calls this.
    pub fn set_name(&mut self, name: String)
        ensures
            final(self)@ == (MailboxV { name: name@, ..old(self)@ }),
    {
        self.name = name;
    }

    /// Replace the rank; the scripting boundary calls this.
    pub fn set_prio(&mut self, prio: usize)
        ensures
            final(self)@ == (MailboxV { prio, ..old(self)@ }),
    {
        self.prio = prio;
    }

    /// Set the shortcut to the first character of `sc`, or to none when `sc`
    /// is empty; the scripting boundary calls this.
    pub fn set_shortcut(&mut self, sc: String)
        ensures
            final(self)@ == (MailboxV {
                shortcut: if sc@.len() > 0 {
                    Some(sc@[0])
                } else {
                    None
                },
                ..old(self)@
            }),
    {
        let mut it = sc.as_str().chars();
        self.shortcut = it.next();
    }
}

/// A discovery event. New variants may be added for future subscribers
/// without changing the emitting callers.
#[derive(Debug)]
pub enum Notification {
    /// A store was discovered and committed.
    MailboxAppeared(Arc<Mailbox>),
    /// A store's content was refreshed.
    MailboxContent(Arc<Mailbox>),
}

impl Notification {
    /// Emit one event: append it to the caller's sink, from which any number
    /// of subscribers (currently the log) can take it.
    pub fn send(notification: Notification, sink: &mut Vec<Notification>)
        ensures
            final(sink)@ == old(sink)@.push(notification),
    {
        sink.push(notification);
    }
}

/// Whether a component is one of the three fixed maildir subdirectory names.
pub open spec fn is_mdir_subdir_name(n: Seq<char>) -> bool {
    n == "cur"@ || n == "new"@ || n == "tmp"@
}

/// The traversal cutoff: an entry is not descended into when its path was
/// already claimed as a store, or when it is a maildir-internal
/// subdirectory (`cur`, `new`, `tmp`) of an already claimed store.
pub open spec fn spec_cutoff(dedup: Seq<Seq<Seq<char>>>, entry: Entry) -> bool {
    let p = entry.path.deep_view();
    path_in(dedup, p) || (entry.data is DirProbe && p.len() > 0 && is_mdir_subdir_name(p.last())
        && path_in(dedup, p.drop_last()))
}

/// Whether `s` is `cur`, `new` or `tmp`.
fn is_mdir_subdir(s: &String) -> (r: bool)
    ensures
        r == is_mdir_subdir_name(s@),
{
    *s == "cur".to_owned() || *s == "new".to_owned() || *s == "tmp".to_owned()
}

/// Decide the traversal cutoff for one entry against the claimed paths.
pub fn scan_cutoff(dedup: &Vec<Vec<String>>, entry: &Entry) -> (r: bool)
    ensures
        r == spec_cutoff(dedup.deep_view(), *entry),
{
    if path_set_contains(dedup, &entry.path) {
        return true;
    }
    match &entry.data {
        EntryData::DirProbe { .. } => {
            if entry.path.len() == 0 {
                return false;
            }
            if !is_mdir_subdir(&entry.path[entry.path.len() - 1]) {
                proof {
                    assert(entry.path.deep_view().last() == entry.path@.last()@);
                }
                return false;
            }
            let mut parent = entry.path.clone();
            parent.pop();
            proof {
                assert(entry.path.deep_view().last() == entry.path@.last()@);
                assert(parent.deep_view() =~= entry.path.deep_view().drop_last());
            }
            path_set_contains(dedup, &parent)
        },
        _ => false,
    }
}

} // verus!

