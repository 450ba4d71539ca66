//! Snapshots of a project's text files: the records, the errors of the store,
//! and the store itself with its index of snapshots.
//!
//! The store never touches the file system. Whoever drives it performs each
//! file operation and hands the outcome back: a record that was written, a
//! record that was removed, the text of a live file.

use crate::text::{
    chars_of, copy_option, decimal, describe, described, occurs_at_index, option_text,
    push_decimal, same_text, utf8_len,
};
use crate::traversal::{Collected, Listed, ListedView};
use vstd::prelude::*;

verus! {

/// One captured file: where it was, what it held, and the fingerprint of what
/// it held, computed when it was captured.
#[derive(Debug)]
pub struct BackupFile {
    pub path: String,
    pub content: String,
    pub hash: String,
}

/// What a `BackupFile` holds, with each string as its characters.
pub struct BackupFileView {
    pub path: Seq<char>,
    pub content: Seq<char>,
    pub hash: Seq<char>,
}

impl View for BackupFile {
    type V = BackupFileView;

    open spec fn view(&self) -> BackupFileView {
        BackupFileView { path: self.path@, content: self.content@, hash: self.hash@ }
    }
}

impl Clone for BackupFile {
    fn clone(&self) -> (r: Self)
        ensures
            r@ == self@,
    {
        BackupFile {
            path: self.path.clone(),
            content: self.content.clone(),
            hash: self.hash.clone(),
        }
    }
}

/// The views of a list of captured files.
pub open spec fn file_views(files: Seq<BackupFile>) -> Seq<BackupFileView> {
    Seq::new(files.len(), |i: int| files[i]@)
}

/// The sum of the UTF-8 lengths of the contents of `files`.
pub open spec fn content_bytes(files: Seq<BackupFileView>) -> nat
    decreases files.len(),
{
    if files.len() == 0 {
        0
    } else {
        content_bytes(files.drop_last()) + utf8_len(files.last().content)
    }
}

/// A copy of a list of captured files.
pub fn copy_files(files: &Vec<BackupFile>) -> (r: Vec<BackupFile>)
    ensures
        file_views(r@) == file_views(files@),
{
    let mut r: Vec<BackupFile> = Vec::new();
    let mut i: usize = 0;
    while i < files.len()
        invariant
            i <= files.len(),
            r@.len() == i,
            forall|j: int| 0 <= j < i ==> r@[j]@ == files@[j]@,
        decreases files.len() - i,
    {
        r.push(files[i].clone());
        i += 1;
    }
    r
}

/// A snapshot: the text files of a project at one moment.
#[derive(Debug)]
pub struct Backup {
    pub id: String,
    pub name: Option<String>,
    pub description: Option<String>,
    pub timestamp: u64,
    pub backup_type: String,
    pub file_count: usize,
    pub size: usize,
    pub files: Vec<BackupFile>,
}

/// What a `Backup` holds, with each string as its characters.
pub struct BackupView {
    pub id: Seq<char>,
    pub name: Option<Seq<char>>,
    pub description: Option<Seq<char>>,
    pub timestamp: u64,
    pub backup_type: Seq<char>,
    pub file_count: nat,
    pub size: nat,
    pub files: Seq<BackupFileView>,
}

impl View for Backup {
    type V = BackupView;

    open spec fn view(&self) -> BackupView {
        BackupView {
            id: self.id@,
            name: option_text(self.name),
            description: option_text(self.description),
            timestamp: self.timestamp,
            backup_type: self.backup_type@,
            file_count: self.file_count as nat,
            size: self.size as nat,
            files: file_views(self.files@),
        }
    }
}

impl Clone for Backup {
    fn clone(&self) -> (r: Self)
        ensures
            r@ == self@,
    {
        Backup {
            id: self.id.clone(),
            name: copy_option(&self.name),
            description: copy_option(&self.description),
            timestamp: self.timestamp,
            backup_type: self.backup_type.clone(),
            file_count: self.file_count,
            size: self.size,
            files: copy_files(&self.files),
        }
    }
}

/// The identifier of the snapshot taken at `timestamp`, in milliseconds since
/// the epoch.
pub open spec fn snapshot_id(timestamp: u64) -> Seq<char> {
    "backup_"@ + decimal(timestamp as nat)
}

/// The aggregates of a snapshot agree with its files.
pub open spec fn consistent(backup: BackupView) -> bool {
    &&& backup.file_count == backup.files.len()
    &&& backup.size == content_bytes(backup.files)
}

/// Why an operation of the store failed.
#[derive(Debug)]
pub enum BackupError {
    /// The storage location could not be created or listed; holds the message.
    StorageInit(String),
    /// A persisted record could not be parsed; holds the message.
    CorruptRecord(String),
    /// A file operation failed; holds the message.
    Io(String),
    /// No snapshot has this identifier.
    NotFound(String),
    /// The snapshot holds no file.
    EmptySnapshot,
}

/// What a `BackupError` holds, with each string as its characters.
pub enum BackupErrorView {
    StorageInit(Seq<char>),
    CorruptRecord(Seq<char>),
    Io(Seq<char>),
    NotFound(Seq<char>),
    EmptySnapshot,
}

impl View for BackupError {
    type V = BackupErrorView;

    open spec fn view(&self) -> BackupErrorView {
        match self {
            BackupError::StorageInit(m) => BackupErrorView::StorageInit(m@),
            BackupError::CorruptRecord(m) => BackupErrorView::CorruptRecord(m@),
            BackupError::Io(m) => BackupErrorView::Io(m@),
            BackupError::NotFound(id) => BackupErrorView::NotFound(id@),
            BackupError::EmptySnapshot => BackupErrorView::EmptySnapshot,
        }
    }
}

impl BackupErrorView {
    /// The text shown for this error.
    pub open spec fn message(self) -> Seq<char> {
        match self {
            BackupErrorView::StorageInit(m) => m,
            BackupErrorView::CorruptRecord(m) => m,
            BackupErrorView::Io(m) => m,
            BackupErrorView::NotFound(id) => "Backup not found: "@ + id,
            BackupErrorView::EmptySnapshot => "Backup has no files"@,
        }
    }
}

impl BackupError {
    /// The text shown for this error.
    pub fn message(&self) -> (s: String)
        ensures
            s@ == self@.message(),
    {
        match self {
            BackupError::StorageInit(m) => m.clone(),
            BackupError::CorruptRecord(m) => m.clone(),
            BackupError::Io(m) => m.clone(),
            BackupError::NotFound(id) => {
                let mut s = "Backup not found: ".to_owned();
                s.append(id.as_str());
                s
            },
            BackupError::EmptySnapshot => "Backup has no files".to_owned(),
        }
    }

    /// The failure of a file operation: `context` says what was tried and
    /// `detail` why it failed.
    pub fn io(context: &str, detail: &str) -> (e: BackupError)
        ensures
            e@ == BackupErrorView::Io(described(context@, detail@)),
    {
        BackupError::Io(describe(context, detail))
    }
}

/// A snapshot that has been taken and is not yet part of a store. Its
/// aggregates agree with its files.
pub struct Draft {
    backup: Backup,
}

impl View for Draft {
    type V = BackupView;

    closed spec fn view(&self) -> BackupView {
        self.backup@
    }
}

impl Draft {
    #[verifier::type_invariant]
    spec fn sound(self) -> bool {
        consistent(self.backup@)
    }

    /// The snapshot taken at `timestamp` of the files that a traversal has
    /// collected. Its identifier is made from the timestamp, and its
    /// aggregates are the number of the files and the sum of their sizes.
    pub fn new(
        timestamp: u64,
        name: Option<String>,
        description: Option<String>,
        backup_type: &str,
        collected: Collected,
    ) -> (draft: Draft)
        ensures
            draft@ == (BackupView {
                id: snapshot_id(timestamp),
                name: option_text(name),
                description: option_text(description),
                timestamp,
                backup_type: backup_type@,
                file_count: collected@.len(),
                size: content_bytes(collected@),
                files: collected@,
            }),
    {
        let mut id = "backup_".to_owned();
        push_decimal(&mut id, timestamp);
        let (files, size) = collected.into_parts();
        let file_count = files.len();
        Draft {
            backup: Backup {
                id,
                name,
                description,
                timestamp,
                backup_type: backup_type.to_owned(),
                file_count,
                size,
                files,
            },
        }
    }

    /// The snapshot, to be persisted.
    pub fn backup(&self) -> (backup: &Backup)
        ensures
            backup@ == self@,
            consistent(self@),
    {
        proof {
            use_type_invariant(self);
        }
        &self.backup
    }

    /// The name of the file in which the snapshot is to be persisted.
    pub fn record_name(&self) -> (name: String)
        ensures
            name@ == record_name_of(self@.id),
    {
        BackupManager::record_name(self.backup.id.as_str())
    }
}

/// The views of a list of snapshots.
pub open spec fn backup_views(backups: Seq<Backup>) -> Seq<BackupView> {
    Seq::new(backups.len(), |i: int| backups[i]@)
}

/// No two snapshots of `list` have the same identifier.
pub open spec fn distinct_ids(list: Seq<BackupView>) -> bool {
    forall|i: int, j: int| 0 <= i < j < list.len() ==> (#[trigger] list[i]).id != (#[trigger] list[j]).id
}

/// The index of a list of snapshots: each under its identifier, a later one
/// in place of an earlier one with the same identifier.
pub open spec fn index_of(list: Seq<BackupView>) -> Map<Seq<char>, BackupView>
    decreases list.len(),
{
    if list.len() == 0 {
        Map::empty()
    } else {
        index_of(list.drop_last()).insert(list.last().id, list.last())
    }
}

/// The index holds an identifier exactly when a snapshot of the list has it,
/// and where the identifiers are distinct it holds each snapshot under its
/// identifier.
pub proof fn lemma_index_of(list: Seq<BackupView>)
    ensures
        forall|id: Seq<char>|
            index_of(list).contains_key(id) <==> exists|i: int|
                0 <= i < list.len() && (#[trigger] list[i]).id == id,
        distinct_ids(list) ==> forall|i: int|
            0 <= i < list.len() ==> index_of(list)[(#[trigger] list[i]).id] == list[i],
    decreases list.len(),
{
    if list.len() > 0 {
        let front = list.drop_last();
        lemma_index_of(front);
        assert forall|id: Seq<char>| index_of(list).contains_key(id) <==> exists|i: int|
            0 <= i < list.len() && (#[trigger] list[i]).id == id by {
            if index_of(list).contains_key(id) {
                if id == list.last().id {
                    assert(list[list.len() - 1].id == id);
                } else {
                    assert(index_of(front).contains_key(id));
                    let i = choose|i: int| 0 <= i < front.len() && (#[trigger] front[i]).id == id;
                    assert(list[i].id == id);
                }
            }
            if exists|i: int| 0 <= i < list.len() && (#[trigger] list[i]).id == id {
                let i = choose|i: int| 0 <= i < list.len() && (#[trigger] list[i]).id == id;
                if i < front.len() {
                    assert(front[i].id == id);
                    assert(index_of(front).contains_key(id));
                }
            }
        }
        if distinct_ids(list) {
            assert(distinct_ids(front)) by {
                assert forall|i: int, j: int| 0 <= i < j < front.len() implies (
                #[trigger] front[i]).id != (#[trigger] front[j]).id by {
                    assert(list[i].id != list[j].id);
                }
            }
            assert forall|i: int| 0 <= i < list.len() implies index_of(list)[(
            #[trigger] list[i]).id] == list[i] by {
                if i < front.len() {
                    assert(list[i].id != list[list.len() - 1].id);
                    assert(front[i] == list[i]);
                }
            }
        }
    }
}

/// Taking one snapshot out of a list with distinct identifiers takes its
/// identifier out of the index, and leaves the identifiers distinct.
pub proof fn lemma_index_of_remove(list: Seq<BackupView>, at: int)
    requires
        distinct_ids(list),
        0 <= at < list.len(),
    ensures
        distinct_ids(list.remove(at)),
        index_of(list.remove(at)) == index_of(list).remove(list[at].id),
{
    let shorter = list.remove(at);
    assert forall|i: int, j: int| 0 <= i < j < shorter.len() implies (#[trigger] shorter[i]).id != (
    #[trigger] shorter[j]).id by {
        let a = if i < at { i } else { i + 1 };
        let b = if j < at { j } else { j + 1 };
        assert(shorter[i] == list[a] && shorter[j] == list[b]);
    }
    lemma_index_of(list);
    lemma_index_of(shorter);
    let left = index_of(shorter);
    let right = index_of(list).remove(list[at].id);
    assert forall|id: Seq<char>| left.contains_key(id) <==> right.contains_key(id) by {
        if left.contains_key(id) {
            let i = choose|i: int| 0 <= i < shorter.len() && (#[trigger] shorter[i]).id == id;
            let a = if i < at { i } else { i + 1 };
            assert(shorter[i] == list[a]);
            assert(list[a].id == id);
            assert(list[a].id != list[at].id);
        }
        if right.contains_key(id) {
            let a = choose|a: int| 0 <= a < list.len() && (#[trigger] list[a]).id == id;
            let i = if a < at { a } else { a - 1 };
            assert(a != at);
            assert(shorter[i] == list[a]);
            assert(shorter[i].id == id);
        }
    }
    assert forall|id: Seq<char>| left.contains_key(id) implies left[id] == right[id] by {
        let i = choose|i: int| 0 <= i < shorter.len() && (#[trigger] shorter[i]).id == id;
        let a = if i < at { i } else { i + 1 };
        assert(shorter[i] == list[a]);
        assert(left[shorter[i].id] == shorter[i]);
        assert(index_of(list)[list[a].id] == list[a]);
    }
    assert(left =~= right);
}

/// The name of the persisted record of the snapshot `id`.
pub open spec fn record_name_of(id: Seq<char>) -> Seq<char> {
    id + ".json"@
}

/// A file with this name holds a persisted record: the name ends with
/// `.json` and has something before it.
pub open spec fn is_record_name(name: Seq<char>) -> bool {
    &&& name.len() > 5
    &&& name.subrange(name.len() - 5, name.len() as int) == ".json"@
}

/// What was found when a persisted record was read.
#[derive(Debug)]
pub enum RecordRead {
    /// The record, parsed.
    Parsed(Backup),
    /// The file could not be read, with the reason.
    Unreadable(String),
    /// The file does not hold a record, with the reason.
    Corrupt(String),
}

/// The store of snapshots: where the records are persisted, and the index of
/// the snapshots that it knows, each under its identifier.
pub struct BackupManager {
    backups_dir: String,
    backups: Vec<Backup>,
}

impl View for BackupManager {
    type V = Map<Seq<char>, BackupView>;

    closed spec fn view(&self) -> Map<Seq<char>, BackupView> {
        index_of(backup_views(self.backups@))
    }
}

impl BackupManager {
    #[verifier::type_invariant]
    spec fn unique(self) -> bool {
        distinct_ids(backup_views(self.backups@))
    }

    /// The directory that holds the persisted records.
    pub closed spec fn location(&self) -> Seq<char> {
        self.backups_dir@
    }

    /// The snapshots of the store in the order in which `get_backups` lists
    /// them.
    pub closed spec fn entries(&self) -> Seq<BackupView> {
        backup_views(self.backups@)
    }

    /// The store at `backups_dir` with an empty index, where the directory
    /// exists or could be created; the failure where it could not.
    pub fn new(backups_dir: String, created: Result<(), String>) -> (r: Result<Self, BackupError>)
        ensures
            match created {
                Ok(_) => r is Ok && r->Ok_0@ == Map::<Seq<char>, BackupView>::empty()
                    && r->Ok_0.location() == backups_dir@,
                Err(detail) => r is Err && r->Err_0@ == BackupErrorView::StorageInit(
                    described("Failed to create backups directory"@, detail@),
                ),
            },
    {
        match created {
            Ok(_) => {
                let backups: Vec<Backup> = Vec::new();
                Ok(BackupManager { backups_dir, backups })
            },
            Err(detail) => Err(
                BackupError::StorageInit(
                    describe("Failed to create backups directory", detail.as_str()),
                ),
            ),
        }
    }

    /// The directory that holds the persisted records.
    pub fn backups_dir(&self) -> (dir: &str)
        ensures
            dir@ == self.location(),
    {
        self.backups_dir.as_str()
    }

    /// The place of the snapshot `id` in the list, if the store holds it.
    fn position(&self, id: &str) -> (r: Option<usize>)
        ensures
            match r {
                Some(at) => at < self.backups@.len() && self.backups@[at as int].id@ == id@,
                None => forall|i: int|
                    0 <= i < self.backups@.len() ==> (#[trigger] self.backups@[i]).id@ != id@,
            },
    {
        let mut i: usize = 0;
        while i < self.backups.len()
            invariant
                i <= self.backups.len(),
                forall|j: int| 0 <= j < i ==> (#[trigger] self.backups@[j]).id@ != id@,
            decreases self.backups.len() - i,
        {
            if same_text(self.backups[i].id.as_str(), id) {
                return Some(i);
            }
            i += 1;
        }
        None
    }

    /// Puts `backup` in the index under its identifier, in place of the
    /// snapshot that was there, if any.
    fn insert(&mut self, backup: Backup)
        ensures
            final(self)@ == old(self)@.insert(backup@.id, backup@),
            final(self).location() == old(self).location(),
    {
        proof {
            use_type_invariant(&*self);
        }
        let found = self.position(backup.id.as_str());
        let mut backups: Vec<Backup> = Vec::new();
        core::mem::swap(&mut self.backups, &mut backups);
        let ghost before = backup_views(backups@);
        match found {
            Some(at) => {
                backups.remove(at);
                proof {
                    assert(backup_views(backups@) =~= before.remove(at as int));
                    lemma_index_of_remove(before, at as int);
                }
            },
            None => {},
        }
        let ghost middle = backup_views(backups@);
        backups.push(backup);
        proof {
            assert(backup_views(backups@) =~= middle.push(backup@));
            assert(backup_views(backups@).drop_last() =~= middle);
        }
        core::mem::swap(&mut self.backups, &mut backups);
    }

    /// The snapshot `id`, if the store holds it.
    fn get(&self, id: &str) -> (r: Option<&Backup>)
        ensures
            match r {
                Some(backup) => self@.contains_key(id@) && self@[id@] == backup@,
                None => !self@.contains_key(id@),
            },
    {
        proof {
            use_type_invariant(self);
            lemma_index_of(backup_views(self.backups@));
        }
        match self.position(id) {
            Some(at) => {
                assert(backup_views(self.backups@)[at as int].id == id@);
                Some(&self.backups[at])
            },
            None => {
                None
            },
        }
    }

    /// The name of the file that holds the persisted record of the snapshot
    /// `id`.
    pub fn record_name(id: &str) -> (name: String)
        ensures
            name@ == record_name_of(id@),
    {
        let mut name = id.to_owned();
        name.append(".json");
        name
    }

    /// Tells whether a file with this name holds a persisted record.
    pub fn is_record_file(name: &str) -> (b: bool)
        ensures
            b == is_record_name(name@),
    {
        proof {
            reveal_strlit(".json");
        }
        let chars = chars_of(name);
        let suffix = chars_of(".json");
        chars.len() > 5 && occurs_at_index(&chars, &suffix, chars.len() - 5)
    }

    /// The listing of the storage location, or the failure where it could not
    /// be listed.
    pub fn storage_listing(listing: Result<Vec<Listed>, String>) -> (r: Result<
        Vec<Listed>,
        BackupError,
    >)
        ensures
            match listing {
                Ok(items) => r == Ok::<Vec<Listed>, BackupError>(items),
                Err(detail) => r is Err && r->Err_0@ == BackupErrorView::StorageInit(
                    described("Failed to read backups directory"@, detail@),
                ),
            },
    {
        match listing {
            Ok(items) => Ok(items),
            Err(detail) => Err(
                BackupError::StorageInit(
                    describe("Failed to read backups directory", detail.as_str()),
                ),
            ),
        }
    }

    /// What to do with one item of the listing of the storage location: the
    /// path of the file to read where the item is a persisted record, nothing
    /// where it is another file, and a failure where the item could not be
    /// read.
    pub fn record_path(item: &Listed) -> (r: Result<Option<String>, BackupError>)
        ensures
            match item@ {
                ListedView::Entry { name, path } => r is Ok && option_text(r->Ok_0) == (if is_record_name(
                    name,
                ) {
                    Some(path)
                } else {
                    None
                }),
                ListedView::Failed(detail) => r is Err && r->Err_0@ == BackupErrorView::StorageInit(
                    described("Failed to read entry"@, detail),
                ),
            },
    {
        match item {
            Listed::Entry { name, path } => {
                if Self::is_record_file(name.as_str()) {
                    Ok(Some(path.clone()))
                } else {
                    Ok(None)
                }
            },
            Listed::Failed(detail) => Err(
                BackupError::StorageInit(describe("Failed to read entry", detail.as_str())),
            ),
        }
    }

    /// Takes in one persisted record as it was read at startup. A parsed
    /// record enters the index under its identifier, in place of an earlier
    /// one with the same identifier. A record that could not be read or
    /// parsed is a failure and leaves the index as it was.
    pub fn load_backup(&mut self, read: RecordRead) -> (r: Result<(), BackupError>)
        ensures
            final(self).location() == old(self).location(),
            match read {
                RecordRead::Parsed(backup) => r is Ok && final(self)@ == old(self)@.insert(
                    backup@.id,
                    backup@,
                ),
                RecordRead::Unreadable(detail) => r is Err && r->Err_0@
                    == BackupErrorView::StorageInit(
                    described("Failed to read backup file"@, detail@),
                ) && final(self)@ == old(self)@,
                RecordRead::Corrupt(detail) => r is Err && r->Err_0@
                    == BackupErrorView::CorruptRecord(
                    described("Failed to parse backup"@, detail@),
                ) && final(self)@ == old(self)@,
            },
    {
        match read {
            RecordRead::Parsed(backup) => {
                self.insert(backup);
                Ok(())
            },
            RecordRead::Unreadable(detail) => Err(
                BackupError::StorageInit(describe("Failed to read backup file", detail.as_str())),
            ),
            RecordRead::Corrupt(detail) => Err(
                BackupError::CorruptRecord(describe("Failed to parse backup", detail.as_str())),
            ),
        }
    }

    /// Ends the creation of a snapshot. `written` says whether the snapshot
    /// was persisted in the file that `draft` names. Where it was, the
    /// snapshot enters the index, in place of one with the same identifier,
    /// and a copy of it is returned; its aggregates agree with its files.
    /// Where it was not, the index stays as it was.
    pub fn create_backup(&mut self, draft: Draft, written: Result<(), String>) -> (r: Result<
        Backup,
        BackupError,
    >)
        ensures
            final(self).location() == old(self).location(),
            match written {
                Ok(_) => r is Ok && r->Ok_0@ == draft@ && consistent(r->Ok_0@) && final(self)@
                    == old(self)@.insert(draft@.id, draft@),
                Err(detail) => r is Err && r->Err_0@ == BackupErrorView::Io(
                    described("Failed to write backup file"@, detail@),
                ) && final(self)@ == old(self)@,
            },
    {
        proof {
            use_type_invariant(&draft);
        }
        match written {
            Ok(_) => {
                let Draft { backup } = draft;
                let copy = backup.clone();
                self.insert(backup);
                Ok(copy)
            },
            Err(detail) => Err(BackupError::io("Failed to write backup file", detail.as_str())),
        }
    }

    /// The files to write, in this order, to restore the snapshot
    /// `backup_id`: each holds the path to overwrite and the content to put
    /// there.
    pub fn restore_backup(&self, backup_id: &str) -> (r: Result<&Vec<BackupFile>, BackupError>)
        ensures
            match r {
                Ok(files) => self@.contains_key(backup_id@) && file_views(files@)
                    == self@[backup_id@].files,
                Err(e) => !self@.contains_key(backup_id@) && e@ == BackupErrorView::NotFound(
                    backup_id@,
                ),
            },
    {
        match self.get(backup_id) {
            Some(backup) => Ok(&backup.files),
            None => Err(BackupError::NotFound(backup_id.to_owned())),
        }
    }

    /// The name of the persisted record to remove in order to delete the
    /// snapshot `backup_id`.
    pub fn record_of(&self, backup_id: &str) -> (r: Result<String, BackupError>)
        ensures
            match r {
                Ok(name) => self@.contains_key(backup_id@) && name@ == record_name_of(backup_id@),
                Err(e) => !self@.contains_key(backup_id@) && e@ == BackupErrorView::NotFound(
                    backup_id@,
                ),
            },
    {
        match self.get(backup_id) {
            Some(_) => Ok(Self::record_name(backup_id)),
            None => Err(BackupError::NotFound(backup_id.to_owned())),
        }
    }

    /// Ends the deletion of the snapshot `backup_id`. `removed` says whether
    /// its persisted record was removed. Where it was, the snapshot leaves the
    /// index. Where it was not, or the store does not hold the snapshot, the
    /// index stays as it was.
    pub fn delete_backup(&mut self, backup_id: &str, removed: Result<(), String>) -> (r: Result<
        (),
        BackupError,
    >)
        ensures
            final(self).location() == old(self).location(),
            !old(self)@.contains_key(backup_id@) ==> r is Err && r->Err_0@
                == BackupErrorView::NotFound(backup_id@) && final(self)@ == old(self)@,
            old(self)@.contains_key(backup_id@) ==> match removed {
                Ok(_) => r is Ok && final(self)@ == old(self)@.remove(backup_id@),
                Err(detail) => r is Err && r->Err_0@ == BackupErrorView::Io(
                    described("Failed to delete backup file"@, detail@),
                ) && final(self)@ == old(self)@,
            },
    {
        proof {
            use_type_invariant(&*self);
            lemma_index_of(backup_views(self.backups@));
        }
        match self.position(backup_id) {
            None => {
                Err(BackupError::NotFound(backup_id.to_owned()))
            },
            Some(at) => {
                assert(backup_views(self.backups@)[at as int].id == backup_id@);
                match removed {
                    Err(detail) => Err(
                        BackupError::io("Failed to delete backup file", detail.as_str()),
                    ),
                    Ok(_) => {
                        let mut backups: Vec<Backup> = Vec::new();
                        core::mem::swap(&mut self.backups, &mut backups);
                        let ghost before = backup_views(backups@);
                        backups.remove(at);
                        proof {
                            assert(backup_views(backups@) =~= before.remove(at as int));
                            lemma_index_of_remove(before, at as int);
                        }
                        core::mem::swap(&mut self.backups, &mut backups);
                        Ok(())
                    },
                }
            },
        }
    }

    /// Copies of all snapshots of the store: each snapshot of the index once,
    /// and nothing else.
    pub fn get_backups(&self) -> (r: Vec<Backup>)
        ensures
            backup_views(r@) == self.entries(),
            distinct_ids(self.entries()),
            self@ == index_of(self.entries()),
    {
        proof {
            use_type_invariant(self);
        }
        let mut r: Vec<Backup> = Vec::new();
        let mut i: usize = 0;
        while i < self.backups.len()
            invariant
                i <= self.backups.len(),
                r@.len() == i,
                forall|j: int| 0 <= j < i ==> r@[j]@ == self.backups@[j]@,
            decreases self.backups.len() - i,
        {
            r.push(self.backups[i].clone());
            i += 1;
        }
        r
    }

    /// The two texts to compare for the snapshot `backup_id`: the live text,
    /// or `File not found` where `live` is `None` because the live file could
    /// not be read, and then the content of the first file of the snapshot.
    pub fn compare_backup(&self, backup_id: &str, live: Option<String>) -> (r: Result<
        (String, String),
        BackupError,
    >)
        ensures
            !self@.contains_key(backup_id@) ==> r is Err && r->Err_0@ == BackupErrorView::NotFound(
                backup_id@,
            ),
            self@.contains_key(backup_id@) && self@[backup_id@].files.len() == 0 ==> r is Err
                && r->Err_0@ == BackupErrorView::EmptySnapshot,
            self@.contains_key(backup_id@) && self@[backup_id@].files.len() > 0 ==> r is Ok
                && r->Ok_0.0@ == (match live {
                Some(text) => text@,
                None => "File not found"@,
            }) && r->Ok_0.1@ == self@[backup_id@].files[0].content,
    {
        match self.get(backup_id) {
            None => Err(BackupError::NotFound(backup_id.to_owned())),
            Some(backup) => {
                if backup.files.len() == 0 {
                    Err(BackupError::EmptySnapshot)
                } else {
                    let current = match live {
                        Some(text) => text,
                        None => "File not found".to_owned(),
                    };
                    Ok((current, backup.files[0].content.clone()))
                }
            },
        }
    }
}

/// The texts of a file system after `files` are written to it one after the
/// other: each content at its path, in place of what was there.
pub open spec fn written(disk: Map<Seq<char>, Seq<char>>, files: Seq<BackupFileView>) -> Map<
    Seq<char>,
    Seq<char>,
>
    decreases files.len(),
{
    if files.len() == 0 {
        disk
    } else {
        written(disk, files.drop_last()).insert(files.last().path, files.last().content)
    }
}

/// No two files of `files` have the same path.
pub open spec fn distinct_paths(files: Seq<BackupFileView>) -> bool {
    forall|i: int, j: int|
        0 <= i < j < files.len() ==> (#[trigger] files[i]).path != (#[trigger] files[j]).path
}

/// Writing the files of a snapshot leaves a path that none of them has as it
/// was.
pub proof fn lemma_written_elsewhere(
    disk: Map<Seq<char>, Seq<char>>,
    files: Seq<BackupFileView>,
    path: Seq<char>,
)
    requires
        forall|i: int| 0 <= i < files.len() ==> (#[trigger] files[i]).path != path,
    ensures
        written(disk, files).contains_key(path) <==> disk.contains_key(path),
        disk.contains_key(path) ==> written(disk, files)[path] == disk[path],
    decreases files.len(),
{
    if files.len() > 0 {
        let front = files.drop_last();
        lemma_written_elsewhere(disk, front, path);
    }
}

/// After the files of a snapshot are written, the path of a file that no
/// later file shares holds the content of that file.
pub proof fn lemma_written_at(disk: Map<Seq<char>, Seq<char>>, files: Seq<BackupFileView>, at: int)
    requires
        0 <= at < files.len(),
        forall|j: int| at < j < files.len() ==> (#[trigger] files[j]).path != files[at].path,
    ensures
        written(disk, files).contains_key(files[at].path),
        written(disk, files)[files[at].path] == files[at].content,
    decreases files.len(),
{
    let front = files.drop_last();
    if at < front.len() {
        lemma_written_at(disk, front, at);
    }
}

/// Restoring a snapshot whose paths are distinct into any file system, an
/// empty one too, puts at every recorded path the content that was recorded
/// there.
pub proof fn lemma_restore_reproduces(disk: Map<Seq<char>, Seq<char>>, files: Seq<BackupFileView>)
    requires
        distinct_paths(files),
    ensures
        forall|i: int|
            0 <= i < files.len() ==> written(disk, files).contains_key(
                (#[trigger] files[i]).path,
            ) && written(disk, files)[files[i].path] == files[i].content,
{
    assert forall|i: int| 0 <= i < files.len() implies written(disk, files).contains_key(
        (#[trigger] files[i]).path,
    ) && written(disk, files)[files[i].path] == files[i].content by {
        lemma_written_at(disk, files, i);
    }
}

/// Two listings of a store that was not changed in between hold the same
/// snapshots.
pub proof fn lemma_listings_agree(
    index: Map<Seq<char>, BackupView>,
    first: Seq<BackupView>,
    second: Seq<BackupView>,
)
    requires
        distinct_ids(first),
        distinct_ids(second),
        index == index_of(first),
        index == index_of(second),
    ensures
        first.to_set() == second.to_set(),
        first.len() == second.len(),
{
    lemma_index_of(first);
    lemma_index_of(second);
    assert forall|b: BackupView| first.to_set().contains(b) <==> second.to_set().contains(b) by {
        if first.contains(b) {
            let i = choose|i: int| 0 <= i < first.len() && first[i] == b;
            assert(index.contains_key(first[i].id));
            let j = choose|j: int| 0 <= j < second.len() && (#[trigger] second[j]).id == b.id;
            assert(index[second[j].id] == second[j]);
            assert(second[j] == b);
        }
        if second.contains(b) {
            let i = choose|i: int| 0 <= i < second.len() && second[i] == b;
            assert(index.contains_key(second[i].id));
            let j = choose|j: int| 0 <= j < first.len() && (#[trigger] first[j]).id == b.id;
            assert(index[first[j].id] == first[j]);
            assert(first[j] == b);
        }
    }
    assert(first.to_set() =~= second.to_set());
    lemma_listing_len(first);
    lemma_listing_len(second);
}

/// A listing with distinct identifiers has as many snapshots as its index
/// has identifiers.
pub proof fn lemma_listing_len(list: Seq<BackupView>)
    requires
        distinct_ids(list),
    ensures
        index_of(list).dom().finite(),
        index_of(list).dom().len() == list.len(),
    decreases list.len(),
{
    if list.len() > 0 {
        let front = list.drop_last();
        assert(distinct_ids(front)) by {
            assert forall|i: int, j: int| 0 <= i < j < front.len() implies (
            #[trigger] front[i]).id != (#[trigger] front[j]).id by {
                assert(list[i].id != list[j].id);
            }
        }
        lemma_listing_len(front);
        lemma_index_of(front);
        assert(!index_of(front).contains_key(list.last().id)) by {
            if index_of(front).contains_key(list.last().id) {
                let i = choose|i: int|
                    0 <= i < front.len() && (#[trigger] front[i]).id == list.last().id;
                assert(list[i].id != list[list.len() - 1].id);
            }
        }
        assert(index_of(list).dom() =~= index_of(front).dom().insert(list.last().id));
    } else {
        assert(index_of(list).dom() =~= Set::<Seq<char>>::empty());
    }
}

/// The names of the persisted records that belong to the snapshots of an
/// index.
pub open spec fn record_names(index: Map<Seq<char>, BackupView>) -> Set<Seq<char>> {
    Set::new(
        |name: Seq<char>|
            exists|id: Seq<char>| index.contains_key(id) && name == #[trigger] record_name_of(id),
    )
}

/// Snapshots with different identifiers have records with different names.
pub proof fn lemma_record_name_injective(a: Seq<char>, b: Seq<char>)
    requires
        record_name_of(a) == record_name_of(b),
    ensures
        a == b,
{
    let tail = ".json"@;
    assert(a =~= record_name_of(a).subrange(0, a.len() as int));
    assert(b =~= record_name_of(b).subrange(0, b.len() as int));
    assert(record_name_of(a).len() == a.len() + tail.len());
    assert(record_name_of(b).len() == b.len() + tail.len());
}

/// When a snapshot enters the index, the records that belong to the index
/// are those that belonged to it and the record of the snapshot: the one
/// that was written.
pub proof fn lemma_create_keeps_records(index: Map<Seq<char>, BackupView>, backup: BackupView)
    ensures
        record_names(index.insert(backup.id, backup)) == record_names(index).insert(
            record_name_of(backup.id),
        ),
{
    let after = index.insert(backup.id, backup);
    assert forall|name: Seq<char>| record_names(after).contains(name) <==> record_names(
        index,
    ).insert(record_name_of(backup.id)).contains(name) by {
        if record_names(after).contains(name) {
            let id = choose|id: Seq<char>|
                after.contains_key(id) && name == #[trigger] record_name_of(id);
            if id != backup.id {
                assert(index.contains_key(id));
            }
        }
        if record_names(index).contains(name) {
            let id = choose|id: Seq<char>|
                index.contains_key(id) && name == #[trigger] record_name_of(id);
            assert(after.contains_key(id));
        }
        if name == record_name_of(backup.id) {
            assert(after.contains_key(backup.id));
        }
    }
    assert(record_names(after) =~= record_names(index).insert(record_name_of(backup.id)));
}

/// When a snapshot leaves the index, the records that belong to the index
/// are those that belonged to it without the record of the snapshot: the
/// one that was removed. So deletion takes the snapshot out of the listing
/// and its record out of the storage location together.
pub proof fn lemma_delete_keeps_records(index: Map<Seq<char>, BackupView>, id: Seq<char>)
    ensures
        !index.remove(id).contains_key(id),
        record_names(index.remove(id)) == record_names(index).remove(record_name_of(id)),
{
    let after = index.remove(id);
    assert forall|name: Seq<char>| record_names(after).contains(name) <==> record_names(
        index,
    ).remove(record_name_of(id)).contains(name) by {
        if record_names(after).contains(name) {
            let other = choose|other: Seq<char>|
                after.contains_key(other) && name == #[trigger] record_name_of(other);
            assert(index.contains_key(other));
            if name == record_name_of(id) {
                lemma_record_name_injective(other, id);
            }
        }
        if record_names(index).contains(name) && name != record_name_of(id) {
            let other = choose|other: Seq<char>|
                index.contains_key(other) && name == #[trigger] record_name_of(other);
            assert(after.contains_key(other));
        }
    }
    assert(record_names(after) =~= record_names(index).remove(record_name_of(id)));
}

} // verus!
