//! The activity journal: the actions of the user, the newest first, kept up
//! to a fixed number of entries.
//!
//! The journal never touches the file system. Whoever drives it reads the
//! stored journal before the journal is made, and stores the entries after
//! each change.

use crate::text::{copy_option, describe, described, option_text};
use vstd::prelude::*;

verus! {

/// The most entries that the journal keeps.
pub const MAX_ENTRIES: usize = 1000;

/// One action of the user.
#[derive(Debug)]
pub struct LogEntry {
    pub id: String,
    pub entry_type: String,
    pub action: String,
    pub file: String,
    pub timestamp: u64,
    pub lines: Option<usize>,
    pub details: Option<String>,
    pub user: Option<String>,
    pub diff: Option<String>,
}

/// What a `LogEntry` holds, with each string as its characters.
pub struct LogEntryView {
    pub id: Seq<char>,
    pub entry_type: Seq<char>,
    pub action: Seq<char>,
    pub file: Seq<char>,
    pub timestamp: u64,
    pub lines: Option<usize>,
    pub details: Option<Seq<char>>,
    pub user: Option<Seq<char>>,
    pub diff: Option<Seq<char>>,
}

impl View for LogEntry {
    type V = LogEntryView;

    open spec fn view(&self) -> LogEntryView {
        LogEntryView {
            id: self.id@,
            entry_type: self.entry_type@,
            action: self.action@,
            file: self.file@,
            timestamp: self.timestamp,
            lines: self.lines,
            details: option_text(self.details),
            user: option_text(self.user),
            diff: option_text(self.diff),
        }
    }
}

impl Clone for LogEntry {
    fn clone(&self) -> (r: Self)
        ensures
            r@ == self@,
    {
        LogEntry {
            id: self.id.clone(),
            entry_type: self.entry_type.clone(),
            action: self.action.clone(),
            file: self.file.clone(),
            timestamp: self.timestamp,
            lines: self.lines,
            details: copy_option(&self.details),
            user: copy_option(&self.user),
            diff: copy_option(&self.diff),
        }
    }
}

/// The views of a list of entries.
pub open spec fn entry_views(entries: Seq<LogEntry>) -> Seq<LogEntryView> {
    Seq::new(entries.len(), |i: int| entries[i]@)
}

/// The journal after `entry` is added to a journal that holds `entries`: the
/// new entry first, then the old ones, cut after `MAX_ENTRIES` entries.
pub open spec fn with_entry(entries: Seq<LogEntryView>, entry: LogEntryView) -> Seq<LogEntryView> {
    let all = seq![entry] + entries;
    if all.len() > MAX_ENTRIES {
        all.take(MAX_ENTRIES as int)
    } else {
        all
    }
}

/// What was found where the journal is stored.
#[derive(Debug)]
pub enum StoredLog {
    /// No journal is stored.
    Missing,
    /// The stored journal could not be read, with the reason.
    Unreadable(String),
    /// What is stored is not a journal.
    Corrupt,
    /// The stored entries.
    Entries(Vec<LogEntry>),
}

/// The activity journal.
pub struct ActivityLog {
    log_file: String,
    entries: Vec<LogEntry>,
}

impl View for ActivityLog {
    type V = Seq<LogEntryView>;

    closed spec fn view(&self) -> Seq<LogEntryView> {
        entry_views(self.entries@)
    }
}

impl ActivityLog {
    /// The file in which the journal is stored.
    pub closed spec fn location(&self) -> Seq<char> {
        self.log_file@
    }

    /// The journal stored in `log_file`. It holds the stored entries as they
    /// are; it is empty where nothing is stored or what is stored is not a
    /// journal. Where the stored journal could not be read there is no
    /// journal.
    pub fn new(log_file: String, stored: StoredLog) -> (r: Result<Self, String>)
        ensures
            match stored {
                StoredLog::Missing => r is Ok && r->Ok_0@ == Seq::<LogEntryView>::empty()
                    && r->Ok_0.location() == log_file@,
                StoredLog::Corrupt => r is Ok && r->Ok_0@ == Seq::<LogEntryView>::empty()
                    && r->Ok_0.location() == log_file@,
                StoredLog::Entries(entries) => r is Ok && r->Ok_0@ == entry_views(entries@)
                    && r->Ok_0.location() == log_file@,
                StoredLog::Unreadable(detail) => r is Err && r->Err_0@ == described(
                    "Failed to read log file"@,
                    detail@,
                ),
            },
    {
        match stored {
            StoredLog::Missing | StoredLog::Corrupt => {
                let entries: Vec<LogEntry> = Vec::new();
                Ok(ActivityLog { log_file, entries })
            },
            StoredLog::Entries(entries) => Ok(ActivityLog { log_file, entries }),
            StoredLog::Unreadable(detail) => Err(
                describe("Failed to read log file", detail.as_str()),
            ),
        }
    }

    /// The file in which the journal is stored.
    pub fn log_file(&self) -> (path: &str)
        ensures
            path@ == self.location(),
    {
        self.log_file.as_str()
    }

    /// Puts `entry` before all others, and drops the oldest entries beyond
    /// `MAX_ENTRIES`.
    pub fn add_entry(&mut self, entry: LogEntry)
        ensures
            final(self)@ == with_entry(old(self)@, entry@),
            final(self)@.len() <= MAX_ENTRIES,
            final(self).location() == old(self).location(),
    {
        self.entries.insert(0, entry);
        if self.entries.len() > MAX_ENTRIES {
            self.entries.truncate(MAX_ENTRIES);
        }
    }

    /// The entries, the newest first.
    pub fn get_entries(&self) -> (entries: &Vec<LogEntry>)
        ensures
            entry_views(entries@) == self@,
    {
        &self.entries
    }

    /// Removes every entry.
    pub fn clear(&mut self)
        ensures
            final(self)@ == Seq::<LogEntryView>::empty(),
            final(self).location() == old(self).location(),
    {
        self.entries.clear();
    }
}

} // verus!
