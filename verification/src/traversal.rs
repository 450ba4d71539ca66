//! Traversal of a project tree for a snapshot.
//!
//! The walker decides which entries are passed over, which paths are looked
//! at and in what order, and what is recorded. It never touches the file
//! system: it names the path to look at, and whoever drives it says what is
//! there.

use crate::backup::{
    content_bytes, file_views, BackupError, BackupErrorView, BackupFile, BackupFileView,
};
use crate::hasher::{content_digest, content_hash};
use crate::text::{byte_len, describe, described, same_text, utf8_len};
use vstd::prelude::*;

verus! {

/// A name that the traversal passes over: one that begins with a dot, or the
/// name of a directory of dependencies, of build output or of compiled
/// artifacts.
pub open spec fn excluded_name(name: Seq<char>) -> bool {
    ||| name.len() > 0 && name[0] == '.'
    ||| name == "node_modules"@
    ||| name == "target"@
    ||| name == "dist"@
    ||| name == "build"@
}

/// Tells whether the traversal passes over an entry with this name.
pub fn is_excluded(name: &str) -> (b: bool)
    ensures
        b == excluded_name(name@),
{
    (name.unicode_len() > 0 && name.get_char(0) == '.') || same_text(name, "node_modules")
        || same_text(name, "target") || same_text(name, "dist") || same_text(name, "build")
}

/// One item of a directory's listing.
#[derive(Debug)]
pub enum Listed {
    /// An entry, with its file name and its full path.
    Entry { name: String, path: String },
    /// An entry that could not be read, with the reason.
    Failed(String),
}

/// What a `Listed` holds, with each string as its characters.
pub enum ListedView {
    Entry { name: Seq<char>, path: Seq<char> },
    Failed(Seq<char>),
}

impl View for Listed {
    type V = ListedView;

    open spec fn view(&self) -> ListedView {
        match self {
            Listed::Entry { name, path } => ListedView::Entry { name: name@, path: path@ },
            Listed::Failed(detail) => ListedView::Failed(detail@),
        }
    }
}

/// The views of a listing.
pub open spec fn listed_views(listing: Seq<Listed>) -> Seq<ListedView> {
    Seq::new(listing.len(), |i: int| listing[i]@)
}

/// What the file system holds at a path.
#[derive(Debug)]
pub enum Probe {
    /// A regular file, with its content where it could be read as UTF-8 text.
    File(Option<String>),
    /// A directory, with its listing or the reason why it could not be listed.
    Directory(Result<Vec<Listed>, String>),
    /// Neither a regular file nor a directory.
    Other,
}

/// What a `Probe` holds, with each string as its characters.
pub enum ProbeView {
    File(Option<Seq<char>>),
    Directory(Result<Seq<ListedView>, Seq<char>>),
    Other,
}

impl View for Probe {
    type V = ProbeView;

    open spec fn view(&self) -> ProbeView {
        match self {
            Probe::File(Some(content)) => ProbeView::File(Some(content@)),
            Probe::File(None) => ProbeView::File(None),
            Probe::Directory(Ok(listing)) => ProbeView::Directory(Ok(listed_views(listing@))),
            Probe::Directory(Err(detail)) => ProbeView::Directory(Err(detail@)),
            Probe::Other => ProbeView::Other,
        }
    }
}

/// The state of a traversal: the entries that are still to be handled, the
/// next one first, and the files recorded so far.
pub struct WalkerView {
    pub pending: Seq<ListedView>,
    pub files: Seq<BackupFileView>,
}

/// Whether the traversal passes over this item of a listing.
pub open spec fn passed_over(item: ListedView) -> bool {
    item matches ListedView::Entry { name, .. } && excluded_name(name)
}

/// `pending` without the entries at its head that the traversal passes over.
pub open spec fn skip_excluded(pending: Seq<ListedView>) -> Seq<ListedView>
    decreases pending.len(),
{
    if pending.len() > 0 && passed_over(pending[0]) {
        skip_excluded(pending.drop_first())
    } else {
        pending
    }
}

/// What a traversal does next.
pub enum StepView {
    /// It waits to learn what is at the path of the first pending entry.
    Probe(WalkerView),
    /// It has ended with these files.
    Done(Seq<BackupFileView>),
    /// It has failed.
    Failed(BackupErrorView),
}

/// The next step of a traversal in state `w`: it passes over excluded
/// entries; then it ends where nothing is pending, fails where the next
/// entry could not be read, and else asks what is at the next entry's path.
pub open spec fn next_step(w: WalkerView) -> StepView {
    let rest = skip_excluded(w.pending);
    if rest.len() == 0 {
        StepView::Done(w.files)
    } else {
        match rest[0] {
            ListedView::Failed(detail) => StepView::Failed(
                BackupErrorView::Io(described("Failed to read entry"@, detail)),
            ),
            ListedView::Entry { .. } => StepView::Probe(
                WalkerView { pending: rest, files: w.files },
            ),
        }
    }
}

/// `skip_excluded` takes entries that are passed over from the head and
/// nothing else, and stops at the first item that is not passed over.
pub proof fn lemma_skip_excluded(pending: Seq<ListedView>)
    ensures
        skip_excluded(pending).len() <= pending.len(),
        skip_excluded(pending) == pending.skip(pending.len() - skip_excluded(pending).len()),
        forall|i: int|
            0 <= i < pending.len() - skip_excluded(pending).len() ==> passed_over(
                #[trigger] pending[i],
            ),
        skip_excluded(pending).len() > 0 ==> !passed_over(skip_excluded(pending)[0]),
    decreases pending.len(),
{
    if pending.len() > 0 && passed_over(pending[0]) {
        let rest = pending.drop_first();
        lemma_skip_excluded(rest);
        let skipped = pending.len() - skip_excluded(pending).len();
        assert(rest.skip(skipped - 1) == pending.skip(skipped));
        assert forall|i: int| 0 <= i < skipped implies passed_over(#[trigger] pending[i]) by {
            if i > 0 {
                assert(pending[i] == rest[i - 1]);
            }
        }
    } else {
        assert(pending.skip(0) == pending);
    }
}

/// A traversal never asks what is at an entry that is passed over: the path
/// that it waits for is that of an entry whose name is not excluded.
pub proof fn lemma_probe_is_not_excluded(w: WalkerView)
    ensures
        next_step(w) matches StepView::Probe(waiting) ==> {
            &&& waiting.files == w.files
            &&& waiting.pending.len() > 0
            &&& waiting.pending[0] is Entry
            &&& !excluded_name(waiting.pending[0]->name)
        },
{
    lemma_skip_excluded(w.pending);
}

/// The record of a file at `path` that holds `content`.
pub open spec fn record(path: Seq<char>, content: Seq<char>) -> BackupFileView {
    BackupFileView { path, content, hash: content_digest(content) }
}

/// The state after a traversal in state `w`, which waits for its first
/// pending entry, learns that `probe` is at that entry's path. A text file is
/// recorded; a directory's listing is handled before what was pending; a
/// directory that cannot be listed ends the traversal; anything else is
/// passed over.
pub open spec fn supplied(w: WalkerView, probe: ProbeView) -> Result<WalkerView, BackupErrorView> {
    let rest = w.pending.drop_first();
    match probe {
        ProbeView::File(Some(content)) => Ok(
            WalkerView { pending: rest, files: w.files.push(record(w.pending[0]->path, content)) },
        ),
        ProbeView::File(None) => Ok(WalkerView { pending: rest, files: w.files }),
        ProbeView::Other => Ok(WalkerView { pending: rest, files: w.files }),
        ProbeView::Directory(Ok(listing)) => Ok(
            WalkerView { pending: listing + rest, files: w.files },
        ),
        ProbeView::Directory(Err(detail)) => Err(
            BackupErrorView::Io(described("Failed to read directory"@, detail)),
        ),
    }
}

/// The entries held by a stack, the top of the stack first.
spec fn from_top(stack: Seq<Listed>) -> Seq<ListedView> {
    Seq::new(stack.len(), |i: int| stack[stack.len() - 1 - i]@)
}

/// Pushing an item on a stack puts it before the entries that the stack held.
proof fn lemma_from_top_push(stack: Seq<Listed>, item: Listed)
    ensures
        from_top(stack.push(item)) == seq![item@] + from_top(stack),
{
}

/// Popping a stack removes the first of the entries that it held.
proof fn lemma_from_top_pop(stack: Seq<Listed>)
    requires
        stack.len() > 0,
    ensures
        from_top(stack.drop_last()) == from_top(stack).drop_first(),
        from_top(stack)[0] == stack.last()@,
{
}

/// Moves the items of `listing` on `stack`, so that they leave the stack in
/// the order of the listing, before what the stack held.
fn push_listing(stack: &mut Vec<Listed>, listing: Vec<Listed>)
    ensures
        from_top(final(stack)@) == listed_views(listing@) + from_top(old(stack)@),
{
    let mut listing = listing;
    let ghost all = listing@;
    let ghost rest = from_top(stack@);
    while listing.len() > 0
        invariant
            listing@.len() <= all.len(),
            listing@ == all.take(listing@.len() as int),
            from_top(stack@) == listed_views(all.skip(listing@.len() as int)) + rest,
        decreases listing.len(),
    {
        let ghost before = stack@;
        let item = listing.pop().unwrap();
        stack.push(item);
        proof {
            lemma_from_top_push(before, item);
        }
    }
}

/// A traversal between two steps.
pub struct Walker {
    stack: Vec<Listed>,
    files: Vec<BackupFile>,
    total_size: usize,
}

/// A traversal that waits to learn what is at a path.
pub struct Probing {
    walker: Walker,
}

/// The files that a traversal has recorded, with the sum of their sizes.
pub struct Collected {
    files: Vec<BackupFile>,
    total_size: usize,
}

/// What a traversal does next.
pub enum Step {
    /// It waits to learn what is at a path.
    Probe(Probing),
    /// It has ended.
    Done(Collected),
    /// It has failed.
    Failed(BackupError),
}

impl View for Walker {
    type V = WalkerView;

    closed spec fn view(&self) -> WalkerView {
        WalkerView { pending: from_top(self.stack@), files: file_views(self.files@) }
    }
}

impl View for Probing {
    type V = WalkerView;

    closed spec fn view(&self) -> WalkerView {
        self.walker@
    }
}

impl View for Collected {
    type V = Seq<BackupFileView>;

    closed spec fn view(&self) -> Seq<BackupFileView> {
        file_views(self.files@)
    }
}

impl View for Step {
    type V = StepView;

    open spec fn view(&self) -> StepView {
        match self {
            Step::Probe(probing) => StepView::Probe(probing@),
            Step::Done(collected) => StepView::Done(collected@),
            Step::Failed(error) => StepView::Failed(error@),
        }
    }
}

impl Collected {
    #[verifier::type_invariant]
    spec fn sized(self) -> bool {
        self.total_size == content_bytes(file_views(self.files@))
    }

    /// The recorded files, in the order in which the traversal met them.
    pub fn files(&self) -> (files: &Vec<BackupFile>)
        ensures
            file_views(files@) == self@,
    {
        &self.files
    }

    /// The sum of the sizes in bytes of the recorded contents.
    pub fn total_size(&self) -> (n: usize)
        ensures
            n == content_bytes(self@),
    {
        proof {
            use_type_invariant(self);
        }
        self.total_size
    }

    /// The recorded files and the sum of their sizes.
    pub fn into_parts(self) -> (parts: (Vec<BackupFile>, usize))
        ensures
            file_views(parts.0@) == self@,
            parts.1 == content_bytes(self@),
    {
        proof {
            use_type_invariant(&self);
        }
        (self.files, self.total_size)
    }
}

impl Walker {
    #[verifier::type_invariant]
    spec fn sized(self) -> bool {
        self.total_size == content_bytes(file_views(self.files@))
    }

    /// The traversal of a directory whose listing is `listing`, or the failure
    /// where the directory could not be listed.
    pub fn start(listing: Result<Vec<Listed>, String>) -> (r: Result<Walker, BackupError>)
        ensures
            match listing {
                Ok(entries) => r is Ok && r->Ok_0@ == (WalkerView {
                    pending: listed_views(entries@),
                    files: Seq::empty(),
                }),
                Err(detail) => r is Err && r->Err_0@ == BackupErrorView::Io(
                    described("Failed to read directory"@, detail@),
                ),
            },
    {
        match listing {
            Ok(entries) => {
                let mut stack: Vec<Listed> = Vec::new();
                push_listing(&mut stack, entries);
                let files: Vec<BackupFile> = Vec::new();
                assert(file_views(files@) =~= Seq::<BackupFileView>::empty());
                Ok(Walker { stack, files, total_size: 0 })
            },
            Err(detail) => Err(BackupError::Io(describe("Failed to read directory", detail.as_str()))),
        }
    }

    /// The next step of this traversal.
    pub fn next(self) -> (step: Step)
        ensures
            step@ == next_step(self@),
    {
        proof {
            use_type_invariant(&self);
        }
        let ghost begin = self@;
        let Walker { stack, files, total_size } = self;
        let mut stack = stack;
        loop
            invariant
                begin == self@,
                skip_excluded(from_top(stack@)) == skip_excluded(begin.pending),
                file_views(files@) == begin.files,
                total_size == content_bytes(file_views(files@)),
            decreases stack.len(),
        {
            let n = stack.len();
            if n == 0 {
                return Step::Done(Collected { files, total_size });
            }
            proof {
                lemma_from_top_pop(stack@);
            }
            let skip = match &stack[n - 1] {
                Listed::Entry { name, .. } => is_excluded(name.as_str()),
                Listed::Failed(_) => false,
            };
            if skip {
                stack.pop();
            } else {
                let failure: Option<BackupError> = match &stack[n - 1] {
                    Listed::Entry { .. } => None,
                    Listed::Failed(detail) => Some(
                        BackupError::Io(describe("Failed to read entry", detail.as_str())),
                    ),
                };
                return match failure {
                    Some(error) => Step::Failed(error),
                    None => Step::Probe(Probing { walker: Walker { stack, files, total_size } }),
                };
            }
        }
    }
}

impl Probing {
    #[verifier::type_invariant]
    spec fn waiting(self) -> bool {
        &&& self.walker.stack@.len() > 0
        &&& self.walker.stack@.last() is Entry
        &&& self.walker.total_size == content_bytes(file_views(self.walker.files@))
    }

    /// The path to look at. It is the path of an entry.
    pub fn path(&self) -> (path: &str)
        ensures
            self@.pending.len() > 0,
            self@.pending[0] == (ListedView::Entry {
                name: self@.pending[0]->name,
                path: path@,
            }),
    {
        proof {
            use_type_invariant(self);
        }
        let n = self.walker.stack.len();
        match &self.walker.stack[n - 1] {
            Listed::Entry { path, .. } => path.as_str(),
            Listed::Failed(detail) => detail.as_str(),
        }
    }

    /// Tells whether the sum of the recorded sizes stays in range when `probe`
    /// is supplied.
    pub open spec fn room_for(self, probe: ProbeView) -> bool {
        probe matches ProbeView::File(Some(content)) ==> content_bytes(self@.files) + utf8_len(
            content,
        ) <= usize::MAX
    }

    /// Tells whether the sum of the recorded sizes stays in range when `probe`
    /// is supplied.
    pub fn has_room_for(&self, probe: &Probe) -> (b: bool)
        ensures
            b == self.room_for(probe@),
    {
        proof {
            use_type_invariant(self);
        }
        match probe {
            Probe::File(Some(content)) => byte_len(content.as_str()) <= usize::MAX
                - self.walker.total_size,
            _ => true,
        }
    }

    /// The traversal after it has learnt that `probe` is at the path it waited
    /// for, or the failure that ends it.
    pub fn supply(self, probe: Probe) -> (r: Result<Walker, BackupError>)
        requires
            self.room_for(probe@),
        ensures
            match supplied(self@, probe@) {
                Ok(w) => r is Ok && r->Ok_0@ == w,
                Err(e) => r is Err && r->Err_0@ == e,
            },
    {
        proof {
            use_type_invariant(&self);
        }
        let Probing { walker } = self;
        let Walker { stack, files, total_size } = walker;
        let mut stack = stack;
        let mut files = files;
        let ghost recorded = file_views(files@);
        proof {
            lemma_from_top_pop(stack@);
        }
        match probe {
            Probe::File(Some(content)) => {
                let entry = stack.pop().unwrap();
                let path = match entry {
                    Listed::Entry { name: _, path } => path,
                    Listed::Failed(detail) => detail,
                };
                let size = byte_len(content.as_str());
                let hash = content_hash(content.as_str());
                let file = BackupFile { path, content, hash };
                files.push(file);
                proof {
                    assert(file_views(files@) =~= recorded.push(file@));
                    assert(file_views(files@).drop_last() =~= recorded);
                }
                Ok(Walker { stack, files, total_size: total_size + size })
            },
            Probe::File(None) => {
                stack.pop();
                Ok(Walker { stack, files, total_size })
            },
            Probe::Other => {
                stack.pop();
                Ok(Walker { stack, files, total_size })
            },
            Probe::Directory(Ok(listing)) => {
                stack.pop();
                push_listing(&mut stack, listing);
                Ok(Walker { stack, files, total_size })
            },
            Probe::Directory(Err(detail)) => Err(
                BackupError::Io(describe("Failed to read directory", detail.as_str())),
            ),
        }
    }
}

} // verus!
