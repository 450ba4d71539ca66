//! A model of a project tree, and what a traversal of it records.
//!
//! The model is a value of specifications only. It states what a snapshot of a
//! readable tree must hold, and the laws below show that a traversal driven
//! over such a tree records exactly that.

use crate::backup::{distinct_paths, lemma_restore_reproduces, written, BackupFileView};
use crate::traversal::{
    excluded_name, next_step, passed_over, record, skip_excluded, supplied, ListedView,
    ProbeView, StepView, WalkerView,
};
use vstd::prelude::*;

verus! {

/// What a tree holds at one entry.
pub enum Content {
    /// A regular file that holds this text.
    Text(Seq<char>),
    /// A regular file that cannot be read as text.
    Opaque,
    /// A directory with these entries, in the order of its listing.
    Directory(Seq<Node>),
    /// Neither a regular file nor a directory.
    Other,
}

/// One entry of a tree.
pub struct Node {
    pub name: Seq<char>,
    pub path: Seq<char>,
    pub content: Content,
}

/// The listing of a directory that holds `nodes`.
pub open spec fn listing(nodes: Seq<Node>) -> Seq<ListedView> {
    Seq::new(nodes.len(), |i: int| ListedView::Entry { name: nodes[i].name, path: nodes[i].path })
}

/// What is found at the path of `node`.
pub open spec fn probe(node: Node) -> ProbeView {
    match node.content {
        Content::Text(text) => ProbeView::File(Some(text)),
        Content::Opaque => ProbeView::File(None),
        Content::Directory(children) => ProbeView::Directory(Ok(listing(children))),
        Content::Other => ProbeView::Other,
    }
}

/// The entries of `node` where it is a directory.
pub open spec fn children(node: Node) -> Seq<Node> {
    match node.content {
        Content::Directory(children) => children,
        _ => Seq::empty(),
    }
}

/// The number of entries in `nodes`, those of directories included.
pub open spec fn count(nodes: Seq<Node>) -> nat
    decreases nodes,
{
    if nodes.len() == 0 {
        0
    } else {
        let below = match nodes[0].content {
            Content::Directory(children) => count(children),
            _ => 0,
        };
        1 + below + count(nodes.drop_first())
    }
}

/// What a snapshot of a directory that holds `nodes` records: depth first and
/// in the order of the listings, every text file that is reached without
/// passing through an excluded name.
pub open spec fn captured(nodes: Seq<Node>) -> Seq<BackupFileView>
    decreases nodes,
{
    if nodes.len() == 0 {
        Seq::empty()
    } else {
        let first = nodes[0];
        let from_first = if excluded_name(first.name) {
            Seq::empty()
        } else {
            match first.content {
                Content::Text(text) => seq![record(first.path, text)],
                Content::Directory(children) => captured(children),
                _ => Seq::empty(),
            }
        };
        from_first + captured(nodes.drop_first())
    }
}

/// `file` is the record of a text file in `nodes` that is reached without
/// passing through an excluded name.
pub open spec fn reachable(nodes: Seq<Node>, file: BackupFileView) -> bool
    decreases nodes,
{
    if nodes.len() == 0 {
        false
    } else {
        let first = nodes[0];
        let in_first = !excluded_name(first.name) && match first.content {
            Content::Text(text) => file == record(first.path, text),
            Content::Directory(children) => reachable(children, file),
            _ => false,
        };
        in_first || reachable(nodes.drop_first(), file)
    }
}

/// `nodes` without the entries at its head that the traversal passes over.
pub open spec fn skip_nodes(nodes: Seq<Node>) -> Seq<Node>
    decreases nodes.len(),
{
    if nodes.len() > 0 && excluded_name(nodes[0].name) {
        skip_nodes(nodes.drop_first())
    } else {
        nodes
    }
}

/// The files that a traversal in state `w` ends with when it is driven over
/// `nodes`, the entries that stand for what it has pending, and is answered
/// from them; `None` where it fails or needs more than `fuel` answers.
pub open spec fn walk(w: WalkerView, nodes: Seq<Node>, fuel: nat) -> Option<Seq<BackupFileView>>
    decreases fuel,
{
    match next_step(w) {
        StepView::Done(files) => Some(files),
        StepView::Failed(_) => None,
        StepView::Probe(waiting) => {
            let rest = skip_nodes(nodes);
            if fuel == 0 || rest.len() == 0 {
                None
            } else {
                match supplied(waiting, probe(rest[0])) {
                    Ok(after) => walk(
                        after,
                        children(rest[0]) + rest.drop_first(),
                        (fuel - 1) as nat,
                    ),
                    Err(_) => None,
                }
            }
        },
    }
}

/// Counting a concatenation adds the counts.
pub proof fn lemma_count_concat(a: Seq<Node>, b: Seq<Node>)
    ensures
        count(a + b) == count(a) + count(b),
    decreases a.len(),
{
    if a.len() > 0 {
        assert((a + b).drop_first() == a.drop_first() + b);
        lemma_count_concat(a.drop_first(), b);
    }
}

/// A snapshot of a concatenation records what the snapshots of its parts
/// record, in that order.
pub proof fn lemma_captured_concat(a: Seq<Node>, b: Seq<Node>)
    ensures
        captured(a + b) == captured(a) + captured(b),
    decreases a.len(),
{
    if a.len() > 0 {
        assert((a + b).drop_first() == a.drop_first() + b);
        lemma_captured_concat(a.drop_first(), b);
    }
}

/// Passing over excluded entries at the head changes neither what a snapshot
/// records nor how the listing continues, and adds no entry.
pub proof fn lemma_skip_nodes(nodes: Seq<Node>)
    ensures
        listing(skip_nodes(nodes)) == skip_excluded(listing(nodes)),
        captured(skip_nodes(nodes)) == captured(nodes),
        count(skip_nodes(nodes)) <= count(nodes),
        skip_nodes(nodes).len() > 0 ==> !excluded_name(skip_nodes(nodes)[0].name),
    decreases nodes.len(),
{
    if nodes.len() > 0 && excluded_name(nodes[0].name) {
        lemma_skip_nodes(nodes.drop_first());
        assert(listing(nodes).drop_first() =~= listing(nodes.drop_first()));
    }
}

/// A traversal that is driven over a readable tree, and has at least as many
/// answers to go as the tree has entries, ends, and ends with what it had
/// recorded and then what a snapshot of the tree records.
pub proof fn lemma_walk(w: WalkerView, nodes: Seq<Node>, fuel: nat)
    requires
        w.pending == listing(nodes),
        fuel >= count(nodes),
    ensures
        walk(w, nodes, fuel) == Some(w.files + captured(nodes)),
    decreases fuel,
{
    lemma_skip_nodes(nodes);
    let rest = skip_nodes(nodes);
    if rest.len() > 0 {
        let first = rest[0];
        let tail = rest.drop_first();
        let waiting = WalkerView { pending: listing(rest), files: w.files };
        let below = children(first);
        lemma_count_concat(below, tail);
        lemma_captured_concat(below, tail);
        let after = supplied(waiting, probe(first))->Ok_0;
        assert(after.pending == listing(below + tail));
        lemma_walk(after, below + tail, (fuel - 1) as nat);
    }
}

/// A traversal that starts at a readable directory and is answered from the
/// tree below it ends with exactly what a snapshot of that tree records.
pub proof fn lemma_traversal_captures_tree(nodes: Seq<Node>)
    ensures
        walk(
            WalkerView { pending: listing(nodes), files: Seq::empty() },
            nodes,
            count(nodes),
        ) == Some(captured(nodes)),
{
    let w = WalkerView { pending: listing(nodes), files: Seq::empty() };
    lemma_walk(w, nodes, count(nodes));
}

/// A snapshot records exactly the text files that are reached without passing
/// through an excluded name: nothing below an excluded directory is recorded,
/// whatever the directory holds.
pub proof fn lemma_captured_reachable(nodes: Seq<Node>, file: BackupFileView)
    ensures
        captured(nodes).contains(file) <==> reachable(nodes, file),
    decreases nodes,
{
    if nodes.len() > 0 {
        let first = nodes[0];
        let tail = nodes.drop_first();
        lemma_captured_reachable(tail, file);
        let from_first = if excluded_name(first.name) {
            Seq::<BackupFileView>::empty()
        } else {
            match first.content {
                Content::Text(text) => seq![record(first.path, text)],
                Content::Directory(children) => captured(children),
                _ => Seq::empty(),
            }
        };
        if !excluded_name(first.name) {
            match first.content {
                Content::Text(text) => {
                    assert(from_first[0] == record(first.path, text));
                },
                Content::Directory(children) => {
                    lemma_captured_reachable(children, file);
                },
                _ => {},
            }
        }
        let whole = from_first + captured(tail);
        if from_first.contains(file) {
            let i = choose|i: int| 0 <= i < from_first.len() && from_first[i] == file;
            assert(whole[i] == file);
        }
        if captured(tail).contains(file) {
            let i = choose|i: int| 0 <= i < captured(tail).len() && captured(tail)[i] == file;
            assert(whole[from_first.len() + i] == file);
        }
    }
}

/// An excluded entry adds nothing to a snapshot, whatever it holds.
pub proof fn lemma_excluded_adds_nothing(before: Seq<Node>, node: Node, after: Seq<Node>)
    requires
        excluded_name(node.name),
    ensures
        captured(before + seq![node] + after) == captured(before + after),
{
    let one = seq![node];
    lemma_captured_concat(before + one, after);
    lemma_captured_concat(before, one);
    lemma_captured_concat(before, after);
    assert(captured(one) == Seq::<BackupFileView>::empty() + captured(one.drop_first()));
}

/// A snapshot of a readable tree whose recorded paths are distinct, restored
/// into any file system, an empty one too, puts at every recorded path the
/// text that the tree held there.
pub proof fn lemma_round_trip(nodes: Seq<Node>, disk: Map<Seq<char>, Seq<char>>)
    requires
        distinct_paths(captured(nodes)),
    ensures
        walk(
            WalkerView { pending: listing(nodes), files: Seq::empty() },
            nodes,
            count(nodes),
        ) == Some(captured(nodes)),
        forall|i: int|
            0 <= i < captured(nodes).len() ==> written(disk, captured(nodes)).contains_key(
                (#[trigger] captured(nodes)[i]).path,
            ) && written(disk, captured(nodes))[captured(nodes)[i].path] == captured(
                nodes,
            )[i].content,
{
    lemma_traversal_captures_tree(nodes);
    lemma_restore_reproduces(disk, captured(nodes));
}

} // verus!
