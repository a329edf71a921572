//! A model of the directory that is being tidied, and what a relocation and
//! a whole pass do to it when every operation that can succeed does.
//!
//! The model knows two levels: the entries of the base directory, and the
//! names that lie directly inside each of its folders. That is all the tool
//! ever looks at.

use vstd::prelude::*;
use vstd::pervasive::arbitrary;
use crate::organizer::destination;
use crate::relocate::{
    advanced,
    begun,
    notice_text,
    rename_error_text,
    replies_left,
    skip_text,
    EntryKind,
    LineView,
    Phase,
    RelocationView,
    ReplyView,
    Request,
    StepView,
    Stream,
};
use crate::text::debug_quoted;

verus! {

/// The base directory: the kind of each entry that lies in it, and the pairs
/// of a folder and a name that lies in that folder.
pub struct Tree {
    pub top: Map<Seq<char>, EntryKind>,
    pub inner: Set<(Seq<char>, Seq<char>)>,
}

impl Tree {
    /// Only a directory of the base directory holds anything.
    pub open spec fn wf(self) -> bool {
        forall|folder: Seq<char>, name: Seq<char>| #[trigger]
            self.inner.contains((folder, name)) ==> self.has_folder(folder)
    }

    /// Whether the base directory holds a directory called `folder`.
    pub open spec fn has_folder(self, folder: Seq<char>) -> bool {
        self.top.contains_key(folder) && self.top[folder] == EntryKind::Directory
    }

    /// Whether `folder` is a directory of the base directory that holds an
    /// entry called `name`.
    pub open spec fn occupied(self, folder: Seq<char>, name: Seq<char>) -> bool {
        self.has_folder(folder) && self.inner.contains((folder, name))
    }

    /// The tree with an empty directory `folder` added to the base directory.
    pub open spec fn with_folder(self, folder: Seq<char>) -> Tree {
        Tree { top: self.top.insert(folder, EntryKind::Directory), inner: self.inner }
    }

    /// The tree after the entry `name` of the base directory has been moved
    /// into `folder`. What the entry held goes with it, out of sight.
    pub open spec fn with_move(self, name: Seq<char>, folder: Seq<char>) -> Tree {
        Tree {
            top: self.top.remove(name),
            inner: self.inner.filter(|pair: (Seq<char>, Seq<char>)| pair.0 != name).insert(
                (folder, name),
            ),
        }
    }

    /// Whether the entry `name` of the base directory can be renamed into
    /// `folder`: the entry is there, the folder is a directory other than
    /// the entry itself, and it holds nothing of that name.
    pub open spec fn can_move(self, name: Seq<char>, folder: Seq<char>) -> bool {
        &&& self.top.contains_key(name)
        &&& self.has_folder(folder)
        &&& name != folder
        &&& !self.inner.contains((folder, name))
    }
}

/// The tree after `request` has been carried out for the entry `name` and
/// the folder `category`, and the reply that it gets. An operation fails
/// only where it cannot succeed; what the failure's description says is left
/// open.
pub open spec fn answer(tree: Tree, name: Seq<char>, category: Seq<char>, request: Request) -> (
    Tree,
    ReplyView,
) {
    match request {
        Request::ProbeContainer => (tree, ReplyView::Exists(tree.top.contains_key(category))),
        Request::CreateContainer => if tree.has_folder(category) {
            (tree, ReplyView::Done)
        } else if tree.top.contains_key(category) {
            (tree, ReplyView::Failed(arbitrary()))
        } else {
            (tree.with_folder(category), ReplyView::Done)
        },
        Request::ProbeDestination => (tree, ReplyView::Exists(tree.occupied(category, name))),
        Request::Rename => if tree.can_move(name, category) {
            (tree.with_move(name, category), ReplyView::Done)
        } else {
            (tree, ReplyView::Failed(arbitrary()))
        },
        Request::Finish { moved } => (tree, ReplyView::Done),
    }
}

/// How a relocation ended: the tree it left, the lines it wrote, and whether
/// it counts the entry as moved.
pub struct Outcome {
    pub tree: Tree,
    pub lines: Seq<LineView>,
    pub moved: bool,
}

/// The lines of a step.
pub open spec fn lines_of(step: StepView) -> Seq<LineView> {
    match step.line {
        Some(line) => seq![line],
        None => Seq::empty(),
    }
}

/// Carries a relocation to its end on `tree`: writes the line of `step`,
/// carries out its request, hands the reply to the relocation, and goes on
/// with the step that comes back.
pub open spec fn carried_out(tree: Tree, state: RelocationView, step: StepView) -> Outcome
    decreases replies_left(state.phase),
{
    match step.request {
        Request::Finish { moved } => Outcome { tree, lines: lines_of(step), moved },
        request => {
            let (tree_then, reply) = answer(tree, state.name, state.category, request);
            let (state_then, step_then) = advanced(state, reply);
            if replies_left(state_then.phase) < replies_left(state.phase) {
                let rest = carried_out(tree_then, state_then, step_then);
                Outcome {
                    tree: rest.tree,
                    lines: lines_of(step) + rest.lines,
                    moved: rest.moved,
                }
            } else {
                Outcome { tree, lines: lines_of(step), moved: false }
            }
        },
    }
}

/// What the relocation of the entry `name` into `category` does on `tree`.
pub open spec fn relocated(
    tree: Tree,
    name: Seq<char>,
    kind: EntryKind,
    category: Seq<char>,
    dry_run: bool,
) -> Outcome {
    let (state, step) = begun(name, kind, category, dry_run);
    carried_out(tree, state, step)
}

/// A line on the output stream.
pub open spec fn told(text: Seq<char>) -> LineView {
    LineView { stream: Stream::Output, text }
}

/// A line on the error stream.
pub open spec fn complained(text: Seq<char>) -> LineView {
    LineView { stream: Stream::Error, text }
}

/// The tree on which a real run probes the destination: `tree`, with the
/// folder `category` created where the base directory had no entry of that
/// name.
pub open spec fn prepared(tree: Tree, category: Seq<char>, dry_run: bool) -> Tree {
    if dry_run || tree.top.contains_key(category) {
        tree
    } else {
        tree.with_folder(category)
    }
}

/// The outcome of a relocation, told in one piece.
///
/// - Where the folder holds an entry of that name already, the entry is
///   skipped with a notice.
/// - Where the entry is the folder itself, nothing is said.
/// - Otherwise the move is announced. A dry run counts the entry as moved
///   and leaves the tree as it was. A real run moves the entry if it can,
///   and complains if it cannot.
pub open spec fn settled(
    tree: Tree,
    name: Seq<char>,
    kind: EntryKind,
    category: Seq<char>,
    dry_run: bool,
) -> Outcome {
    let ready = prepared(tree, category, dry_run);
    if ready.occupied(category, name) {
        Outcome {
            tree: ready,
            lines: seq![told(skip_text(kind, debug_quoted(name), category))],
            moved: false,
        }
    } else if name == category {
        Outcome { tree: ready, lines: Seq::empty(), moved: false }
    } else if dry_run {
        Outcome {
            tree: ready,
            lines: seq![told(notice_text(kind, debug_quoted(name), category))],
            moved: true,
        }
    } else if ready.can_move(name, category) {
        Outcome {
            tree: ready.with_move(name, category),
            lines: seq![told(notice_text(kind, debug_quoted(name), category))],
            moved: true,
        }
    } else {
        Outcome {
            tree: ready,
            lines: seq![
                told(notice_text(kind, debug_quoted(name), category)),
                complained(rename_error_text(kind, debug_quoted(name), arbitrary())),
            ],
            moved: false,
        }
    }
}

/// A relocation that is carried out step by step ends as `settled` tells.
pub proof fn lemma_relocated(
    tree: Tree,
    name: Seq<char>,
    kind: EntryKind,
    category: Seq<char>,
    dry_run: bool,
)
    ensures
        relocated(tree, name, kind, category, dry_run) == settled(
            tree,
            name,
            kind,
            category,
            dry_run,
        ),
{
    reveal_with_fuel(carried_out, 5);
    let got = relocated(tree, name, kind, category, dry_run);
    let want = settled(tree, name, kind, category, dry_run);
    assert(got.lines =~= want.lines);
    assert(got.tree == want.tree);
    assert(got.moved == want.moved);
}

/// An entry as the listing of the base directory gives it.
pub struct Listed {
    pub name: Seq<char>,
    pub kind: EntryKind,
}

/// What a pass has done so far: the tree as it is now, the lines written,
/// and the counts of files and folders moved.
pub struct Report {
    pub tree: Tree,
    pub lines: Seq<LineView>,
    pub files: nat,
    pub folders: nat,
}

/// The rules of a pass.
pub struct Rules {
    pub table: Map<Seq<char>, Seq<char>>,
    pub protected: Set<Seq<char>>,
}

impl Rules {
    /// Where the rules send an entry, if anywhere.
    pub open spec fn destination(self, entry: Listed) -> Option<Seq<char>> {
        destination(self.table, self.protected, entry.name, entry.kind)
    }

    /// Every folder that the rules send anything to is a protected name.
    pub open spec fn consistent(self) -> bool {
        &&& self.protected.contains("Others"@)
        &&& self.protected.contains("Folders"@)
        &&& forall|extension: Seq<char>| #[trigger]
            self.table.contains_key(extension) ==> self.protected.contains(
                self.table[extension],
            )
    }
}

/// The report after the pass that has come as far as `before` has dealt with
/// `entry`: an entry without destination is passed over, any other is
/// relocated and, if moved, counted.
pub open spec fn handled(before: Report, rules: Rules, entry: Listed, dry_run: bool) -> Report {
    match rules.destination(entry) {
        None => before,
        Some(category) => {
            let outcome = relocated(before.tree, entry.name, entry.kind, category, dry_run);
            Report {
                tree: outcome.tree,
                lines: before.lines + outcome.lines,
                files: if outcome.moved && entry.kind == EntryKind::File {
                    before.files + 1
                } else {
                    before.files
                },
                folders: if outcome.moved && entry.kind == EntryKind::Directory {
                    before.folders + 1
                } else {
                    before.folders
                },
            }
        },
    }
}

/// The report of a pass over `entries`, in their order, that starts on
/// `tree`.
pub open spec fn pass(tree: Tree, rules: Rules, entries: Seq<Listed>, dry_run: bool) -> Report
    decreases entries.len(),
{
    if entries.len() == 0 {
        Report { tree, lines: Seq::empty(), files: 0, folders: 0 }
    } else {
        handled(pass(tree, rules, entries.drop_last(), dry_run), rules, entries.last(), dry_run)
    }
}

/// Whether `entries` names `name`.
pub open spec fn names(entries: Seq<Listed>, name: Seq<char>) -> bool {
    exists|i: int| 0 <= i < entries.len() && #[trigger] entries[i].name == name
}

/// Whether `entries` lists entries of the base directory of `tree`, each
/// with its kind and none twice.
pub open spec fn lists(entries: Seq<Listed>, tree: Tree) -> bool {
    &&& forall|i: int|
        0 <= i < entries.len() ==> tree.top.contains_key(#[trigger] entries[i].name)
            && tree.top[entries[i].name] == entries[i].kind
    &&& forall|i: int, j: int|
        0 <= i < j < entries.len() ==> #[trigger] entries[i].name != #[trigger] entries[j].name
}

/// Whether `entries` lists every entry of the base directory of `tree`.
pub open spec fn lists_all(entries: Seq<Listed>, tree: Tree) -> bool {
    &&& lists(entries, tree)
    &&& forall|name: Seq<char>| #[trigger] tree.top.contains_key(name) ==> names(entries, name)
}

/// The texts of the lines of `lines` that go to `stream`, in their order.
pub open spec fn written(lines: Seq<LineView>, stream: Stream) -> Seq<Seq<char>>
    decreases lines.len(),
{
    if lines.len() == 0 {
        Seq::empty()
    } else if lines.last().stream == stream {
        written(lines.drop_last(), stream).push(lines.last().text)
    } else {
        written(lines.drop_last(), stream)
    }
}

/// What `lines` tells: the texts that go to the output stream.
pub open spec fn output(lines: Seq<LineView>) -> Seq<Seq<char>> {
    written(lines, Stream::Output)
}

/// What `lines` complains of: the texts that go to the error stream.
pub open spec fn complaints(lines: Seq<LineView>) -> Seq<Seq<char>> {
    written(lines, Stream::Error)
}

/// What lines written one after the other send to a stream is what the
/// first send to it, followed by what the second send to it.
pub proof fn lemma_written_of_both(first: Seq<LineView>, second: Seq<LineView>, stream: Stream)
    ensures
        written(first + second, stream) == written(first, stream) + written(second, stream),
    decreases second.len(),
{
    if second.len() == 0 {
        assert(first + second =~= first);
        assert(written(first, stream) + written(second, stream) =~= written(first, stream));
    } else {
        let both = first + second;
        assert(both.drop_last() =~= first + second.drop_last());
        assert(both.last() == second.last());
        lemma_written_of_both(first, second.drop_last(), stream);
        if second.last().stream == stream {
            assert(written(first, stream) + written(second, stream) =~= (written(first, stream)
                + written(second.drop_last(), stream)).push(second.last().text));
        }
    }
}

} // verus!
