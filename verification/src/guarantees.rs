//! What a relocation and a pass guarantee, shown on the model of the
//! directory.

use vstd::prelude::*;
use crate::model::{
    complaints,
    handled,
    lemma_relocated,
    lemma_written_of_both,
    lists,
    lists_all,
    names,
    output,
    pass,
    prepared,
    relocated,
    settled,
    told,
    written,
    Listed,
    Outcome,
    Report,
    Rules,
    Tree,
};
use crate::relocate::{notice_text, skip_text, EntryKind, LineView, Stream};
use crate::standard::{canonical_table, lemma_canonical_entries, protected_names};
use crate::text::debug_quoted;

verus! {

/// Nothing is ever overwritten: where the folder holds an entry of that name
/// already, the relocation leaves the tree as it is, says that it skips the
/// entry, and does not count it. This holds of a real run and of a dry run.
pub proof fn law_occupied_destination(
    tree: Tree,
    name: Seq<char>,
    kind: EntryKind,
    category: Seq<char>,
    dry_run: bool,
)
    requires
        tree.occupied(category, name),
    ensures
        relocated(tree, name, kind, category, dry_run) == (Outcome {
            tree,
            lines: seq![told(skip_text(kind, debug_quoted(name), category))],
            moved: false,
        }),
{
    lemma_relocated(tree, name, kind, category, dry_run);
}

/// Where the folder's name is not taken by a file and the folder holds no
/// entry of that name, a real run moves the entry: it announces the move,
/// the entry leaves the base directory and lies in the folder afterwards,
/// and it is counted.
pub proof fn law_free_destination(tree: Tree, name: Seq<char>, kind: EntryKind, category: Seq<char>)
    requires
        tree.wf(),
        tree.top.contains_key(name),
        name != category,
        !tree.occupied(category, name),
        tree.top.contains_key(category) ==> tree.has_folder(category),
    ensures
        ({
            let outcome = relocated(tree, name, kind, category, false);
            &&& outcome.moved
            &&& outcome.lines == seq![told(notice_text(kind, debug_quoted(name), category))]
            &&& !outcome.tree.top.contains_key(name)
            &&& outcome.tree.occupied(category, name)
            &&& outcome.tree == prepared(tree, category, false).with_move(name, category)
        }),
{
    lemma_relocated(tree, name, kind, category, false);
    let ready = prepared(tree, category, false);
    assert(ready.has_folder(category));
    assert(!tree.inner.contains((category, name))) by {
        if tree.inner.contains((category, name)) {
            assert(tree.has_folder(category));
        }
    }
    assert(ready.can_move(name, category));
}

/// What a real pass does with an entry that has a destination, where the
/// folder's name is not taken by a file and the folder holds no entry of that
/// name: the entry leaves the base directory, lies in its folder afterwards,
/// and is counted under its kind.
pub proof fn law_entry_is_filed(before: Report, rules: Rules, entry: Listed)
    requires
        before.tree.wf(),
        before.tree.top.contains_key(entry.name),
        rules.destination(entry) is Some,
        entry.name != rules.destination(entry)->0,
        !before.tree.occupied(rules.destination(entry)->0, entry.name),
        before.tree.top.contains_key(rules.destination(entry)->0) ==> before.tree.has_folder(
            rules.destination(entry)->0,
        ),
    ensures
        ({
            let folder = rules.destination(entry)->0;
            let after = handled(before, rules, entry, false);
            &&& !after.tree.top.contains_key(entry.name)
            &&& after.tree.occupied(folder, entry.name)
            &&& after.lines == before.lines + seq![
                told(notice_text(entry.kind, debug_quoted(entry.name), folder)),
            ]
            &&& match entry.kind {
                EntryKind::File => after.files == before.files + 1 && after.folders
                    == before.folders,
                EntryKind::Directory => after.files == before.files && after.folders
                    == before.folders + 1,
            }
        }),
{
    law_free_destination(before.tree, entry.name, entry.kind, rules.destination(entry)->0);
}

/// The tool's own rules.
pub open spec fn standard_rules() -> Rules {
    Rules { table: canonical_table(), protected: protected_names() }
}

/// The tool's own rules send entries to protected folders only: every
/// category of the table is a protected name, and so are the two catch-all
/// folders.
pub proof fn law_standard_rules_consistent()
    ensures
        standard_rules().consistent(),
{
    let rules = standard_rules();
    assert forall|extension: Seq<char>| #[trigger]
        rules.table.contains_key(extension) implies rules.protected.contains(
        rules.table[extension],
    ) by {
        lemma_canonical_entries(extension);
    }
}

/// A directory with a protected name is left in place: the pass writes
/// nothing for it, counts nothing, and leaves the tree as it is.
pub proof fn law_protected_directory_stays(before: Report, name: Seq<char>, dry_run: bool)
    requires
        protected_names().contains(name),
    ensures
        handled(before, standard_rules(), Listed { name, kind: EntryKind::Directory }, dry_run)
            == before,
{
}

/// Any other directory is bound for "Folders". Where "Folders" holds an
/// entry of its name already, it is skipped and left in place. Where not,
/// and where the name "Folders" is not taken by a file, a real run moves it
/// there.
pub proof fn law_loose_directory(tree: Tree, name: Seq<char>)
    requires
        tree.wf(),
        tree.has_folder(name),
        !protected_names().contains(name),
        tree.top.contains_key("Folders"@) ==> tree.has_folder("Folders"@),
    ensures
        standard_rules().destination(Listed { name, kind: EntryKind::Directory }) == Some(
            "Folders"@,
        ),
        ({
            let outcome = relocated(tree, name, EntryKind::Directory, "Folders"@, false);
            if tree.occupied("Folders"@, name) {
                &&& outcome.tree == tree
                &&& !outcome.moved
                &&& outcome.lines == seq![
                    told(skip_text(EntryKind::Directory, debug_quoted(name), "Folders"@)),
                ]
            } else {
                &&& outcome.moved
                &&& !outcome.tree.top.contains_key(name)
                &&& outcome.tree.occupied("Folders"@, name)
                &&& outcome.lines == seq![
                    told(notice_text(EntryKind::Directory, debug_quoted(name), "Folders"@)),
                ]
            }
        }),
{
    if tree.occupied("Folders"@, name) {
        law_occupied_destination(tree, name, EntryKind::Directory, "Folders"@, false);
    } else {
        law_free_destination(tree, name, EntryKind::Directory, "Folders"@);
    }
}

/// A dry run changes nothing: whatever the tree, the rules and the entries,
/// the tree after the pass is the tree before it.
pub proof fn law_dry_run_changes_nothing(tree: Tree, rules: Rules, entries: Seq<Listed>)
    ensures
        pass(tree, rules, entries, true).tree == tree,
    decreases entries.len(),
{
    if entries.len() > 0 {
        law_dry_run_changes_nothing(tree, rules, entries.drop_last());
        let entry = entries.last();
        match rules.destination(entry) {
            None => {},
            Some(category) => {
                lemma_relocated(tree, entry.name, entry.kind, category, true);
            },
        }
    }
}

/// What holds of the tree `now` that a real pass over the entries `done` has
/// made of the tree `start`.
///
/// - Only directories of the base directory hold anything.
/// - What a protected folder held at the start it still holds.
/// - What a folder holds it held at the start, or the pass has dealt with an
///   entry of that name.
/// - The entries that the pass has not dealt with lie where they lay.
spec fn kept(start: Tree, rules: Rules, done: Seq<Listed>, now: Tree) -> bool {
    &&& now.wf()
    &&& forall|folder: Seq<char>, name: Seq<char>|
        rules.protected.contains(folder) && #[trigger] start.inner.contains((folder, name))
            ==> now.inner.contains((folder, name))
    &&& forall|folder: Seq<char>, name: Seq<char>| #[trigger]
        now.inner.contains((folder, name)) ==> start.inner.contains((folder, name)) || names(
            done,
            name,
        )
    &&& forall|name: Seq<char>| #[trigger]
        start.top.contains_key(name) && !names(done, name) ==> now.top.contains_key(name)
            && now.top[name] == start.top[name]
}

/// A list with one more entry names what the list named, and that entry.
proof fn lemma_names_push(done: Seq<Listed>, entry: Listed, name: Seq<char>)
    ensures
        names(done.push(entry), name) == (names(done, name) || entry.name == name),
{
    let more = done.push(entry);
    if names(done, name) {
        let i = choose|i: int| 0 <= i < done.len() && #[trigger] done[i].name == name;
        assert(more[i].name == name);
    }
    if entry.name == name {
        assert(more[done.len() as int].name == name);
    }
    if names(more, name) {
        let i = choose|i: int| 0 <= i < more.len() && #[trigger] more[i].name == name;
        if i < done.len() {
            assert(done[i].name == name);
        }
    }
}

/// A listing without its last entry is a listing still, and does not name
/// that entry.
proof fn lemma_lists_push(done: Seq<Listed>, entry: Listed, tree: Tree)
    requires
        lists(done.push(entry), tree),
    ensures
        lists(done, tree),
        !names(done, entry.name),
        tree.top.contains_key(entry.name),
        tree.top[entry.name] == entry.kind,
{
    let more = done.push(entry);
    let n = done.len() as int;
    assert(more[n] == entry);
    assert forall|i: int| 0 <= i < done.len() implies tree.top.contains_key(
        #[trigger] done[i].name,
    ) && tree.top[done[i].name] == done[i].kind by {
        assert(more[i] == done[i]);
    }
    assert forall|i: int, j: int| 0 <= i < j < done.len() implies #[trigger] done[i].name
        != #[trigger] done[j].name by {
        assert(more[i] == done[i]);
        assert(more[j] == done[j]);
    }
    if names(done, entry.name) {
        let i = choose|i: int| 0 <= i < done.len() && #[trigger] done[i].name == entry.name;
        assert(more[i] == done[i]);
        assert(more[i].name != more[n].name);
    }
}

/// Consistent rules send entries to protected folders only.
proof fn lemma_destination_protected(rules: Rules, entry: Listed)
    requires
        rules.consistent(),
    ensures
        match rules.destination(entry) {
            Some(category) => rules.protected.contains(category),
            None => entry.kind == EntryKind::Directory && rules.protected.contains(entry.name),
        },
{
}

/// One more entry of a real pass: the destination is occupied for the real
/// run exactly where it was at the start, and the tree that the relocation
/// leaves is again as `kept` says.
proof fn lemma_real_step(start: Tree, rules: Rules, done: Seq<Listed>, now: Tree, entry: Listed)
    requires
        start.wf(),
        rules.consistent(),
        lists(done.push(entry), start),
        kept(start, rules, done, now),
    ensures
        match rules.destination(entry) {
            None => kept(start, rules, done.push(entry), now),
            Some(category) => {
                &&& prepared(now, category, false).occupied(category, entry.name)
                    == start.occupied(category, entry.name)
                &&& kept(
                    start,
                    rules,
                    done.push(entry),
                    settled(now, entry.name, entry.kind, category, false).tree,
                )
            },
        },
{
    let more = done.push(entry);
    let n = entry.name;
    lemma_lists_push(done, entry, start);
    lemma_destination_protected(rules, entry);
    assert forall|name: Seq<char>| names(more, name) == (names(done, name) || n == name) by {
        lemma_names_push(done, entry, name);
    }
    match rules.destination(entry) {
        None => {
            assert(kept(start, rules, more, now));
        },
        Some(c) => {
            let ready = prepared(now, c, false);
            assert(ready.inner == now.inner);
            assert(ready.wf()) by {
                assert forall|folder: Seq<char>, name: Seq<char>| #[trigger]
                    ready.inner.contains((folder, name)) implies ready.has_folder(folder) by {
                    assert(now.inner.contains((folder, name)));
                    assert(now.has_folder(folder));
                }
            }
            if start.occupied(c, n) {
                assert(start.inner.contains((c, n)));
                assert(now.inner.contains((c, n)));
                assert(now.has_folder(c));
                assert(ready == now);
            }
            if ready.occupied(c, n) {
                assert(now.inner.contains((c, n)));
                assert(start.inner.contains((c, n)));
                assert(start.has_folder(c));
            }
            assert(kept(start, rules, more, ready)) by {
                assert forall|name: Seq<char>| #[trigger]
                    start.top.contains_key(name) && !names(more, name) implies ready.top
                    .contains_key(name) && ready.top[name] == start.top[name] by {
                    assert(now.top.contains_key(name));
                }
            }
            let after = settled(now, n, entry.kind, c, false).tree;
            if after != ready {
                assert(ready.can_move(n, c));
                assert(after == ready.with_move(n, c));
                assert(after.wf()) by {
                    assert forall|folder: Seq<char>, name: Seq<char>| #[trigger]
                        after.inner.contains((folder, name)) implies after.has_folder(folder) by {
                        if (folder, name) != (c, n) {
                            assert(ready.inner.contains((folder, name)));
                            assert(ready.has_folder(folder));
                        }
                    }
                }
                assert forall|folder: Seq<char>, name: Seq<char>|
                    rules.protected.contains(folder) && #[trigger] start.inner.contains(
                        (folder, name),
                    ) implies after.inner.contains((folder, name)) by {
                    assert(now.inner.contains((folder, name)));
                    assert(start.has_folder(folder));
                    if folder == n {
                        assert(entry.kind == EntryKind::Directory);
                        assert(rules.destination(entry) is None);
                    }
                }
                assert forall|folder: Seq<char>, name: Seq<char>| #[trigger]
                    after.inner.contains((folder, name)) implies start.inner.contains(
                    (folder, name),
                ) || names(more, name) by {
                    if (folder, name) != (c, n) {
                        assert(now.inner.contains((folder, name)));
                    }
                }
                assert forall|name: Seq<char>| #[trigger]
                    start.top.contains_key(name) && !names(more, name) implies after.top
                    .contains_key(name) && after.top[name] == start.top[name] by {
                    assert(ready.top.contains_key(name));
                }
                assert(kept(start, rules, more, after));
            }
        },
    }
}

/// A dry run and a real run that find the destination occupied, or free,
/// alike write the same lines to the output stream.
proof fn lemma_same_output(
    live: Tree,
    dry: Tree,
    name: Seq<char>,
    kind: EntryKind,
    category: Seq<char>,
)
    requires
        prepared(live, category, false).occupied(category, name) == dry.occupied(category, name),
    ensures
        output(relocated(live, name, kind, category, false).lines) == output(
            relocated(dry, name, kind, category, true).lines,
        ),
{
    reveal_with_fuel(written, 3);
    lemma_relocated(live, name, kind, category, false);
    lemma_relocated(dry, name, kind, category, true);
    let in_live = settled(live, name, kind, category, false).lines;
    let in_dry = settled(dry, name, kind, category, true).lines;
    let skip = skip_text(kind, debug_quoted(name), category);
    let notice = notice_text(kind, debug_quoted(name), category);
    if dry.occupied(category, name) {
        assert(in_live =~= seq![told(skip)]);
        assert(in_dry =~= seq![told(skip)]);
    } else if name == category {
        assert(in_live =~= Seq::<LineView>::empty());
        assert(in_dry =~= Seq::<LineView>::empty());
    } else {
        assert(in_dry =~= seq![told(notice)]);
        assert(in_dry.drop_last() =~= Seq::<LineView>::empty());
        assert(output(in_dry) =~= seq![notice]);
        if in_live.len() == 1 {
            assert(in_live =~= seq![told(notice)]);
        } else {
            assert(in_live.len() == 2);
            assert(in_live.drop_last() =~= seq![told(notice)]);
            assert(in_live.drop_last().drop_last() =~= Seq::<LineView>::empty());
            assert(output(in_live) =~= seq![notice]);
        }
    }
}

/// A real pass over a listing of the tree `start` keeps what `kept` says,
/// and writes to the output stream what a dry pass writes.
proof fn lemma_real_pass(start: Tree, rules: Rules, entries: Seq<Listed>)
    requires
        start.wf(),
        rules.consistent(),
        lists(entries, start),
    ensures
        kept(start, rules, entries, pass(start, rules, entries, false).tree),
        output(pass(start, rules, entries, false).lines) == output(
            pass(start, rules, entries, true).lines,
        ),
    decreases entries.len(),
{
    if entries.len() == 0 {
        assert(kept(start, rules, entries, start));
    } else {
        let done = entries.drop_last();
        let entry = entries.last();
        assert(done.push(entry) =~= entries);
        lemma_lists_push(done, entry, start);
        lemma_real_pass(start, rules, done);
        law_dry_run_changes_nothing(start, rules, done);
        let live = pass(start, rules, done, false);
        let dry = pass(start, rules, done, true);
        lemma_real_step(start, rules, done, live.tree, entry);
        match rules.destination(entry) {
            None => {},
            Some(category) => {
                lemma_relocated(live.tree, entry.name, entry.kind, category, false);
                lemma_same_output(live.tree, start, entry.name, entry.kind, category);
                let in_live = relocated(live.tree, entry.name, entry.kind, category, false).lines;
                let in_dry = relocated(start, entry.name, entry.kind, category, true).lines;
                lemma_written_of_both(live.lines, in_live, Stream::Output);
                lemma_written_of_both(dry.lines, in_dry, Stream::Output);
            },
        }
    }
}

/// A dry run tells what a real run would tell: over a listing of the tree,
/// and with rules that send entries to protected folders only, the two write
/// the same lines to the output stream, in the same order.
pub proof fn law_dry_run_tells_the_same(tree: Tree, rules: Rules, entries: Seq<Listed>)
    requires
        tree.wf(),
        rules.consistent(),
        lists(entries, tree),
    ensures
        output(pass(tree, rules, entries, true).lines) == output(
            pass(tree, rules, entries, false).lines,
        ),
{
    lemma_real_pass(tree, rules, entries);
}

/// A dry run counts what a real run would count, where the real run makes
/// no complaint: over a listing of the tree, and with rules that send
/// entries to protected folders only, the two end with the same numbers of
/// files and of folders.
pub proof fn law_dry_run_counts_the_same(tree: Tree, rules: Rules, entries: Seq<Listed>)
    requires
        tree.wf(),
        rules.consistent(),
        lists(entries, tree),
        complaints(pass(tree, rules, entries, false).lines).len() == 0,
    ensures
        pass(tree, rules, entries, true).files == pass(tree, rules, entries, false).files,
        pass(tree, rules, entries, true).folders == pass(tree, rules, entries, false).folders,
    decreases entries.len(),
{
    reveal_with_fuel(written, 3);
    if entries.len() > 0 {
        let done = entries.drop_last();
        let entry = entries.last();
        assert(done.push(entry) =~= entries);
        lemma_lists_push(done, entry, tree);
        let live = pass(tree, rules, done, false);
        match rules.destination(entry) {
            None => {
                law_dry_run_counts_the_same(tree, rules, done);
            },
            Some(category) => {
                let outcome = relocated(live.tree, entry.name, entry.kind, category, false);
                lemma_written_of_both(live.lines, outcome.lines, Stream::Error);
                law_dry_run_counts_the_same(tree, rules, done);
                law_dry_run_changes_nothing(tree, rules, done);
                lemma_real_pass(tree, rules, done);
                lemma_real_step(tree, rules, done, live.tree, entry);
                lemma_relocated(live.tree, entry.name, entry.kind, category, false);
                lemma_relocated(tree, entry.name, entry.kind, category, true);
                if !outcome.moved && outcome.lines.len() == 2 {
                    assert(outcome.lines.last().stream == Stream::Error);
                }
            },
        }
    }
}

/// Whether a pass has nothing to do for `entry`: the rules leave it in
/// place, it is its own folder, or its folder holds an entry of its name
/// already.
pub open spec fn at_rest(tree: Tree, rules: Rules, entry: Listed) -> bool {
    match rules.destination(entry) {
        None => true,
        Some(category) => entry.name == category || tree.occupied(category, entry.name),
    }
}

/// What holds besides of the tree `now` that a real pass over the entries
/// `done` has made of the tree `start` without a complaint.
///
/// - Each entry of the base directory lay there at the start, or is a
///   protected directory.
/// - Each entry that the pass has dealt with is at rest.
spec fn sorted(start: Tree, rules: Rules, done: Seq<Listed>, now: Tree) -> bool {
    &&& forall|name: Seq<char>| #[trigger]
        now.top.contains_key(name) ==> (start.top.contains_key(name) && start.top[name]
            == now.top[name]) || (rules.protected.contains(name) && now.top[name]
            == EntryKind::Directory)
    &&& forall|i: int| 0 <= i < done.len() ==> at_rest(now, rules, #[trigger] done[i])
}

/// Whether the relocation of `entry` on `tree` in a real run makes no
/// complaint.
spec fn unhindered(tree: Tree, rules: Rules, entry: Listed) -> bool {
    match rules.destination(entry) {
        None => true,
        Some(category) => complaints(
            relocated(tree, entry.name, entry.kind, category, false).lines,
        ).len() == 0,
    }
}

/// One more entry of a real pass, relocated without a complaint: the tree
/// that the relocation leaves is again as `sorted` says.
proof fn lemma_sorted_step(start: Tree, rules: Rules, done: Seq<Listed>, now: Tree, entry: Listed)
    requires
        start.wf(),
        rules.consistent(),
        lists(done.push(entry), start),
        kept(start, rules, done, now),
        sorted(start, rules, done, now),
        unhindered(now, rules, entry),
    ensures
        match rules.destination(entry) {
            None => sorted(start, rules, done.push(entry), now),
            Some(category) => sorted(
                start,
                rules,
                done.push(entry),
                settled(now, entry.name, entry.kind, category, false).tree,
            ),
        },
{
    reveal_with_fuel(written, 3);
    let more = done.push(entry);
    let n = entry.name;
    let last = done.len() as int;
    lemma_lists_push(done, entry, start);
    lemma_destination_protected(rules, entry);
    assert(more[last] == entry);
    assert(forall|i: int| 0 <= i < done.len() ==> more[i] == done[i]);
    match rules.destination(entry) {
        None => {
            assert(sorted(start, rules, more, now));
        },
        Some(c) => {
            lemma_relocated(now, n, entry.kind, c, false);
            let ready = prepared(now, c, false);
            let outcome = settled(now, n, entry.kind, c, false);
            let after = outcome.tree;
            assert(now.top.contains_key(n) && now.top[n] == entry.kind);
            // A relocation that cannot move the entry complains.
            if !ready.occupied(c, n) && n != c && !ready.can_move(n, c) {
                assert(outcome.lines.len() == 2);
                assert(outcome.lines.last().stream == Stream::Error);
                assert(complaints(outcome.lines).len() > 0);
            }
            assert(after == ready || (ready.can_move(n, c) && after == ready.with_move(n, c)));
            assert forall|i: int| 0 <= i < more.len() implies at_rest(
                after,
                rules,
                #[trigger] more[i],
            ) by {
                let other = more[i];
                lemma_destination_protected(rules, other);
                match rules.destination(other) {
                    None => {},
                    Some(folder) => {
                        if i < last {
                            assert(other == done[i]);
                            assert(at_rest(now, rules, done[i]));
                            if other.name != folder {
                                assert(now.occupied(folder, other.name));
                                assert(ready.occupied(folder, other.name));
                                // A folder that holds something is a directory, and
                                // protected: it is not the entry now moved.
                                if folder == n {
                                    assert(entry.kind == EntryKind::Directory);
                                    assert(rules.destination(entry) is None);
                                }
                                assert(after.inner.contains((folder, other.name)));
                                assert(after.has_folder(folder));
                            }
                        } else {
                            assert(other == entry);
                            assert(folder == c);
                        }
                    },
                }
            }
            assert forall|name: Seq<char>| #[trigger] after.top.contains_key(name) implies (
            start.top.contains_key(name) && start.top[name] == after.top[name]) || (
            rules.protected.contains(name) && after.top[name] == EntryKind::Directory) by {
                if name != c {
                    assert(now.top.contains_key(name));
                }
            }
        },
    }
}

/// A real pass over a listing of the tree `start` that makes no complaint
/// leaves a tree as `kept` and `sorted` say.
proof fn lemma_sorted_pass(start: Tree, rules: Rules, entries: Seq<Listed>)
    requires
        start.wf(),
        rules.consistent(),
        lists(entries, start),
        complaints(pass(start, rules, entries, false).lines).len() == 0,
    ensures
        kept(start, rules, entries, pass(start, rules, entries, false).tree),
        sorted(start, rules, entries, pass(start, rules, entries, false).tree),
    decreases entries.len(),
{
    lemma_real_pass(start, rules, entries);
    if entries.len() == 0 {
        assert(sorted(start, rules, entries, start));
    } else {
        let done = entries.drop_last();
        let entry = entries.last();
        assert(done.push(entry) =~= entries);
        lemma_lists_push(done, entry, start);
        let live = pass(start, rules, done, false);
        match rules.destination(entry) {
            None => {},
            Some(category) => {
                let lines = relocated(live.tree, entry.name, entry.kind, category, false).lines;
                lemma_written_of_both(live.lines, lines, Stream::Error);
                lemma_relocated(live.tree, entry.name, entry.kind, category, false);
            },
        }
        lemma_sorted_pass(start, rules, done);
        lemma_sorted_step(start, rules, done, live.tree, entry);
    }
}

/// A pass over entries of the base directory that are all at rest moves
/// nothing and leaves the tree as it is.
pub proof fn law_pass_at_rest(tree: Tree, rules: Rules, entries: Seq<Listed>)
    requires
        forall|i: int|
            0 <= i < entries.len() ==> at_rest(tree, rules, #[trigger] entries[i])
                && tree.top.contains_key(entries[i].name),
    ensures
        pass(tree, rules, entries, false).tree == tree,
        pass(tree, rules, entries, false).files == 0,
        pass(tree, rules, entries, false).folders == 0,
    decreases entries.len(),
{
    if entries.len() > 0 {
        let done = entries.drop_last();
        let entry = entries.last();
        assert forall|i: int| 0 <= i < done.len() implies at_rest(tree, rules, #[trigger] done[i])
            && tree.top.contains_key(done[i].name) by {
            assert(done[i] == entries[i]);
        }
        law_pass_at_rest(tree, rules, done);
        assert(at_rest(tree, rules, entries[entries.len() - 1]));
        match rules.destination(entry) {
            None => {},
            Some(category) => {
                lemma_relocated(tree, entry.name, entry.kind, category, false);
            },
        }
    }
}

/// A second pass finds nothing to do. Take rules that send entries to
/// protected folders only, and a real pass over a full listing of the tree
/// that makes no complaint. Then a further real pass, over any listing of
/// what the first has left, moves nothing and leaves the tree as it is.
pub proof fn law_second_pass_changes_nothing(
    tree: Tree,
    rules: Rules,
    first: Seq<Listed>,
    second: Seq<Listed>,
)
    requires
        tree.wf(),
        rules.consistent(),
        lists_all(first, tree),
        complaints(pass(tree, rules, first, false).lines).len() == 0,
        lists(second, pass(tree, rules, first, false).tree),
    ensures
        ({
            let after = pass(tree, rules, first, false).tree;
            let again = pass(after, rules, second, false);
            &&& again.tree == after
            &&& again.files == 0
            &&& again.folders == 0
        }),
{
    let after = pass(tree, rules, first, false).tree;
    lemma_sorted_pass(tree, rules, first);
    assert forall|i: int| 0 <= i < second.len() implies at_rest(after, rules, #[trigger] second[i])
        && after.top.contains_key(second[i].name) by {
        let entry = second[i];
        assert(after.top.contains_key(entry.name) && after.top[entry.name] == entry.kind);
        if tree.top.contains_key(entry.name) && tree.top[entry.name] == after.top[entry.name] {
            assert(names(first, entry.name));
            let j = choose|j: int| 0 <= j < first.len() && #[trigger] first[j].name == entry.name;
            assert(first[j].kind == tree.top[entry.name]);
            assert(first[j] == entry);
            assert(at_rest(after, rules, first[j]));
        } else {
            assert(rules.protected.contains(entry.name));
            assert(entry.kind == EntryKind::Directory);
        }
    }
    law_pass_at_rest(after, rules, second);
}

/// Whether no file of the base directory bears a protected name.
pub open spec fn no_protected_files(tree: Tree, rules: Rules) -> bool {
    forall|name: Seq<char>| #[trigger]
        tree.top.contains_key(name) && tree.top[name] == EntryKind::File
            ==> !rules.protected.contains(name)
}

/// Where no file of the base directory bears a protected name, a real pass
/// over a listing of the tree makes no complaint: every entry that is to be
/// moved can be moved.
pub proof fn law_pass_without_complaint(tree: Tree, rules: Rules, entries: Seq<Listed>)
    requires
        tree.wf(),
        rules.consistent(),
        no_protected_files(tree, rules),
        lists(entries, tree),
    ensures
        complaints(pass(tree, rules, entries, false).lines).len() == 0,
    decreases entries.len(),
{
    reveal_with_fuel(written, 3);
    if entries.len() > 0 {
        let done = entries.drop_last();
        let entry = entries.last();
        let n = entry.name;
        assert(done.push(entry) =~= entries);
        lemma_lists_push(done, entry, tree);
        law_pass_without_complaint(tree, rules, done);
        lemma_sorted_pass(tree, rules, done);
        lemma_destination_protected(rules, entry);
        let live = pass(tree, rules, done, false);
        let now = live.tree;
        match rules.destination(entry) {
            None => {},
            Some(c) => {
                lemma_relocated(now, n, entry.kind, c, false);
                let ready = prepared(now, c, false);
                let outcome = settled(now, n, entry.kind, c, false);
                assert(now.top.contains_key(n));
                assert(ready.has_folder(c)) by {
                    if now.top.contains_key(c) {
                        if tree.top.contains_key(c) && tree.top[c] == now.top[c] {
                            if tree.top[c] == EntryKind::File {
                                assert(!rules.protected.contains(c));
                            }
                        }
                    }
                }
                if !ready.occupied(c, n) && n != c {
                    assert(!ready.inner.contains((c, n)));
                    assert(ready.can_move(n, c));
                }
                assert(outcome.lines.len() <= 1);
                assert(outcome.lines.len() == 1 ==> outcome.lines[0].stream == Stream::Output);
                assert(complaints(outcome.lines).len() == 0);
                lemma_written_of_both(live.lines, outcome.lines, Stream::Error);
            },
        }
    }
}

} // verus!
