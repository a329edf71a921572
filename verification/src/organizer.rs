//! The pass over a directory: what becomes of each entry, the count of what
//! was moved, and the lines that frame the report.

use vstd::prelude::*;
use vstd::string::*;
use vstd::utf8::is_ascii_chars;
use crate::categories::{ExtensionMap, ProtectedNames};
use crate::names::{
    lemma_extension_of_dotted,
    lemma_extension_without_dot,
    normalized_extension,
    normalized_extension_of,
};
use crate::relocate::{begun, EntryKind, Relocation, Step};
use crate::standard::{
    canonical_table,
    get_extension_map,
    get_protected_folder_names,
    lemma_canonical_entries,
    lemma_catch_alls,
    protected_names,
};
use crate::text::{
    ascii_lowercase,
    decimal,
    lemma_ascii_lowercase_dots,
    lemma_plain,
    to_decimal,
};

verus! {

/// The folder for `name` as a file: the category that `table` gives for its
/// extension in lower case, or "Others" where it gives none.
pub open spec fn category_of(table: Map<Seq<char>, Seq<char>>, name: Seq<char>) -> Seq<char> {
    let extension = normalized_extension(name);
    if table.contains_key(extension) {
        table[extension]
    } else {
        "Others"@
    }
}

/// The folder that an entry is to be moved into, or `None` where it is to be
/// left in place: a directory with a protected name stays, any other
/// directory goes into "Folders", and a file goes where its extension says.
pub open spec fn destination(
    table: Map<Seq<char>, Seq<char>>,
    protected: Set<Seq<char>>,
    name: Seq<char>,
    kind: EntryKind,
) -> Option<Seq<char>> {
    match kind {
        EntryKind::Directory => if protected.contains(name) {
            None
        } else {
            Some("Folders"@)
        },
        EntryKind::File => Some(category_of(table, name)),
    }
}

/// A file whose extension is, in lower case, an extension of the tool's
/// table goes into the folder that the table names for it, and that folder
/// is never "Others".
pub proof fn law_known_extension(name: Seq<char>)
    requires
        canonical_table().contains_key(normalized_extension(name)),
    ensures
        destination(canonical_table(), protected_names(), name, EntryKind::File) == Some(
            canonical_table()[normalized_extension(name)],
        ),
        canonical_table()[normalized_extension(name)] != "Others"@,
{
    lemma_canonical_entries(normalized_extension(name));
    lemma_catch_alls();
}

/// A file named by a stem, a `.` and an extension of the tool's table,
/// spelled in any mix of upper and lower case, goes into the folder that the
/// table names for that extension, never into "Others".
pub proof fn law_known_extension_any_case(stem: Seq<char>, written: Seq<char>)
    requires
        stem.len() > 0,
        is_ascii_chars(written),
        canonical_table().contains_key(ascii_lowercase(written)),
    ensures
        destination(
            canonical_table(),
            protected_names(),
            stem + seq!['.'] + written,
            EntryKind::File,
        ) == Some(canonical_table()[ascii_lowercase(written)]),
        canonical_table()[ascii_lowercase(written)] != "Others"@,
{
    let key = ascii_lowercase(written);
    lemma_canonical_entries(key);
    lemma_plain(key);
    lemma_ascii_lowercase_dots(written);
    assert forall|j: int| 0 <= j < written.len() implies written[j] != '.' by {
        assert(key[j] != '.');
    }
    lemma_extension_of_dotted(stem, written);
    lemma_catch_alls();
}

/// A file whose extension, in lower case, the tool's table does not hold
/// goes into "Others".
pub proof fn law_unknown_extension(name: Seq<char>)
    requires
        !canonical_table().contains_key(normalized_extension(name)),
    ensures
        destination(canonical_table(), protected_names(), name, EntryKind::File) == Some(
            "Others"@,
        ),
{
}

/// A file without an extension (no `.` after the first character of its
/// name) goes into "Others".
pub proof fn law_no_extension(name: Seq<char>)
    requires
        forall|j: int| 0 < j < name.len() ==> name[j] != '.',
    ensures
        destination(canonical_table(), protected_names(), name, EntryKind::File) == Some(
            "Others"@,
        ),
{
    lemma_extension_without_dot(name);
    let none = Seq::<char>::empty();
    assert(is_ascii_chars(none));
    assert(ascii_lowercase(none) =~= none);
    assert(normalized_extension(name) == none);
    if canonical_table().contains_key(none) {
        lemma_canonical_entries(none);
    }
}

/// A directory with a protected name is left in place; any other directory
/// goes into "Folders".
pub proof fn law_directories(name: Seq<char>)
    ensures
        protected_names().contains(name) ==> destination(
            canonical_table(),
            protected_names(),
            name,
            EntryKind::Directory,
        ) is None,
        !protected_names().contains(name) ==> destination(
            canonical_table(),
            protected_names(),
            name,
            EntryKind::Directory,
        ) == Some("Folders"@),
{
}

/// Finds the folder for a file.
pub fn file_category(table: &ExtensionMap, name: &str) -> (r: String)
    requires
        table.wf(),
    ensures
        r@ == category_of(table@, name@),
{
    let extension = normalized_extension_of(name);
    match table.lookup(extension.as_str()) {
        Some(category) => category,
        None => String::from_str("Others"),
    }
}

/// Finds the folder that an entry is to be moved into, if any.
pub fn classify(
    table: &ExtensionMap,
    protected: &ProtectedNames,
    name: &str,
    kind: EntryKind,
) -> (r: Option<String>)
    requires
        table.wf(),
    ensures
        r is Some == destination(table@, protected@, name@, kind) is Some,
        r is Some ==> r->0@ == destination(table@, protected@, name@, kind)->0,
{
    match kind {
        EntryKind::Directory => {
            if protected.is_protected(name) {
                None
            } else {
                Some(String::from_str("Folders"))
            }
        },
        EntryKind::File => Some(file_category(table, name)),
    }
}

/// The line that separates the report's parts.
pub open spec fn separator_text() -> Seq<char> {
    "-----------------------------------------"@
}

/// The lines that open the report for the directory shown as `target`.
pub open spec fn header_texts(target: Seq<char>, dry_run: bool) -> Seq<Seq<char>> {
    if dry_run {
        seq![
            "Target: "@ + target,
            "Mode:   DRY RUN (No changes will be made)"@,
            separator_text(),
        ]
    } else {
        seq!["Target: "@ + target, separator_text()]
    }
}

/// The lines that close the report.
pub open spec fn footer_texts(files: nat, folders: nat) -> Seq<Seq<char>> {
    seq![
        separator_text(),
        "Done. "@ + decimal(files) + " files and "@ + decimal(folders) + " folders processed."@,
    ]
}

/// The complaint that `target` is no directory.
pub open spec fn not_a_directory_text(target: Seq<char>) -> Seq<char> {
    "Error: '"@ + target + "' is not a valid directory."@
}

/// The complaint that the directory could not be listed.
pub open spec fn unreadable_text(detail: Seq<char>) -> Seq<char> {
    "Error reading directory: "@ + detail
}

/// The character sequences of a list of lines.
pub open spec fn line_texts(lines: Seq<String>) -> Seq<Seq<char>> {
    Seq::new(lines.len(), |i: int| lines[i]@)
}

/// Writes the lines that open the report.
pub fn header(target: &str, dry_run: bool) -> (lines: Vec<String>)
    ensures
        line_texts(lines@) == header_texts(target@, dry_run),
{
    let mut lines: Vec<String> = Vec::new();
    let mut first = String::from_str("Target: ");
    first.append(target);
    lines.push(first);
    if dry_run {
        lines.push(String::from_str("Mode:   DRY RUN (No changes will be made)"));
    }
    lines.push(String::from_str("-----------------------------------------"));
    assert(line_texts(lines@) =~= header_texts(target@, dry_run));
    lines
}

/// Writes the complaint that `target` is no directory.
pub fn not_a_directory(target: &str) -> (r: String)
    ensures
        r@ == not_a_directory_text(target@),
{
    let mut r = String::from_str("Error: '");
    r.append(target);
    r.append("' is not a valid directory.");
    r
}

/// Writes the complaint that the directory could not be listed.
pub fn unreadable(detail: &str) -> (r: String)
    ensures
        r@ == unreadable_text(detail@),
{
    let mut r = String::from_str("Error reading directory: ");
    r.append(detail);
    r
}

/// One pass over a directory: the rules it goes by and the count of what it
/// has moved.
pub struct Organizer {
    table: ExtensionMap,
    protected: ProtectedNames,
    dry_run: bool,
    files: u64,
    folders: u64,
}

impl Organizer {
    /// The pass's invariant: its category table is well formed.
    pub closed spec fn wf(&self) -> bool {
        self.table.wf()
    }

    /// The category table of the pass.
    pub closed spec fn table(&self) -> Map<Seq<char>, Seq<char>> {
        self.table@
    }

    /// The protected names of the pass.
    pub closed spec fn protected(&self) -> Set<Seq<char>> {
        self.protected@
    }

    /// Whether the pass is only a preview.
    pub closed spec fn dry_run(&self) -> bool {
        self.dry_run
    }

    /// How many files the pass has moved.
    pub closed spec fn files(&self) -> nat {
        self.files as nat
    }

    /// How many folders the pass has moved.
    pub closed spec fn folders(&self) -> nat {
        self.folders as nat
    }

    /// A pass with the tool's own table and protected names, which has moved
    /// nothing yet.
    pub fn new(dry_run: bool) -> (r: Organizer)
        ensures
            r.wf(),
            r.table() == canonical_table(),
            r.protected() == protected_names(),
            r.dry_run() == dry_run,
            r.files() == 0,
            r.folders() == 0,
    {
        Organizer {
            table: get_extension_map(),
            protected: get_protected_folder_names(),
            dry_run,
            files: 0,
            folders: 0,
        }
    }

    /// A pass with rules of the caller's choice, which has moved nothing yet.
    pub fn with_rules(table: ExtensionMap, protected: ProtectedNames, dry_run: bool) -> (r:
        Organizer)
        requires
            table.wf(),
        ensures
            r.wf(),
            r.table() == table@,
            r.protected() == protected@,
            r.dry_run() == dry_run,
            r.files() == 0,
            r.folders() == 0,
    {
        Organizer { table, protected, dry_run, files: 0, folders: 0 }
    }

    /// Takes up one entry of the directory. Returns `None` where the entry is
    /// to be left in place, else the relocation that moves it into its
    /// folder, with the relocation's first step.
    pub fn begin_entry(&self, name: &str, kind: EntryKind) -> (r: Option<(Relocation, Step)>)
        requires
            self.wf(),
        ensures
            match (destination(self.table(), self.protected(), name@, kind), r) {
                (None, None) => true,
                (Some(category), Some((relocation, step))) => {
                    let start = begun(name@, kind, category, self.dry_run());
                    relocation@ == start.0 && step@ == start.1
                },
                _ => false,
            },
    {
        match classify(&self.table, &self.protected, name, kind) {
            None => None,
            Some(category) => Some(Relocation::begin(name, kind, category.as_str(), self.dry_run)),
        }
    }

    /// Whether the count has room for one more entry of this kind.
    pub open spec fn can_record(&self, kind: EntryKind) -> bool {
        match kind {
            EntryKind::File => self.files() < u64::MAX,
            EntryKind::Directory => self.folders() < u64::MAX,
        }
    }

    /// Whether the count has room for one more entry of this kind.
    pub fn has_room(&self, kind: EntryKind) -> (r: bool)
        ensures
            r == self.can_record(kind),
    {
        match kind {
            EntryKind::File => self.files < u64::MAX,
            EntryKind::Directory => self.folders < u64::MAX,
        }
    }

    /// Takes note of how the relocation of an entry ended: an entry that was
    /// moved is counted, one that was not is not.
    pub fn record(&mut self, kind: EntryKind, moved: bool)
        requires
            moved ==> old(self).can_record(kind),
        ensures
            final(self).wf() == old(self).wf(),
            final(self).table() == old(self).table(),
            final(self).protected() == old(self).protected(),
            final(self).dry_run() == old(self).dry_run(),
            final(self).files() == if moved && kind == EntryKind::File {
                old(self).files() + 1
            } else {
                old(self).files()
            },
            final(self).folders() == if moved && kind == EntryKind::Directory {
                old(self).folders() + 1
            } else {
                old(self).folders()
            },
    {
        if moved {
            match kind {
                EntryKind::File => {
                    self.files = self.files + 1;
                },
                EntryKind::Directory => {
                    self.folders = self.folders + 1;
                },
            }
        }
    }

    /// Writes the lines that close the report.
    pub fn footer(&self) -> (lines: Vec<String>)
        ensures
            line_texts(lines@) == footer_texts(self.files(), self.folders()),
    {
        let mut lines: Vec<String> = Vec::new();
        lines.push(String::from_str("-----------------------------------------"));
        let mut last = String::from_str("Done. ");
        last.append(to_decimal(self.files).as_str());
        last.append(" files and ");
        last.append(to_decimal(self.folders).as_str());
        last.append(" folders processed.");
        lines.push(last);
        assert(line_texts(lines@) =~= footer_texts(self.files(), self.folders()));
        lines
    }
}

} // verus!
