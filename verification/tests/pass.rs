use dir_organizer::organizer::Organizer;
use dir_organizer::relocate::{EntryKind, Relocation, Reply, Request, Step, Stream};
use std::collections::{BTreeMap, BTreeSet};

/// A directory held in memory: the entries of the base directory, and what
/// lies directly inside its folders.
#[derive(Clone, Debug, PartialEq, Eq)]
struct Directory {
    top: BTreeMap<String, EntryKind>,
    inner: BTreeSet<(String, String)>,
}

/// What a pass wrote and counted.
#[derive(Clone, Debug, PartialEq, Eq)]
struct Written {
    output: Vec<String>,
    errors: Vec<String>,
    footer: Vec<String>,
}

fn directory(files: &[&str], folders: &[&str], inner: &[(&str, &str)]) -> Directory {
    let mut top = BTreeMap::new();
    for name in files {
        top.insert(name.to_string(), EntryKind::File);
    }
    for name in folders {
        top.insert(name.to_string(), EntryKind::Directory);
    }
    let mut held = BTreeSet::new();
    for (folder, name) in inner {
        assert_eq!(top.get(*folder), Some(&EntryKind::Directory));
        held.insert((folder.to_string(), name.to_string()));
    }
    Directory { top, inner: held }
}

fn is_folder(dir: &Directory, name: &str) -> bool {
    dir.top.get(name) == Some(&EntryKind::Directory)
}

fn holds(dir: &Directory, folder: &str, name: &str) -> bool {
    is_folder(dir, folder) && dir.inner.contains(&(folder.to_string(), name.to_string()))
}

fn carry_out(dir: &mut Directory, relocation: &Relocation, request: Request) -> Reply {
    let name = relocation.name().to_string();
    let folder = relocation.category().to_string();
    match request {
        Request::ProbeContainer => Reply::Exists(dir.top.contains_key(&folder)),
        Request::CreateContainer => {
            if is_folder(dir, &folder) {
                Reply::Done
            } else if dir.top.contains_key(&folder) {
                Reply::Failed("File exists (os error 17)".to_string())
            } else {
                dir.top.insert(folder, EntryKind::Directory);
                Reply::Done
            }
        }
        Request::ProbeDestination => Reply::Exists(holds(dir, &folder, &name)),
        Request::Rename => {
            if dir.top.contains_key(&name)
                && is_folder(dir, &folder)
                && name != folder
                && !holds(dir, &folder, &name)
            {
                dir.top.remove(&name);
                dir.inner.retain(|(held_in, _)| *held_in != name);
                dir.inner.insert((folder, name));
                Reply::Done
            } else {
                Reply::Failed("Not a directory (os error 20)".to_string())
            }
        }
        Request::Finish { .. } => unreachable!(),
    }
}

fn write(written: &mut Written, step: &Step) {
    if let Some(line) = &step.line {
        match line.stream {
            Stream::Output => written.output.push(line.text.clone()),
            Stream::Error => written.errors.push(line.text.clone()),
        }
    }
}

fn pass_over(dir: &mut Directory, listing: &[(String, EntryKind)], dry_run: bool) -> Written {
    let mut organizer = Organizer::new(dry_run);
    let mut written = Written { output: vec![], errors: vec![], footer: vec![] };
    for (name, kind) in listing {
        let Some((mut relocation, mut step)) = organizer.begin_entry(name, *kind) else {
            continue;
        };
        loop {
            write(&mut written, &step);
            if let Request::Finish { moved } = step.request {
                assert!(organizer.has_room(*kind));
                organizer.record(*kind, moved);
                break;
            }
            let reply = carry_out(dir, &relocation, step.request);
            assert!(relocation.expects(&reply));
            step = relocation.advance(reply);
        }
    }
    written.footer = organizer.footer();
    written
}

fn listing(dir: &Directory) -> Vec<(String, EntryKind)> {
    dir.top.iter().map(|(name, kind)| (name.clone(), *kind)).collect()
}

fn pass(dir: &mut Directory, dry_run: bool) -> Written {
    let entries = listing(dir);
    pass_over(dir, &entries, dry_run)
}

fn done(files: u64, folders: u64) -> String {
    format!("Done. {} files and {} folders processed.", files, folders)
}

#[test]
fn mixed_directory_is_sorted_into_its_folders() {
    let mut dir = directory(
        &["photo.JPG", "notes.md", "setup.exe", "archive.tar.gz", "README"],
        &["my-project"],
        &[],
    );
    let written = pass(&mut dir, false);
    assert!(holds(&dir, "images", "photo.JPG"));
    assert!(holds(&dir, "documents", "notes.md"));
    assert!(holds(&dir, "APPS", "setup.exe"));
    assert!(holds(&dir, "archives", "archive.tar.gz"));
    assert!(holds(&dir, "Others", "README"));
    assert!(holds(&dir, "Folders", "my-project"));
    for name in ["photo.JPG", "notes.md", "setup.exe", "archive.tar.gz", "README", "my-project"] {
        assert!(!dir.top.contains_key(name), "{:?} is still loose", name);
    }
    assert_eq!(dir.top.len(), 6);
    assert_eq!(written.footer[1], "Done. 5 files and 1 folders processed.");
    assert_eq!(written.errors, Vec::<String>::new());
    assert_eq!(
        written.output,
        vec![
            "[Others      ] \"README\"".to_string(),
            "[archives    ] \"archive.tar.gz\"".to_string(),
            "[Folders     ] (Directory) \"my-project\"".to_string(),
            "[documents   ] \"notes.md\"".to_string(),
            "[images      ] \"photo.JPG\"".to_string(),
            "[APPS        ] \"setup.exe\"".to_string(),
        ]
    );
}

#[test]
fn known_extensions_land_in_their_folder_in_any_case() {
    let mut dir = directory(&["a.PNG", "b.Pdf", "c.xlsx", "d.MP3", "e.Mkv", "f.RS"], &[], &[]);
    let written = pass(&mut dir, false);
    assert!(holds(&dir, "images", "a.PNG"));
    assert!(holds(&dir, "documents", "b.Pdf"));
    assert!(holds(&dir, "spreadsheets", "c.xlsx"));
    assert!(holds(&dir, "audio", "d.MP3"));
    assert!(holds(&dir, "video", "e.Mkv"));
    assert!(holds(&dir, "code", "f.RS"));
    assert!(!dir.top.contains_key("Others"));
    assert_eq!(written.footer[1], done(6, 0));
}

#[test]
fn unknown_extensions_land_in_others() {
    let mut dir = directory(&["config.ini", "funny.meme", "Makefile", ".bashrc", "x."], &[], &[]);
    let written = pass(&mut dir, false);
    for name in ["config.ini", "funny.meme", "Makefile", ".bashrc", "x."] {
        assert!(holds(&dir, "Others", name), "{:?} is not in Others", name);
    }
    assert_eq!(dir.top.len(), 1);
    assert_eq!(written.footer[1], done(5, 0));
}

#[test]
fn protected_directories_stay_and_are_not_counted() {
    let names = [
        "images", "documents", "spreadsheets", "presentations", "archives", "audio", "video",
        "code", "APPS", "Others", "Folders",
    ];
    let mut dir = directory(&[], &names, &[("images", "old.jpg")]);
    let before = dir.clone();
    let written = pass(&mut dir, false);
    assert_eq!(dir, before);
    assert_eq!(written.output, Vec::<String>::new());
    assert_eq!(written.errors, Vec::<String>::new());
    assert_eq!(written.footer[1], done(0, 0));
}

#[test]
fn loose_directories_go_into_folders() {
    let mut dir = directory(&[], &["alpha", "beta", "apps"], &[("alpha", "inside.txt")]);
    let written = pass(&mut dir, false);
    assert!(holds(&dir, "Folders", "alpha"));
    assert!(holds(&dir, "Folders", "beta"));
    assert!(holds(&dir, "Folders", "apps"));
    assert_eq!(dir.top.len(), 1);
    assert_eq!(written.footer[1], done(0, 3));
}

#[test]
fn loose_directory_with_a_namesake_in_folders_is_skipped() {
    let mut dir = directory(&[], &["alpha", "Folders"], &[("Folders", "alpha")]);
    let before = dir.clone();
    let written = pass(&mut dir, false);
    assert_eq!(dir, before);
    assert_eq!(
        written.output,
        vec!["[SKIP DIR] \"alpha\" (already exists in Folders)".to_string()]
    );
    assert_eq!(written.footer[1], done(0, 0));
}

#[test]
fn collision_keeps_both_files() {
    let mut dir = directory(&["report.txt"], &["documents"], &[("documents", "report.txt")]);
    let before = dir.clone();
    let written = pass(&mut dir, false);
    assert_eq!(dir, before);
    assert!(dir.top.contains_key("report.txt"));
    assert!(holds(&dir, "documents", "report.txt"));
    assert_eq!(
        written.output,
        vec!["[SKIP] \"report.txt\" (already exists in documents)".to_string()]
    );
    assert_eq!(written.footer[1], done(0, 0));
}

#[test]
fn namesake_in_another_folder_is_left_untouched() {
    let mut dir = directory(&["report.txt"], &["Others"], &[("Others", "report.txt")]);
    let written = pass(&mut dir, false);
    assert!(holds(&dir, "Others", "report.txt"));
    assert!(holds(&dir, "documents", "report.txt"));
    assert!(!dir.top.contains_key("report.txt"));
    assert_eq!(written.output, vec!["[documents   ] \"report.txt\"".to_string()]);
    assert_eq!(written.footer[1], done(1, 0));
}

#[test]
fn collision_in_others_keeps_both_files() {
    let mut dir = directory(&["report"], &["Others"], &[("Others", "report")]);
    let before = dir.clone();
    let written = pass(&mut dir, false);
    assert_eq!(dir, before);
    assert_eq!(written.output, vec!["[SKIP] \"report\" (already exists in Others)".to_string()]);
    assert_eq!(written.footer[1], done(0, 0));
}

#[test]
fn dry_run_changes_nothing_and_tells_the_same() {
    let start = directory(
        &["photo.JPG", "notes.md", "setup.exe", "archive.tar.gz", "README", "report.txt"],
        &["my-project", "documents", "old", "Folders"],
        &[("documents", "report.txt"), ("Folders", "old")],
    );
    let mut previewed = start.clone();
    let preview = pass(&mut previewed, true);
    assert_eq!(previewed, start);
    let mut moved = start.clone();
    let entries = listing(&start);
    let live = pass_over(&mut moved, &entries, false);
    assert_ne!(moved, start);
    assert_eq!(preview.output, live.output);
    assert_eq!(preview.footer, live.footer);
    assert_eq!(preview.footer[1], done(5, 1));
    assert_eq!(preview.errors, Vec::<String>::new());
}

#[test]
fn second_pass_finds_nothing_to_do() {
    let mut dir = directory(
        &["photo.JPG", "notes.md", "setup.exe", "archive.tar.gz", "README", "report.txt"],
        &["my-project", "documents", "old", "Folders"],
        &[("documents", "report.txt"), ("Folders", "old")],
    );
    let first = pass(&mut dir, false);
    assert_eq!(first.footer[1], done(5, 1));
    let after = dir.clone();
    let second = pass(&mut dir, false);
    assert_eq!(dir, after);
    assert_eq!(second.footer[1], done(0, 0));
    assert_eq!(
        second.output,
        vec![
            "[SKIP DIR] \"old\" (already exists in Folders)".to_string(),
            "[SKIP] \"report.txt\" (already exists in documents)".to_string(),
        ]
    );
}

#[test]
fn file_that_takes_a_folders_name_blocks_the_move() {
    let mut dir = directory(&["Folders"], &["alpha"], &[]);
    let entries = vec![
        ("alpha".to_string(), EntryKind::Directory),
        ("Folders".to_string(), EntryKind::File),
    ];
    let first = pass_over(&mut dir, &entries, false);
    assert_eq!(first.output[0], "[Folders     ] (Directory) \"alpha\"");
    assert_eq!(
        first.errors,
        vec!["Error moving directory \"alpha\": Not a directory (os error 20)".to_string()]
    );
    assert!(dir.top.contains_key("alpha"));
    assert!(holds(&dir, "Others", "Folders"));
    assert_eq!(first.footer[1], done(1, 0));
    let second = pass(&mut dir, false);
    assert!(holds(&dir, "Folders", "alpha"));
    assert_eq!(second.footer[1], done(0, 1));
}

#[test]
fn file_named_like_its_own_folder_is_left_alone() {
    let mut dir = directory(&["Others"], &[], &[]);
    let before = dir.clone();
    let written = pass(&mut dir, false);
    assert_eq!(dir, before);
    assert_eq!(written.output, Vec::<String>::new());
    assert_eq!(written.errors, Vec::<String>::new());
    assert_eq!(written.footer[1], done(0, 0));
}

#[test]
fn empty_directory_gives_an_empty_report() {
    let mut dir = directory(&[], &[], &[]);
    let written = pass(&mut dir, false);
    assert_eq!(dir, directory(&[], &[], &[]));
    assert_eq!(written.output, Vec::<String>::new());
    assert_eq!(
        written.footer,
        vec!["-----------------------------------------".to_string(), done(0, 0)]
    );
}
