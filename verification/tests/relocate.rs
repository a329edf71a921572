use dir_organizer::relocate::{
    creation_error, notice, rename_error, skip_notice, EntryKind, Line, Phase, Relocation, Reply,
    Request, Step, Stream,
};

fn silent(request: Request) -> Step {
    Step { line: None, request }
}

fn told(text: &str, request: Request) -> Step {
    Step { line: Some(Line { stream: Stream::Output, text: text.to_string() }), request }
}

fn complained(text: &str, request: Request) -> Step {
    Step { line: Some(Line { stream: Stream::Error, text: text.to_string() }), request }
}

#[test]
fn notice_pads_the_category_to_twelve() {
    assert_eq!(notice(EntryKind::File, "photo.JPG", "images"), "[images      ] photo.JPG");
    assert_eq!(notice(EntryKind::File, "'setup.exe'", "APPS"), "[APPS        ] 'setup.exe'");
    assert_eq!(notice(EntryKind::File, "a.csv", "spreadsheets"), "[spreadsheets] a.csv");
    assert_eq!(notice(EntryKind::File, "a.ppt", "presentations"), "[presentations] a.ppt");
    assert_eq!(notice(EntryKind::File, "x", ""), "[            ] x");
}

#[test]
fn notice_marks_directories() {
    assert_eq!(
        notice(EntryKind::Directory, "\"my-project\"", "Folders"),
        "[Folders     ] (Directory) \"my-project\""
    );
}

#[test]
fn relocation_shows_the_name_quoted_and_escaped() {
    let (relocation, _) = Relocation::begin("photo.JPG", EntryKind::File, "images", true);
    assert_eq!(relocation.shown(), "\"photo.JPG\"");
    let (mut relocation, _) = Relocation::begin("a\"b.txt", EntryKind::File, "documents", true);
    assert_eq!(relocation.shown(), "\"a\\\"b.txt\"");
    assert_eq!(
        relocation.advance(Reply::Exists(false)),
        told("[documents   ] \"a\\\"b.txt\"", Request::Finish { moved: true })
    );
    let (mut relocation, _) = Relocation::begin("tab\there", EntryKind::File, "Others", true);
    assert_eq!(
        relocation.advance(Reply::Exists(true)),
        told(
            "[SKIP] \"tab\\there\" (already exists in Others)",
            Request::Finish { moved: false }
        )
    );
}

#[test]
fn skip_notice_names_the_folder() {
    assert_eq!(
        skip_notice(EntryKind::File, "\"report.txt\"", "Others"),
        "[SKIP] \"report.txt\" (already exists in Others)"
    );
    assert_eq!(
        skip_notice(EntryKind::Directory, "\"my-project\"", "Folders"),
        "[SKIP DIR] \"my-project\" (already exists in Folders)"
    );
}

#[test]
fn creation_error_carries_the_detail() {
    assert_eq!(
        creation_error(EntryKind::File, "Permission denied (os error 13)"),
        "Error creating dir: Permission denied (os error 13)"
    );
    assert_eq!(
        creation_error(EntryKind::Directory, "Permission denied (os error 13)"),
        "Error creating container dir: Permission denied (os error 13)"
    );
}

#[test]
fn rename_error_carries_name_and_detail() {
    assert_eq!(
        rename_error(EntryKind::File, "\"a.txt\"", "Invalid cross-device link (os error 18)"),
        "Error moving \"a.txt\": Invalid cross-device link (os error 18)"
    );
    assert_eq!(
        rename_error(EntryKind::Directory, "\"stuff\"", "Not a directory (os error 20)"),
        "Error moving directory \"stuff\": Not a directory (os error 20)"
    );
}

#[test]
fn real_run_begins_with_the_container() {
    let (relocation, step) = Relocation::begin("photo.JPG", EntryKind::File, "images", false);
    assert_eq!(step, silent(Request::ProbeContainer));
    assert_eq!(relocation.phase(), Phase::ContainerProbe);
    assert_eq!(relocation.name(), "photo.JPG");
    assert_eq!(relocation.category(), "images");
    assert_eq!(relocation.kind(), EntryKind::File);
    assert!(!relocation.dry_run());
}

#[test]
fn dry_run_begins_with_the_destination() {
    let (relocation, step) = Relocation::begin("photo.JPG", EntryKind::File, "images", true);
    assert_eq!(step, silent(Request::ProbeDestination));
    assert_eq!(relocation.phase(), Phase::DestinationProbe);
    assert!(relocation.dry_run());
}

#[test]
fn real_run_with_missing_container_creates_probes_and_renames() {
    let (mut relocation, _) = Relocation::begin("photo.JPG", EntryKind::File, "images", false);
    assert_eq!(relocation.advance(Reply::Exists(false)), silent(Request::CreateContainer));
    assert_eq!(relocation.phase(), Phase::ContainerCreation);
    assert_eq!(relocation.advance(Reply::Done), silent(Request::ProbeDestination));
    assert_eq!(relocation.phase(), Phase::DestinationProbe);
    assert_eq!(
        relocation.advance(Reply::Exists(false)),
        told("[images      ] \"photo.JPG\"", Request::Rename)
    );
    assert_eq!(relocation.phase(), Phase::Renaming);
    assert_eq!(relocation.advance(Reply::Done), silent(Request::Finish { moved: true }));
    assert_eq!(relocation.phase(), Phase::Finished);
}

#[test]
fn real_run_with_container_skips_creation() {
    let (mut relocation, _) = Relocation::begin("notes.md", EntryKind::File, "documents", false);
    assert_eq!(relocation.advance(Reply::Exists(true)), silent(Request::ProbeDestination));
    assert_eq!(
        relocation.advance(Reply::Exists(false)),
        told("[documents   ] \"notes.md\"", Request::Rename)
    );
    assert_eq!(relocation.advance(Reply::Done), silent(Request::Finish { moved: true }));
}

#[test]
fn failed_creation_ends_the_relocation() {
    let (mut relocation, _) = Relocation::begin("notes.md", EntryKind::File, "documents", false);
    relocation.advance(Reply::Exists(false));
    assert_eq!(
        relocation.advance(Reply::Failed("Read-only file system (os error 30)".to_string())),
        complained(
            "Error creating dir: Read-only file system (os error 30)",
            Request::Finish { moved: false }
        )
    );
    assert_eq!(relocation.phase(), Phase::Finished);
}

#[test]
fn failed_creation_for_a_directory_names_the_container() {
    let (mut relocation, _) = Relocation::begin("stuff", EntryKind::Directory, "Folders", false);
    relocation.advance(Reply::Exists(false));
    assert_eq!(
        relocation.advance(Reply::Failed("denied".to_string())),
        complained("Error creating container dir: denied", Request::Finish { moved: false })
    );
}

#[test]
fn occupied_destination_is_skipped() {
    let (mut relocation, _) = Relocation::begin("report.txt", EntryKind::File, "Others", false);
    relocation.advance(Reply::Exists(true));
    assert_eq!(
        relocation.advance(Reply::Exists(true)),
        told("[SKIP] \"report.txt\" (already exists in Others)", Request::Finish { moved: false })
    );
    assert_eq!(relocation.phase(), Phase::Finished);
}

#[test]
fn occupied_destination_is_skipped_in_a_dry_run() {
    let (mut relocation, _) = Relocation::begin("stuff", EntryKind::Directory, "Folders", true);
    assert_eq!(
        relocation.advance(Reply::Exists(true)),
        told("[SKIP DIR] \"stuff\" (already exists in Folders)", Request::Finish { moved: false })
    );
}

#[test]
fn dry_run_announces_and_counts_without_renaming() {
    let (mut relocation, _) = Relocation::begin("stuff", EntryKind::Directory, "Folders", true);
    assert_eq!(
        relocation.advance(Reply::Exists(false)),
        told("[Folders     ] (Directory) \"stuff\"", Request::Finish { moved: true })
    );
    assert_eq!(relocation.phase(), Phase::Finished);
}

#[test]
fn failed_rename_complains_and_does_not_count() {
    let (mut relocation, _) = Relocation::begin("a.txt", EntryKind::File, "documents", false);
    relocation.advance(Reply::Exists(true));
    relocation.advance(Reply::Exists(false));
    assert_eq!(
        relocation.advance(Reply::Failed("Permission denied (os error 13)".to_string())),
        complained(
            "Error moving \"a.txt\": Permission denied (os error 13)",
            Request::Finish { moved: false }
        )
    );
    assert_eq!(relocation.phase(), Phase::Finished);
}

#[test]
fn failed_rename_of_a_directory_says_so() {
    let (mut relocation, _) = Relocation::begin("stuff", EntryKind::Directory, "Folders", false);
    relocation.advance(Reply::Exists(true));
    relocation.advance(Reply::Exists(false));
    assert_eq!(
        relocation.advance(Reply::Failed("busy".to_string())),
        complained("Error moving directory \"stuff\": busy", Request::Finish { moved: false })
    );
}

#[test]
fn entry_that_is_its_own_container_ends_silently() {
    let (mut relocation, _) = Relocation::begin("Folders", EntryKind::Directory, "Folders", false);
    relocation.advance(Reply::Exists(true));
    assert_eq!(relocation.advance(Reply::Exists(false)), silent(Request::Finish { moved: false }));
    let (mut relocation, _) = Relocation::begin("Others", EntryKind::File, "Others", true);
    assert_eq!(relocation.advance(Reply::Exists(false)), silent(Request::Finish { moved: false }));
}

#[test]
fn entry_that_is_its_own_container_and_occupied_is_skipped_with_a_notice() {
    let (mut relocation, _) = Relocation::begin("Folders", EntryKind::Directory, "Folders", false);
    relocation.advance(Reply::Exists(true));
    assert_eq!(
        relocation.advance(Reply::Exists(true)),
        told(
            "[SKIP DIR] \"Folders\" (already exists in Folders)",
            Request::Finish { moved: false }
        )
    );
}

#[test]
fn expects_tells_which_reply_fits() {
    let (mut relocation, _) = Relocation::begin("a.txt", EntryKind::File, "documents", false);
    assert!(relocation.expects(&Reply::Exists(true)));
    assert!(relocation.expects(&Reply::Exists(false)));
    assert!(!relocation.expects(&Reply::Done));
    assert!(!relocation.expects(&Reply::Failed("x".to_string())));
    relocation.advance(Reply::Exists(false));
    assert!(!relocation.expects(&Reply::Exists(true)));
    assert!(relocation.expects(&Reply::Done));
    assert!(relocation.expects(&Reply::Failed("x".to_string())));
    relocation.advance(Reply::Done);
    assert!(relocation.expects(&Reply::Exists(false)));
    assert!(!relocation.expects(&Reply::Done));
    relocation.advance(Reply::Exists(false));
    assert!(relocation.expects(&Reply::Done));
    assert!(relocation.expects(&Reply::Failed("x".to_string())));
    assert!(!relocation.expects(&Reply::Exists(true)));
    relocation.advance(Reply::Done);
    assert!(!relocation.expects(&Reply::Exists(true)));
    assert!(!relocation.expects(&Reply::Done));
    assert!(!relocation.expects(&Reply::Failed("x".to_string())));
}
