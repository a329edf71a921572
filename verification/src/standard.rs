//! The tool's own rules: its category table and its protected folder names.

use vstd::prelude::*;
use vstd::string::*;
use crate::categories::{lemma_with_group, texts, with_group, ExtensionMap, ProtectedNames};
use crate::text::{lemma_plain, lowercase, plain};

verus! {

/// The extensions of pictures.
pub open spec fn image_extensions() -> Seq<Seq<char>> {
    seq![
        "jpg"@,
        "jpeg"@,
        "png"@,
        "gif"@,
        "bmp"@,
        "svg"@,
        "webp"@,
        "ico"@,
        "tiff"@,
        "heic"@,
    ]
}

/// The extensions of text documents.
pub open spec fn document_extensions() -> Seq<Seq<char>> {
    seq!["pdf"@, "doc"@, "docx"@, "txt"@, "rtf"@, "odt"@, "md"@]
}

/// The extensions of spreadsheets.
pub open spec fn spreadsheet_extensions() -> Seq<Seq<char>> {
    seq!["xls"@, "xlsx"@, "csv"@, "ods"@]
}

/// The extensions of slide shows.
pub open spec fn presentation_extensions() -> Seq<Seq<char>> {
    seq!["ppt"@, "pptx"@, "odp"@, "key"@]
}

/// The extensions of archives and disk images.
pub open spec fn archive_extensions() -> Seq<Seq<char>> {
    seq!["zip"@, "rar"@, "tar"@, "gz"@, "bz2"@, "7z"@, "iso"@]
}

/// The extensions of sound files.
pub open spec fn audio_extensions() -> Seq<Seq<char>> {
    seq!["mp3"@, "wav"@, "flac"@, "aac"@, "ogg"@, "m4a"@]
}

/// The extensions of films.
pub open spec fn video_extensions() -> Seq<Seq<char>> {
    seq!["mp4"@, "mkv"@, "avi"@, "mov"@, "wmv"@, "webm"@]
}

/// The extensions of source code.
pub open spec fn code_extensions() -> Seq<Seq<char>> {
    seq![
        "rs"@,
        "py"@,
        "js"@,
        "ts"@,
        "java"@,
        "c"@,
        "cpp"@,
        "go"@,
        "rb"@,
        "php"@,
        "html"@,
        "css"@,
        "json"@,
    ]
}

/// The extensions of programs and installers.
pub open spec fn app_extensions() -> Seq<Seq<char>> {
    seq![
        "exe"@,
        "msi"@,
        "dmg"@,
        "app"@,
        "deb"@,
        "rpm"@,
        "apk"@,
        "appimage"@,
        "sh"@,
        "bat"@,
    ]
}

/// The category table that the tool works with: the groups above, entered
/// one after the other.
pub open spec fn canonical_table() -> Map<Seq<char>, Seq<char>> {
    let t = Map::<Seq<char>, Seq<char>>::empty();
    let t = with_group(t, "images"@, image_extensions());
    let t = with_group(t, "documents"@, document_extensions());
    let t = with_group(t, "spreadsheets"@, spreadsheet_extensions());
    let t = with_group(t, "presentations"@, presentation_extensions());
    let t = with_group(t, "archives"@, archive_extensions());
    let t = with_group(t, "audio"@, audio_extensions());
    let t = with_group(t, "video"@, video_extensions());
    let t = with_group(t, "code"@, code_extensions());
    let t = with_group(t, "APPS"@, app_extensions());
    t
}

/// Builds the category table.
pub fn get_extension_map() -> (table: ExtensionMap)
    ensures
        table.wf(),
        table@ == canonical_table(),
{
    let mut table = ExtensionMap::new();
    let images = ["jpg", "jpeg", "png", "gif", "bmp", "svg", "webp", "ico", "tiff", "heic"];
    assert(texts(images@) =~= image_extensions());
    table.insert_group("images", &images);
    let documents = ["pdf", "doc", "docx", "txt", "rtf", "odt", "md"];
    assert(texts(documents@) =~= document_extensions());
    table.insert_group("documents", &documents);
    let spreadsheets = ["xls", "xlsx", "csv", "ods"];
    assert(texts(spreadsheets@) =~= spreadsheet_extensions());
    table.insert_group("spreadsheets", &spreadsheets);
    let presentations = ["ppt", "pptx", "odp", "key"];
    assert(texts(presentations@) =~= presentation_extensions());
    table.insert_group("presentations", &presentations);
    let archives = ["zip", "rar", "tar", "gz", "bz2", "7z", "iso"];
    assert(texts(archives@) =~= archive_extensions());
    table.insert_group("archives", &archives);
    let audio = ["mp3", "wav", "flac", "aac", "ogg", "m4a"];
    assert(texts(audio@) =~= audio_extensions());
    table.insert_group("audio", &audio);
    let video = ["mp4", "mkv", "avi", "mov", "wmv", "webm"];
    assert(texts(video@) =~= video_extensions());
    table.insert_group("video", &video);
    let code = [
        "rs",
        "py",
        "js",
        "ts",
        "java",
        "c",
        "cpp",
        "go",
        "rb",
        "php",
        "html",
        "css",
        "json",
    ];
    assert(texts(code@) =~= code_extensions());
    table.insert_group("code", &code);
    let apps = ["exe", "msi", "dmg", "app", "deb", "rpm", "apk", "appimage", "sh", "bat"];
    assert(texts(apps@) =~= app_extensions());
    table.insert_group("APPS", &apps);
    table
}

/// The names of the table's categories.
pub open spec fn category_names() -> Set<Seq<char>> {
    set![
        "images"@,
        "documents"@,
        "spreadsheets"@,
        "presentations"@,
        "archives"@,
        "audio"@,
        "video"@,
        "code"@,
        "APPS"@,
    ]
}

/// The folder names that the tool leaves in place: the categories of the
/// table and the two catch-all folders.
pub open spec fn protected_names() -> Set<Seq<char>> {
    category_names().insert("Others"@).insert("Folders"@)
}

/// Builds the set of protected folder names.
pub fn get_protected_folder_names() -> (set: ProtectedNames)
    ensures
        set.wf(),
        set@ == protected_names(),
{
    let mut set = ProtectedNames::new();
    set.insert("images");
    set.insert("documents");
    set.insert("spreadsheets");
    set.insert("presentations");
    set.insert("archives");
    set.insert("audio");
    set.insert("video");
    set.insert("code");
    set.insert("APPS");
    set.insert("Others");
    set.insert("Folders");
    assert(set@ =~= protected_names());
    set
}

/// Whether each string of `strings` is plain.
pub open spec fn all_plain(strings: Seq<Seq<char>>) -> bool {
    forall|i: int| 0 <= i < strings.len() ==> plain(#[trigger] strings[i])
}

/// Whether no string of `first` is a string of `second`.
pub open spec fn disjoint(first: Seq<Seq<char>>, second: Seq<Seq<char>>) -> bool {
    forall|i: int, j: int|
        0 <= i < first.len() && 0 <= j < second.len() ==> #[trigger] first[i]
            != #[trigger] second[j]
}

/// Whether `s` is plain and at most eight characters long. It is worded so
/// that the length of `s`, its first two characters and its last are looked
/// at: any two extensions of the table differ in one of these.
spec fn legible(s: Seq<char>) -> bool {
    &&& plain(s)
    &&& s.len() <= 8
    &&& s[0] <= 'z'
    &&& s[if s.len() > 1 { 1int } else { 0int }] <= 'z'
    &&& s[s.len() - 1] <= 'z'
}

/// The extensions of the groups, read letter by letter: each is plain, and
/// none stands in two groups.
pub proof fn lemma_groups()
    ensures
        all_plain(image_extensions()),
        all_plain(document_extensions()),
        all_plain(spreadsheet_extensions()),
        all_plain(presentation_extensions()),
        all_plain(archive_extensions()),
        all_plain(audio_extensions()),
        all_plain(video_extensions()),
        all_plain(code_extensions()),
        all_plain(app_extensions()),
        disjoint(image_extensions(), document_extensions()),
        disjoint(image_extensions(), spreadsheet_extensions()),
        disjoint(image_extensions(), presentation_extensions()),
        disjoint(image_extensions(), archive_extensions()),
        disjoint(image_extensions(), audio_extensions()),
        disjoint(image_extensions(), video_extensions()),
        disjoint(image_extensions(), code_extensions()),
        disjoint(image_extensions(), app_extensions()),
        disjoint(document_extensions(), spreadsheet_extensions()),
        disjoint(document_extensions(), presentation_extensions()),
        disjoint(document_extensions(), archive_extensions()),
        disjoint(document_extensions(), audio_extensions()),
        disjoint(document_extensions(), video_extensions()),
        disjoint(document_extensions(), code_extensions()),
        disjoint(document_extensions(), app_extensions()),
        disjoint(spreadsheet_extensions(), presentation_extensions()),
        disjoint(spreadsheet_extensions(), archive_extensions()),
        disjoint(spreadsheet_extensions(), audio_extensions()),
        disjoint(spreadsheet_extensions(), video_extensions()),
        disjoint(spreadsheet_extensions(), code_extensions()),
        disjoint(spreadsheet_extensions(), app_extensions()),
        disjoint(presentation_extensions(), archive_extensions()),
        disjoint(presentation_extensions(), audio_extensions()),
        disjoint(presentation_extensions(), video_extensions()),
        disjoint(presentation_extensions(), code_extensions()),
        disjoint(presentation_extensions(), app_extensions()),
        disjoint(archive_extensions(), audio_extensions()),
        disjoint(archive_extensions(), video_extensions()),
        disjoint(archive_extensions(), code_extensions()),
        disjoint(archive_extensions(), app_extensions()),
        disjoint(audio_extensions(), video_extensions()),
        disjoint(audio_extensions(), code_extensions()),
        disjoint(audio_extensions(), app_extensions()),
        disjoint(video_extensions(), code_extensions()),
        disjoint(video_extensions(), app_extensions()),
        disjoint(code_extensions(), app_extensions()),
{
    reveal_strlit("jpg");
    reveal_strlit("jpeg");
    reveal_strlit("png");
    reveal_strlit("gif");
    reveal_strlit("bmp");
    reveal_strlit("svg");
    reveal_strlit("webp");
    reveal_strlit("ico");
    reveal_strlit("tiff");
    reveal_strlit("heic");
    reveal_strlit("pdf");
    reveal_strlit("doc");
    reveal_strlit("docx");
    reveal_strlit("txt");
    reveal_strlit("rtf");
    reveal_strlit("odt");
    reveal_strlit("md");
    reveal_strlit("xls");
    reveal_strlit("xlsx");
    reveal_strlit("csv");
    reveal_strlit("ods");
    reveal_strlit("ppt");
    reveal_strlit("pptx");
    reveal_strlit("odp");
    reveal_strlit("key");
    reveal_strlit("zip");
    reveal_strlit("rar");
    reveal_strlit("tar");
    reveal_strlit("gz");
    reveal_strlit("bz2");
    reveal_strlit("7z");
    reveal_strlit("iso");
    reveal_strlit("mp3");
    reveal_strlit("wav");
    reveal_strlit("flac");
    reveal_strlit("aac");
    reveal_strlit("ogg");
    reveal_strlit("m4a");
    reveal_strlit("mp4");
    reveal_strlit("mkv");
    reveal_strlit("avi");
    reveal_strlit("mov");
    reveal_strlit("wmv");
    reveal_strlit("webm");
    reveal_strlit("rs");
    reveal_strlit("py");
    reveal_strlit("js");
    reveal_strlit("ts");
    reveal_strlit("java");
    reveal_strlit("c");
    reveal_strlit("cpp");
    reveal_strlit("go");
    reveal_strlit("rb");
    reveal_strlit("php");
    reveal_strlit("html");
    reveal_strlit("css");
    reveal_strlit("json");
    reveal_strlit("exe");
    reveal_strlit("msi");
    reveal_strlit("dmg");
    reveal_strlit("app");
    reveal_strlit("deb");
    reveal_strlit("rpm");
    reveal_strlit("apk");
    reveal_strlit("appimage");
    reveal_strlit("sh");
    reveal_strlit("bat");
    assert(legible("jpg"@));
    assert(legible("jpeg"@));
    assert(legible("png"@));
    assert(legible("gif"@));
    assert(legible("bmp"@));
    assert(legible("svg"@));
    assert(legible("webp"@));
    assert(legible("ico"@));
    assert(legible("tiff"@));
    assert(legible("heic"@));
    assert(legible("pdf"@));
    assert(legible("doc"@));
    assert(legible("docx"@));
    assert(legible("txt"@));
    assert(legible("rtf"@));
    assert(legible("odt"@));
    assert(legible("md"@));
    assert(legible("xls"@));
    assert(legible("xlsx"@));
    assert(legible("csv"@));
    assert(legible("ods"@));
    assert(legible("ppt"@));
    assert(legible("pptx"@));
    assert(legible("odp"@));
    assert(legible("key"@));
    assert(legible("zip"@));
    assert(legible("rar"@));
    assert(legible("tar"@));
    assert(legible("gz"@));
    assert(legible("bz2"@));
    assert(legible("7z"@));
    assert(legible("iso"@));
    assert(legible("mp3"@));
    assert(legible("wav"@));
    assert(legible("flac"@));
    assert(legible("aac"@));
    assert(legible("ogg"@));
    assert(legible("m4a"@));
    assert(legible("mp4"@));
    assert(legible("mkv"@));
    assert(legible("avi"@));
    assert(legible("mov"@));
    assert(legible("wmv"@));
    assert(legible("webm"@));
    assert(legible("rs"@));
    assert(legible("py"@));
    assert(legible("js"@));
    assert(legible("ts"@));
    assert(legible("java"@));
    assert(legible("c"@));
    assert(legible("cpp"@));
    assert(legible("go"@));
    assert(legible("rb"@));
    assert(legible("php"@));
    assert(legible("html"@));
    assert(legible("css"@));
    assert(legible("json"@));
    assert(legible("exe"@));
    assert(legible("msi"@));
    assert(legible("dmg"@));
    assert(legible("app"@));
    assert(legible("deb"@));
    assert(legible("rpm"@));
    assert(legible("apk"@));
    assert(legible("appimage"@));
    assert(legible("sh"@));
    assert(legible("bat"@));
}

/// The category of the last group that lists `extension`, if any does.
pub open spec fn canonical_category(extension: Seq<char>) -> Option<Seq<char>> {
    if app_extensions().contains(extension) {
        Some("APPS"@)
    } else if code_extensions().contains(extension) {
        Some("code"@)
    } else if video_extensions().contains(extension) {
        Some("video"@)
    } else if audio_extensions().contains(extension) {
        Some("audio"@)
    } else if archive_extensions().contains(extension) {
        Some("archives"@)
    } else if presentation_extensions().contains(extension) {
        Some("presentations"@)
    } else if spreadsheet_extensions().contains(extension) {
        Some("spreadsheets"@)
    } else if document_extensions().contains(extension) {
        Some("documents"@)
    } else if image_extensions().contains(extension) {
        Some("images"@)
    } else {
        None
    }
}

/// A group of plain extensions is entered into the table as it is written.
proof fn lemma_with_plain_group(
    table: Map<Seq<char>, Seq<char>>,
    category: Seq<char>,
    extensions: Seq<Seq<char>>,
)
    requires
        all_plain(extensions),
    ensures
        forall|key: Seq<char>| #[trigger]
            with_group(table, category, extensions).contains_key(key) == (extensions.contains(key)
                || table.contains_key(key)),
        forall|key: Seq<char>|
            extensions.contains(key) ==> #[trigger] with_group(table, category, extensions)[key]
                == category,
        forall|key: Seq<char>|
            !extensions.contains(key) ==> #[trigger] with_group(table, category, extensions)[key]
                == table[key],
{
    assert forall|i: int| 0 <= i < extensions.len() implies lowercase(#[trigger] extensions[i])
        == extensions[i] by {
        lemma_plain(extensions[i]);
    }
    lemma_with_group(table, category, extensions);
}

/// The table holds exactly the extensions that the groups list, each with
/// the category of its group.
pub proof fn lemma_canonical_table(extension: Seq<char>)
    ensures
        canonical_table().contains_key(extension) == (canonical_category(extension) is Some),
        canonical_category(extension) is Some ==> canonical_table()[extension]
            == canonical_category(extension)->0,
{
    lemma_groups();
    let t0 = Map::<Seq<char>, Seq<char>>::empty();
    let t1 = with_group(t0, "images"@, image_extensions());
    let t2 = with_group(t1, "documents"@, document_extensions());
    let t3 = with_group(t2, "spreadsheets"@, spreadsheet_extensions());
    let t4 = with_group(t3, "presentations"@, presentation_extensions());
    let t5 = with_group(t4, "archives"@, archive_extensions());
    let t6 = with_group(t5, "audio"@, audio_extensions());
    let t7 = with_group(t6, "video"@, video_extensions());
    let t8 = with_group(t7, "code"@, code_extensions());
    let t9 = with_group(t8, "APPS"@, app_extensions());
    lemma_with_plain_group(t0, "images"@, image_extensions());
    lemma_with_plain_group(t1, "documents"@, document_extensions());
    lemma_with_plain_group(t2, "spreadsheets"@, spreadsheet_extensions());
    lemma_with_plain_group(t3, "presentations"@, presentation_extensions());
    lemma_with_plain_group(t4, "archives"@, archive_extensions());
    lemma_with_plain_group(t5, "audio"@, audio_extensions());
    lemma_with_plain_group(t6, "video"@, video_extensions());
    lemma_with_plain_group(t7, "code"@, code_extensions());
    lemma_with_plain_group(t8, "APPS"@, app_extensions());
    assert(canonical_table() == t9);
    assert(t1.contains_key(extension) == image_extensions().contains(extension));
    assert(t2.contains_key(extension) == (document_extensions().contains(extension)
        || t1.contains_key(extension)));
    assert(t3.contains_key(extension) == (spreadsheet_extensions().contains(extension)
        || t2.contains_key(extension)));
    assert(t4.contains_key(extension) == (presentation_extensions().contains(extension)
        || t3.contains_key(extension)));
    assert(t5.contains_key(extension) == (archive_extensions().contains(extension)
        || t4.contains_key(extension)));
    assert(t6.contains_key(extension) == (audio_extensions().contains(extension)
        || t5.contains_key(extension)));
    assert(t7.contains_key(extension) == (video_extensions().contains(extension)
        || t6.contains_key(extension)));
    assert(t8.contains_key(extension) == (code_extensions().contains(extension)
        || t7.contains_key(extension)));
    assert(t9.contains_key(extension) == (app_extensions().contains(extension)
        || t8.contains_key(extension)));
}

/// No extension is entered twice: each extension of a group is in the
/// table, with the category of its own group.
pub proof fn law_group_categories(extension: Seq<char>)
    ensures
        image_extensions().contains(extension) ==> canonical_table().contains_key(extension)
            && canonical_table()[extension] == "images"@,
        document_extensions().contains(extension) ==> canonical_table().contains_key(extension)
            && canonical_table()[extension] == "documents"@,
        spreadsheet_extensions().contains(extension) ==> canonical_table().contains_key(extension)
            && canonical_table()[extension] == "spreadsheets"@,
        presentation_extensions().contains(extension) ==> canonical_table().contains_key(extension)
            && canonical_table()[extension] == "presentations"@,
        archive_extensions().contains(extension) ==> canonical_table().contains_key(extension)
            && canonical_table()[extension] == "archives"@,
        audio_extensions().contains(extension) ==> canonical_table().contains_key(extension)
            && canonical_table()[extension] == "audio"@,
        video_extensions().contains(extension) ==> canonical_table().contains_key(extension)
            && canonical_table()[extension] == "video"@,
        code_extensions().contains(extension) ==> canonical_table().contains_key(extension)
            && canonical_table()[extension] == "code"@,
        app_extensions().contains(extension) ==> canonical_table().contains_key(extension)
            && canonical_table()[extension] == "APPS"@,
{
    lemma_groups();
    lemma_canonical_table(extension);
}

/// Every extension of the table is plain, and its category is one of the
/// category names.
pub proof fn lemma_canonical_entries(extension: Seq<char>)
    requires
        canonical_table().contains_key(extension),
    ensures
        plain(extension),
        category_names().contains(canonical_table()[extension]),
{
    lemma_canonical_table(extension);
    lemma_groups();
}

/// The two catch-all folders are no categories of the table, and differ.
pub proof fn lemma_catch_alls()
    ensures
        !category_names().contains("Others"@),
        !category_names().contains("Folders"@),
        "Others"@ != "Folders"@,
{
    reveal_strlit("images");
    reveal_strlit("documents");
    reveal_strlit("spreadsheets");
    reveal_strlit("presentations");
    reveal_strlit("archives");
    reveal_strlit("audio");
    reveal_strlit("video");
    reveal_strlit("code");
    reveal_strlit("APPS");
    reveal_strlit("Others");
    reveal_strlit("Folders");
    assert("Others"@[0] == 'O');
    assert("Folders"@[0] == 'F');
}

} // verus!
