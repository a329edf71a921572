//! Relocating one entry into a category folder, as a dialogue with whoever
//! holds the file system: the relocation asks for one operation at a time and
//! decides from the reply what to say and what to ask next.

use vstd::prelude::*;
use vstd::string::*;
use crate::text::{debug_quoted, pad_right, padded, quote};

verus! {

/// What a directory entry is.
#[derive(Clone, Copy, Debug, PartialEq, Eq, Structural)]
pub enum EntryKind {
    File,
    Directory,
}

/// Where a line of text is to be written.
#[derive(Clone, Copy, Debug, PartialEq, Eq, Structural)]
pub enum Stream {
    Output,
    Error,
}

/// One operation on the file system that a relocation asks for. The
/// container is the category folder inside the base directory; the
/// destination is the entry's name inside the container.
#[derive(Clone, Copy, Debug, PartialEq, Eq, Structural)]
pub enum Request {
    /// Report whether the container exists.
    ProbeContainer,
    /// Create the container, with any missing ancestors.
    CreateContainer,
    /// Report whether the destination exists.
    ProbeDestination,
    /// Rename the entry to the destination.
    Rename,
    /// Nothing more: the relocation is over. `moved` tells whether the entry
    /// was moved, or would have been in a real run.
    Finish { moved: bool },
}

/// Where a relocation stands: which reply it is waiting for.
#[derive(Clone, Copy, Debug, PartialEq, Eq, Structural)]
pub enum Phase {
    ContainerProbe,
    ContainerCreation,
    DestinationProbe,
    Renaming,
    Finished,
}

/// How many replies a relocation in `phase` can still take.
pub open spec fn replies_left(phase: Phase) -> nat {
    match phase {
        Phase::ContainerProbe => 4,
        Phase::ContainerCreation => 3,
        Phase::DestinationProbe => 2,
        Phase::Renaming => 1,
        Phase::Finished => 0,
    }
}

/// The width of the category column in a notice.
pub const CATEGORY_WIDTH: usize = 12;

/// The answer to a request.
#[derive(Debug, PartialEq, Eq)]
pub enum Reply {
    /// The answer to a probe.
    Exists(bool),
    /// The container was created, or the entry renamed.
    Done,
    /// The operation failed; the text describes why.
    Failed(String),
}

/// A `Reply` as contracts see it.
pub enum ReplyView {
    Exists(bool),
    Done,
    Failed(Seq<char>),
}

impl View for Reply {
    type V = ReplyView;

    open spec fn view(&self) -> ReplyView {
        match self {
            Reply::Exists(found) => ReplyView::Exists(*found),
            Reply::Done => ReplyView::Done,
            Reply::Failed(detail) => ReplyView::Failed(detail@),
        }
    }
}

/// A line of text for the user.
#[derive(Debug, PartialEq, Eq)]
pub struct Line {
    pub stream: Stream,
    pub text: String,
}

/// A `Line` as contracts see it.
pub struct LineView {
    pub stream: Stream,
    pub text: Seq<char>,
}

impl View for Line {
    type V = LineView;

    open spec fn view(&self) -> LineView {
        LineView { stream: self.stream, text: self.text@ }
    }
}

/// What a relocation hands back at each turn: at most one line to write,
/// then one request to carry out.
#[derive(Debug, PartialEq, Eq)]
pub struct Step {
    pub line: Option<Line>,
    pub request: Request,
}

/// A `Step` as contracts see it.
pub struct StepView {
    pub line: Option<LineView>,
    pub request: Request,
}

impl View for Step {
    type V = StepView;

    open spec fn view(&self) -> StepView {
        StepView {
            line: match self.line {
                Some(line) => Some(line@),
                None => None,
            },
            request: self.request,
        }
    }
}

/// The notice that an entry is being moved into `category`. `shown` is the
/// entry's name as it is to appear.
pub open spec fn notice_text(kind: EntryKind, shown: Seq<char>, category: Seq<char>) -> Seq<char> {
    match kind {
        EntryKind::File => "["@ + padded(category, CATEGORY_WIDTH as nat) + "] "@ + shown,
        EntryKind::Directory => "["@ + padded(category, CATEGORY_WIDTH as nat) + "] (Directory) "@
            + shown,
    }
}

/// The notice that an entry stays where it is because `category` already
/// holds one of its name.
pub open spec fn skip_text(kind: EntryKind, shown: Seq<char>, category: Seq<char>) -> Seq<char> {
    match kind {
        EntryKind::File => "[SKIP] "@ + shown + " (already exists in "@ + category + ")"@,
        EntryKind::Directory => "[SKIP DIR] "@ + shown + " (already exists in "@ + category
            + ")"@,
    }
}

/// The complaint that the container could not be created.
pub open spec fn creation_error_text(kind: EntryKind, detail: Seq<char>) -> Seq<char> {
    match kind {
        EntryKind::File => "Error creating dir: "@ + detail,
        EntryKind::Directory => "Error creating container dir: "@ + detail,
    }
}

/// The complaint that the entry could not be renamed.
pub open spec fn rename_error_text(kind: EntryKind, shown: Seq<char>, detail: Seq<char>) -> Seq<
    char,
> {
    match kind {
        EntryKind::File => "Error moving "@ + shown + ": "@ + detail,
        EntryKind::Directory => "Error moving directory "@ + shown + ": "@ + detail,
    }
}

/// Writes the notice that an entry is being moved into `category`.
pub fn notice(kind: EntryKind, shown: &str, category: &str) -> (r: String)
    ensures
        r@ == notice_text(kind, shown@, category@),
{
    let mut r = String::from_str("[");
    r.append(pad_right(category, CATEGORY_WIDTH).as_str());
    match kind {
        EntryKind::File => r.append("] "),
        EntryKind::Directory => r.append("] (Directory) "),
    }
    r.append(shown);
    r
}

/// Writes the notice that an entry stays where it is because `category`
/// already holds one of its name.
pub fn skip_notice(kind: EntryKind, shown: &str, category: &str) -> (r: String)
    ensures
        r@ == skip_text(kind, shown@, category@),
{
    let mut r = match kind {
        EntryKind::File => String::from_str("[SKIP] "),
        EntryKind::Directory => String::from_str("[SKIP DIR] "),
    };
    r.append(shown);
    r.append(" (already exists in ");
    r.append(category);
    r.append(")");
    r
}

/// Writes the complaint that the container could not be created.
pub fn creation_error(kind: EntryKind, detail: &str) -> (r: String)
    ensures
        r@ == creation_error_text(kind, detail@),
{
    let mut r = match kind {
        EntryKind::File => String::from_str("Error creating dir: "),
        EntryKind::Directory => String::from_str("Error creating container dir: "),
    };
    r.append(detail);
    r
}

/// Writes the complaint that the entry could not be renamed.
pub fn rename_error(kind: EntryKind, shown: &str, detail: &str) -> (r: String)
    ensures
        r@ == rename_error_text(kind, shown@, detail@),
{
    let mut r = match kind {
        EntryKind::File => String::from_str("Error moving "),
        EntryKind::Directory => String::from_str("Error moving directory "),
    };
    r.append(shown);
    r.append(": ");
    r.append(detail);
    r
}

/// The relocation of one entry of the base directory into the folder
/// `category`.
pub struct Relocation {
    name: String,
    shown: String,
    kind: EntryKind,
    category: String,
    dry_run: bool,
    phase: Phase,
}

/// A `Relocation` as contracts see it.
pub struct RelocationView {
    pub name: Seq<char>,
    /// The name as the relocation's lines show it.
    pub shown: Seq<char>,
    pub kind: EntryKind,
    pub category: Seq<char>,
    pub dry_run: bool,
    pub phase: Phase,
}

impl View for Relocation {
    type V = RelocationView;

    closed spec fn view(&self) -> RelocationView {
        RelocationView {
            name: self.name@,
            shown: self.shown@,
            kind: self.kind,
            category: self.category@,
            dry_run: self.dry_run,
            phase: self.phase,
        }
    }
}

/// A step that writes nothing.
pub open spec fn silent(request: Request) -> StepView {
    StepView { line: None, request }
}

/// A step that writes `text` to `stream`.
pub open spec fn saying(stream: Stream, text: Seq<char>, request: Request) -> StepView {
    StepView { line: Some(LineView { stream, text }), request }
}

/// The state in which a relocation begins, and its first step. The lines
/// of the relocation show the name quoted. A dry run never touches the
/// container: it goes straight to the destination.
pub open spec fn begun(name: Seq<char>, kind: EntryKind, category: Seq<char>, dry_run: bool) -> (
    RelocationView,
    StepView,
) {
    let shown = debug_quoted(name);
    if dry_run {
        (
            RelocationView { name, shown, kind, category, dry_run, phase: Phase::DestinationProbe },
            silent(Request::ProbeDestination),
        )
    } else {
        (
            RelocationView { name, shown, kind, category, dry_run, phase: Phase::ContainerProbe },
            silent(Request::ProbeContainer),
        )
    }
}

/// Whether `reply` answers the request that a relocation in `phase` has made.
pub open spec fn expected(phase: Phase, reply: ReplyView) -> bool {
    match phase {
        Phase::ContainerProbe | Phase::DestinationProbe => reply is Exists,
        Phase::ContainerCreation | Phase::Renaming => reply is Done || reply is Failed,
        Phase::Finished => false,
    }
}

/// The relocation `state` with its phase replaced.
pub open spec fn in_phase(state: RelocationView, phase: Phase) -> RelocationView {
    RelocationView { phase, ..state }
}

/// The state of a relocation after `reply` has come in, and the step that it
/// takes then.
///
/// - A container that exists, or was created, leads to the probe of the
///   destination; one that is missing is created first. If that fails the
///   relocation complains and ends.
/// - An occupied destination ends the relocation with a skip notice: nothing
///   is ever overwritten.
/// - An entry that is its own container ends it silently.
/// - Otherwise the move is announced. A dry run ends there and counts the
///   entry as moved; a real run asks for the rename, and counts the entry if
///   the rename succeeds.
pub open spec fn advanced(state: RelocationView, reply: ReplyView) -> (RelocationView, StepView)
    recommends
        expected(state.phase, reply),
{
    let over = in_phase(state, Phase::Finished);
    match (state.phase, reply) {
        (Phase::ContainerProbe, ReplyView::Exists(true)) => (
            in_phase(state, Phase::DestinationProbe),
            silent(Request::ProbeDestination),
        ),
        (Phase::ContainerProbe, ReplyView::Exists(false)) => (
            in_phase(state, Phase::ContainerCreation),
            silent(Request::CreateContainer),
        ),
        (Phase::ContainerCreation, ReplyView::Done) => (
            in_phase(state, Phase::DestinationProbe),
            silent(Request::ProbeDestination),
        ),
        (Phase::ContainerCreation, ReplyView::Failed(detail)) => (
            over,
            saying(
                Stream::Error,
                creation_error_text(state.kind, detail),
                Request::Finish { moved: false },
            ),
        ),
        (Phase::DestinationProbe, ReplyView::Exists(true)) => (
            over,
            saying(
                Stream::Output,
                skip_text(state.kind, state.shown, state.category),
                Request::Finish { moved: false },
            ),
        ),
        (Phase::DestinationProbe, ReplyView::Exists(false)) => {
            if state.name == state.category {
                (over, silent(Request::Finish { moved: false }))
            } else if state.dry_run {
                (
                    over,
                    saying(
                        Stream::Output,
                        notice_text(state.kind, state.shown, state.category),
                        Request::Finish { moved: true },
                    ),
                )
            } else {
                (
                    in_phase(state, Phase::Renaming),
                    saying(
                        Stream::Output,
                        notice_text(state.kind, state.shown, state.category),
                        Request::Rename,
                    ),
                )
            }
        },
        (Phase::Renaming, ReplyView::Done) => (over, silent(Request::Finish { moved: true })),
        (Phase::Renaming, ReplyView::Failed(detail)) => (
            over,
            saying(
                Stream::Error,
                rename_error_text(state.kind, state.shown, detail),
                Request::Finish { moved: false },
            ),
        ),
        _ => (over, silent(Request::Finish { moved: false })),
    }
}

/// A dry run only looks: it asks whether the destination exists and,
/// whatever the reply, is over. It never asks for a folder to be created or
/// an entry to be renamed.
pub proof fn law_dry_run_only_probes(
    name: Seq<char>,
    kind: EntryKind,
    category: Seq<char>,
    reply: ReplyView,
)
    requires
        reply is Exists,
    ensures
        ({
            let (state, step) = begun(name, kind, category, true);
            &&& step == silent(Request::ProbeDestination)
            &&& expected(state.phase, reply)
            &&& advanced(state, reply).0.phase == Phase::Finished
            &&& advanced(state, reply).1.request is Finish
        }),
{
}

/// A rename is asked for in one situation only: in a real run, right after
/// the destination was found free.
pub proof fn law_rename_needs_free_destination(state: RelocationView, reply: ReplyView)
    requires
        expected(state.phase, reply),
        advanced(state, reply).1.request == Request::Rename,
    ensures
        state.phase == Phase::DestinationProbe,
        reply == ReplyView::Exists(false),
        !state.dry_run,
        state.name != state.category,
{
}

/// A relocation takes four replies at most: each reply that it expects
/// brings it closer to its end.
pub proof fn law_relocation_ends(state: RelocationView, reply: ReplyView)
    requires
        expected(state.phase, reply),
    ensures
        replies_left(advanced(state, reply).0.phase) < replies_left(state.phase),
        advanced(state, reply).1.request is Finish <==> advanced(state, reply).0.phase
            == Phase::Finished,
{
}

impl Relocation {
    /// Begins the relocation of the entry `name` into the folder `category`
    /// and returns it with its first step.
    pub fn begin(name: &str, kind: EntryKind, category: &str, dry_run: bool) -> (r: (
        Relocation,
        Step,
    ))
        ensures
            r.0@ == begun(name@, kind, category@, dry_run).0,
            r.1@ == begun(name@, kind, category@, dry_run).1,
    {
        let phase = if dry_run {
            Phase::DestinationProbe
        } else {
            Phase::ContainerProbe
        };
        let request = if dry_run {
            Request::ProbeDestination
        } else {
            Request::ProbeContainer
        };
        let relocation = Relocation {
            name: String::from_str(name),
            shown: quote(name),
            kind,
            category: String::from_str(category),
            dry_run,
            phase,
        };
        (relocation, Step { line: None, request })
    }

    /// The name of the entry.
    pub fn name(&self) -> (r: &str)
        ensures
            r@ == self@.name,
    {
        self.name.as_str()
    }

    /// The name of the entry as the relocation's lines show it.
    pub fn shown(&self) -> (r: &str)
        ensures
            r@ == self@.shown,
    {
        self.shown.as_str()
    }

    /// What the entry is.
    pub fn kind(&self) -> (r: EntryKind)
        ensures
            r == self@.kind,
    {
        self.kind
    }

    /// The folder that the entry is to go into.
    pub fn category(&self) -> (r: &str)
        ensures
            r@ == self@.category,
    {
        self.category.as_str()
    }

    /// Whether the relocation is only a preview.
    pub fn dry_run(&self) -> (r: bool)
        ensures
            r == self@.dry_run,
    {
        self.dry_run
    }

    /// Where the relocation stands.
    pub fn phase(&self) -> (r: Phase)
        ensures
            r == self@.phase,
    {
        self.phase
    }

    /// Whether `reply` answers the request that the relocation has made.
    pub fn expects(&self, reply: &Reply) -> (r: bool)
        ensures
            r == expected(self@.phase, reply@),
    {
        match self.phase {
            Phase::ContainerProbe | Phase::DestinationProbe => match reply {
                Reply::Exists(_) => true,
                _ => false,
            },
            Phase::ContainerCreation | Phase::Renaming => match reply {
                Reply::Exists(_) => false,
                _ => true,
            },
            Phase::Finished => false,
        }
    }

    /// Takes the reply to the last request and returns the next step.
    pub fn advance(&mut self, reply: Reply) -> (step: Step)
        requires
            expected(old(self)@.phase, reply@),
        ensures
            final(self)@ == advanced(old(self)@, reply@).0,
            step@ == advanced(old(self)@, reply@).1,
    {
        let over = Request::Finish { moved: false };
        match self.phase {
            Phase::ContainerProbe => match reply {
                Reply::Exists(true) => {
                    self.phase = Phase::DestinationProbe;
                    Step { line: None, request: Request::ProbeDestination }
                },
                _ => {
                    self.phase = Phase::ContainerCreation;
                    Step { line: None, request: Request::CreateContainer }
                },
            },
            Phase::ContainerCreation => match reply {
                Reply::Failed(detail) => {
                    self.phase = Phase::Finished;
                    let text = creation_error(self.kind, detail.as_str());
                    Step { line: Some(Line { stream: Stream::Error, text }), request: over }
                },
                _ => {
                    self.phase = Phase::DestinationProbe;
                    Step { line: None, request: Request::ProbeDestination }
                },
            },
            Phase::DestinationProbe => match reply {
                Reply::Exists(true) => {
                    self.phase = Phase::Finished;
                    let text = skip_notice(self.kind, self.shown.as_str(), self.category.as_str());
                    Step { line: Some(Line { stream: Stream::Output, text }), request: over }
                },
                _ => {
                    if self.name == self.category {
                        self.phase = Phase::Finished;
                        Step { line: None, request: over }
                    } else {
                        let text = notice(self.kind, self.shown.as_str(), self.category.as_str());
                        let line = Some(Line { stream: Stream::Output, text });
                        if self.dry_run {
                            self.phase = Phase::Finished;
                            Step { line, request: Request::Finish { moved: true } }
                        } else {
                            self.phase = Phase::Renaming;
                            Step { line, request: Request::Rename }
                        }
                    }
                },
            },
            Phase::Renaming => match reply {
                Reply::Failed(detail) => {
                    self.phase = Phase::Finished;
                    let text = rename_error(self.kind, self.shown.as_str(), detail.as_str());
                    Step { line: Some(Line { stream: Stream::Error, text }), request: over }
                },
                _ => {
                    self.phase = Phase::Finished;
                    Step { line: None, request: Request::Finish { moved: true } }
                },
            },
            Phase::Finished => Step { line: None, request: over },
        }
    }
}

} // verus!
