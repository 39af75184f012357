//! The session model that every agent source is turned into.

use vstd::prelude::*;

use crate::model::{copy_text, lemma_views_add, lemma_views_push, opt_view, or_empty, or_text, text_or, views};
use crate::paths::{file_name, has_drive, name_of};
use crate::text::{blank, cat3, cat5, chars_of, is_blank, is_space, is_whitespace};
use crate::time::Timestamp;

verus! {

/// Identifies a session source, such as `codex`.
#[derive(Debug, PartialEq, Eq, Hash)]
pub struct SourceId(String);

impl View for SourceId {
    type V = Seq<char>;

    closed spec fn view(&self) -> Seq<char> {
        self.0@
    }
}

impl SourceId {
    /// Makes a source id of a stable lower-case name.
    pub fn new(value: &str) -> (r: SourceId)
        ensures
            r@ == value@,
    {
        SourceId(value.to_owned())
    }

    /// The id as text.
    pub fn as_str(&self) -> (r: &str)
        ensures
            r@ == self@,
    {
        self.0.as_str()
    }
}

impl Clone for SourceId {
    fn clone(&self) -> (r: SourceId)
        ensures
            r@ == self@,
    {
        SourceId(self.0.clone())
    }
}

/// Whether a session was created in an interactive interface.
#[derive(Debug, Clone, Copy, PartialEq, Eq, Structural)]
pub enum InteractionType {
    /// It can be continued in the official interactive interface.
    Interactive,
    /// It was created by a batch or headless command.
    NonInteractive,
    /// The source does not say.
    Unknown,
}

/// What kind of problem a scan met.
#[derive(Debug, Clone, Copy, PartialEq, Eq, Structural)]
pub enum WarningKind {
    /// A file or line is not UTF-8.
    InvalidUtf8,
    /// A line is not a structured record.
    InvalidRecord,
    /// A field that matters is missing.
    MissingField,
    /// A field is there but of the wrong type or content.
    InvalidField,
    /// A file could not be read or a directory not walked.
    Io,
    /// A whole source could not be scanned.
    Provider,
}

/// A problem that did not stop a scan.
#[derive(Debug, PartialEq, Eq)]
pub struct ScanWarning {
    /// What kind of problem it is.
    pub kind: WarningKind,
    /// The file it is about, if any.
    pub path: Option<String>,
    /// The line it is about, counted from one, if any.
    pub line: Option<usize>,
    /// What to tell the user.
    pub message: String,
}

/// The model of a `ScanWarning`.
pub struct WarningView {
    pub kind: WarningKind,
    pub path: Option<Seq<char>>,
    pub line: Option<usize>,
    pub message: Seq<char>,
}

impl View for ScanWarning {
    type V = WarningView;

    open spec fn view(&self) -> WarningView {
        WarningView {
            kind: self.kind,
            path: opt_view(self.path),
            line: self.line,
            message: self.message@,
        }
    }
}

impl ScanWarning {
    /// A warning that names no file and no line.
    pub fn new(kind: WarningKind, message: &str) -> (r: ScanWarning)
        ensures
            r@ == (WarningView { kind, path: None, line: None, message: message@ }),
    {
        ScanWarning { kind, path: None, line: None, message: message.to_owned() }
    }

    /// The same warning about the file `path`.
    pub fn with_path(self, path: &str) -> (r: ScanWarning)
        ensures
            r@ == (WarningView { path: Some(path@), ..self@ }),
    {
        ScanWarning {
            kind: self.kind,
            path: Some(path.to_owned()),
            line: self.line,
            message: self.message,
        }
    }

    /// The same warning about line `line`, counted from one.
    pub fn with_line(self, line: usize) -> (r: ScanWarning)
        ensures
            r@ == (WarningView { line: Some(line), ..self@ }),
    {
        ScanWarning { kind: self.kind, path: self.path, line: Some(line), message: self.message }
    }
}

impl Clone for ScanWarning {
    fn clone(&self) -> (r: ScanWarning)
        ensures
            r@ == self@,
    {
        ScanWarning {
            kind: self.kind,
            path: copy_text(&self.path),
            line: self.line,
            message: self.message.clone(),
        }
    }
}

/// Copies of the warnings of `v`, in order.
pub fn copy_warnings(v: &Vec<ScanWarning>) -> (r: Vec<ScanWarning>)
    ensures
        views(r@) == views(v@),
{
    let mut r: Vec<ScanWarning> = Vec::new();
    let mut i: usize = 0;
    while i < v.len()
        invariant
            i <= v@.len(),
            views(r@) == views(v@).take(i as int),
        decreases v@.len() - i,
    {
        let ghost before = r@;
        r.push(v[i].clone());
        proof {
            lemma_views_push(before, r@.last());
            assert(views(v@).take(i + 1) == views(v@).take(i as int).push(v@[i as int]@));
        }
        i = i + 1;
    }
    proof {
        assert(views(v@).take(v@.len() as int) == views(v@));
    }
    r
}

/// Whether the official command of its source can resume a session.
#[derive(Debug, Clone, Copy, PartialEq, Eq, Structural)]
pub enum ResumeState {
    /// The session file and the agent CLI are there.
    Ready,
    /// The agent CLI is not installed or not on `PATH`.
    CliMissing,
    /// The session file is gone.
    SessionMissing,
    /// The model provider of the session is not configured.
    ProviderMissing,
    /// The source cannot resume such a session.
    Unsupported,
    /// Something else stands in the way.
    Blocked,
}

/// A resume state and what to tell the user about it.
#[derive(Debug, PartialEq, Eq)]
pub struct ResumeStatus {
    /// The state that decisions are made by.
    pub state: ResumeState,
    /// What to tell the user, if anything.
    pub message: Option<String>,
}

/// The model of a `ResumeStatus`.
pub struct StatusView {
    pub state: ResumeState,
    pub message: Option<Seq<char>>,
}

impl View for ResumeStatus {
    type V = StatusView;

    open spec fn view(&self) -> StatusView {
        StatusView { state: self.state, message: opt_view(self.message) }
    }
}

/// The status of a session that can be resumed.
pub open spec fn ready_status() -> StatusView {
    StatusView { state: ResumeState::Ready, message: None }
}

/// The status of a session that cannot be resumed for the reason `message`.
pub open spec fn blocked_status(state: ResumeState, message: Seq<char>) -> StatusView {
    StatusView { state, message: Some(message) }
}

impl ResumeStatus {
    /// The status of a session that can be resumed.
    pub fn ready() -> (r: ResumeStatus)
        ensures
            r@ == ready_status(),
    {
        ResumeStatus { state: ResumeState::Ready, message: None }
    }

    /// The status of a session that cannot be resumed for the reason `message`.
    pub fn blocked(state: ResumeState, message: &str) -> (r: ResumeStatus)
        ensures
            r@ == blocked_status(state, message@),
    {
        ResumeStatus { state, message: Some(message.to_owned()) }
    }

    /// Whether the resume command may be run.
    pub fn is_ready(&self) -> (r: bool)
        ensures
            r == (self@.state == ResumeState::Ready),
    {
        self.state == ResumeState::Ready
    }
}

impl Clone for ResumeStatus {
    fn clone(&self) -> (r: ResumeStatus)
        ensures
            r@ == self@,
    {
        ResumeStatus { state: self.state, message: copy_text(&self.message) }
    }
}

/// One local session of any agent source.
#[derive(Debug)]
pub struct Session {
    /// Stable id within the source.
    pub id: String,
    /// The source that created the session.
    pub source: SourceId,
    /// Title, usually from the source's own index.
    pub title: Option<String>,
    /// Short redacted summary, never a full prompt.
    pub summary: Option<String>,
    /// Working directory.
    pub cwd: Option<String>,
    /// Project name for grouping and filtering.
    pub project: String,
    /// Creation time in UTC.
    pub created_at: Timestamp,
    /// Time of the last update in UTC.
    pub updated_at: Timestamp,
    /// Model of the latest turn.
    pub model: Option<String>,
    /// Model provider that the history names.
    pub model_provider: Option<String>,
    /// Interaction type.
    pub interaction: InteractionType,
    /// The file that was scanned.
    pub raw_path: String,
    /// Problems met while reading this session.
    pub warnings: Vec<ScanWarning>,
    /// Whether it can be resumed here.
    pub resume: ResumeStatus,
}

/// The model of a `Session`.
pub struct SessionView {
    pub id: Seq<char>,
    pub source: Seq<char>,
    pub title: Option<Seq<char>>,
    pub summary: Option<Seq<char>>,
    pub cwd: Option<Seq<char>>,
    pub project: Seq<char>,
    pub created_at: (int, int),
    pub updated_at: (int, int),
    pub model: Option<Seq<char>>,
    pub model_provider: Option<Seq<char>>,
    pub interaction: InteractionType,
    pub raw_path: Seq<char>,
    pub warnings: Seq<WarningView>,
    pub resume: StatusView,
}

impl View for Session {
    type V = SessionView;

    open spec fn view(&self) -> SessionView {
        SessionView {
            id: self.id@,
            source: self.source@,
            title: opt_view(self.title),
            summary: opt_view(self.summary),
            cwd: opt_view(self.cwd),
            project: self.project@,
            created_at: self.created_at@,
            updated_at: self.updated_at@,
            model: opt_view(self.model),
            model_provider: opt_view(self.model_provider),
            interaction: self.interaction,
            raw_path: self.raw_path@,
            warnings: views(self.warnings@),
            resume: self.resume@,
        }
    }
}

impl Clone for Session {
    fn clone(&self) -> (r: Session)
        ensures
            r@ == self@,
    {
        Session {
            id: self.id.clone(),
            source: self.source.clone(),
            title: copy_text(&self.title),
            summary: copy_text(&self.summary),
            cwd: copy_text(&self.cwd),
            project: self.project.clone(),
            created_at: self.created_at,
            updated_at: self.updated_at,
            model: copy_text(&self.model),
            model_provider: copy_text(&self.model_provider),
            interaction: self.interaction,
            raw_path: self.raw_path.clone(),
            warnings: copy_warnings(&self.warnings),
            resume: self.resume.clone(),
        }
    }
}

/// Whether `path` starts at the root of a drive, as `C:\` does.
pub open spec fn starts_at_drive(path: Seq<char>) -> bool {
    has_drive(path) && path.len() > 2 && path[2] == '\\'
}

/// The project of the working directory `cwd`: its last component, or `unknown`. A directory of a
/// drive is read as Windows reads it, wherever that is done.
pub open spec fn project_name(cwd: Option<Seq<char>>, windows: bool) -> Seq<char> {
    match cwd {
        Some(path) => match name_of(path, windows || starts_at_drive(path)) {
            Some(name) => if is_blank(name) {
                "unknown"@
            } else {
                name
            },
            None => "unknown"@,
        },
        None => "unknown"@,
    }
}

/// The text that a search for the session `s` looks at.
pub open spec fn search_text(s: SessionView) -> Seq<char> {
    s.id + " "@ + or_empty(s.title) + " "@ + or_empty(s.summary) + " "@ + s.project + " "@
        + or_empty(s.cwd)
}

/// The title of a session, or its summary, or its id.
pub open spec fn shown_title(s: SessionView) -> Seq<char> {
    or_text(s.title, or_text(s.summary, s.id))
}

fn on_drive(path: &str) -> (r: bool)
    ensures
        r == starts_at_drive(path@),
{
    let v = chars_of(path);
    v.len() > 2 && v[1] == ':' && v[2] == '\\' && (('a' <= v[0] && v[0] <= 'z') || ('A' <= v[0] && v[0]
        <= 'Z'))
}

impl Session {
    /// The project of a working directory: its last component; a root or a missing directory
    /// belongs to `unknown`. A directory of a drive is read as Windows reads it, wherever that is
    /// done.
    pub fn project_from_cwd(cwd: Option<&str>, windows: bool) -> (r: String)
        ensures
            r@ == project_name(opt_view(cwd), windows),
    {
        if let Some(path) = cwd {
            if let Some(name) = file_name(path, windows || on_drive(path)) {
                if !blank(name.as_str()) {
                    return name;
                }
            }
        }
        "unknown".to_owned()
    }

    /// The text that a fuzzy search looks at: id, title, summary, project and directory.
    pub fn searchable_text(&self) -> (r: String)
        ensures
            r@ == search_text(self@),
    {
        let head = cat5(
            self.id.as_str(),
            " ",
            text_or(&self.title, ""),
            " ",
            text_or(&self.summary, ""),
        );
        let tail = cat5(head.as_str(), " ", self.project.as_str(), " ", text_or(&self.cwd, ""));
        proof {
            reveal_strlit("");
            assert(""@ == Seq::<char>::empty());
        }
        tail
    }

    /// The title to show: the title, else the summary, else the id.
    pub fn display_title(&self) -> (r: &str)
        ensures
            r@ == shown_title(self@),
    {
        match &self.title {
            Some(title) => title.as_str(),
            None => text_or(&self.summary, self.id.as_str()),
        }
    }
}

/// The sessions and the problems that one or more scans found.
#[derive(Debug)]
pub struct ScanReport {
    /// Every session that could be read.
    pub sessions: Vec<Session>,
    /// Every problem that did not stop a scan.
    pub warnings: Vec<ScanWarning>,
}

/// The model of a `ScanReport`.
pub struct ReportView {
    pub sessions: Seq<SessionView>,
    pub warnings: Seq<WarningView>,
}

impl View for ScanReport {
    type V = ReportView;

    open spec fn view(&self) -> ReportView {
        ReportView { sessions: views(self.sessions@), warnings: views(self.warnings@) }
    }
}

/// A report of nothing.
pub open spec fn empty_report() -> ReportView {
    ReportView { sessions: Seq::empty(), warnings: Seq::empty() }
}

/// What the reports `a` and `b` hold together, first `a`, then `b`.
pub open spec fn merged(a: ReportView, b: ReportView) -> ReportView {
    ReportView { sessions: a.sessions + b.sessions, warnings: a.warnings + b.warnings }
}

impl Default for ScanReport {
    fn default() -> (r: ScanReport)
        ensures
            r@ == empty_report(),
    {
        let r = ScanReport { sessions: Vec::new(), warnings: Vec::new() };
        proof {
            assert(views(r.sessions@) == Seq::<SessionView>::empty());
            assert(views(r.warnings@) == Seq::<WarningView>::empty());
        }
        r
    }
}

impl Clone for ScanReport {
    fn clone(&self) -> (r: ScanReport)
        ensures
            r@ == self@,
    {
        ScanReport {
            sessions: copy_sessions(&self.sessions),
            warnings: copy_warnings(&self.warnings),
        }
    }
}

/// Copies of the sessions of `v`, in order.
pub fn copy_sessions(v: &Vec<Session>) -> (r: Vec<Session>)
    ensures
        views(r@) == views(v@),
{
    let mut r: Vec<Session> = Vec::new();
    let mut i: usize = 0;
    while i < v.len()
        invariant
            i <= v@.len(),
            views(r@) == views(v@).take(i as int),
        decreases v@.len() - i,
    {
        let ghost before = r@;
        r.push(v[i].clone());
        proof {
            lemma_views_push(before, r@.last());
            assert(views(v@).take(i + 1) == views(v@).take(i as int).push(v@[i as int]@));
        }
        i = i + 1;
    }
    proof {
        assert(views(v@).take(v@.len() as int) == views(v@));
    }
    r
}

impl ScanReport {
    /// Adds all that another scan found after what is there.
    pub fn extend(&mut self, other: ScanReport)
        ensures
            final(self)@ == merged(old(self)@, other@),
    {
        broadcast use lemma_views_add;

        let mut sessions = other.sessions;
        let mut warnings = other.warnings;
        self.sessions.append(&mut sessions);
        self.warnings.append(&mut warnings);
    }
}

/// The title and summary that a source reads on request.
#[derive(Debug, PartialEq, Eq)]
pub struct SessionSummary {
    /// Shortened and redacted title.
    pub title: Option<String>,
    /// Shortened and redacted summary.
    pub summary: Option<String>,
}

/// The model of a `SessionSummary`.
pub struct SummaryView {
    pub title: Option<Seq<char>>,
    pub summary: Option<Seq<char>>,
}

impl View for SessionSummary {
    type V = SummaryView;

    open spec fn view(&self) -> SummaryView {
        SummaryView { title: opt_view(self.title), summary: opt_view(self.summary) }
    }
}

impl Clone for SessionSummary {
    fn clone(&self) -> (r: SessionSummary)
        ensures
            r@ == self@,
    {
        SessionSummary { title: copy_text(&self.title), summary: copy_text(&self.summary) }
    }
}

/// Something that a source can do.
#[derive(Debug, Clone, Copy, PartialEq, Eq, Structural)]
pub enum ProviderCapability {
    /// Scan local sessions.
    Scan,
    /// Read summaries.
    Summary,
    /// Resume sessions.
    Resume,
    /// Diagnose its environment.
    Diagnose,
    /// Add an alias for a model provider.
    RepairProvider,
}

/// The stable id of a source and what it can do.
#[derive(Debug)]
pub struct SourceDescriptor {
    /// Stable id for filters and lookups.
    pub id: SourceId,
    /// Name for users.
    pub display_name: String,
    /// Short description.
    pub description: String,
    /// What it can do.
    pub capabilities: Vec<ProviderCapability>,
}

/// The model of a `SourceDescriptor`.
pub struct DescriptorView {
    pub id: Seq<char>,
    pub display_name: Seq<char>,
    pub description: Seq<char>,
    pub capabilities: Seq<ProviderCapability>,
}

impl View for SourceDescriptor {
    type V = DescriptorView;

    open spec fn view(&self) -> DescriptorView {
        DescriptorView {
            id: self.id@,
            display_name: self.display_name@,
            description: self.description@,
            capabilities: self.capabilities@,
        }
    }
}

/// How bad a diagnostic is.
#[derive(Debug, Clone, Copy, PartialEq, Eq, Structural)]
pub enum DiagnosticSeverity {
    /// All is well.
    Info,
    /// Something may not work.
    Warning,
    /// A core function does not work.
    Error,
}

/// The result of one check of an environment.
#[derive(Debug)]
pub struct Diagnostic {
    /// Stable short name of the check.
    pub name: String,
    /// How bad it is.
    pub severity: DiagnosticSeverity,
    /// The result, free of secrets.
    pub message: String,
    /// What to do about it, if anything.
    pub suggestion: Option<String>,
}

/// The model of a `Diagnostic`.
pub struct DiagnosticView {
    pub name: Seq<char>,
    pub severity: DiagnosticSeverity,
    pub message: Seq<char>,
    pub suggestion: Option<Seq<char>>,
}

impl View for Diagnostic {
    type V = DiagnosticView;

    open spec fn view(&self) -> DiagnosticView {
        DiagnosticView {
            name: self.name@,
            severity: self.severity,
            message: self.message@,
            suggestion: opt_view(self.suggestion),
        }
    }
}

impl Diagnostic {
    /// A diagnostic that suggests nothing.
    pub fn plain(name: &str, severity: DiagnosticSeverity, message: &str) -> (r: Diagnostic)
        ensures
            r@ == (DiagnosticView { name: name@, severity, message: message@, suggestion: None }),
    {
        Diagnostic {
            name: name.to_owned(),
            severity,
            message: message.to_owned(),
            suggestion: None,
        }
    }

    /// A diagnostic that suggests what to do.
    pub fn advised(
        name: &str,
        severity: DiagnosticSeverity,
        message: &str,
        suggestion: &str,
    ) -> (r: Diagnostic)
        ensures
            r@ == (DiagnosticView {
                name: name@,
                severity,
                message: message@,
                suggestion: Some(suggestion@),
            }),
    {
        Diagnostic {
            name: name.to_owned(),
            severity,
            message: message.to_owned(),
            suggestion: Some(suggestion.to_owned()),
        }
    }
}

/// Whether `s` can stand unquoted among other arguments.
pub open spec fn is_plain_argument(s: Seq<char>) -> bool {
    forall|i: int| 0 <= i < s.len() ==> !is_space(#[trigger] s[i]) && s[i] != '"'
}

/// `s` with a backslash before every double quote.
pub open spec fn escaped(s: Seq<char>) -> Seq<char>
    decreases s.len(),
{
    if s.len() == 0 {
        s
    } else if s.last() == '"' {
        escaped(s.drop_last()).push('\\').push('"')
    } else {
        escaped(s.drop_last()).push(s.last())
    }
}

/// `s` as it is shown among the arguments of a command.
pub open spec fn quoted(s: Seq<char>) -> Seq<char> {
    if is_plain_argument(s) {
        s
    } else {
        seq!['"'] + escaped(s) + seq!['"']
    }
}

/// The program and its arguments as they are shown, separated by spaces.
pub open spec fn command_line(program: Seq<char>, args: Seq<Seq<char>>) -> Seq<char>
    decreases args.len(),
{
    if args.len() == 0 {
        quoted(program)
    } else {
        command_line(program, args.drop_last()) + " "@ + quoted(args.last())
    }
}

/// A command to run, its arguments kept apart: no shell reads them again.
#[derive(Debug, PartialEq, Eq)]
pub struct CommandSpec {
    /// Path or name of the program.
    pub program: String,
    /// The arguments, one by one.
    pub args: Vec<String>,
}

/// The model of a `CommandSpec`.
pub struct CommandView {
    pub program: Seq<char>,
    pub args: Seq<Seq<char>>,
}

impl View for CommandSpec {
    type V = CommandView;

    open spec fn view(&self) -> CommandView {
        CommandView { program: self.program@, args: views(self.args@) }
    }
}

impl CommandSpec {
    /// A command of a program and its arguments.
    pub fn new(program: &str, args: Vec<String>) -> (r: CommandSpec)
        ensures
            r@ == (CommandView { program: program@, args: views(args@) }),
    {
        CommandSpec { program: program.to_owned(), args }
    }

    /// The command as text for users; it is never run from this text.
    pub fn display(&self) -> (r: String)
        ensures
            r@ == command_line(self@.program, self@.args),
    {
        let mut r = quote_argument(self.program.as_str());
        let mut i: usize = 0;
        proof {
            assert(views(self.args@).take(0) == Seq::<Seq<char>>::empty());
        }
        while i < self.args.len()
            invariant
                i <= self.args@.len(),
                r@ == command_line(self.program@, views(self.args@).take(i as int)),
            decreases self.args@.len() - i,
        {
            let shown = quote_argument(self.args[i].as_str());
            r.append(" ");
            r.append(shown.as_str());
            proof {
                let next = views(self.args@).take(i + 1);
                assert(next.drop_last() == views(self.args@).take(i as int));
                assert(next.last() == self.args@[i as int]@);
            }
            i = i + 1;
        }
        proof {
            assert(views(self.args@).take(self.args@.len() as int) == views(self.args@));
        }
        r
    }
}

impl Clone for CommandSpec {
    fn clone(&self) -> (r: CommandSpec)
        ensures
            r@ == self@,
    {
        CommandSpec { program: self.program.clone(), args: copy_texts(&self.args) }
    }
}

/// Copies of the texts of `v`, in order.
pub fn copy_texts(v: &Vec<String>) -> (r: Vec<String>)
    ensures
        views(r@) == views(v@),
{
    let mut r: Vec<String> = Vec::new();
    let mut i: usize = 0;
    while i < v.len()
        invariant
            i <= v@.len(),
            views(r@) == views(v@).take(i as int),
        decreases v@.len() - i,
    {
        let ghost before = r@;
        r.push(v[i].clone());
        proof {
            lemma_views_push(before, r@.last());
            assert(views(v@).take(i + 1) == views(v@).take(i as int).push(v@[i as int]@));
        }
        i = i + 1;
    }
    proof {
        assert(views(v@).take(v@.len() as int) == views(v@));
    }
    r
}

/// What the user allowed a repair to do.
#[derive(Debug, Clone, Copy, PartialEq, Eq, Structural)]
pub struct RepairOptions {
    /// Whether the user agreed to change the configuration.
    pub confirmed: bool,
}

impl Default for RepairOptions {
    fn default() -> (r: RepairOptions)
        ensures
            !r.confirmed,
    {
        RepairOptions { confirmed: false }
    }
}

/// What a repair of the provider configuration did.
#[derive(Debug, PartialEq, Eq)]
pub struct RepairReport {
    /// The configuration file.
    pub config_path: String,
    /// The copy made before it was changed.
    pub backup_path: Option<String>,
    /// The alias that was asked for.
    pub alias: String,
    /// Whether the file was changed.
    pub changed: bool,
    /// What to tell the user.
    pub message: String,
}

/// The model of a `RepairReport`.
pub struct RepairView {
    pub config_path: Seq<char>,
    pub backup_path: Option<Seq<char>>,
    pub alias: Seq<char>,
    pub changed: bool,
    pub message: Seq<char>,
}

impl View for RepairReport {
    type V = RepairView;

    open spec fn view(&self) -> RepairView {
        RepairView {
            config_path: self.config_path@,
            backup_path: opt_view(self.backup_path),
            alias: self.alias@,
            changed: self.changed,
            message: self.message@,
        }
    }
}

impl Clone for RepairReport {
    fn clone(&self) -> (r: RepairReport)
        ensures
            r@ == self@,
    {
        RepairReport {
            config_path: self.config_path.clone(),
            backup_path: copy_text(&self.backup_path),
            alias: self.alias.clone(),
            changed: self.changed,
            message: self.message.clone(),
        }
    }
}

/// `argument` as it is shown among the arguments of a command; it plays no part in running it.
pub fn quote_argument(argument: &str) -> (r: String)
    ensures
        r@ == quoted(argument@),
{
    let v = chars_of(argument);
    let mut plain = true;
    let mut inner = String::new();
    let mut i: usize = 0;
    while i < v.len()
        invariant
            v@ == argument@,
            i <= v@.len(),
            plain == is_plain_argument(argument@.take(i as int)),
            inner@ == escaped(argument@.take(i as int)),
        decreases v@.len() - i,
    {
        let c = v[i];
        proof {
            let head = argument@.take(i as int);
            let next = argument@.take(i + 1);
            assert(next.drop_last() == head);
            assert(next.last() == c);
            if is_plain_argument(head) && !is_space(c) && c != '"' {
                assert forall|k: int| 0 <= k < next.len() implies !is_space(#[trigger] next[k])
                    && next[k] != '"' by {
                    if k < head.len() {
                        assert(next[k] == head[k]);
                    }
                }
            }
            if is_plain_argument(next) {
                assert forall|k: int| 0 <= k < head.len() implies !is_space(#[trigger] head[k])
                    && head[k] != '"' by {
                    assert(next[k] == head[k]);
                }
                assert(!is_space(next[i as int]));
            }
        }
        if is_whitespace(c) || c == '"' {
            plain = false;
        }
        if c == '"' {
            inner.push('\\');
        }
        inner.push(c);
        i = i + 1;
    }
    proof {
        assert(argument@.take(argument@.len() as int) == argument@);
        reveal_strlit("\"");
        assert("\""@ == seq!['"']);
    }
    if plain {
        argument.to_owned()
    } else {
        cat3("\"", inner.as_str(), "\"")
    }
}

} // verus!
