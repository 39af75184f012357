//! What an agent source provides, and the sources that are registered.

pub mod codex;
pub mod report_laws;

use vstd::prelude::*;

use crate::domain::{
    empty_report, merged, CommandSpec, Diagnostic, RepairOptions, RepairReport, ReportView, ResumeStatus,
    ScanReport, ScanWarning, Session, SessionSummary, SourceDescriptor, SourceId, WarningKind, WarningView,
};
use crate::model::{opt_view, views};
use crate::text::{cat, cat4, same_text};

verus! {

/// Why a source could not do what it was asked to.
#[derive(Debug)]
pub enum ProviderError {
    /// A file or directory could not be used.
    Io {
        /// The file or directory.
        path: String,
        /// The error of the system.
        source: String,
    },
    /// The data of a session is not enough to work with.
    InvalidData {
        /// The file.
        path: String,
        /// The line, counted from one, if any.
        line: Option<usize>,
        /// Why, without the text that was read.
        reason: String,
    },
    /// The agent CLI is not there.
    CommandUnavailable {
        /// Its name.
        program: String,
    },
    /// The source has no such function.
    Unsupported {
        /// The source.
        provider_id: SourceId,
        /// What was asked for.
        operation: &'static str,
    },
    /// The configuration is not what it should be.
    Config {
        /// Why, free of secrets.
        message: String,
    },
    /// A command failed.
    Process {
        /// Its name.
        program: String,
        /// Its exit code, if it ended by itself.
        exit_code: Option<i32>,
    },
    /// A repair of the configuration failed.
    Repair {
        /// Why, free of secrets.
        message: String,
        /// The copy of the configuration made before, if there is one.
        backup_path: Option<String>,
    },
}

/// The model of a `ProviderError`.
pub enum ErrorView {
    Io { path: Seq<char>, source: Seq<char> },
    InvalidData { path: Seq<char>, line: Option<usize>, reason: Seq<char> },
    CommandUnavailable { program: Seq<char> },
    Unsupported { provider_id: Seq<char>, operation: Seq<char> },
    Config { message: Seq<char> },
    Process { program: Seq<char>, exit_code: Option<i32> },
    Repair { message: Seq<char>, backup_path: Option<Seq<char>> },
}

impl View for ProviderError {
    type V = ErrorView;

    open spec fn view(&self) -> ErrorView {
        match self {
            ProviderError::Io { path, source } => ErrorView::Io { path: path@, source: source@ },
            ProviderError::InvalidData { path, line, reason } => ErrorView::InvalidData {
                path: path@,
                line: *line,
                reason: reason@,
            },
            ProviderError::CommandUnavailable { program } => ErrorView::CommandUnavailable {
                program: program@,
            },
            ProviderError::Unsupported { provider_id, operation } => ErrorView::Unsupported {
                provider_id: provider_id@,
                operation: operation@,
            },
            ProviderError::Config { message } => ErrorView::Config { message: message@ },
            ProviderError::Process { program, exit_code } => ErrorView::Process {
                program: program@,
                exit_code: *exit_code,
            },
            ProviderError::Repair { message, backup_path } => ErrorView::Repair {
                message: message@,
                backup_path: opt_view(*backup_path),
            },
        }
    }
}

/// What to tell the user about the error `e`.
pub open spec fn error_text(e: ErrorView) -> Seq<char> {
    match e {
        ErrorView::Io { path, source } => "无法访问 "@ + path + ": "@ + source,
        ErrorView::InvalidData { reason, .. } => "会话数据无效: "@ + reason,
        ErrorView::CommandUnavailable { program } => "找不到 Agent CLI: "@ + program,
        ErrorView::Unsupported { provider_id, operation } => "来源 "@ + provider_id + " 不支持 "@
            + operation,
        ErrorView::Config { message } => "配置错误: "@ + message,
        ErrorView::Process { program, .. } => "外部命令执行失败: "@ + program,
        ErrorView::Repair { message, .. } => "配置修复失败: "@ + message,
    }
}

impl ProviderError {
    /// What to tell the user.
    pub fn message(&self) -> (r: String)
        ensures
            r@ == error_text(self@),
    {
        match self {
            ProviderError::Io { path, source } => cat4(
                "无法访问 ",
                path.as_str(),
                ": ",
                source.as_str(),
            ),
            ProviderError::InvalidData { reason, .. } => cat("会话数据无效: ", reason.as_str()),
            ProviderError::CommandUnavailable { program } => cat(
                "找不到 Agent CLI: ",
                program.as_str(),
            ),
            ProviderError::Unsupported { provider_id, operation } => cat4(
                "来源 ",
                provider_id.as_str(),
                " 不支持 ",
                operation,
            ),
            ProviderError::Config { message } => cat("配置错误: ", message.as_str()),
            ProviderError::Process { program, .. } => cat("外部命令执行失败: ", program.as_str()),
            ProviderError::Repair { message, .. } => cat("配置修复失败: ", message.as_str()),
        }
    }
}

/// What every agent source does: scan, summarise, resume and diagnose.
pub trait SessionProvider: Send + Sync {
    /// The id of the source, its description and what it can do.
    fn descriptor(&self) -> SourceDescriptor;

    /// Scans the local sessions without changing them. A problem with one file is a warning of the
    /// report and does not stop the scan.
    fn scan_sessions(&self) -> Result<ScanReport, ProviderError>;

    /// Reads the redacted title and summary of one session file.
    fn read_summary(&self, raw_path: &str) -> Result<SessionSummary, ProviderError>;

    /// Checks whether the session can be resumed here.
    fn check_resume(&self, session: &Session) -> Result<ResumeStatus, ProviderError>;

    /// Makes the command of the source that resumes the session.
    fn build_resume_command(&self, session: &Session) -> Result<CommandSpec, ProviderError>;

    /// Makes the URI of the session in the desktop app of the source, where it has one.
    fn build_app_uri(&self, session: &Session) -> (r: Result<Option<String>, ProviderError>)
        default_ensures
            r == Ok::<Option<String>, ProviderError>(None),
    {
        Ok(None)
    }

    /// Checks the CLI, the configuration and the session directories.
    fn diagnose(&self) -> Vec<Diagnostic>;

    /// Adds an alias for the model provider of the session to the configuration, where the source
    /// can do that.
    fn repair_model_provider(&self, session: &Session, options: RepairOptions) -> (r: Result<
        RepairReport,
        ProviderError,
    >)
        default_ensures
            r matches Err(ProviderError::Unsupported { provider_id, operation }) && operation@
                == "模型提供商修复"@ && exists|d: SourceDescriptor| #[trigger]
                call_ensures(Self::descriptor, (self,), d) && d.id == provider_id,
    {
        let descriptor = self.descriptor();
        Err(
            ProviderError::Unsupported {
                provider_id: descriptor.id,
                operation: "模型提供商修复",
            },
        )
    }
}

/// What came of scanning one source.
#[derive(Debug)]
pub enum ScanOutcome {
    /// What was found.
    Scanned(ScanReport),
    /// The source failed as a whole.
    Failed {
        /// The source.
        source: SourceId,
        /// Why.
        error: ProviderError,
    },
}

/// The model of a `ScanOutcome`.
pub enum OutcomeView {
    Scanned(ReportView),
    Failed { source: Seq<char>, error: ErrorView },
}

impl View for ScanOutcome {
    type V = OutcomeView;

    open spec fn view(&self) -> OutcomeView {
        match self {
            ScanOutcome::Scanned(report) => OutcomeView::Scanned(report@),
            ScanOutcome::Failed { source, error } => OutcomeView::Failed {
                source: source@,
                error: error@,
            },
        }
    }
}

/// The warning that the source `source` failed with `error`.
pub open spec fn failure_warning(source: Seq<char>, error: ErrorView) -> WarningView {
    WarningView {
        kind: WarningKind::Provider,
        path: None,
        line: None,
        message: "来源 "@ + source + " 扫描失败: "@ + error_text(error),
    }
}

/// What one outcome adds to a report.
pub open spec fn report_of(outcome: OutcomeView) -> ReportView {
    match outcome {
        OutcomeView::Scanned(report) => report,
        OutcomeView::Failed { source, error } => ReportView {
            sessions: Seq::empty(),
            warnings: seq![failure_warning(source, error)],
        },
    }
}

/// What the outcomes add up to, in order.
pub open spec fn combined(outcomes: Seq<OutcomeView>) -> ReportView
    decreases outcomes.len(),
{
    if outcomes.len() == 0 {
        empty_report()
    } else {
        merged(combined(outcomes.drop_last()), report_of(outcomes.last()))
    }
}

/// Adds up what came of scanning each source; a source that failed becomes one warning.
pub fn combine_scans(outcomes: Vec<ScanOutcome>) -> (r: ScanReport)
    ensures
        r@ == combined(views(outcomes@)),
{
    let ghost all = outcomes@;
    let mut r = ScanReport::default();
    for outcome in it: outcomes.into_iter()
        invariant
            it.seq() == all,
            r@ == combined(views(all).take(it.index() as int)),
    {
        proof {
            let next = views(all).take(it.index() + 1);
            assert(next.drop_last() == views(all).take(it.index() as int));
            assert(next.last() == outcome@);
        }
        match outcome {
            ScanOutcome::Scanned(report) => r.extend(report),
            ScanOutcome::Failed { source, error } => {
                let reason = error.message();
                let text = cat4("来源 ", source.as_str(), " 扫描失败: ", reason.as_str());
                let mut failed = ScanReport::default();
                failed.warnings.push(ScanWarning::new(WarningKind::Provider, text.as_str()));
                proof {
                    assert(views(failed.warnings@) =~= seq![failure_warning(source@, error@)]);
                }
                r.extend(failed);
            },
        }
    }
    proof {
        assert(views(all).take(all.len() as int) == views(all));
    }
    r
}

/// A source that failed takes no session of another source away: without it the sessions are the
/// same, and there is one warning less.
pub proof fn failed_source_is_isolated(outcomes: Seq<OutcomeView>, i: int)
    requires
        0 <= i < outcomes.len(),
        outcomes[i] is Failed,
    ensures
        combined(outcomes.remove(i)).sessions == combined(outcomes).sessions,
        combined(outcomes.remove(i)).warnings.len() + 1 == combined(outcomes).warnings.len(),
    decreases outcomes.len(),
{
    let rest = outcomes.drop_last();
    if i == outcomes.len() - 1 {
        assert(outcomes.remove(i) =~= rest);
        assert(combined(outcomes).sessions =~= combined(rest).sessions);
    } else {
        failed_source_is_isolated(rest, i);
        assert(outcomes.remove(i).drop_last() =~= rest.remove(i));
        assert(outcomes.remove(i).last() == outcomes.last());
    }
}

/// Every session that a source found is in the combined report, and every source that failed has
/// its warning there.
pub proof fn every_outcome_is_reported(outcomes: Seq<OutcomeView>, i: int)
    requires
        0 <= i < outcomes.len(),
    ensures
        forall|k: int|
            0 <= k < report_of(outcomes[i]).sessions.len() ==> combined(outcomes).sessions.contains(
                #[trigger] report_of(outcomes[i]).sessions[k],
            ),
        forall|k: int|
            0 <= k < report_of(outcomes[i]).warnings.len() ==> combined(outcomes).warnings.contains(
                #[trigger] report_of(outcomes[i]).warnings[k],
            ),
    decreases outcomes.len(),
{
    let rest = outcomes.drop_last();
    let all = combined(outcomes);
    let before = combined(rest);
    let last = report_of(outcomes.last());
    let mine = report_of(outcomes[i]);
    if i == outcomes.len() - 1 {
        assert forall|k: int| 0 <= k < mine.sessions.len() implies all.sessions.contains(
            #[trigger] mine.sessions[k],
        ) by {
            assert(all.sessions[before.sessions.len() + k] == mine.sessions[k]);
        }
        assert forall|k: int| 0 <= k < mine.warnings.len() implies all.warnings.contains(
            #[trigger] mine.warnings[k],
        ) by {
            assert(all.warnings[before.warnings.len() + k] == mine.warnings[k]);
        }
    } else {
        every_outcome_is_reported(rest, i);
        assert(rest[i] == outcomes[i]);
        assert forall|k: int| 0 <= k < mine.sessions.len() implies all.sessions.contains(
            #[trigger] mine.sessions[k],
        ) by {
            let s = mine.sessions[k];
            let j = choose|j: int| 0 <= j < before.sessions.len() && before.sessions[j] == s;
            assert(all.sessions[j] == s);
        }
        assert forall|k: int| 0 <= k < mine.warnings.len() implies all.warnings.contains(
            #[trigger] mine.warnings[k],
        ) by {
            let w = mine.warnings[k];
            let j = choose|j: int| 0 <= j < before.warnings.len() && before.warnings[j] == w;
            assert(all.warnings[j] == w);
        }
    }
}

/// The first of `ids` that is `source`.
pub fn find_source(ids: &Vec<SourceId>, source: &SourceId) -> (r: Option<usize>)
    ensures
        match r {
            Some(i) => {
                &&& i < ids@.len()
                &&& ids@[i as int]@ == source@
                &&& forall|k: int| 0 <= k < i ==> (#[trigger] ids@[k])@ != source@
            },
            None => forall|k: int| 0 <= k < ids@.len() ==> (#[trigger] ids@[k])@ != source@,
        },
        r is None <==> !views(ids@).contains(source@),
{
    let mut i: usize = 0;
    while i < ids.len()
        invariant
            i <= ids@.len(),
            forall|k: int| 0 <= k < i ==> (#[trigger] ids@[k])@ != source@,
        decreases ids@.len() - i,
    {
        if same_text(ids[i].as_str(), source.as_str()) {
            proof {
                assert(views(ids@)[i as int] == source@);
            }
            return Some(i);
        }
        i = i + 1;
    }
    proof {
        assert forall|k: int| 0 <= k < views(ids@).len() implies views(ids@)[k] != source@ by {
            assert(ids@[k]@ != source@);
        }
    }
    None
}

/// One registered source.
pub struct Registered {
    /// The source.
    pub provider: Box<dyn SessionProvider>,
}

/// The sources that are registered, in order.
pub struct ProviderRegistry {
    providers: Vec<Registered>,
}

impl View for ProviderRegistry {
    type V = Seq<Registered>;

    closed spec fn view(&self) -> Seq<Registered> {
        self.providers@
    }
}

impl Default for ProviderRegistry {
    fn default() -> (r: ProviderRegistry)
        ensures
            r@ == Seq::<Registered>::empty(),
    {
        ProviderRegistry::new()
    }
}

/// Whether the source `provider` can describe itself as `descriptor`.
pub open spec fn describes<P: SessionProvider + ?Sized>(provider: &P, descriptor: SourceDescriptor) -> bool {
    call_ensures(P::descriptor, (provider,), descriptor)
}

/// Whether the source `provider` can give its id as `id`.
pub open spec fn gives_id<P: SessionProvider + ?Sized>(provider: &P, id: Seq<char>) -> bool {
    exists|descriptor: SourceDescriptor| #[trigger] describes(provider, descriptor) && descriptor.id@ == id
}

/// Whether `result` can come of scanning the source `provider`.
pub open spec fn scan_gives<P: SessionProvider + ?Sized>(
    provider: &P,
    result: Result<ScanReport, ProviderError>,
) -> bool {
    call_ensures(P::scan_sessions, (provider,), result)
}

/// Whether `result` can come of asking the source `provider` whether `session` can be resumed.
pub open spec fn check_gives<P: SessionProvider + ?Sized>(
    provider: &P,
    session: &Session,
    result: Result<ResumeStatus, ProviderError>,
) -> bool {
    call_ensures(P::check_resume, (provider, session), result)
}

/// Whether `result` can come of asking the source `provider` for the command that resumes `session`.
pub open spec fn command_gives<P: SessionProvider + ?Sized>(
    provider: &P,
    session: &Session,
    result: Result<CommandSpec, ProviderError>,
) -> bool {
    call_ensures(P::build_resume_command, (provider, session), result)
}

/// Whether `result` can come of asking the source `provider` for the URI of `session`.
pub open spec fn uri_gives<P: SessionProvider + ?Sized>(
    provider: &P,
    session: &Session,
    result: Result<Option<String>, ProviderError>,
) -> bool {
    call_ensures(P::build_app_uri, (provider, session), result)
}

/// Whether the source `provider` can diagnose itself with `found`.
pub open spec fn diagnosis_gives<P: SessionProvider + ?Sized>(provider: &P, found: Vec<Diagnostic>) -> bool {
    call_ensures(P::diagnose, (provider,), found)
}

/// Whether `outcome` can come of scanning the source `provider`.
pub open spec fn scan_comes_to<P: SessionProvider + ?Sized>(provider: &P, outcome: OutcomeView) -> bool {
    match outcome {
        OutcomeView::Scanned(report) => exists|found: ScanReport| #[trigger]
            scan_gives(provider, Ok(found)) && found@ == report,
        OutcomeView::Failed { source, error } => gives_id(provider, source)
            && exists|e: ProviderError| #[trigger] scan_gives(provider, Err(e)) && e@ == error,
    }
}

/// Whether the registered source `entry` can give an id other than `id`.
pub open spec fn gives_other_id(entry: Registered, id: Seq<char>) -> bool {
    exists|other: Seq<char>| other != id && #[trigger] gives_id(&*entry.provider, other)
}

/// Whether each of `entries` can give an id other than `id`.
pub open spec fn none_gives_id(entries: Seq<Registered>, id: Seq<char>) -> bool {
    forall|k: int| 0 <= k < entries.len() ==> gives_other_id(#[trigger] entries[k], id)
}

/// Whether entry `i` of `entries` gives its id as `id` and none before it needs to.
pub open spec fn is_first_with_id(entries: Seq<Registered>, i: int, id: Seq<char>) -> bool {
    &&& 0 <= i < entries.len()
    &&& gives_id(&*entries[i].provider, id)
    &&& none_gives_id(entries.take(i), id)
}

fn id_of<P: SessionProvider + ?Sized>(provider: &P) -> (r: SourceId)
    ensures
        gives_id(provider, r@),
{
    let descriptor = provider.descriptor();
    proof {
        assert(describes(provider, descriptor));
    }
    descriptor.id
}

fn scan_one<P: SessionProvider + ?Sized>(provider: &P) -> (r: ScanOutcome)
    ensures
        scan_comes_to(provider, r@),
{
    let result = provider.scan_sessions();
    proof {
        assert(scan_gives(provider, result));
    }
    match result {
        Ok(report) => ScanOutcome::Scanned(report),
        Err(error) => ScanOutcome::Failed { source: id_of(provider), error },
    }
}

impl ProviderRegistry {
    /// A registry without sources.
    pub fn new() -> (r: ProviderRegistry)
        ensures
            r@ == Seq::<Registered>::empty(),
    {
        ProviderRegistry { providers: Vec::new() }
    }

    /// Registers a boxed source, after those that are there.
    pub fn enroll(&mut self, entry: Registered)
        ensures
            final(self)@ == old(self)@.push(entry),
            final(self)@.len() == old(self)@.len() + 1,
            final(self)@.drop_last() == old(self)@,
    {
        self.providers.push(entry);
    }

    /// Registers one more source, boxed, after those that are there.
    pub fn register<P: SessionProvider + 'static>(&mut self, provider: P)
        ensures
            final(self)@.len() == old(self)@.len() + 1,
            final(self)@.drop_last() == old(self)@,
            ({
                let boxed: Box<dyn SessionProvider> = Box::new(provider);
                final(self)@ == old(self)@.push((Registered { provider: boxed }))
            }),
    {
        let boxed: Box<dyn SessionProvider> = Box::new(provider);
        self.enroll(Registered { provider: boxed });
    }

    /// The sources, in the order they were registered.
    pub fn providers(&self) -> (r: &Vec<Registered>)
        ensures
            r@ == self@,
    {
        &self.providers
    }

    /// The first source that gives its id as `source`.
    pub fn get(&self, source: &SourceId) -> (r: Option<&Registered>)
        ensures
            match r {
                Some(found) => exists|i: int| #[trigger]
                    is_first_with_id(self@, i, source@) && self@[i] == *found,
                None => none_gives_id(self@, source@),
            },
    {
        let mut ids: Vec<SourceId> = Vec::new();
        let mut i: usize = 0;
        while i < self.providers.len()
            invariant
                i <= self.providers@.len(),
                ids@.len() == i,
                forall|k: int|
                    0 <= k < i ==> gives_id(&*self.providers@[k].provider, (#[trigger] ids@[k])@),
            decreases self.providers@.len() - i,
        {
            ids.push(id_of(&*self.providers[i].provider));
            i = i + 1;
        }
        match find_source(&ids, source) {
            Some(i) => {
                proof {
                    assert(self@[i as int] == self.providers@[i as int]);
                    let before = self@.take(i as int);
                    assert forall|k: int| 0 <= k < before.len() implies gives_other_id(
                        #[trigger] before[k],
                        source@,
                    ) by {
                        assert(before[k] == self.providers@[k]);
                        assert(gives_id(&*before[k].provider, ids@[k]@));
                    }
                    assert(gives_id(&*self@[i as int].provider, ids@[i as int]@));
                    assert(is_first_with_id(self@, i as int, source@));
                }
                Some(&self.providers[i])
            },
            None => {
                proof {
                    assert forall|k: int| 0 <= k < self@.len() implies gives_other_id(
                        #[trigger] self@[k],
                        source@,
                    ) by {
                        assert(self@[k] == self.providers@[k]);
                        assert(gives_id(&*self@[k].provider, ids@[k]@));
                    }
                }
                None
            },
        }
    }

    /// Scans all sources; one that fails becomes a warning and does not stop the others.
    pub fn scan_all(&self) -> (r: ScanReport)
        ensures
            exists|outcomes: Seq<OutcomeView>|
                {
                    &&& outcomes.len() == self@.len()
                    &&& forall|i: int|
                        0 <= i < self@.len() ==> scan_comes_to(
                            &*self@[i].provider,
                            #[trigger] outcomes[i],
                        )
                    &&& r@ == #[trigger] combined(outcomes)
                },
    {
        let mut outcomes: Vec<ScanOutcome> = Vec::new();
        let mut i: usize = 0;
        while i < self.providers.len()
            invariant
                i <= self.providers@.len(),
                outcomes@.len() == i,
                forall|k: int|
                    0 <= k < i ==> scan_comes_to(
                        &*self.providers@[k].provider,
                        (#[trigger] outcomes@[k])@,
                    ),
            decreases self.providers@.len() - i,
        {
            outcomes.push(scan_one(&*self.providers[i].provider));
            i = i + 1;
        }
        proof {
            let all = views(outcomes@);
            assert forall|k: int| 0 <= k < self@.len() implies scan_comes_to(
                &*self@[k].provider,
                #[trigger] all[k],
            ) by {
                assert(all[k] == outcomes@[k]@);
                assert(self@[k] == self.providers@[k]);
            }
        }
        combine_scans(outcomes)
    }
}

} // verus!
