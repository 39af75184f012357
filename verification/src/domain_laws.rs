//! What holds of the small values that are passed around: states, warnings, instants and sources.

use vstd::prelude::*;

use crate::app::{approved, AppError, AppErrorView};
use crate::catalog::GroupBy;
use crate::dispatch::{prepare_resume_command, prepared_by, resumed_uri};
use crate::domain::{
    CommandSpec, CommandView, Diagnostic, DiagnosticSeverity, ProviderCapability, ResumeState, ResumeStatus,
    ScanWarning, Session, SourceDescriptor, SourceId, WarningKind,
};
use crate::model::{opt_view, views};
use crate::plain::not_before;
use crate::provider::codex::CodexProvider;
use crate::provider::{
    check_gives, command_gives, find_source, gives_id, gives_other_id, is_first_with_id, ProviderError,
    ProviderRegistry, Registered, SessionProvider,
};
use crate::time::Timestamp;
use crate::tui::{AppState, Layer};

verus! {

/// A status is ready exactly where its state says so; a ready one tells nothing, and one that is not
/// tells what stands in the way.
pub proof fn ready_is_one_state(
    status: ResumeStatus,
    r: bool,
    ready: ResumeStatus,
    state: ResumeState,
    message: &str,
    blocked: ResumeStatus,
)
    requires
        call_ensures(ResumeStatus::is_ready, (&status,), r),
        call_ensures(ResumeStatus::ready, (), ready),
        call_ensures(ResumeStatus::blocked, (state, message), blocked),
    ensures
        r <==> status.state == ResumeState::Ready,
        ready.state == ResumeState::Ready && ready.message is None,
        blocked.state == state && blocked.message is Some && blocked.message->0@ == message@,
{
    assert(ready@.state == ready.state && blocked@.state == blocked.state);
    assert(ready@.message is None && blocked@.message == Some(message@));
}

/// A warning starts with its kind and message alone; a file and a line are added to it one by one, and
/// nothing else changes.
pub proof fn warnings_are_made_up_step_by_step(
    kind: WarningKind,
    message: &str,
    path: &str,
    line: usize,
    fresh: ScanWarning,
    placed: ScanWarning,
    numbered: ScanWarning,
)
    requires
        call_ensures(ScanWarning::new, (kind, message), fresh),
        call_ensures(ScanWarning::with_path, (fresh, path), placed),
        call_ensures(ScanWarning::with_line, (placed, line), numbered),
    ensures
        fresh@.kind == kind && fresh@.message == message@ && fresh@.path is None && fresh@.line is None,
        placed@.kind == kind && placed@.message == message@ && placed@.path == Some(path@)
            && placed@.line is None,
        numbered@.kind == kind && numbered@.message == message@ && numbered@.path == Some(path@)
            && numbered@.line == Some(line),
{
}

/// A diagnostic has the name, the severity and the message it is made with, and advice exactly where
/// that is given.
pub proof fn diagnostics_hold_what_they_are_made_with(
    name: &str,
    severity: DiagnosticSeverity,
    message: &str,
    advice: &str,
    plain: Diagnostic,
    advised: Diagnostic,
)
    requires
        call_ensures(Diagnostic::plain, (name, severity, message), plain),
        call_ensures(Diagnostic::advised, (name, severity, message, advice), advised),
    ensures
        plain@.name == name@ && plain@.severity == severity && plain@.message == message@
            && plain@.suggestion is None,
        advised@.name == name@ && advised@.severity == severity && advised@.message == message@
            && advised@.suggestion == Some(advice@),
{
}

/// One instant is before another exactly where it is not that one or later; the later of both is one of
/// them and not before either.
pub proof fn instants_are_ordered(
    a: Timestamp,
    b: Timestamp,
    before: bool,
    later: Timestamp,
)
    requires
        call_ensures(Timestamp::is_before, (&a, &b), before),
        call_ensures(Timestamp::max, (a, b), later),
    ensures
        before <==> !not_before(a@, b@),
        later@ == a@ || later@ == b@,
        not_before(later@, a@) && not_before(later@, b@),
{
}

/// An instant is on the calendar exactly within its years, with less than a second's nanoseconds, or
/// with a leap second's at the end of a minute.
pub proof fn calendar_has_its_bounds(secs: i64, nanos: u32, r: Option<Timestamp>)
    requires
        call_ensures(Timestamp::new, (secs, nanos), r),
    ensures
        r is Some <==> -8_334_601_228_800 <= secs <= 8_210_266_876_799 && (nanos < 1_000_000_000 || (nanos
            < 2_000_000_000 && secs % 60 == 59)),
        r matches Some(t) ==> t@.0 == secs && t@.1 == nanos,
{
}

/// The source of Codex is described by its id, and can scan, summarise, resume, diagnose and repair.
pub proof fn codex_can_do_all(provider: CodexProvider, r: SourceDescriptor)
    requires
        call_ensures(CodexProvider::descriptor, (&provider,), r),
    ensures
        r@.id == "codex"@,
        r@.capabilities.len() == 5,
        r@.capabilities.contains(ProviderCapability::Scan),
        r@.capabilities.contains(ProviderCapability::Summary),
        r@.capabilities.contains(ProviderCapability::Resume),
        r@.capabilities.contains(ProviderCapability::Diagnose),
        r@.capabilities.contains(ProviderCapability::RepairProvider),
{
    assert(r@.capabilities[0] == ProviderCapability::Scan);
    assert(r@.capabilities[1] == ProviderCapability::Summary);
    assert(r@.capabilities[2] == ProviderCapability::Resume);
    assert(r@.capabilities[3] == ProviderCapability::Diagnose);
    assert(r@.capabilities[4] == ProviderCapability::RepairProvider);
}

/// A source makes a command to be run only after its own check found the session ready, and it is the
/// one the source made.
pub proof fn command_needs_a_ready_check<P: SessionProvider + ?Sized>(
    provider: &P,
    session: &Session,
    spec: CommandView,
)
    requires
        prepared_by(provider, session, Ok::<CommandView, AppErrorView>(spec)),
    ensures
        exists|status: ResumeStatus, command: CommandSpec| #[trigger]
            check_gives(provider, session, Ok(status)) && status.state == ResumeState::Ready && #[trigger]
            command_gives(provider, session, Ok(command)) && command@ == spec,
{
    let (status, command) = choose|status: ResumeStatus, command: Result<CommandSpec, ProviderError>|
        #[trigger]
        check_gives(provider, session, Ok(status)) && status@.state == ResumeState::Ready && #[trigger]
        command_gives(provider, session, command) && Ok::<CommandView, AppErrorView>(spec)
            == approved(
            status@,
            match command {
                Ok(spec) => Ok(spec@),
                Err(e) => Err(e@),
            },
        );
    assert(command is Ok);
    assert(command_gives(provider, session, Ok(command->Ok_0)));
}

/// Of sources that give the same id, the one that was registered first is meant.
pub proof fn first_registered_source_is_meant(entries: Seq<Registered>, i: int, j: int, id: Seq<char>)
    requires
        is_first_with_id(entries, i, id),
        0 <= j < i,
    ensures
        gives_id(&*entries[i].provider, id),
        exists|other: Seq<char>| other != id && #[trigger] gives_id(&*entries[j].provider, other),
{
    assert(entries.take(i)[j] == entries[j]);
    assert(gives_other_id(entries.take(i)[j], id));
}

/// A source is found under its whole id: at the first place that has it, and nowhere where none has.
pub proof fn source_is_found_under_its_id(
    ids: Vec<SourceId>,
    source: SourceId,
    r: Option<usize>,
    k: int,
)
    requires
        call_ensures(find_source, (&ids, &source), r),
        0 <= k < ids@.len(),
    ensures
        r matches Some(i) ==> i < ids@.len() && ids@[i as int]@ == source@ && (k < i ==> ids@[k]@ != source@),
        r is None ==> ids@[k]@ != source@,
{
    assert(views(ids@)[k] == ids@[k]@);
}

/// Nothing is opened after a resume where that was switched off, whatever the source gives.
pub proof fn nothing_is_opened_where_switched_off(
    registry: &ProviderRegistry,
    session: &Session,
    r: Option<String>,
)
    requires
        call_ensures(resumed_uri, (registry, session, true), r),
    ensures
        r is None,
{
}

/// A command is handed out only by the source that was registered first under the id that the session
/// names, and only after its check found the session ready.
pub proof fn command_comes_from_the_source_of_the_session(
    registry: &ProviderRegistry,
    session: &Session,
    r: Result<CommandSpec, AppError>,
) -> (i: int)
    requires
        call_ensures(prepare_resume_command, (registry, session), r),
        r is Ok,
    ensures
        is_first_with_id(registry@, i, session@.source),
        exists|status: ResumeStatus, command: CommandSpec| #[trigger]
            check_gives(&*registry@[i].provider, session, Ok(status)) && status.state == ResumeState::Ready
                && #[trigger] command_gives(&*registry@[i].provider, session, Ok(command)) && command@
                == r->Ok_0@,
{
    let result = Ok::<CommandView, AppErrorView>(r->Ok_0@);
    let i = choose|i: int| #[trigger]
        is_first_with_id(registry@, i, session@.source) && prepared_by(
            &*registry@[i].provider,
            session,
            result,
        );
    command_needs_a_ready_check(&*registry@[i].provider, session, r->Ok_0@);
    i
}

/// A list of sessions opens with groups, and one to browse with directories; both without a session,
/// and with the error they are given.
pub proof fn lists_open_without_sessions(
    error: Option<String>,
    list: AppState,
    browser: AppState,
)
    requires
        call_ensures(AppState::new, (error,), list),
        call_ensures(AppState::browse, (error,), browser),
    ensures
        list@.layer == Layer::Grouped && browser@.layer == Layer::Directories,
        list@.sessions is None && browser@.sessions is None,
        list@.status_error == opt_view(error) && browser@.status_error == opt_view(error),
        list@.group_by == GroupBy::Project && !list@.search_mode && list@.search.len() == 0,
{
}

} // verus!
