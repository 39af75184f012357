//! What the commands decide: queries, questions, exit codes and what is told to the user.

use vstd::prelude::*;

use crate::app_navigation::{navigation_error_text, AppNavigationError};
use crate::catalog::{
    can_search, first_named, found, group_sessions, grouped, is_named, searchable, QueryView, SessionCatalog,
    SessionGroup, SessionQuery,
};
use crate::cli::{since_instant, ListArgs, ResumeArgs, SinceParseError};
use crate::domain::{
    CommandSpec, CommandView, Diagnostic, DiagnosticSeverity, DiagnosticView, RepairReport, RepairView,
    ResumeState, ResumeStatus, Session, StatusView,
};
use crate::model::{copy_text, lemma_views_add, lemma_views_push, opt_view, or_text, text_or, views};
use crate::provider::{error_text, ErrorView, ProviderError};
use crate::resume::{resume_error_text, ExecutionView, ResumeError, ResumeErrorView, ResumeExecution};
use crate::text::{cat, cat3, cat4, cat5, lower, same_text, signed_decimal, signed_text, to_lower, trim, trimmed};
use crate::time::Timestamp;

verus! {

/// Whether `answer`, trimmed and in lower case, is `short` or `long`.
pub open spec fn answers_with(answer: Seq<char>, short: Seq<char>, long: Seq<char>) -> bool {
    lower(trimmed(answer)) == short || lower(trimmed(answer)) == long
}

fn is_answer(answer: &str, short: &str, long: &str) -> (r: bool)
    ensures
        r == answers_with(answer@, short@, long@),
{
    let given = to_lower(trim(answer).as_str());
    same_text(given.as_str(), short) || same_text(given.as_str(), long)
}

/// Whether the answer to a failed resume asks to quit.
pub fn resume_failure_requests_quit(answer: &str) -> (r: bool)
    ensures
        r == answers_with(answer@, "q"@, "quit"@),
{
    is_answer(answer, "q", "quit")
}

/// Whether the wait after a failed resume ends the program: at the end of the input, or when asked to
/// quit.
pub fn wait_ends_program(bytes_read: usize, answer: &str) -> (r: bool)
    ensures
        r == (bytes_read == 0 || answers_with(answer@, "q"@, "quit"@)),
{
    bytes_read == 0 || resume_failure_requests_quit(answer)
}

/// Why a command cannot go on.
#[derive(Debug)]
pub enum AppError {
    /// There is no such session.
    SessionNotFound {
        /// Its id.
        id: String,
    },
    /// There is no such source.
    SourceNotRegistered {
        /// Its id.
        source: String,
    },
    /// The session cannot be resumed.
    NotResumable {
        /// Why.
        message: String,
    },
    /// A repair and a dry run were asked for at once.
    RepairInDryRun,
    /// There is nobody to ask whether to repair.
    RepairNeedsYes,
    /// The user refused the repair.
    RepairCancelled,
    /// The source failed.
    Provider(ProviderError),
    /// The command could not be run.
    Resume(ResumeError),
}

/// The model of an `AppError`.
pub enum AppErrorView {
    SessionNotFound { id: Seq<char> },
    SourceNotRegistered { source: Seq<char> },
    NotResumable { message: Seq<char> },
    RepairInDryRun,
    RepairNeedsYes,
    RepairCancelled,
    Provider(ErrorView),
    Resume(ResumeErrorView),
}

impl View for AppError {
    type V = AppErrorView;

    open spec fn view(&self) -> AppErrorView {
        match self {
            AppError::SessionNotFound { id } => AppErrorView::SessionNotFound { id: id@ },
            AppError::SourceNotRegistered { source } => AppErrorView::SourceNotRegistered {
                source: source@,
            },
            AppError::NotResumable { message } => AppErrorView::NotResumable { message: message@ },
            AppError::RepairInDryRun => AppErrorView::RepairInDryRun,
            AppError::RepairNeedsYes => AppErrorView::RepairNeedsYes,
            AppError::RepairCancelled => AppErrorView::RepairCancelled,
            AppError::Provider(e) => AppErrorView::Provider(e@),
            AppError::Resume(e) => AppErrorView::Resume(e@),
        }
    }
}

/// What to tell the user about the error `e`.
pub open spec fn app_error_text(e: AppErrorView) -> Seq<char> {
    match e {
        AppErrorView::SessionNotFound { id } => "未找到会话 "@ + id,
        AppErrorView::SourceNotRegistered { source } => "来源 "@ + source + " 未注册"@,
        AppErrorView::NotResumable { message } => message,
        AppErrorView::RepairInDryRun => "--repair-provider 不能与 --dry-run 同时使用"@,
        AppErrorView::RepairNeedsYes => "非交互环境执行 --repair-provider 时必须同时传入 --yes"@,
        AppErrorView::RepairCancelled => "已取消 provider 配置修复"@,
        AppErrorView::Provider(e) => error_text(e),
        AppErrorView::Resume(e) => resume_error_text(e),
    }
}

impl AppError {
    /// What to tell the user.
    pub fn message(&self) -> (r: String)
        ensures
            r@ == app_error_text(self@),
    {
        match self {
            AppError::SessionNotFound { id } => cat("未找到会话 ", id.as_str()),
            AppError::SourceNotRegistered { source } => cat3("来源 ", source.as_str(), " 未注册"),
            AppError::NotResumable { message } => message.clone(),
            AppError::RepairInDryRun => "--repair-provider 不能与 --dry-run 同时使用".to_owned(),
            AppError::RepairNeedsYes =>
                "非交互环境执行 --repair-provider 时必须同时传入 --yes".to_owned(),
            AppError::RepairCancelled => "已取消 provider 配置修复".to_owned(),
            AppError::Provider(e) => e.message(),
            AppError::Resume(e) => e.message(),
        }
    }
}

/// The query that the arguments of `list` ask for, once their time was read as `since`.
pub open spec fn query_of(args: ListArgs, since: Option<(int, int)>) -> QueryView {
    QueryView {
        source: opt_view(args.source),
        project: opt_view(args.project),
        provider: opt_view(args.provider),
        since,
        include_non_interactive: args.include_non_interactive,
        search: opt_view(args.search),
    }
}

/// Makes the query that the arguments of `list` ask for.
pub fn list_query(args: &ListArgs, now: Timestamp) -> (r: Result<SessionQuery, SinceParseError>)
    ensures
        match args.since {
            None => r matches Ok(query) && query@ == query_of(*args, None),
            Some(text) => match r {
                Ok(query) => since_instant(text@, now@) is Some && query@ == query_of(
                    *args,
                    since_instant(text@, now@),
                ),
                Err(e) => since_instant(text@, now@) is None && e@ == trimmed(text@),
            },
        },
{
    let since = match &args.since {
        Some(text) => match crate::cli::parse_since(text.as_str(), now) {
            Ok(at) => Some(at),
            Err(e) => {
                return Err(e);
            },
        },
        None => None,
    };
    Ok(
        SessionQuery {
            source: copy_text(&args.source),
            project: copy_text(&args.project),
            provider: copy_text(&args.provider),
            since,
            include_non_interactive: args.include_non_interactive,
            search: copy_text(&args.search),
        },
    )
}

/// Whether the search that the arguments of `list` ask for is short enough to be made.
pub fn can_list(catalog: &SessionCatalog, args: &ListArgs) -> (r: bool)
    ensures
        r == searchable(catalog@.sessions, query_of(*args, None)),
{
    let query = SessionQuery {
        source: copy_text(&args.source),
        project: copy_text(&args.project),
        provider: copy_text(&args.provider),
        since: None,
        include_non_interactive: args.include_non_interactive,
        search: copy_text(&args.search),
    };
    can_search(catalog.sessions(), &query)
}

/// Finds the sessions that the arguments of `list` ask for, in groups.
pub fn list_groups<'a>(catalog: &'a SessionCatalog, args: &ListArgs, now: Timestamp) -> (r: Result<
    Vec<SessionGroup<'a>>,
    SinceParseError,
>)
    requires
        searchable(catalog@.sessions, query_of(*args, None)),
    ensures
        match args.since {
            None => r matches Ok(groups) && views(groups@) == grouped(
                found(catalog@.sessions, query_of(*args, None)),
                args.group_by,
            ),
            Some(text) => match r {
                Ok(groups) => since_instant(text@, now@) is Some && views(groups@) == grouped(
                    found(catalog@.sessions, query_of(*args, since_instant(text@, now@))),
                    args.group_by,
                ),
                Err(e) => since_instant(text@, now@) is None && e@ == trimmed(text@),
            },
        },
{
    match list_query(args, now) {
        Ok(query) => Ok(group_sessions(catalog.query(&query), args.group_by)),
        Err(e) => Err(e),
    }
}

/// Finds the session that is to be resumed.
pub fn find_session(catalog: &SessionCatalog, id: &str) -> (r: Result<Session, AppError>)
    ensures
        match r {
            Ok(session) => exists|i: int|
                {
                    &&& 0 <= i < catalog@.sessions.len()
                    &&& session@ == #[trigger] catalog@.sessions[i]
                    &&& session@.id == id@
                    &&& forall|j: int| 0 <= j < i ==> (#[trigger] catalog@.sessions[j]).id != id@
                },
            Err(e) => {
                &&& forall|j: int|
                    0 <= j < catalog@.sessions.len() ==> (#[trigger] catalog@.sessions[j]).id != id@
                &&& e@ == (AppErrorView::SessionNotFound { id: id@ })
            },
        },
        opt_view(r.ok()) == first_named(catalog@.sessions, id@, None),
{
    match catalog.find(id, None) {
        Some(session) => {
            proof {
                let none: Option<Seq<char>> = None;
                let i = choose|i: int|
                    {
                        &&& 0 <= i < catalog@.sessions.len()
                        &&& session@ == #[trigger] catalog@.sessions[i]
                        &&& is_named(session@, id@, none)
                        &&& forall|j: int|
                            0 <= j < i ==> !is_named(#[trigger] catalog@.sessions[j], id@, none)
                    };
                assert forall|j: int| 0 <= j < i implies (#[trigger] catalog@.sessions[j]).id
                    != id@ by {
                    assert(!is_named(catalog@.sessions[j], id@, none));
                }
            }
            Ok(session.clone())
        },
        None => {
            proof {
                let none: Option<Seq<char>> = None;
                assert forall|j: int| 0 <= j < catalog@.sessions.len() implies (
                #[trigger] catalog@.sessions[j]).id != id@ by {
                    assert(!is_named(catalog@.sessions[j], id@, none));
                }
            }
            Err(AppError::SessionNotFound { id: id.to_owned() })
        },
    }
}

/// Whether a repair is to be made, and how that is found out.
#[derive(Debug, Clone, Copy, PartialEq, Eq, Structural)]
pub enum RepairRequest {
    /// None is.
    Skip,
    /// One is: the user has agreed.
    Confirmed,
    /// One is, if the user agrees.
    Ask,
}

/// Whether the arguments of `resume` ask for a repair; without a terminal the user must have agreed.
pub open spec fn repair_request(
    repair_provider: bool,
    dry_run: bool,
    yes: bool,
    terminal: bool,
) -> Result<RepairRequest, AppErrorView> {
    if !repair_provider {
        Ok(RepairRequest::Skip)
    } else if dry_run {
        Err(AppErrorView::RepairInDryRun)
    } else if yes {
        Ok(RepairRequest::Confirmed)
    } else if terminal {
        Ok(RepairRequest::Ask)
    } else {
        Err(AppErrorView::RepairNeedsYes)
    }
}

/// Decides whether the arguments of `resume` ask for a repair.
pub fn request_repair(args: &ResumeArgs, stdin_is_terminal: bool) -> (r: Result<RepairRequest, AppError>)
    ensures
        ({
            let wanted = repair_request(
                args.repair_provider,
                args.dry_run,
                args.yes,
                stdin_is_terminal,
            );
            match r {
                Ok(request) => wanted == Ok::<RepairRequest, AppErrorView>(request),
                Err(e) => wanted == Err::<RepairRequest, AppErrorView>(e@),
            }
        }),
{
    if !args.repair_provider {
        return Ok(RepairRequest::Skip);
    }
    if args.dry_run {
        return Err(AppError::RepairInDryRun);
    }
    if args.yes {
        return Ok(RepairRequest::Confirmed);
    }
    if stdin_is_terminal {
        Ok(RepairRequest::Ask)
    } else {
        Err(AppError::RepairNeedsYes)
    }
}

/// The question before a repair.
pub fn repair_question(session: &Session) -> (r: String)
    ensures
        r@ == "将备份 config.toml 并创建 provider 兼容别名 "@ + or_text(
            session@.model_provider,
            "unknown"@,
        ) + "，继续吗？[y/N] "@,
{
    cat3(
        "将备份 config.toml 并创建 provider 兼容别名 ",
        text_or(&session.model_provider, "unknown"),
        "，继续吗？[y/N] ",
    )
}

/// Takes the answer to the question before a repair: only an explicit yes agrees.
pub fn confirm_repair(answer: &str) -> (r: Result<(), AppError>)
    ensures
        match r {
            Ok(_) => answers_with(answer@, "y"@, "yes"@),
            Err(e) => !answers_with(answer@, "y"@, "yes"@) && e@ == AppErrorView::RepairCancelled,
        },
{
    if is_answer(answer, "y", "yes") {
        Ok(())
    } else {
        Err(AppError::RepairCancelled)
    }
}

/// What is told about a repair that was made.
pub open spec fn repair_text(report: RepairView) -> Seq<char> {
    match report.backup_path {
        Some(backup) => report.message + "\n配置备份: "@ + backup + "\n"@,
        None => report.message + "\n"@,
    }
}

/// What is told about a repair that was made.
pub fn repair_output(report: &RepairReport) -> (r: String)
    ensures
        r@ == repair_text(report@),
{
    match &report.backup_path {
        Some(backup) => cat4(report.message.as_str(), "\n配置备份: ", backup.as_str(), "\n"),
        None => cat(report.message.as_str(), "\n"),
    }
}

/// The command that resumes a session, given whether it can be resumed and what command its source
/// made.
pub open spec fn approved(status: StatusView, command: Result<CommandView, ErrorView>) -> Result<
    CommandView,
    AppErrorView,
> {
    if status.state != ResumeState::Ready {
        Err(AppErrorView::NotResumable { message: or_text(status.message, "当前会话不可恢复"@) })
    } else {
        match command {
            Ok(spec) => Ok(spec),
            Err(e) => Err(AppErrorView::Provider(e)),
        }
    }
}

/// Hands out the command that resumes a session only where the session can be resumed.
pub fn approve_command(status: &ResumeStatus, command: Result<CommandSpec, ProviderError>) -> (r: Result<
    CommandSpec,
    AppError,
>)
    ensures
        ({
            let wanted = approved(
                status@,
                match command {
                    Ok(spec) => Ok(spec@),
                    Err(e) => Err(e@),
                },
            );
            match r {
                Ok(spec) => wanted == Ok::<CommandView, AppErrorView>(spec@),
                Err(e) => wanted == Err::<CommandView, AppErrorView>(e@),
            }
        }),
{
    if !status.is_ready() {
        return Err(
            AppError::NotResumable {
                message: text_or(&status.message, "当前会话不可恢复").to_owned(),
            },
        );
    }
    match command {
        Ok(spec) => Ok(spec),
        Err(e) => Err(AppError::Provider(e)),
    }
}

/// The URI to be opened once a session was resumed: none where that is switched off or the source
/// gives none.
pub open spec fn uri_after(enabled: bool, uri: Option<Seq<char>>) -> Option<Seq<char>> {
    if enabled {
        uri
    } else {
        None
    }
}

/// Picks the URI to be opened once a session was resumed. That it cannot be made is no reason not to
/// resume.
pub fn navigation_uri(no_open_in_app: bool, uri: Result<Option<String>, ProviderError>) -> (r: Option<String>)
    ensures
        opt_view(r) == uri_after(
            !no_open_in_app,
            match uri {
                Ok(given) => opt_view(given),
                Err(_) => None,
            },
        ),
{
    if no_open_in_app {
        return None;
    }
    match uri {
        Ok(given) => given,
        Err(_) => None,
    }
}

/// What a resume command leads to.
#[derive(Debug)]
pub struct ResumeConclusion {
    /// What to write to the standard output.
    pub stdout: String,
    /// What to write to the standard error.
    pub stderr: String,
    /// The URI to open now, if any.
    pub open: Option<String>,
    /// The exit code to hand on.
    pub exit_code: i32,
}

/// The model of a `ResumeConclusion`.
pub struct ConclusionView {
    pub stdout: Seq<char>,
    pub stderr: Seq<char>,
    pub open: Option<Seq<char>>,
    pub exit_code: i32,
}

impl View for ResumeConclusion {
    type V = ConclusionView;

    open spec fn view(&self) -> ConclusionView {
        ConclusionView {
            stdout: self.stdout@,
            stderr: self.stderr@,
            open: opt_view(self.open),
            exit_code: self.exit_code,
        }
    }
}

/// What a dry run shows: the command and, where there is one, the URI that would be opened.
pub open spec fn dry_run_text(command: Seq<char>, uri: Option<Seq<char>>) -> Seq<char> {
    let head = "将执行: "@ + command + "\n"@;
    match uri {
        Some(target) => head + "恢复成功后将打开: "@ + target + "\n"@,
        None => head,
    }
}

/// What the execution `e` of the command for the session `id` leads to: a command that was not run is
/// shown; one that failed is reported; after one that succeeded `uri` is opened. The exit code is
/// handed on as it is.
pub open spec fn concluded(id: Seq<char>, e: ExecutionView, uri: Option<Seq<char>>) -> ConclusionView {
    ConclusionView {
        stdout: if !e.executed {
            dry_run_text(e.command, uri)
        } else {
            Seq::empty()
        },
        stderr: if e.executed && e.exit_code != 0 {
            "恢复命令失败，会话 "@ + id + "，退出码 "@ + signed_decimal(e.exit_code as int) + "\n"@
        } else {
            Seq::empty()
        },
        open: if e.executed && e.exit_code == 0 {
            uri
        } else {
            None
        },
        exit_code: e.exit_code,
    }
}

/// Concludes a resume command.
pub fn conclude_resume(session_id: &str, execution: &ResumeExecution, uri: Option<String>) -> (r:
    ResumeConclusion)
    ensures
        r@ == concluded(session_id@, execution@, opt_view(uri)),
{
    if !execution.executed {
        let mut shown = cat3("将执行: ", execution.command.as_str(), "\n");
        if let Some(target) = &uri {
            shown.append("恢复成功后将打开: ");
            shown.append(target.as_str());
            shown.append("\n");
        }
        let r = ResumeConclusion {
            stdout: shown,
            stderr: String::new(),
            open: None,
            exit_code: execution.exit_code,
        };
        proof {
            assert(r.stderr@ =~= Seq::<char>::empty());
        }
        return r;
    }
    if execution.exit_code != 0 {
        let code = signed_text(execution.exit_code as i64);
        let told = cat5("恢复命令失败，会话 ", session_id, "，退出码 ", code.as_str(), "\n");
        let r = ResumeConclusion {
            stdout: String::new(),
            stderr: told,
            open: None,
            exit_code: execution.exit_code,
        };
        proof {
            assert(r.stdout@ =~= Seq::<char>::empty());
        }
        return r;
    }
    let r = ResumeConclusion {
        stdout: String::new(),
        stderr: String::new(),
        open: uri,
        exit_code: execution.exit_code,
    };
    proof {
        assert(r.stdout@ =~= Seq::<char>::empty());
        assert(r.stderr@ =~= Seq::<char>::empty());
    }
    r
}

/// The exit code of a resumed session is handed on as it is, whatever comes of opening the app; the
/// app is opened only after success, and never in a dry run.
pub proof fn navigation_never_changes_the_exit_code(
    id: Seq<char>,
    e: ExecutionView,
    uri: Option<Seq<char>>,
    other: Option<Seq<char>>,
)
    ensures
        concluded(id, e, uri).exit_code == e.exit_code,
        concluded(id, e, uri).exit_code == concluded(id, e, other).exit_code,
        concluded(id, e, uri).open is Some ==> e.executed && e.exit_code == 0,
        concluded(id, e, uri_after(false, uri)).open is None,
{
}

/// What is told where the app could not be opened after a session was resumed.
pub fn navigation_warning(error: &AppNavigationError) -> (r: String)
    ensures
        r@ == "警告: "@ + navigation_error_text(error@) + "\n"@,
{
    let reason = error.message();
    cat3("警告: ", reason.as_str(), "\n")
}

/// What follows once a session that was chosen in the list was resumed.
#[derive(Debug)]
pub enum AfterChoice {
    /// The program ends well.
    Leave,
    /// The failure is told, and the user is asked whether to quit with the exit code.
    Told {
        /// What is told, also in the list if the user goes back to it.
        message: String,
        /// The exit code if the user quits.
        exit_code: i32,
    },
}

/// The model of an `AfterChoice`.
pub enum AfterChoiceView {
    Leave,
    Told { message: Seq<char>, exit_code: i32 },
}

impl View for AfterChoice {
    type V = AfterChoiceView;

    open spec fn view(&self) -> AfterChoiceView {
        match self {
            AfterChoice::Leave => AfterChoiceView::Leave,
            AfterChoice::Told { message, exit_code } => AfterChoiceView::Told {
                message: message@,
                exit_code: *exit_code,
            },
        }
    }
}

/// What follows once the session `id` was resumed, with this result.
pub open spec fn after_choice(id: Seq<char>, result: Result<ExecutionView, AppErrorView>) -> AfterChoiceView {
    match result {
        Ok(e) => if e.exit_code == 0 {
            AfterChoiceView::Leave
        } else {
            AfterChoiceView::Told {
                message: "恢复失败: "@ + id + " 退出码 "@ + signed_decimal(e.exit_code as int),
                exit_code: e.exit_code,
            }
        },
        Err(e) => AfterChoiceView::Told {
            message: "恢复失败: "@ + app_error_text(e),
            exit_code: 1,
        },
    }
}

/// Decides what follows once a session that was chosen in the list was resumed.
pub fn follow_choice(session_id: &str, result: &Result<ResumeExecution, AppError>) -> (r: AfterChoice)
    ensures
        r@ == after_choice(
            session_id@,
            match result {
                Ok(e) => Ok(e@),
                Err(e) => Err(e@),
            },
        ),
{
    match result {
        Ok(e) => {
            if e.exit_code == 0 {
                AfterChoice::Leave
            } else {
                let code = signed_text(e.exit_code as i64);
                AfterChoice::Told {
                    message: cat4("恢复失败: ", session_id, " 退出码 ", code.as_str()),
                    exit_code: e.exit_code,
                }
            }
        },
        Err(e) => {
            let reason = e.message();
            AfterChoice::Told { message: cat("恢复失败: ", reason.as_str()), exit_code: 1 }
        },
    }
}

/// What is told after a failed resume before the user is asked.
pub fn failure_prompt(message: &str) -> (r: String)
    ensures
        r@ == "\n"@ + message@
            + "\nCodex 的原始错误输出保留在上方。\n按 Enter 返回 agentmux，输入 q 后按 Enter 退出: "@,
{
    cat3(
        "\n",
        message,
        "\nCodex 的原始错误输出保留在上方。\n按 Enter 返回 agentmux，输入 q 后按 Enter 退出: ",
    )
}

/// Whether one of `diagnostics` is an error.
pub open spec fn any_error(diagnostics: Seq<DiagnosticView>) -> bool {
    exists|i: int|
        0 <= i < diagnostics.len() && (#[trigger] diagnostics[i]).severity == DiagnosticSeverity::Error
}

/// The exit code of `doctor`: nonzero exactly where a diagnostic is an error.
pub fn doctor_exit_code(diagnostics: &Vec<Diagnostic>) -> (r: i32)
    ensures
        r == (if any_error(views(diagnostics@)) {
            1i32
        } else {
            0i32
        }),
{
    let ghost all = views(diagnostics@);
    let mut i: usize = 0;
    while i < diagnostics.len()
        invariant
            i <= diagnostics@.len(),
            all == views(diagnostics@),
            forall|k: int|
                0 <= k < i ==> (#[trigger] all[k]).severity != DiagnosticSeverity::Error,
        decreases diagnostics@.len() - i,
    {
        proof {
            assert(all[i as int] == diagnostics@[i as int]@);
        }
        if diagnostics[i].severity == DiagnosticSeverity::Error {
            proof {
                assert(all[i as int].severity == DiagnosticSeverity::Error);
            }
            return 1;
        }
        i = i + 1;
    }
    0
}

/// What each source found, source by source.
pub open spec fn flattened(found: Seq<Vec<Diagnostic>>) -> Seq<DiagnosticView>
    decreases found.len(),
{
    if found.len() == 0 {
        Seq::empty()
    } else {
        flattened(found.drop_last()) + views(found.last()@)
    }
}

/// Puts together what each source found and whether sessions can be opened in the app.
pub fn all_diagnostics(found: Vec<Vec<Diagnostic>>, navigation: Diagnostic) -> (r: Vec<Diagnostic>)
    ensures
        views(r@) == flattened(found@).push(navigation@),
{
    broadcast use lemma_views_add;

    let ghost all = found@;
    let mut r: Vec<Diagnostic> = Vec::new();
    proof {
        assert(views(r@) =~= flattened(all.take(0)));
    }
    for part in it: found.into_iter()
        invariant
            it.seq() == all,
            views(r@) == flattened(all.take(it.index() as int)),
    {
        proof {
            let next = all.take(it.index() + 1);
            assert(next.drop_last() == all.take(it.index() as int));
            assert(next.last() == part);
        }
        let mut part = part;
        r.append(&mut part);
    }
    proof {
        assert(all.take(all.len() as int) == all);
    }
    let ghost before = r@;
    r.push(navigation);
    proof {
        lemma_views_push(before, r@.last());
    }
    r
}

} // verus!
