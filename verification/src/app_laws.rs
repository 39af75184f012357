//! What the commands decide, ask and answer.

use vstd::prelude::*;

use crate::app::{
    all_diagnostics, answers_with, any_error, app_error_text, approve_command, conclude_resume,
    concluded, confirm_repair, doctor_exit_code, failure_prompt, find_session, flattened, follow_choice,
    list_groups, list_query, navigation_uri, navigation_warning, query_of, repair_output, repair_question,
    request_repair, resume_failure_requests_quit, wait_ends_program, AfterChoice, AppError,
    AppErrorView, RepairRequest, ResumeConclusion,
};
use crate::app_navigation::{
    diagnostic, is_available, navigation_error_text, open_command, open_uri, AppNavigationError, Launch,
    LaunchView, NavigationErrorView, Platform,
};
use crate::catalog::{found, grouped, key_of, SessionCatalog, SessionGroup, SessionQuery};
use crate::catalog_laws::{
    found_sessions_meet_every_condition, grouping_partitions, lookup_needs_id_and_source, meets_conditions,
    no_session_that_meets_the_conditions_is_lost,
};
use crate::cli::{
    parse_since, relative_instant, relative_span, resolve_since, since_instant, span_reaches_back, span_text,
    ListArgs, ResumeArgs, SinceParseError,
};
use crate::domain::{
    CommandSpec, Diagnostic, DiagnosticSeverity, InteractionType, RepairReport, ResumeState,
    ResumeStatus, Session, SessionView,
};
use crate::model::{opt_view, views};
use crate::plain::{alike_but_case, comparing_forgets_only_case, not_before, shows, shows_what_it_holds};
use crate::provider::{error_text, ProviderError};
use crate::resume::{resume_error_text, ResumeExecution};
use crate::text::{decimal, lower, signed_decimal, trimmed, whole_number};
use crate::time::{day_start, rfc3339_instant, Timestamp, MIN_SECONDS};

verus! {

proof fn lemma_answers(answer: Seq<char>, short: Seq<char>, long: Seq<char>)
    requires
        lower(short) == short,
        lower(long) == long,
    ensures
        answers_with(answer, short, long) <==> alike_but_case(trimmed(answer), short) || alike_but_case(
            trimmed(answer),
            long,
        ),
{
    comparing_forgets_only_case(trimmed(answer), short);
    comparing_forgets_only_case(trimmed(answer), long);
}

/// A repair goes on exactly where the answer is `y` or `yes`, in any case and with white space around
/// it or not; every other answer, none at all among them, cancels it.
pub proof fn only_yes_confirms(answer: &str, r: Result<(), AppError>)
    requires
        call_ensures(confirm_repair, (answer,), r),
    ensures
        r is Ok <==> alike_but_case(trimmed(answer@), "y"@) || alike_but_case(trimmed(answer@), "yes"@),
        r matches Err(e) ==> e@ == AppErrorView::RepairCancelled,
{
    reveal_strlit("y");
    reveal_strlit("yes");
    assert(lower("y"@) =~= "y"@);
    assert(lower("yes"@) =~= "yes"@);
    lemma_answers(answer@, "y"@, "yes"@);
}

/// The program ends after a failure exactly where the answer is `q` or `quit`, in any case, or there
/// is no answer to be had.
pub proof fn only_quit_ends_the_program(answer: &str, bytes_read: usize, quits: bool, ends: bool)
    requires
        call_ensures(resume_failure_requests_quit, (answer,), quits),
        call_ensures(wait_ends_program, (bytes_read, answer), ends),
    ensures
        quits <==> alike_but_case(trimmed(answer@), "q"@) || alike_but_case(trimmed(answer@), "quit"@),
        ends <==> bytes_read == 0 || quits,
{
    reveal_strlit("q");
    reveal_strlit("quit");
    assert(lower("q"@) =~= "q"@);
    assert(lower("quit"@) =~= "quit"@);
    lemma_answers(answer@, "q"@, "quit"@);
}

/// The exit code of a diagnosis is one where some diagnostic is an error and zero where none is;
/// warnings do not count.
pub proof fn only_errors_fail_the_diagnosis(diagnostics: Vec<Diagnostic>, code: i32)
    requires
        call_ensures(doctor_exit_code, (&diagnostics,), code),
    ensures
        (exists|i: int|
            0 <= i < diagnostics@.len() && (#[trigger] diagnostics@[i]).severity
                == DiagnosticSeverity::Error) ==> code == 1,
        (forall|i: int|
            0 <= i < diagnostics@.len() ==> (#[trigger] diagnostics@[i]).severity
                != DiagnosticSeverity::Error) ==> code == 0,
{
    let all = views(diagnostics@);
    if exists|i: int|
        0 <= i < diagnostics@.len() && (#[trigger] diagnostics@[i]).severity == DiagnosticSeverity::Error {
        let i = choose|i: int|
            0 <= i < diagnostics@.len() && (#[trigger] diagnostics@[i]).severity
                == DiagnosticSeverity::Error;
        assert(all[i].severity == DiagnosticSeverity::Error);
    }
    if any_error(all) {
        let i = choose|i: int|
            0 <= i < all.len() && (#[trigger] all[i]).severity == DiagnosticSeverity::Error;
        assert(diagnostics@[i].severity == DiagnosticSeverity::Error);
    }
}

proof fn lemma_flattened(found: Seq<Vec<Diagnostic>>, i: int, k: int)
    requires
        0 <= i < found.len(),
        0 <= k < found[i]@.len(),
    ensures
        flattened(found).contains(found[i]@[k]@),
    decreases found.len(),
{
    let less = found.drop_last();
    let before = flattened(less);
    let all = flattened(found);
    if i < less.len() {
        lemma_flattened(less, i, k);
        let j = choose|j: int| 0 <= j < before.len() && before[j] == less[i]@[k]@;
        assert(all[j] == found[i]@[k]@);
    } else {
        assert(all[before.len() + k] == found[i]@[k]@);
    }
}

/// A diagnosis holds what every source found and, last, what is known of the desktop app.
pub proof fn diagnosis_holds_all_that_was_found(
    found: Vec<Vec<Diagnostic>>,
    navigation: Diagnostic,
    r: Vec<Diagnostic>,
    i: int,
    k: int,
)
    requires
        call_ensures(all_diagnostics, (found, navigation), r),
    ensures
        views(r@).len() > 0 && views(r@).last() == navigation@,
        0 <= i < found@.len() && 0 <= k < found@[i]@.len() ==> views(r@).contains(found@[i]@[k]@),
{
    if 0 <= i < found@.len() && 0 <= k < found@[i]@.len() {
        lemma_flattened(found@, i, k);
        let before = flattened(found@);
        let j = choose|j: int| 0 <= j < before.len() && before[j] == found@[i]@[k]@;
        assert(views(r@)[j] == found@[i]@[k]@);
    }
}

/// A list asks for exactly what its arguments name, from the time that `since` names where it is
/// given; where that is no time, nothing is listed and the trimmed text is told.
pub proof fn list_asks_for_its_arguments(
    args: ListArgs,
    now: Timestamp,
    r: Result<SessionQuery, SinceParseError>,
)
    requires
        call_ensures(list_query, (&args, now), r),
    ensures
        args.since is None ==> r is Ok,
        args.since matches Some(text) ==> (r is Ok <==> since_instant(text@, now@) is Some),
        r matches Err(e) ==> args.since is Some && e@ == trimmed(args.since->0@),
        r matches Ok(query) ==> {
            &&& opt_view(query.source) == opt_view(args.source)
            &&& opt_view(query.project) == opt_view(args.project)
            &&& opt_view(query.provider) == opt_view(args.provider)
            &&& opt_view(query.search) == opt_view(args.search)
            &&& query.include_non_interactive == args.include_non_interactive
            &&& args.since is None ==> query.since is None
            &&& args.since matches Some(text) ==> opt_view(query.since) == since_instant(text@, now@)
        },
{
    if let Ok(query) = r {
        let q = query@;
        assert(q.source == opt_view(args.source));
        assert(q.since == opt_view(query.since));
    }
}

/// Every session that is listed is one of the catalog and has the source, the project and the model
/// provider that the arguments name, but for case; one known to be non-interactive is only listed where
/// these are asked for; it was not updated before the time that `since` names; and it stands in the
/// group of its key by what the arguments group by.
pub proof fn listed_sessions_meet_the_arguments(
    catalog: SessionCatalog,
    args: ListArgs,
    now: Timestamp,
    r: Result<Vec<SessionGroup<'_>>, SinceParseError>,
    i: int,
    k: int,
)
    requires
        call_ensures(list_groups, (&catalog, &args, now), r),
        r is Ok,
        0 <= i < r->Ok_0@.len(),
        0 <= k < r->Ok_0@[i]@.sessions.len(),
    ensures
        ({
            let s = r->Ok_0@[i]@.sessions[k];
            &&& catalog@.sessions.contains(s)
            &&& r->Ok_0@[i]@.key == key_of(s, args.group_by)
            &&& args.source matches Some(name) ==> alike_but_case(s.source, name@)
            &&& args.project matches Some(name) ==> alike_but_case(s.project, name@)
            &&& args.provider matches Some(name) ==> s.model_provider is Some && alike_but_case(
                s.model_provider->0,
                name@,
            )
            &&& s.interaction == InteractionType::NonInteractive ==> args.include_non_interactive
            &&& args.since matches Some(text) ==> since_instant(text@, now@) matches Some(at)
                && not_before(s.updated_at, at)
        }),
{
    let at = match args.since {
        Some(text) => since_instant(text@, now@),
        None => None,
    };
    let q = query_of(args, at);
    let all = found(catalog@.sessions, q);
    let groups = grouped(all, args.group_by);
    assert(views(r->Ok_0@) == groups);
    assert(views(r->Ok_0@)[i] == r->Ok_0@[i]@);
    let s = groups[i].sessions[k];
    grouping_partitions(all, args.group_by);
    assert(all.contains(s));
    let j = choose|j: int| 0 <= j < all.len() && all[j] == s;
    found_sessions_meet_every_condition(catalog@.sessions, q, j);
    assert(meets_conditions(s, q));
}

/// A span counts minutes, hours, days and weeks back from now.
pub proof fn spans_count_back_from_now(n: nat, now: (int, int))
    requires
        0 <= now.1 < 1_000_000_000,
        now.0 <= crate::time::MAX_SECONDS,
    ensures
        now.0 - 60 * n >= MIN_SECONDS ==> relative_instant(decimal(n).push('m'), now) == Some(
            (now.0 - 60 * n, now.1),
        ),
        now.0 - 3_600 * n >= MIN_SECONDS ==> relative_instant(decimal(n).push('h'), now) == Some(
            (now.0 - 3_600 * n, now.1),
        ),
        now.0 - 86_400 * n >= MIN_SECONDS ==> relative_instant(decimal(n).push('d'), now) == Some(
            (now.0 - 86_400 * n, now.1),
        ),
        now.0 - 604_800 * n >= MIN_SECONDS ==> relative_instant(decimal(n).push('w'), now) == Some(
            (now.0 - 604_800 * n, now.1),
        ),
{
    assert(n * 60 == 60 * n);
    if now.0 - 60 * n >= MIN_SECONDS {
        span_reaches_back(n, 'm', now);
        assert(span_text(n, 'm') == decimal(n).push('m'));
    }
    if now.0 - 3_600 * n >= MIN_SECONDS {
        span_reaches_back(n, 'h', now);
        assert(span_text(n, 'h') == decimal(n).push('h'));
    }
    if now.0 - 86_400 * n >= MIN_SECONDS {
        span_reaches_back(n, 'd', now);
        assert(span_text(n, 'd') == decimal(n).push('d'));
    }
    if now.0 - 604_800 * n >= MIN_SECONDS {
        span_reaches_back(n, 'w', now);
        assert(span_text(n, 'w') == decimal(n).push('w'));
    }
}

/// A span needs one of the units `m`, `h`, `d` and `w` behind a number that is not negative.
pub proof fn spans_need_a_unit_and_a_number(text: Seq<char>, unit: char)
    ensures
        unit != 'm' && unit != 'h' && unit != 'd' && unit != 'w' ==> relative_span(text.push(unit)) is None,
        whole_number(text) is None ==> relative_span(text.push(unit)) is None,
        whole_number(text) matches Some(n) && n < 0 ==> relative_span(text.push(unit)) is None,
        relative_span(Seq::<char>::empty()) is None,
{
    assert(text.push(unit).drop_last() =~= text);
}

/// A time is taken for an instant first, then for a day, then for a span, whatever white space stands
/// around it; it is refused exactly where it is none of these.
pub proof fn instant_comes_before_day_and_span(
    value: &str,
    now: Timestamp,
    r: Result<Timestamp, SinceParseError>,
)
    requires
        call_ensures(parse_since, (value, now), r),
    ensures
        ({
            let text = trimmed(value@);
            let day = day_start(text, "%Y-%m-%d"@);
            &&& rfc3339_instant(text) matches Some(at) ==> r is Ok && r->Ok_0@ == at
            &&& rfc3339_instant(text) is None && day is Some ==> r is Ok && r->Ok_0@ == day->0
            &&& rfc3339_instant(text) is None && day is None && relative_instant(text, now@) is Some ==> r is Ok
                && r->Ok_0@ == relative_instant(text, now@)->0
            &&& rfc3339_instant(text) is None && day is None && relative_instant(text, now@) is None
                ==> r is Err && r->Err_0@ == text
        }),
{
}

/// A session is looked up by its whole id: the one handed out is the first of the catalog that has it,
/// and none is exactly where no session has it, which is told with the id.
pub proof fn lookup_goes_by_the_whole_id(catalog: SessionCatalog, id: &str, r: Result<Session, AppError>) -> (i:
    int)
    requires
        call_ensures(find_session, (&catalog, id), r),
    ensures
        r matches Ok(session) ==> {
            &&& session@.id == id@
            &&& 0 <= i < catalog@.sessions.len() && catalog@.sessions[i] == session@
            &&& forall|j: int| 0 <= j < i ==> (#[trigger] catalog@.sessions[j]).id != id@
        },
        r is Err ==> forall|j: int|
            0 <= j < catalog@.sessions.len() ==> (#[trigger] catalog@.sessions[j]).id != id@,
        r matches Err(e) ==> e@ == (AppErrorView::SessionNotFound { id: id@ }),
{
    lookup_needs_id_and_source(catalog@.sessions, id@, None)
}

/// A repair that is not asked for is skipped.  One that is asked for never goes with a dry run; else it
/// is confirmed by `--yes`, asked about at a terminal, and refused where there is none.
pub proof fn repair_needs_consent(
    args: ResumeArgs,
    terminal: bool,
    r: Result<RepairRequest, AppError>,
)
    requires
        call_ensures(request_repair, (&args, terminal), r),
    ensures
        r == Ok::<RepairRequest, AppError>(RepairRequest::Skip) <==> !args.repair_provider,
        r == Ok::<RepairRequest, AppError>(RepairRequest::Confirmed) <==> args.repair_provider && !args.dry_run
            && args.yes,
        r == Ok::<RepairRequest, AppError>(RepairRequest::Ask) <==> args.repair_provider && !args.dry_run
            && !args.yes && terminal,
        args.repair_provider && args.dry_run ==> r is Err && r->Err_0@ == AppErrorView::RepairInDryRun,
        args.repair_provider && !args.dry_run && !args.yes && !terminal ==> r is Err && r->Err_0@
            == AppErrorView::RepairNeedsYes,
{
}

/// A command is handed out exactly where the session is ready and its source made one, and it is that
/// one.  Else the reason is told: that of the session first, then that of the source.
pub proof fn only_ready_sessions_get_a_command(
    status: ResumeStatus,
    command: Result<CommandSpec, ProviderError>,
    r: Result<CommandSpec, AppError>,
)
    requires
        call_ensures(approve_command, (&status, command), r),
    ensures
        r is Ok <==> status.state == ResumeState::Ready && command is Ok,
        r is Ok ==> r->Ok_0@ == command->Ok_0@,
        status.state != ResumeState::Ready && status.message is Some ==> r is Err && r->Err_0@ == (
        AppErrorView::NotResumable { message: status.message->0@ }),
        status.state != ResumeState::Ready && status.message is None ==> r is Err && r->Err_0@ == (
        AppErrorView::NotResumable { message: "当前会话不可恢复"@ }),
        status.state == ResumeState::Ready && command is Err ==> r is Err && r->Err_0@ == (
        AppErrorView::Provider(command->Err_0@)),
{
}

/// The app is only opened where that was not switched off and the source has a URI for it.
pub proof fn app_is_opened_only_with_a_uri(
    no_open_in_app: bool,
    uri: Result<Option<String>, ProviderError>,
    r: Option<String>,
)
    requires
        call_ensures(navigation_uri, (no_open_in_app, uri), r),
    ensures
        no_open_in_app ==> r is None,
        uri is Err ==> r is None,
        !no_open_in_app && uri is Ok ==> opt_view(r) == opt_view(uri->Ok_0),
{
}

/// After a resume the exit code is that of the command.  The app is opened exactly where the command
/// was run and succeeded and there is a URI; a failure is told with the id and the exit code; and a dry
/// run tells the command and the URI instead.
pub proof fn resume_is_concluded_by_its_exit_code(
    id: &str,
    execution: ResumeExecution,
    uri: Option<String>,
    r: ResumeConclusion,
)
    requires
        call_ensures(conclude_resume, (id, &execution, uri), r),
    ensures
        r.exit_code == execution.exit_code,
        opt_view(r.open) == if execution.executed && execution.exit_code == 0 {
            opt_view(uri)
        } else {
            None
        },
        r.stdout@.len() > 0 <==> !execution.executed,
        r.stderr@.len() > 0 <==> execution.executed && execution.exit_code != 0,
        r.stderr@.len() > 0 ==> shows(r.stderr@, id@) && shows(
            r.stderr@,
            signed_decimal(execution.exit_code as int),
        ),
        r.stdout@.len() > 0 ==> shows(r.stdout@, execution.command@),
        r.stdout@.len() > 0 && uri is Some ==> shows(r.stdout@, uri->0@),
{
    let v = concluded(id@, execution@, opt_view(uri));
    assert(r@ == v);
    assert(r@.exit_code == r.exit_code && r@.stdout == r.stdout@ && r@.stderr == r.stderr@ && r@.open
        == opt_view(r.open));
    if execution.executed {
        if execution.exit_code != 0 {
            let code = signed_decimal(execution.exit_code as int);
            reveal_strlit("\n");
            shows_what_it_holds("恢复命令失败，会话 "@, id@, "，退出码 "@ + code + "\n"@);
            assert(v.stderr =~= "恢复命令失败，会话 "@ + id@ + ("，退出码 "@ + code + "\n"@));
            shows_what_it_holds("恢复命令失败，会话 "@ + id@ + "，退出码 "@, code, "\n"@);
            assert(v.stderr.len() > 0);
        }
    } else {
        let command = execution.command@;
        reveal_strlit("\n");
        match uri {
            Some(target) => {
                let rest = "\n"@ + "恢复成功后将打开: "@ + target@ + "\n"@;
                shows_what_it_holds("将执行: "@, command, rest);
                assert(v.stdout =~= "将执行: "@ + command + rest);
                let head = "将执行: "@ + command + "\n"@ + "恢复成功后将打开: "@;
                shows_what_it_holds(head, target@, "\n"@);
                assert(v.stdout =~= head + target@ + "\n"@);
            },
            None => {
                shows_what_it_holds("将执行: "@, command, "\n"@);
            },
        }
        assert(v.stdout.len() > 0);
    }
}

/// After a session of the list was resumed, the program ends exactly where that succeeded.  Else the
/// failure is told, with the id and the exit code of the command where there is one, which is then that
/// of the program, and with the reason and one otherwise.
pub proof fn only_success_leaves_the_list(
    id: &str,
    result: Result<ResumeExecution, AppError>,
    r: AfterChoice,
)
    requires
        call_ensures(follow_choice, (id, &result), r),
    ensures
        r@ is Leave <==> result is Ok && result->Ok_0.exit_code == 0,
        result is Ok && result->Ok_0.exit_code != 0 ==> {
            &&& r@->exit_code == result->Ok_0.exit_code
            &&& shows(r@->message, id@)
            &&& shows(r@->message, signed_decimal(result->Ok_0.exit_code as int))
        },
        result is Err ==> r@->exit_code == 1 && shows(r@->message, app_error_text(result->Err_0@)),
{
    match result {
        Ok(e) => {
            if e.exit_code != 0 {
                let code = signed_decimal(e.exit_code as int);
                shows_what_it_holds("恢复失败: "@, id@, " 退出码 "@ + code);
                assert(r@->message =~= "恢复失败: "@ + id@ + (" 退出码 "@ + code));
                shows_what_it_holds("恢复失败: "@ + id@ + " 退出码 "@, code, Seq::empty());
                assert(r@->message =~= "恢复失败: "@ + id@ + " 退出码 "@ + code + Seq::empty());
            }
        },
        Err(e) => {
            shows_what_it_holds("恢复失败: "@, app_error_text(e@), Seq::empty());
            assert(r@->message =~= "恢复失败: "@ + app_error_text(e@) + Seq::empty());
        },
    }
}

/// What the user is asked before a repair names the model provider, or says that it is unknown; what
/// is told after a failure shows it; and what is told after a repair shows its message and where the
/// copy of the configuration is.
pub proof fn questions_show_what_they_are_about(
    session: Session,
    asked: String,
    message: &str,
    prompt: String,
    report: RepairReport,
    told: String,
    error: AppNavigationError,
    warned: String,
)
    requires
        call_ensures(repair_question, (&session,), asked),
        call_ensures(failure_prompt, (message,), prompt),
        call_ensures(repair_output, (&report,), told),
        call_ensures(navigation_warning, (&error,), warned),
    ensures
        session@.model_provider matches Some(name) ==> shows(asked@, name),
        session@.model_provider is None ==> shows(asked@, "unknown"@),
        shows(prompt@, message@),
        shows(told@, report.message@),
        report.backup_path matches Some(path) ==> shows(told@, path@),
        shows(warned@, navigation_error_text(error@)),
{
    let name = match session@.model_provider {
        Some(name) => name,
        None => "unknown"@,
    };
    shows_what_it_holds("将备份 config.toml 并创建 provider 兼容别名 "@, name, "，继续吗？[y/N] "@);
    shows_what_it_holds(
        "\n"@,
        message@,
        "\nCodex 的原始错误输出保留在上方。\n按 Enter 返回 agentmux，输入 q 后按 Enter 退出: "@,
    );
    match report.backup_path {
        Some(path) => {
            let rest = "\n配置备份: "@ + path@ + "\n"@;
            shows_what_it_holds(Seq::empty(), report.message@, rest);
            assert(told@ =~= Seq::empty() + report.message@ + rest);
            shows_what_it_holds(report.message@ + "\n配置备份: "@, path@, "\n"@);
        },
        None => {
            shows_what_it_holds(Seq::empty(), report.message@, "\n"@);
            assert(told@ =~= Seq::empty() + report.message@ + "\n"@);
        },
    }
    shows_what_it_holds("警告: "@, navigation_error_text(error@), "\n"@);
}

/// A URI is opened by `open` on macOS and `xdg-open` on another Unix, with the URI for its only
/// argument, and by no command elsewhere.
pub proof fn uri_is_handed_to_the_opener(platform: Platform, uri: &str, r: Option<CommandSpec>)
    requires
        call_ensures(open_command, (platform, uri), r),
    ensures
        r is Some <==> platform == Platform::MacOs || platform == Platform::Unix,
        r matches Some(command) ==> command@.args.len() == 1 && command@.args[0] == uri@,
        platform == Platform::MacOs ==> r->0@.program == "open"@,
        platform == Platform::Unix ==> r->0@.program == "xdg-open"@,
{
}

/// Opening a URI succeeds exactly where the handler ended with zero or, on Windows, the protocol is
/// there and the shell gave a code above 32.  Each failure is told for what it is.
pub proof fn opening_succeeds_with_its_handler(
    platform: Platform,
    available: bool,
    launch: Launch,
    r: Result<(), AppNavigationError>,
)
    requires
        call_ensures(open_uri, (platform, available, launch), r),
    ensures
        platform == Platform::Other ==> r is Err && r->Err_0@ is UnsupportedPlatform,
        platform == Platform::Windows && !available ==> r is Err && r->Err_0@ is ProtocolUnavailable,
        platform != Platform::Other && (platform == Platform::Windows ==> available) ==> match launch@ {
            LaunchView::NotStarted { error } => r is Err && r->Err_0@ == (NavigationErrorView::Spawn {
                source: error,
            }),
            LaunchView::Exited(code) => (r is Ok <==> code == Some(0i32)) && (r is Err ==> r->Err_0@ is Launch),
            LaunchView::ShellCode(code) => (r is Ok <==> code > 32) && (r is Err ==> r->Err_0@ is Launch),
        },
{
}

/// The desktop app counts as available on macOS, where a handler was found on Windows and another
/// Unix, and never elsewhere.  That it is missing is a warning and no error.
pub proof fn missing_app_is_no_error(
    platform: Platform,
    found: bool,
    available: bool,
    r: Diagnostic,
)
    requires
        call_ensures(is_available, (platform, found), available),
        call_ensures(diagnostic, (available,), r),
    ensures
        available <==> platform == Platform::MacOs || (platform != Platform::Other && found),
        r.severity == if available {
            DiagnosticSeverity::Info
        } else {
            DiagnosticSeverity::Warning
        },
        r@.suggestion is Some <==> !available,
        r@.name == "codex-app-navigation"@,
{
    assert(r@.severity == r.severity);
}

/// What is told of a failed command shows what it is about: the session, the source, the reason, and
/// what the source or the command said.
pub proof fn failures_show_what_they_are_about(e: AppErrorView)
    ensures
        match e {
            AppErrorView::SessionNotFound { id } => shows(app_error_text(e), id),
            AppErrorView::SourceNotRegistered { source } => shows(app_error_text(e), source),
            AppErrorView::NotResumable { message } => app_error_text(e) == message,
            AppErrorView::RepairInDryRun => app_error_text(e)
                == "--repair-provider 不能与 --dry-run 同时使用"@,
            AppErrorView::RepairNeedsYes => app_error_text(e)
                == "非交互环境执行 --repair-provider 时必须同时传入 --yes"@,
            AppErrorView::RepairCancelled => app_error_text(e) == "已取消 provider 配置修复"@,
            AppErrorView::Provider(inner) => app_error_text(e) == error_text(inner),
            AppErrorView::Resume(inner) => app_error_text(e) == resume_error_text(inner),
        },
{
    match e {
        AppErrorView::SessionNotFound { id } => {
            shows_what_it_holds("未找到会话 "@, id, Seq::empty());
            assert(app_error_text(e) =~= "未找到会话 "@ + id + Seq::empty());
        },
        AppErrorView::SourceNotRegistered { source } => {
            shows_what_it_holds("来源 "@, source, " 未注册"@);
        },
        _ => {},
    }
}

/// What is told of a time that cannot be read, and of an app that could not be opened, shows the text
/// and the reason.
pub proof fn refused_time_and_failed_opening_are_shown(
    error: SinceParseError,
    told: String,
    reason: Seq<char>,
)
    requires
        call_ensures(SinceParseError::message, (&error,), told),
    ensures
        shows(told@, error@),
        shows(navigation_error_text(NavigationErrorView::Spawn { source: reason }), reason),
        shows(navigation_error_text(NavigationErrorView::Launch { reason }), reason),
{
    let none = Seq::<char>::empty();
    shows_what_it_holds("无效的 --since 值: "@, error@, none);
    assert(told@ =~= "无效的 --since 值: "@ + error@ + none);
    shows_what_it_holds("无法打开 Codex App URL: "@, reason, none);
    assert("无法打开 Codex App URL: "@ + reason =~= "无法打开 Codex App URL: "@ + reason + none);
    shows_what_it_holds("Codex App URL 处理器失败: "@, reason, none);
    assert("Codex App URL 处理器失败: "@ + reason =~= "Codex App URL 处理器失败: "@ + reason + none);
}

/// Of the readings of a time the instant counts first, then the day, then the span.
pub proof fn first_reading_of_a_time_counts(
    value: &str,
    instant: Option<Timestamp>,
    day: Option<Timestamp>,
    now: Timestamp,
    r: Result<Timestamp, SinceParseError>,
)
    requires
        call_ensures(resolve_since, (value, instant, day, now), r),
    ensures
        instant matches Some(at) ==> r is Ok && r->Ok_0@ == at@,
        instant is None && day is Some ==> r is Ok && r->Ok_0@ == day->0@,
        instant is None && day is None ==> (r is Ok <==> relative_instant(value@, now@) is Some),
        instant is None && day is None && r is Ok ==> Some(r->Ok_0@) == relative_instant(value@, now@),
        r matches Err(e) ==> e@ == value@,
{
}

/// Without a search, every session of the catalog that meets what the arguments name is listed, but for
/// those known to be non-interactive where these are not asked for.
pub proof fn no_session_that_meets_the_arguments_is_left_out(
    catalog: SessionCatalog,
    args: ListArgs,
    now: Timestamp,
    r: Result<Vec<SessionGroup<'_>>, SinceParseError>,
    s: SessionView,
) -> (i: int)
    requires
        call_ensures(list_groups, (&catalog, &args, now), r),
        r is Ok,
        args.search is None,
        catalog@.sessions.contains(s),
        args.include_non_interactive || s.interaction != InteractionType::NonInteractive,
        args.source matches Some(name) ==> alike_but_case(s.source, name@),
        args.project matches Some(name) ==> alike_but_case(s.project, name@),
        args.provider matches Some(name) ==> s.model_provider is Some && alike_but_case(
            s.model_provider->0,
            name@,
        ),
        args.since matches Some(text) ==> (since_instant(text@, now@) matches Some(at) && not_before(
            s.updated_at,
            at,
        )),
    ensures
        0 <= i < r->Ok_0@.len(),
        r->Ok_0@[i]@.sessions.contains(s),
{
    let at = match args.since {
        Some(text) => since_instant(text@, now@),
        None => None,
    };
    let q = query_of(args, at);
    let all = found(catalog@.sessions, q);
    let groups = grouped(all, args.group_by);
    assert(views(r->Ok_0@) == groups);
    assert(meets_conditions(s, q));
    no_session_that_meets_the_conditions_is_lost(catalog@.sessions, q, s);
    grouping_partitions(all, args.group_by);
    let k = choose|k: int| 0 <= k < all.len() && all[k] == s;
    let i = choose|i: int| 0 <= i < groups.len() && (#[trigger] groups[i]).sessions.contains(all[k]);
    assert(views(r->Ok_0@)[i] == r->Ok_0@[i]@);
    i
}

} // verus!
