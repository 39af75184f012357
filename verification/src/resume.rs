//! How a resume command is run: whether it may be, what program it means, and what comes of it.

use vstd::prelude::*;

use crate::domain::{command_line, copy_texts, CommandSpec, CommandView};
use crate::model::{lemma_views_push, opt_view, views};
use crate::paths::{file_extension, file_name, is_path, join, joined, leads_somewhere, path_extension};
use crate::text::{cat, cat4, chars_of, eq_ignore_case, same_but_case, text_between};

verus! {

/// Why a command could not be run.
#[derive(Debug)]
pub enum ResumeError {
    /// There is no terminal to run it in.
    NonInteractiveTerminal,
    /// There is no such program.
    CommandUnavailable {
        /// Its name.
        program: String,
    },
    /// It could not be started.
    Spawn {
        /// Its name.
        program: String,
        /// The error of the system.
        source: String,
    },
    /// It ended without an exit code.
    MissingExitCode,
}

/// The model of a `ResumeError`.
pub enum ResumeErrorView {
    NonInteractiveTerminal,
    CommandUnavailable { program: Seq<char> },
    Spawn { program: Seq<char>, source: Seq<char> },
    MissingExitCode,
}

impl View for ResumeError {
    type V = ResumeErrorView;

    open spec fn view(&self) -> ResumeErrorView {
        match self {
            ResumeError::NonInteractiveTerminal => ResumeErrorView::NonInteractiveTerminal,
            ResumeError::CommandUnavailable { program } => ResumeErrorView::CommandUnavailable {
                program: program@,
            },
            ResumeError::Spawn { program, source } => ResumeErrorView::Spawn {
                program: program@,
                source: source@,
            },
            ResumeError::MissingExitCode => ResumeErrorView::MissingExitCode,
        }
    }
}

/// What to tell the user about the error `e`.
pub open spec fn resume_error_text(e: ResumeErrorView) -> Seq<char> {
    match e {
        ResumeErrorView::NonInteractiveTerminal =>
            "当前环境不是交互式终端，无法恢复 Codex 会话；请在 PowerShell、CMD 或 Windows Terminal 中运行"@,
        ResumeErrorView::CommandUnavailable { program } => "找不到恢复命令: "@ + program,
        ResumeErrorView::Spawn { program, source } => "无法启动恢复命令 "@ + program + ": "@ + source,
        ResumeErrorView::MissingExitCode => "恢复命令异常终止，未返回退出码"@,
    }
}

impl ResumeError {
    /// What to tell the user.
    pub fn message(&self) -> (r: String)
        ensures
            r@ == resume_error_text(self@),
    {
        match self {
            ResumeError::NonInteractiveTerminal =>
                "当前环境不是交互式终端，无法恢复 Codex 会话；请在 PowerShell、CMD 或 Windows Terminal 中运行".to_owned(),
            ResumeError::CommandUnavailable { program } => cat("找不到恢复命令: ", program.as_str()),
            ResumeError::Spawn { program, source } => cat4(
                "无法启动恢复命令 ",
                program.as_str(),
                ": ",
                source.as_str(),
            ),
            ResumeError::MissingExitCode => "恢复命令异常终止，未返回退出码".to_owned(),
        }
    }
}

/// What came of a resume command.
#[derive(Debug, PartialEq, Eq)]
pub struct ResumeExecution {
    /// The command as it is shown.
    pub command: String,
    /// Whether it was run.
    pub executed: bool,
    /// The exit code to hand on.
    pub exit_code: i32,
}

/// The model of a `ResumeExecution`.
pub struct ExecutionView {
    pub command: Seq<char>,
    pub executed: bool,
    pub exit_code: i32,
}

impl View for ResumeExecution {
    type V = ExecutionView;

    open spec fn view(&self) -> ExecutionView {
        ExecutionView {
            command: self.command@,
            executed: self.executed,
            exit_code: self.exit_code,
        }
    }
}

impl Clone for ResumeExecution {
    fn clone(&self) -> (r: ResumeExecution)
        ensures
            r@ == self@,
    {
        ResumeExecution {
            command: self.command.clone(),
            executed: self.executed,
            exit_code: self.exit_code,
        }
    }
}

/// What came of running a program with the terminal handed on to it.
#[derive(Debug)]
pub enum ProgramRun {
    /// It was not found.
    NotFound,
    /// It could not be started.
    NotStarted {
        /// The error of the system.
        error: String,
    },
    /// It ended, with this exit code where it ended by itself.
    Exited(Option<i32>),
}

/// The model of a `ProgramRun`.
pub enum RunView {
    NotFound,
    NotStarted { error: Seq<char> },
    Exited(Option<i32>),
}

impl View for ProgramRun {
    type V = RunView;

    open spec fn view(&self) -> RunView {
        match self {
            ProgramRun::NotFound => RunView::NotFound,
            ProgramRun::NotStarted { error } => RunView::NotStarted { error: error@ },
            ProgramRun::Exited(code) => RunView::Exited(*code),
        }
    }
}

/// The exit code that running `program` came to, or why there is none.
pub open spec fn exit_of(program: Seq<char>, run: RunView) -> Result<i32, ResumeErrorView> {
    match run {
        RunView::NotFound => Err(ResumeErrorView::CommandUnavailable { program }),
        RunView::NotStarted { error } => Err(ResumeErrorView::Spawn { program, source: error }),
        RunView::Exited(Some(code)) => Ok(code),
        RunView::Exited(None) => Err(ResumeErrorView::MissingExitCode),
    }
}

/// What comes of a command that is run: its own exit code, unchanged.
pub open spec fn run_result(spec: CommandView, run: RunView) -> Result<ExecutionView, ResumeErrorView> {
    match exit_of(spec.program, run) {
        Ok(exit_code) => Ok(
            ExecutionView {
                command: command_line(spec.program, spec.args),
                executed: true,
                exit_code,
            },
        ),
        Err(e) => Err(e),
    }
}

/// Whether a command is to be run.
#[derive(Debug)]
pub enum ResumeDecision {
    /// It is.
    Run,
    /// It is not, and this is what comes of it.
    Finished(Result<ResumeExecution, ResumeError>),
}

/// The model of a `ResumeDecision`.
pub enum ResumeDecisionView {
    Run,
    Finished(Result<ExecutionView, ResumeErrorView>),
}

impl View for ResumeDecision {
    type V = ResumeDecisionView;

    open spec fn view(&self) -> ResumeDecisionView {
        match self {
            ResumeDecision::Run => ResumeDecisionView::Run,
            ResumeDecision::Finished(Ok(execution)) => ResumeDecisionView::Finished(Ok(execution@)),
            ResumeDecision::Finished(Err(e)) => ResumeDecisionView::Finished(Err(e@)),
        }
    }
}

/// Whether the command `spec` is to be run: not in a dry run, and only in a terminal.
pub open spec fn resume_decision(spec: CommandView, dry_run: bool, interactive: bool) -> ResumeDecisionView {
    if dry_run {
        ResumeDecisionView::Finished(
            Ok(
                ExecutionView {
                    command: command_line(spec.program, spec.args),
                    executed: false,
                    exit_code: 0,
                },
            ),
        )
    } else if !interactive {
        ResumeDecisionView::Finished(Err(ResumeErrorView::NonInteractiveTerminal))
    } else {
        ResumeDecisionView::Run
    }
}

/// What comes of the command `spec` where running it would come to `run`.
pub open spec fn execution_of(spec: CommandView, dry_run: bool, interactive: bool, run: RunView) -> Result<
    ExecutionView,
    ResumeErrorView,
> {
    match resume_decision(spec, dry_run, interactive) {
        ResumeDecisionView::Run => run_result(spec, run),
        ResumeDecisionView::Finished(result) => result,
    }
}

/// A dry run is the same whatever running the command would come to, needs no terminal, and ends
/// well.
pub proof fn dry_run_runs_nothing(spec: CommandView, interactive: bool, run: RunView, other: RunView)
    ensures
        execution_of(spec, true, interactive, run) == execution_of(spec, true, !interactive, other),
        execution_of(spec, true, interactive, run) matches Ok(execution) && !execution.executed
            && execution.exit_code == 0,
{
}

/// A command that was run and ended by itself hands on its own exit code.
pub proof fn exit_code_is_handed_on(spec: CommandView, code: i32)
    ensures
        execution_of(spec, false, true, RunView::Exited(Some(code))) matches Ok(execution)
            && execution.executed && execution.exit_code == code,
{
}

/// Decides whether a command is to be run: not in a dry run, and only in a terminal.
pub fn decide_resume(spec: &CommandSpec, dry_run: bool, interactive_terminal: bool) -> (r: ResumeDecision)
    ensures
        r@ == resume_decision(spec@, dry_run, interactive_terminal),
{
    if dry_run {
        return ResumeDecision::Finished(
            Ok(ResumeExecution { command: spec.display(), executed: false, exit_code: 0 }),
        );
    }
    if !interactive_terminal {
        return ResumeDecision::Finished(Err(ResumeError::NonInteractiveTerminal));
    }
    ResumeDecision::Run
}

/// The exit code that running the program of a command came to, or why there is none.
pub fn exit_code_of(spec: &CommandSpec, run: ProgramRun) -> (r: Result<i32, ResumeError>)
    ensures
        match r {
            Ok(code) => exit_of(spec@.program, run@) == Ok::<i32, ResumeErrorView>(code),
            Err(e) => exit_of(spec@.program, run@) == Err::<i32, ResumeErrorView>(e@),
        },
{
    match run {
        ProgramRun::NotFound => Err(
            ResumeError::CommandUnavailable { program: spec.program.clone() },
        ),
        ProgramRun::NotStarted { error } => Err(
            ResumeError::Spawn { program: spec.program.clone(), source: error },
        ),
        ProgramRun::Exited(Some(code)) => Ok(code),
        ProgramRun::Exited(None) => Err(ResumeError::MissingExitCode),
    }
}

/// What comes of a command that was run.
pub fn finish_resume(spec: &CommandSpec, run: ProgramRun) -> (r: Result<ResumeExecution, ResumeError>)
    ensures
        match r {
            Ok(execution) => run_result(spec@, run@) == Ok::<ExecutionView, ResumeErrorView>(
                execution@,
            ),
            Err(e) => run_result(spec@, run@) == Err::<ExecutionView, ResumeErrorView>(e@),
        },
{
    match exit_code_of(spec, run) {
        Ok(exit_code) => Ok(ResumeExecution { command: spec.display(), executed: true, exit_code }),
        Err(e) => Err(e),
    }
}

/// The parts of `list` between its semicolons.
pub open spec fn split_list(list: Seq<char>) -> Seq<Seq<char>>
    decreases list.len(),
{
    if list.len() == 0 {
        seq![Seq::empty()]
    } else {
        let before = split_list(list.drop_last());
        if list.last() == ';' {
            before.push(Seq::empty())
        } else {
            before.update(before.len() - 1, before.last().push(list.last()))
        }
    }
}

/// The parts of `list` between its semicolons that are not empty.
pub open spec fn listed(list: Seq<char>) -> Seq<Seq<char>> {
    split_list(list).filter(|part: Seq<char>| part.len() > 0)
}

/// The extensions of executable files where none are listed.
pub open spec fn usual_extensions() -> Seq<Seq<char>> {
    seq![".COM"@, ".EXE"@, ".BAT"@, ".CMD"@]
}

/// The extensions of executable files, given those that are listed, if any.
pub open spec fn extensions_of(list: Option<Seq<char>>) -> Seq<Seq<char>> {
    match list {
        Some(given) => listed(given),
        None => usual_extensions(),
    }
}

/// `base` with each of `tails` behind it.
pub open spec fn with_tails(base: Seq<char>, tails: Seq<Seq<char>>) -> Seq<Seq<char>> {
    Seq::new(tails.len(), |i: int| base + tails[i])
}

/// The file names that `program` may have on the search path: on Windows, one for each extension of
/// executable files, unless it has an extension.
pub open spec fn program_names(program: Seq<char>, windows: bool, list: Option<Seq<char>>) -> Seq<Seq<char>> {
    if windows && path_extension(program, windows) is None {
        with_tails(program, extensions_of(list))
    } else {
        seq![program]
    }
}

/// The same, and on Windows the bare name before them.
pub open spec fn program_names_with_bare(
    program: Seq<char>,
    windows: bool,
    list: Option<Seq<char>>,
) -> Seq<Seq<char>> {
    if windows && path_extension(program, windows) is None {
        seq![program] + with_tails(program, extensions_of(list))
    } else {
        seq![program]
    }
}

/// The names of `names` below the directory `directory`.
pub open spec fn below(directory: Seq<char>, names: Seq<Seq<char>>, windows: bool) -> Seq<Seq<char>> {
    Seq::new(names.len(), |i: int| joined(directory, names[i], windows))
}

/// The paths of `names` in each of `directories`, directory by directory.
pub open spec fn search_paths(
    directories: Seq<Seq<char>>,
    names: Seq<Seq<char>>,
    windows: bool,
) -> Seq<Seq<char>>
    decreases directories.len(),
{
    if directories.len() == 0 {
        Seq::empty()
    } else {
        search_paths(directories.drop_last(), names, windows) + below(directories.last(), names, windows)
    }
}

/// Where `program` may lie: where it points, if it is a path; else the names `names` in each of
/// `directories`, if there are any to search.
pub open spec fn candidates_of(
    program: Seq<char>,
    names: Seq<Seq<char>>,
    directories: Option<Seq<Seq<char>>>,
    windows: bool,
) -> Seq<Seq<char>> {
    if leads_somewhere(program, windows) {
        seq![program]
    } else {
        match directories {
            Some(all) => search_paths(all, names, windows),
            None => Seq::empty(),
        }
    }
}

proof fn lemma_filter_keeps(parts: Seq<Seq<char>>, keep: spec_fn(Seq<char>) -> bool, i: int)
    requires
        0 <= i < parts.filter(keep).len(),
    ensures
        keep(parts.filter(keep)[i]),
    decreases parts.len(),
{
    reveal(Seq::filter);
    if parts.len() > 0 && i < parts.drop_last().filter(keep).len() {
        lemma_filter_keeps(parts.drop_last(), keep, i);
    }
}

/// On Windows, a program without an extension is never run under its bare name: that may be a
/// script for another shell.
pub proof fn bare_name_is_no_candidate_on_windows(program: Seq<char>, list: Option<Seq<char>>, i: int)
    requires
        path_extension(program, true) is None,
        0 <= i < program_names(program, true, list).len(),
    ensures
        program_names(program, true, list)[i] != program,
{
    reveal_strlit(".COM");
    reveal_strlit(".EXE");
    reveal_strlit(".BAT");
    reveal_strlit(".CMD");
    if let Some(given) = list {
        lemma_filter_keeps(split_list(given), |part: Seq<char>| part.len() > 0, i);
        assert(listed(given)[i].len() > 0);
    }
    assert(program_names(program, true, list)[i].len() > program.len());
}

/// The parts of a list between its semicolons that are not empty.
pub fn list_parts(list: &str) -> (r: Vec<String>)
    ensures
        views(r@) == listed(list@),
{
    let v = chars_of(list);
    let end: usize = v.len();
    let ghost long = |part: Seq<char>| part.len() > 0;
    let ghost mut closed: Seq<Seq<char>> = Seq::empty();
    let mut r: Vec<String> = Vec::new();
    let mut from: usize = 0;
    let mut i: usize = 0;
    proof {
        reveal(Seq::filter);
        assert(views(r@) =~= closed.filter(long));
        assert(list@.take(0) =~= Seq::<char>::empty());
        assert(split_list(list@.take(0)) =~= closed.push(v@.subrange(0, 0)));
    }
    while i < end
        invariant
            from <= i <= end,
            end == v@.len(),
            v@ == list@,
            long == (|part: Seq<char>| part.len() > 0),
            split_list(list@.take(i as int)) == closed.push(v@.subrange(from as int, i as int)),
            views(r@) == closed.filter(long),
        decreases end - i,
    {
        let ghost part = v@.subrange(from as int, i as int);
        proof {
            let next = list@.take(i + 1);
            assert(next.drop_last() == list@.take(i as int));
            assert(next.last() == v@[i as int]);
        }
        if v[i] == ';' {
            let ghost before = r@;
            if i > from {
                r.push(text_between(&v, from, i));
                proof {
                    lemma_views_push(before, r@.last());
                }
            }
            proof {
                reveal(Seq::filter);
                assert(closed.push(part).drop_last() == closed);
                assert(v@.subrange(i + 1, i + 1) =~= Seq::<char>::empty());
                closed = closed.push(part);
            }
            from = i + 1;
        } else {
            proof {
                let before = split_list(list@.take(i as int));
                assert(before.update(before.len() - 1, before.last().push(v@[i as int])) =~= closed.push(
                    v@.subrange(from as int, i + 1),
                )) by {
                    assert(v@.subrange(from as int, i + 1) == part.push(v@[i as int]));
                }
            }
        }
        i = i + 1;
    }
    let ghost part = v@.subrange(from as int, end as int);
    let ghost before = r@;
    if end > from {
        r.push(text_between(&v, from, end));
        proof {
            lemma_views_push(before, r@.last());
        }
    }
    proof {
        reveal(Seq::filter);
        assert(closed.push(part).drop_last() == closed);
        assert(list@.take(end as int) == list@);
    }
    r
}

fn add_tails(base: &str, tails: &Vec<String>, names: Vec<String>) -> (r: Vec<String>)
    ensures
        views(r@) == views(names@) + with_tails(base@, views(tails@)),
{
    let ghost all = with_tails(base@, views(tails@));
    let ghost given = views(names@);
    let mut r = names;
    let mut i: usize = 0;
    proof {
        assert(given + all.take(0) =~= given);
    }
    while i < tails.len()
        invariant
            i <= tails@.len(),
            all == with_tails(base@, views(tails@)),
            views(r@) == given + all.take(i as int),
        decreases tails@.len() - i,
    {
        let ghost before = r@;
        r.push(cat(base, tails[i].as_str()));
        proof {
            lemma_views_push(before, r@.last());
            assert(given + all.take(i + 1) =~= (given + all.take(i as int)).push(all[i as int]));
        }
        i = i + 1;
    }
    proof {
        assert(all.take(all.len() as int) == all);
    }
    r
}

fn extension_list(list: Option<&str>) -> (r: Vec<String>)
    ensures
        views(r@) == extensions_of(opt_view(list)),
{
    match list {
        Some(given) => list_parts(given),
        None => {
            let mut r: Vec<String> = Vec::new();
            r.push(".COM".to_owned());
            r.push(".EXE".to_owned());
            r.push(".BAT".to_owned());
            r.push(".CMD".to_owned());
            proof {
                assert(views(r@) =~= usual_extensions());
            }
            r
        },
    }
}

fn has_any_extension(program: &str, windows: bool) -> (r: bool)
    ensures
        r == (path_extension(program@, windows) is Some),
{
    match file_name(program, windows) {
        Some(name) => file_extension(name.as_str()).is_some(),
        None => false,
    }
}

fn one_name(program: &str) -> (r: Vec<String>)
    ensures
        views(r@) == seq![program@],
{
    let mut r: Vec<String> = Vec::new();
    r.push(program.to_owned());
    proof {
        assert(views(r@) =~= seq![program@]);
    }
    r
}

/// The file names that a program may have on the search path: on Windows, one for each extension of
/// executable files, unless it has an extension.
pub fn executable_names(program: &str, windows: bool, list: Option<&str>) -> (r: Vec<String>)
    ensures
        views(r@) == program_names(program@, windows, opt_view(list)),
{
    if windows && !has_any_extension(program, windows) {
        let none: Vec<String> = Vec::new();
        proof {
            assert(views(none@) + with_tails(program@, extensions_of(opt_view(list))) =~= with_tails(
                program@,
                extensions_of(opt_view(list)),
            ));
        }
        add_tails(program, &extension_list(list), none)
    } else {
        one_name(program)
    }
}

/// The same, and on Windows the bare name before them.
pub fn executable_names_with_bare(program: &str, windows: bool, list: Option<&str>) -> (r: Vec<String>)
    ensures
        views(r@) == program_names_with_bare(program@, windows, opt_view(list)),
{
    let bare = one_name(program);
    if windows && !has_any_extension(program, windows) {
        add_tails(program, &extension_list(list), bare)
    } else {
        bare
    }
}

/// Where a program may lie, in the order to be tried: where it points, if it is a path; else its
/// names in each of the directories, if there are any to search.
pub fn candidates(
    program: &str,
    names: &Vec<String>,
    directories: &Option<Vec<String>>,
    windows: bool,
) -> (r: Vec<String>)
    ensures
        views(r@) == candidates_of(
            program@,
            views(names@),
            match directories {
                Some(all) => Some(views(all@)),
                None => None,
            },
            windows,
        ),
{
    if is_path(program, windows) {
        return one_name(program);
    }
    let mut r: Vec<String> = Vec::new();
    let all = match directories {
        Some(all) => all,
        None => {
            proof {
                assert(views(r@) =~= Seq::<Seq<char>>::empty());
            }
            return r;
        },
    };
    let ghost dirs = views(all@);
    let ghost wanted = views(names@);
    let mut i: usize = 0;
    proof {
        assert(views(r@) =~= search_paths(dirs.take(0), wanted, windows));
    }
    while i < all.len()
        invariant
            i <= all@.len(),
            dirs == views(all@),
            wanted == views(names@),
            views(r@) == search_paths(dirs.take(i as int), wanted, windows),
        decreases all@.len() - i,
    {
        let ghost start = views(r@);
        let ghost here = below(dirs[i as int], wanted, windows);
        let mut k: usize = 0;
        proof {
            assert(start + here.take(0) =~= start);
        }
        while k < names.len()
            invariant
                k <= names@.len(),
                i < all@.len(),
                dirs == views(all@),
                wanted == views(names@),
                here == below(dirs[i as int], wanted, windows),
                views(r@) == start + here.take(k as int),
            decreases names@.len() - k,
        {
            let ghost before = r@;
            r.push(join(all[i].as_str(), names[k].as_str(), windows));
            proof {
                lemma_views_push(before, r@.last());
                assert(start + here.take(k + 1) =~= (start + here.take(k as int)).push(here[k as int]));
            }
            k = k + 1;
        }
        proof {
            assert(here.take(here.len() as int) == here);
            assert(dirs.take(i + 1).drop_last() == dirs.take(i as int));
            assert(dirs.take(i + 1).last() == dirs[i as int]);
        }
        i = i + 1;
    }
    proof {
        assert(dirs.take(dirs.len() as int) == dirs);
    }
    r
}

/// The command that runs the program at `program` with `args`: on Windows, scripts are handed to
/// their interpreters.
pub open spec fn platform_spec(program: Seq<char>, args: Seq<Seq<char>>, windows: bool) -> CommandView {
    let kind = match path_extension(program, windows) {
        Some(e) => e,
        None => Seq::empty(),
    };
    if windows && (same_but_case(kind, "cmd"@) || same_but_case(kind, "bat"@)) {
        CommandView { program: "cmd.exe"@, args: seq!["/D"@, "/S"@, "/C"@, program] + args }
    } else if windows && same_but_case(kind, "ps1"@) {
        CommandView {
            program: "powershell.exe"@,
            args: seq!["-NoLogo"@, "-NoProfile"@, "-File"@, program] + args,
        }
    } else {
        CommandView { program, args }
    }
}

fn prefixed(a: &str, b: &str, c: &str, d: &str, args: &Vec<String>) -> (r: Vec<String>)
    ensures
        views(r@) == seq![a@, b@, c@, d@] + views(args@),
{
    broadcast use crate::model::lemma_views_add;

    let mut r: Vec<String> = Vec::new();
    r.push(a.to_owned());
    r.push(b.to_owned());
    r.push(c.to_owned());
    r.push(d.to_owned());
    proof {
        assert(views(r@) =~= seq![a@, b@, c@, d@]);
    }
    let mut rest = copy_texts(args);
    r.append(&mut rest);
    r
}

/// The command that runs the program at `program` with `args`, each argument kept apart: on Windows,
/// scripts are handed to their interpreters.
pub fn platform_command(program: &str, args: &Vec<String>, windows: bool) -> (r: CommandSpec)
    ensures
        r@ == platform_spec(program@, views(args@), windows),
{
    let kind = match file_name(program, windows) {
        Some(name) => file_extension(name.as_str()),
        None => None,
    };
    let kind = match kind {
        Some(e) => e,
        None => String::new(),
    };
    proof {
        assert(kind@ =~= (match path_extension(program@, windows) {
            Some(e) => e,
            None => Seq::empty(),
        }));
    }
    if windows && (eq_ignore_case(kind.as_str(), "cmd") || eq_ignore_case(kind.as_str(), "bat")) {
        return CommandSpec::new("cmd.exe", prefixed("/D", "/S", "/C", program, args));
    }
    if windows && eq_ignore_case(kind.as_str(), "ps1") {
        return CommandSpec::new(
            "powershell.exe",
            prefixed("-NoLogo", "-NoProfile", "-File", program, args),
        );
    }
    CommandSpec::new(program, copy_texts(args))
}

} // verus!
