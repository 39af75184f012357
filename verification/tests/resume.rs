//! Running commands.

use agentmux::domain::CommandSpec;
use agentmux::resume::{
    candidates, decide_resume, executable_names, executable_names_with_bare, exit_code_of, finish_resume, list_parts,
    platform_command, ProgramRun, ResumeDecision, ResumeError,
};

fn spec() -> CommandSpec {
    CommandSpec::new("codex", vec!["resume".to_owned(), "session-id".to_owned()])
}

#[test]
fn dry_run_does_not_require_terminal() {
    let result = match decide_resume(&spec(), true, false) {
        ResumeDecision::Finished(result) => result.expect("dry-run 应跳过 TTY 检查"),
        ResumeDecision::Run => panic!("a dry run runs nothing"),
    };
    assert!(!result.executed);
    assert_eq!(result.exit_code, 0);
    assert_eq!(result.command, "codex resume session-id");
}

#[test]
fn rejects_non_interactive_terminal() {
    let error = match decide_resume(&spec(), false, false) {
        ResumeDecision::Finished(result) => result.expect_err("非 TTY 应被拒绝"),
        ResumeDecision::Run => panic!("nothing runs without a terminal"),
    };
    assert!(matches!(error, ResumeError::NonInteractiveTerminal));
}

#[test]
fn passes_through_child_exit_code() {
    let spec = CommandSpec::new("/tmp/fake-codex", Vec::new());

    let exit_code = exit_code_of(&spec, ProgramRun::Exited(Some(37))).expect("模拟子进程应能执行");
    assert_eq!(exit_code, 37);
}

#[test]
fn windows_candidates_exclude_extensionless_shim() {
    let candidates = executable_names("codex", true, None);

    assert!(!candidates.is_empty());
    assert!(candidates
        .iter()
        .all(|candidate| std::path::Path::new(candidate).extension().is_some()));
}

#[test]
fn a_terminal_lets_the_command_run() {
    assert!(matches!(decide_resume(&spec(), false, true), ResumeDecision::Run));
    let done = finish_resume(&spec(), ProgramRun::Exited(Some(-3))).expect("it ended");
    assert!(done.executed);
    assert_eq!(done.exit_code, -3);
    assert_eq!(done.command, "codex resume session-id");
    assert_eq!(done.clone(), done);
}

#[test]
fn failures_to_run_are_told_apart() {
    let message = |run| finish_resume(&spec(), run).expect_err("it failed").message();
    assert_eq!(message(ProgramRun::NotFound), "找不到恢复命令: codex");
    assert_eq!(
        message(ProgramRun::NotStarted { error: "e".to_owned() }),
        "无法启动恢复命令 codex: e"
    );
    assert_eq!(message(ProgramRun::Exited(None)), "恢复命令异常终止，未返回退出码");
    assert_eq!(
        ResumeError::NonInteractiveTerminal.message(),
        "当前环境不是交互式终端，无法恢复 Codex 会话；请在 PowerShell、CMD 或 Windows Terminal 中运行"
    );
}

#[test]
fn names_follow_the_platform() {
    assert_eq!(executable_names("codex", false, Some(".EXE")), ["codex"]);
    assert_eq!(
        executable_names("codex", true, None),
        ["codex.COM", "codex.EXE", "codex.BAT", "codex.CMD"]
    );
    assert_eq!(executable_names("codex", true, Some(";.EXE;;.PS1;")), ["codex.EXE", "codex.PS1"]);
    assert_eq!(executable_names("codex.cmd", true, None), ["codex.cmd"]);
    assert_eq!(executable_names_with_bare("codex", true, Some(".EXE")), ["codex", "codex.EXE"]);
    assert_eq!(executable_names_with_bare("codex", false, None), ["codex"]);
    assert!(list_parts("").is_empty());
    assert_eq!(list_parts("a;b"), ["a", "b"]);
}

#[test]
fn names_are_looked_for_directory_by_directory() {
    let names = vec!["x".to_owned(), "y".to_owned()];
    let directories = Some(vec!["/a".to_owned(), "/b/".to_owned()]);
    assert_eq!(candidates("x", &names, &directories, false), ["/a/x", "/a/y", "/b/x", "/b/y"]);
    assert!(candidates("x", &names, &None, false).is_empty());
    assert_eq!(candidates("./x", &names, &directories, false), ["./x"]);
    assert_eq!(candidates("/x", &names, &None, false), ["/x"]);
    assert_eq!(candidates("x/", &names, &directories, false).len(), 4);
    assert_eq!(candidates(r"b\x", &names, &directories, false).len(), 4);
    assert_eq!(candidates(r"b\x", &names, &directories, true), [r"b\x"]);
    assert_eq!(candidates("C:x", &names, &directories, true), ["C:x"]);
    assert_eq!(candidates("x", &names, &Some(vec![r"C:\bin".to_owned()]), true), [r"C:\bin\x", r"C:\bin\y"]);
}

#[test]
fn scripts_are_handed_to_their_interpreters_on_windows() {
    let args = vec!["resume".to_owned(), "a b".to_owned()];
    assert_eq!(
        platform_command(r"C:\bin\codex.CMD", &args, true).display(),
        "cmd.exe /D /S /C C:\\bin\\codex.CMD resume \"a b\""
    );
    assert_eq!(
        platform_command("codex.ps1", &args, true).display(),
        "powershell.exe -NoLogo -NoProfile -File codex.ps1 resume \"a b\""
    );
    assert_eq!(platform_command("codex.exe", &args, true).program, "codex.exe");
    assert_eq!(platform_command("codex.cmd", &args, false).program, "codex.cmd");
    assert_eq!(platform_command("codex", &args, true).args, args);
}
