//! What holds of running a command: when it is run, what is handed on, and where it is looked for.

use vstd::prelude::*;

use crate::domain::{command_line, escaped, is_plain_argument, quoted, shown_title, CommandView, SessionView};
use crate::order::what_is_kept_stands_in_order;
use crate::paths::{joined, leads_somewhere, path_extension};
use crate::plain::{alike_but_case, comparing_forgets_only_case, shows, shows_what_it_holds};
use crate::resume::{
    below, candidates_of, execution_of, listed, platform_spec, program_names,
    program_names_with_bare, resume_error_text, search_paths, split_list, ResumeErrorView, RunView,
};
use crate::text::is_space;

verus! {

/// A command is run exactly where this is no dry run and there is a terminal.  Its exit code is then
/// handed on; that it was not found, could not be started or was ended is told for what it is; and
/// where it is not run for want of a terminal, that is told.
pub proof fn command_runs_only_in_a_terminal(spec: CommandView, dry_run: bool, terminal: bool, run: RunView)
    ensures
        dry_run ==> execution_of(spec, dry_run, terminal, run) is Ok && !execution_of(
            spec,
            dry_run,
            terminal,
            run,
        )->Ok_0.executed,
        !dry_run && !terminal ==> execution_of(spec, dry_run, terminal, run) is Err && execution_of(
            spec,
            dry_run,
            terminal,
            run,
        )->Err_0 is NonInteractiveTerminal,
        !dry_run && terminal ==> match run {
            RunView::NotFound => execution_of(spec, dry_run, terminal, run) is Err && execution_of(
                spec,
                dry_run,
                terminal,
                run,
            )->Err_0 == (ResumeErrorView::CommandUnavailable { program: spec.program }),
            RunView::NotStarted { error } => execution_of(spec, dry_run, terminal, run) is Err && execution_of(
                spec,
                dry_run,
                terminal,
                run,
            )->Err_0 == (ResumeErrorView::Spawn { program: spec.program, source: error }),
            RunView::Exited(None) => execution_of(spec, dry_run, terminal, run) is Err && execution_of(
                spec,
                dry_run,
                terminal,
                run,
            )->Err_0 is MissingExitCode,
            RunView::Exited(Some(code)) => execution_of(spec, dry_run, terminal, run) is Ok && execution_of(
                spec,
                dry_run,
                terminal,
                run,
            )->Ok_0.executed && execution_of(spec, dry_run, terminal, run)->Ok_0.exit_code == code,
        },
        execution_of(spec, dry_run, terminal, run) matches Ok(execution) ==> execution.command == command_line(
            spec.program,
            spec.args,
        ),
{
}

/// What is told of a command that failed names it, and why where that is known.
pub proof fn failure_names_the_command(program: Seq<char>, source: Seq<char>)
    ensures
        shows(resume_error_text(ResumeErrorView::CommandUnavailable { program }), program),
        shows(resume_error_text(ResumeErrorView::Spawn { program, source }), program),
        shows(resume_error_text(ResumeErrorView::Spawn { program, source }), source),
{
    let none = Seq::<char>::empty();
    shows_what_it_holds("找不到恢复命令: "@, program, none);
    assert("找不到恢复命令: "@ + program =~= "找不到恢复命令: "@ + program + none);
    let head = "无法启动恢复命令 "@;
    shows_what_it_holds(head, program, ": "@ + source);
    assert(head + program + ": "@ + source =~= head + program + (": "@ + source));
    shows_what_it_holds(head + program + ": "@, source, none);
    assert(head + program + ": "@ + source =~= head + program + ": "@ + source + none);
}

/// An argument is shown as it is exactly where it holds neither white space nor a quotation mark; else
/// it stands between quotation marks, and each of its own has a backslash before it.
pub proof fn arguments_are_quoted_where_they_need_it(s: Seq<char>)
    ensures
        (forall|i: int| 0 <= i < s.len() ==> !is_space(#[trigger] s[i]) && s[i] != '"') ==> quoted(s) == s,
        (exists|i: int| 0 <= i < s.len() && (is_space(#[trigger] s[i]) || s[i] == '"')) ==> quoted(s)
            == seq!['"'] + escaped(s) + seq!['"'],
{
    if exists|i: int| 0 <= i < s.len() && (is_space(#[trigger] s[i]) || s[i] == '"') {
        let i = choose|i: int| 0 <= i < s.len() && (is_space(#[trigger] s[i]) || s[i] == '"');
        assert(is_space(s[i]) || s[i] == '"');
        assert(!is_plain_argument(s));
    }
}

/// Quotation marks are escaped one by one, and nothing else is.
pub proof fn escaping_goes_by_character(a: Seq<char>, b: Seq<char>, c: char)
    ensures
        escaped(a + b) == escaped(a) + escaped(b),
        escaped(seq!['"']) == seq!['\\', '"'],
        c != '"' ==> escaped(seq![c]) == seq![c],
        escaped(Seq::<char>::empty()) == Seq::<char>::empty(),
    decreases b.len(),
{
    if b.len() == 0 {
        assert(a + b =~= a);
        assert(escaped(a) + escaped(b) =~= escaped(a));
    } else {
        escaping_goes_by_character(a, b.drop_last(), c);
        assert((a + b).drop_last() =~= a + b.drop_last());
        assert((a + b).last() == b.last());
        assert(escaped(a + b) =~= escaped(a) + escaped(b));
    }
    assert(seq!['"'].drop_last() =~= Seq::<char>::empty());
    assert(seq![c].drop_last() =~= Seq::<char>::empty());
    assert(escaped(Seq::<char>::empty()) =~= Seq::<char>::empty());
    assert(escaped(seq!['"']) =~= seq!['\\', '"']);
    if c != '"' {
        assert(escaped(seq![c]) =~= seq![c]);
    }
}

/// A command is shown as its program and its arguments in order, one space between each two.
pub proof fn command_line_shows_each_argument(program: Seq<char>, args: Seq<Seq<char>>, arg: Seq<char>)
    ensures
        command_line(program, Seq::empty()) == quoted(program),
        command_line(program, args.push(arg)) == command_line(program, args) + seq![' '] + quoted(arg),
{
    reveal_strlit(" ");
    assert(" "@ =~= seq![' ']);
    assert(args.push(arg).drop_last() =~= args);
}

/// A session is shown by its title, without one by its summary, and without either by its id.
pub proof fn title_comes_before_summary_and_id(s: SessionView)
    ensures
        s.title matches Some(title) ==> shown_title(s) == title,
        s.title is None && s.summary is Some ==> shown_title(s) == s.summary->0,
        s.title is None && s.summary is None ==> shown_title(s) == s.id,
{
}

/// `parts`, one behind the other, with a semicolon between each two.
pub open spec fn with_semicolons(parts: Seq<Seq<char>>) -> Seq<char>
    decreases parts.len(),
{
    if parts.len() == 0 {
        Seq::empty()
    } else if parts.len() == 1 {
        parts[0]
    } else {
        with_semicolons(parts.drop_last()) + seq![';'] + parts.last()
    }
}

/// A list is parted at its semicolons: the parts with semicolons between them make up the list, and no
/// part holds one.
pub proof fn list_is_parted_at_semicolons(list: Seq<char>)
    ensures
        split_list(list).len() > 0,
        with_semicolons(split_list(list)) == list,
        forall|i: int, k: int|
            0 <= i < split_list(list).len() && 0 <= k < split_list(list)[i].len() ==> #[trigger] split_list(
                list,
            )[i][k] != ';',
    decreases list.len(),
{
    let all = split_list(list);
    if list.len() == 0 {
        assert(all.len() == 1);
        assert(with_semicolons(all) =~= list);
    } else {
        let less = list.drop_last();
        let before = split_list(less);
        list_is_parted_at_semicolons(less);
        if list.last() == ';' {
            assert(all.drop_last() =~= before);
            assert(with_semicolons(all) =~= list);
        } else {
            let n = before.len() - 1;
            let grown = before.last().push(list.last());
            assert(all.len() == before.len());
            assert(all.last() == grown);
            assert(less.push(list.last()) =~= list);
            if n == 0 {
                assert(before[0] == before.last() && all[0] == grown);
                assert(with_semicolons(before) == before[0]);
                assert(with_semicolons(all) =~= list);
            } else {
                assert(all.drop_last() =~= before.drop_last());
                assert(with_semicolons(all) =~= with_semicolons(before).push(list.last()));
            }
            assert forall|i: int, k: int|
                0 <= i < all.len() && 0 <= k < all[i].len() implies #[trigger] all[i][k] != ';' by {
                if i < n {
                    assert(all[i] == before[i]);
                    assert(before[i][k] != ';');
                } else if k < before[n].len() {
                    assert(all[i][k] == before[n][k]);
                }
            }
        }
    }
}

/// On Windows a program without an extension is looked for with each extension of the list, in its
/// order, or with the four usual ones where there is no list; elsewhere, and with an extension, under its
/// own name alone.
pub proof fn programs_are_named_with_their_extensions(
    program: Seq<char>,
    windows: bool,
    list: Option<Seq<char>>,
    i: int,
)
    ensures
        !windows || path_extension(program, windows) is Some ==> program_names(program, windows, list)
            == seq![program] && program_names_with_bare(program, windows, list) == seq![program],
        windows && path_extension(program, windows) is None ==> {
            let extensions = match list {
                Some(given) => listed(given),
                None => seq![".COM"@, ".EXE"@, ".BAT"@, ".CMD"@],
            };
            let names = program_names(program, windows, list);
            &&& names.len() == extensions.len()
            &&& 0 <= i < names.len() ==> names[i] == program + extensions[i]
            &&& program_names_with_bare(program, windows, list) == seq![program] + names
        },
{
}

proof fn lemma_search_paths(directories: Seq<Seq<char>>, names: Seq<Seq<char>>, windows: bool, d: int, n: int)
    requires
        0 <= d < directories.len(),
        0 <= n < names.len(),
    ensures
        search_paths(directories, names, windows).len() == directories.len() * names.len(),
        0 <= d * names.len() + n < directories.len() * names.len(),
        search_paths(directories, names, windows)[d * names.len() + n] == joined(
            directories[d],
            names[n],
            windows,
        ),
    decreases directories.len(),
{
    let less = directories.drop_last();
    let k = less.len();
    lemma_search_length(less, names, windows);
    lemma_search_length(directories, names, windows);
    let before = search_paths(less, names, windows);
    let m = names.len() as int;
    assert(d * m + n < directories.len() * m) by (nonlinear_arith)
        requires
            0 <= d < directories.len(),
            0 <= n < m,
    ;
    assert(0 <= d * m) by (nonlinear_arith)
        requires
            0 <= d,
            0 <= m,
    ;
    if d < k {
        lemma_search_paths(less, names, windows, d, n);
        assert(less[d] == directories[d]);
        assert(search_paths(directories, names, windows)[d * m + n] == before[d * m + n]);
    } else {
        assert(d == k);
        assert(before.len() == d * m);
        assert(search_paths(directories, names, windows)[d * m + n] == below(
            directories.last(),
            names,
            windows,
        )[n]);
    }
}

proof fn lemma_search_length(directories: Seq<Seq<char>>, names: Seq<Seq<char>>, windows: bool)
    ensures
        search_paths(directories, names, windows).len() == directories.len() * names.len(),
    decreases directories.len(),
{
    if directories.len() > 0 {
        lemma_search_length(directories.drop_last(), names, windows);
        let n = directories.len() as int;
        let m = names.len() as int;
        assert((n - 1) * m + m == n * m) by (nonlinear_arith);
    } else {
        let m = names.len() as int;
        assert(0 * m == 0) by (nonlinear_arith);
    }
}

/// A program is looked for in each directory in order, there under each of its names in order; a path
/// is looked for where it leads alone, and nothing is where there are no directories.
pub proof fn programs_are_looked_for_by_directory(
    program: Seq<char>,
    names: Seq<Seq<char>>,
    directories: Option<Seq<Seq<char>>>,
    windows: bool,
    d: int,
    n: int,
)
    ensures
        leads_somewhere(program, windows) ==> candidates_of(program, names, directories, windows) == seq![
            program,
        ],
        !leads_somewhere(program, windows) && directories is None ==> candidates_of(
            program,
            names,
            directories,
            windows,
        ).len() == 0,
        !leads_somewhere(program, windows) && directories is Some ==> {
            let all = candidates_of(program, names, directories, windows);
            &&& all.len() == directories->0.len() * names.len()
            &&& 0 <= d < directories->0.len() && 0 <= n < names.len() ==> all[d * names.len() + n] == joined(
                directories->0[d],
                names[n],
                windows,
            )
        },
{
    if let Some(all) = directories {
        lemma_search_length(all, names, windows);
        if 0 <= d < all.len() && 0 <= n < names.len() {
            lemma_search_paths(all, names, windows, d, n);
        }
    }
}

/// Whether `program` has the extension `kind`, but for case.
pub open spec fn is_of_kind(program: Seq<char>, kind: Seq<char>) -> bool {
    path_extension(program, true) is Some && alike_but_case(path_extension(program, true)->0, kind)
}

/// On Windows a batch file is run by the command prompt and a script by PowerShell, which get it and
/// then its arguments; everything else is run by itself, with its arguments as they are.
pub proof fn scripts_are_run_by_their_shell(program: Seq<char>, args: Seq<Seq<char>>, windows: bool)
    ensures
        windows && (is_of_kind(program, "cmd"@) || is_of_kind(program, "bat"@)) ==> platform_spec(
            program,
            args,
            windows,
        ) == (CommandView { program: "cmd.exe"@, args: seq!["/D"@, "/S"@, "/C"@, program] + args }),
        windows && is_of_kind(program, "ps1"@) ==> platform_spec(program, args, windows) == (CommandView {
            program: "powershell.exe"@,
            args: seq!["-NoLogo"@, "-NoProfile"@, "-File"@, program] + args,
        }),
        !windows || !(is_of_kind(program, "cmd"@) || is_of_kind(program, "bat"@) || is_of_kind(
            program,
            "ps1"@,
        )) ==> platform_spec(program, args, windows) == (CommandView { program, args }),
{
    reveal_strlit("cmd");
    reveal_strlit("bat");
    reveal_strlit("ps1");
    let kind = match path_extension(program, windows) {
        Some(e) => e,
        None => Seq::empty(),
    };
    comparing_forgets_only_case(kind, "cmd"@);
    comparing_forgets_only_case(kind, "bat"@);
    comparing_forgets_only_case(kind, "ps1"@);
    if alike_but_case(kind, "ps1"@) {
        assert(kind[0] == kind[0]);
        assert(!alike_but_case(kind, "cmd"@)) by {
            if alike_but_case(kind, "cmd"@) {
                assert(crate::plain::same_letter(kind[0], "cmd"@[0]));
                assert(crate::plain::same_letter(kind[0], "ps1"@[0]));
            }
        }
        assert(!alike_but_case(kind, "bat"@)) by {
            if alike_but_case(kind, "bat"@) {
                assert(crate::plain::same_letter(kind[0], "bat"@[0]));
                assert(crate::plain::same_letter(kind[0], "ps1"@[0]));
            }
        }
    }
}

/// A list holds its parts that are not empty, in their order, and nothing else.
pub proof fn list_holds_its_parts_in_order(list: Seq<char>) -> (places: Seq<int>)
    ensures
        places.len() == listed(list).len(),
        forall|k: int|
            0 <= k < places.len() ==> 0 <= #[trigger] places[k] < split_list(list).len() && split_list(
                list,
            )[places[k]] == listed(list)[k] && listed(list)[k].len() > 0,
        forall|j: int, k: int| 0 <= j < k < places.len() ==> #[trigger] places[j] < #[trigger] places[k],
        forall|i: int|
            0 <= i < split_list(list).len() && (#[trigger] split_list(list)[i]).len() > 0 ==> places.contains(i),
{
    let keep = |part: Seq<char>| part.len() > 0;
    let places = what_is_kept_stands_in_order(split_list(list), keep);
    assert forall|i: int|
        0 <= i < split_list(list).len() && (#[trigger] split_list(list)[i]).len() > 0 implies places.contains(
        i,
    ) by {
        assert(keep(split_list(list)[i]));
    }
    places
}

} // verus!
