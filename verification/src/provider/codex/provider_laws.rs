//! What holds of the Codex source as a whole: its commands, its links, its diagnosis and its names.

use vstd::prelude::*;

use super::super::{ErrorView, ProviderError};
use super::config::{config_text, default_provider, provider_total, ConfigReadView};
use super::config_laws::{default_provider_is_the_named_one, every_entry_counts};
use super::ids::{filename_id, is_hex, is_hyphen_place, is_hyphenated, last_chars, uuid_of};
use super::redact::{only_blank_texts_are_sanitized_to_nothing, redact, redacted, replaced, sanitized};
use super::repair::{EventView, Repair};
use super::sessions::summary_of;
use super::{check_event, config_diagnostic, CheckRun, CodexProvider, DiagnoseFacts};
use crate::domain::{
    CommandSpec, Diagnostic, DiagnosticSeverity, RepairOptions, Session, SessionView, WarningView,
};
use crate::model::views;
use crate::path_laws::extension_stands_behind_the_last_dot;
use crate::paths::{joined, name_of};
use crate::plain::{
    alike_but_case, comparing_forgets_only_case, holds_at, holds_nothing_at, holds_text_at, shows,
    shows_what_it_holds,
};
use crate::text::{collapsed, decimal, is_blank, lower, signed_decimal};
use crate::toml::toml_tree;
use crate::tree::NodeView;

verus! {

/// Whether `text` is a UUID: digits in base 16, plain or in five groups with hyphens between them,
/// these also in braces or behind `urn:uuid:`.
pub open spec fn is_uuid(text: Seq<char>) -> bool {
    ||| text.len() == 32 && forall|i: int| 0 <= i < 32 ==> is_hex_digit(#[trigger] text[i])
    ||| is_grouped(text)
    ||| exists|inner: Seq<char>| #[trigger] is_grouped(inner) && text == seq!['{'] + inner + seq!['}']
    ||| exists|head: Seq<char>, inner: Seq<char>| #[trigger]
        is_grouped(inner) && #[trigger] alike_but_case(head, "urn:uuid:"@) && text == head + inner
}

/// Whether `c` is a digit in base 16.
pub open spec fn is_hex_digit(c: char) -> bool {
    let n = c as int;
    48 <= n <= 57 || 65 <= n <= 70 || 97 <= n <= 102
}

/// Whether `text` is 32 digits in base 16 in groups of 8, 4, 4, 4 and 12 with hyphens between them.
pub open spec fn is_grouped(text: Seq<char>) -> bool {
    &&& text.len() == 36
    &&& text[8] == '-' && text[13] == '-' && text[18] == '-' && text[23] == '-'
    &&& forall|i: int|
        0 <= i < 36 && i != 8 && i != 13 && i != 18 && i != 23 ==> is_hex_digit(#[trigger] text[i])
}

proof fn lemma_grouped(text: Seq<char>)
    ensures
        is_hyphenated(text) <==> is_grouped(text),
{
    if is_hyphenated(text) {
        assert(is_hyphen_place(8) && is_hyphen_place(13) && is_hyphen_place(18) && is_hyphen_place(23));
        assert(text[8] == '-' && text[13] == '-' && text[18] == '-' && text[23] == '-');
        assert forall|i: int| 0 <= i < 36 && i != 8 && i != 13 && i != 18 && i != 23 implies is_hex_digit(
            #[trigger] text[i],
        ) by {
            assert(!is_hyphen_place(i));
            assert(is_hex(text[i]));
        }
    }
    if is_grouped(text) {
        assert forall|i: int| 0 <= i < 36 implies if is_hyphen_place(i) {
            #[trigger] text[i] == '-'
        } else {
            is_hex(text[i])
        } by {
            if !is_hyphen_place(i) {
                assert(is_hex_digit(text[i]));
            }
        }
    }
}

/// A text is taken for a UUID exactly where it is one, and its digits are then put into lower case.
pub proof fn uuids_are_recognised(text: Seq<char>)
    ensures
        uuid_of(text) is Some <==> is_uuid(text),
        is_grouped(text) ==> uuid_of(text) == Some(lower(text)),
{
    lemma_grouped(text);
    if text.len() == 38 {
        let inner = text.subrange(1, 37);
        lemma_grouped(inner);
        if text[0] == '{' && text[37] == '}' {
            assert(text =~= seq!['{'] + inner + seq!['}']);
        }
    }
    if text.len() == 45 {
        let head = text.take(9);
        let inner = text.skip(9);
        lemma_grouped(inner);
        comparing_forgets_only_case(head, "urn:uuid:"@);
        assert(text =~= head + inner);
    }
    if is_uuid(text) {
        reveal_strlit("urn:uuid:");
        if text.len() == 32 && (forall|i: int| 0 <= i < 32 ==> is_hex_digit(#[trigger] text[i])) {
            assert forall|i: int| 0 <= i < 32 implies is_hex(#[trigger] text[i]) by {
                assert(is_hex_digit(text[i]));
            }
        } else if is_grouped(text) {
        } else if exists|inner: Seq<char>| #[trigger]
            is_grouped(inner) && text == seq!['{'] + inner + seq!['}'] {
            let inner = choose|inner: Seq<char>| #[trigger]
                is_grouped(inner) && text == seq!['{'] + inner + seq!['}'];
            assert(text.subrange(1, 37) =~= inner);
        } else {
            let (head, inner) = choose|head: Seq<char>, inner: Seq<char>| #[trigger]
                is_grouped(inner) && #[trigger] alike_but_case(head, "urn:uuid:"@) && text == head + inner;
            assert(text.take(9) =~= head);
            assert(text.skip(9) =~= inner);
        }
    }
    if uuid_of(text) is Some && text.len() == 32 {
        assert forall|i: int| 0 <= i < 32 implies is_hex_digit(#[trigger] text[i]) by {
            assert(is_hex(text[i]));
        }
    }
}

/// The id in the name of a file is the UUID that stands last before its extension, whatever stands
/// before it.
pub proof fn filename_ends_with_its_id(path: Seq<char>, head: Seq<char>, id: Seq<char>, windows: bool)
    requires
        is_grouped(id),
        name_of(path, windows) == Some(head + id + ".jsonl"@),
    ensures
        filename_id(path, windows) == Some(lower(id)),
{
    let name = head + id + ".jsonl"@;
    reveal_strlit(".jsonl");
    reveal_strlit("jsonl");
    extension_stands_behind_the_last_dot(head + id, "jsonl"@);
    assert(name =~= head + id + seq!['.'] + "jsonl"@);
    assert(crate::paths::stem(name) =~= head + id);
    assert((head + id).skip(head.len() as int) =~= id);
    if head.len() == 0 {
        assert(head + id =~= id);
    }
    assert(last_chars(head + id, 36) == id);
    uuids_are_recognised(id);
}

/// A command to resume a session is made exactly where it is one of Codex and its id is a UUID; it
/// runs the CLI of the source with `resume` and the id, and nothing else.  A refusal says which of both
/// it is.
pub proof fn resume_command_names_the_session(
    provider: CodexProvider,
    session: Session,
    r: Result<CommandSpec, ProviderError>,
)
    requires
        call_ensures(CodexProvider::build_resume_command, (&provider, &session), r),
    ensures
        r is Ok <==> session@.source == "codex"@ && is_uuid(session@.id),
        r matches Ok(command) ==> {
            &&& command@.program == provider@.cli_program
            &&& command@.args.len() == 2
            &&& command@.args[0] == "resume"@
            &&& command@.args[1] == session@.id
        },
        session@.source != "codex"@ ==> r is Err && r->Err_0@ is Unsupported,
        session@.source == "codex"@ && !is_uuid(session@.id) ==> r is Err && r->Err_0@ == (
        ErrorView::InvalidData {
            path: session@.raw_path,
            line: None,
            reason: "Codex 会话 ID 不是合法 UUID"@,
        }),
{
    uuids_are_recognised(session@.id);
}

/// A link into the desktop app is made for the same sessions, and names the thread by the id.
pub proof fn app_link_names_the_session(
    provider: CodexProvider,
    session: Session,
    r: Result<Option<String>, ProviderError>,
)
    requires
        call_ensures(CodexProvider::build_app_uri, (&provider, &session), r),
    ensures
        r is Ok <==> session@.source == "codex"@ && is_uuid(session@.id),
        r matches Ok(uri) ==> uri is Some && uri->0@ == "codex://threads/"@ + session@.id,
        session@.source != "codex"@ ==> r is Err && r->Err_0@ is Unsupported,
        session@.source == "codex"@ && !is_uuid(session@.id) ==> r is Err && r->Err_0@ is InvalidData,
{
    uuids_are_recognised(session@.id);
}

/// The home of Codex is the one that is configured, where that is not empty, and else `.codex` below
/// that of the user; without either there is none, which is told.
pub proof fn configured_home_comes_first(
    configured: Option<&str>,
    user_home: Option<&str>,
    windows: bool,
    r: Result<CodexProvider, ProviderError>,
)
    requires
        call_ensures(CodexProvider::discover, (configured, user_home, windows), r),
    ensures
        configured is Some && configured->0@.len() > 0 ==> r is Ok && r->Ok_0@.home == configured->0@,
        (configured is Some ==> configured->0@.len() == 0) && user_home is Some ==> r is Ok && r->Ok_0@.home
            == joined(user_home->0@, ".codex"@, windows),
        (configured is Some ==> configured->0@.len() == 0) && user_home is None ==> r is Err
            && r->Err_0@ is Config,
        r is Ok ==> r->Ok_0@.cli_program == "codex"@ && r->Ok_0@.windows == windows,
{
}

/// The configuration, the index and the two directories of sessions lie below the home.
pub proof fn files_lie_below_the_home(
    provider: CodexProvider,
    config: String,
    index: String,
    roots: [String; 2],
    check: CommandSpec,
)
    requires
        call_ensures(CodexProvider::config_path, (&provider,), config),
        call_ensures(CodexProvider::session_index_path, (&provider,), index),
        call_ensures(CodexProvider::session_roots, (&provider,), roots),
        call_ensures(CodexProvider::validation_command, (&provider,), check),
    ensures
        config@ == joined(provider@.home, "config.toml"@, provider@.windows),
        index@ == joined(provider@.home, "session_index.jsonl"@, provider@.windows),
        roots@[0]@ == joined(provider@.home, "sessions"@, provider@.windows),
        roots@[1]@ == joined(provider@.home, "archived_sessions"@, provider@.windows),
        check@.program == provider@.cli_program,
        check@.args == seq!["--strict-config"@, "features"@, "list"@],
{
}

/// A diagnosis tells of the CLI, the configuration and the sessions, in this order.  A missing CLI and
/// a configuration that cannot be read or is not TOML are errors; a missing configuration and no
/// session are warnings; and each of these, and nothing else, comes with advice.
pub proof fn diagnosis_tells_what_is_wrong(
    provider: CodexProvider,
    facts: DiagnoseFacts,
    r: Vec<Diagnostic>,
)
    requires
        call_ensures(CodexProvider::diagnose, (&provider, &facts), r),
    ensures
        r@.len() == 3,
        r@[0]@.name == "codex-cli"@ && r@[1]@.name == "codex-config"@ && r@[2]@.name == "codex-sessions"@,
        r@[0]@.severity == if facts.cli_available {
            DiagnosticSeverity::Info
        } else {
            DiagnosticSeverity::Error
        },
        r@[1]@.severity == match facts.config@ {
            ConfigReadView::Missing => DiagnosticSeverity::Warning,
            ConfigReadView::Unreadable { .. } => DiagnosticSeverity::Error,
            ConfigReadView::Bytes(bytes) => if config_text(bytes) is Some && toml_tree(
                config_text(bytes)->0,
            ) is Some {
                DiagnosticSeverity::Info
            } else {
                DiagnosticSeverity::Error
            },
        },
        r@[2]@.severity == if facts.session_count > 0 {
            DiagnosticSeverity::Info
        } else {
            DiagnosticSeverity::Warning
        },
        forall|i: int|
            0 <= i < 3 ==> ((#[trigger] r@[i])@.suggestion is Some <==> r@[i]@.severity
                != DiagnosticSeverity::Info),
        shows(r@[2]@.message, provider@.home),
        facts.session_count > 0 ==> shows(r@[2]@.message, decimal(facts.session_count as nat)),
        r@[1]@.severity != DiagnosticSeverity::Info ==> shows(
            r@[1]@.message,
            joined(provider@.home, "config.toml"@, provider@.windows),
        ),
{
    let all = views(r@);
    assert(r@.len() == all.len());
    assert(r@[0]@ == all[0] && r@[1]@ == all[1] && r@[2]@ == all[2]);
    let home = provider@.home;
    let config = joined(home, "config.toml"@, provider@.windows);
    if facts.session_count > 0 {
        let n = decimal(facts.session_count as nat);
        shows_what_it_holds("已找到 "@, n, " 个 Codex 会话文件: "@ + home);
        assert(all[2].message =~= "已找到 "@ + n + (" 个 Codex 会话文件: "@ + home));
        shows_what_it_holds("已找到 "@ + n + " 个 Codex 会话文件: "@, home, Seq::empty());
        assert(all[2].message =~= "已找到 "@ + n + " 个 Codex 会话文件: "@ + home + Seq::empty());
    } else {
        shows_what_it_holds("未找到 Codex 会话目录: "@, home, Seq::empty());
        assert(all[2].message =~= "未找到 Codex 会话目录: "@ + home + Seq::empty());
    }
    if all[1].severity == DiagnosticSeverity::Warning {
        shows_what_it_holds("配置文件不存在: "@, config, Seq::empty());
        assert(all[1].message =~= "配置文件不存在: "@ + config + Seq::empty());
    }
    if all[1].severity == DiagnosticSeverity::Error {
        shows_what_it_holds("配置文件无法解析: "@, config, Seq::empty());
        assert(all[1].message =~= "配置文件无法解析: "@ + config + Seq::empty());
    }
    assert forall|i: int| 0 <= i < 3 implies ((#[trigger] r@[i])@.suggestion is Some <==> r@[i]@.severity
        != DiagnosticSeverity::Info) by {
        assert(r@[i]@ == all[i]);
        assert(i == 0 || i == 1 || i == 2);
    }
}

/// The check of a repaired configuration accepts it exactly where the CLI ended with zero, or where
/// there is none, in which case it says that nothing was checked.
pub proof fn check_accepts_only_success(run: CheckRun)
    ensures
        check_event(run) is Accepted <==> run is NotFound || run == CheckRun::Exited(Some(0i32)),
        check_event(run) matches EventView::Accepted { checked } ==> (checked <==> run !is NotFound),
        check_event(run) is Accepted || check_event(run) is Rejected,
        run matches CheckRun::Exited(Some(code)) ==> (check_event(run) matches EventView::Rejected(message)
            ==> shows(message, signed_decimal(code as int))),
{
    if let CheckRun::Exited(Some(code)) = run {
        let n = signed_decimal(code as int);
        shows_what_it_holds("Codex 严格配置校验返回非零退出码 "@, n, Seq::empty());
        assert("Codex 严格配置校验返回非零退出码 "@ + n =~= "Codex 严格配置校验返回非零退出码 "@ + n + Seq::empty());
    }
}

/// A repair is begun exactly where the session names a model provider, the user agreed, and the name
/// is a valid one.
pub proof fn repair_is_begun_only_with_consent(
    provider: CodexProvider,
    session: Session,
    options: RepairOptions,
    r: Result<Repair, ProviderError>,
)
    requires
        call_ensures(CodexProvider::repair_model_provider, (&provider, &session, options), r),
    ensures
        r is Ok <==> options.confirmed && session@.model_provider is Some && super::config::is_valid_name(
            session@.model_provider->0,
        ),
        r matches Err(e) ==> e@ is Config,
        r matches Ok(repair) ==> repair@.alias == session@.model_provider->0 && repair@.config_path == joined(
            provider@.home,
            "config.toml"@,
            provider@.windows,
        ),
{
}

/// Secrets are blotted out in three steps: named ones, bearer credentials, then keys.
pub proof fn three_kinds_of_secrets_are_blotted_out(text: &str, r: String)
    requires
        call_ensures(redact, (text,), r),
    ensures
        ({
            let named = replaced(
                "(?i)(?<name>api[_-]?key|access[_-]?token|token|password|secret)\\s*[:=]\\s*[A-Za-z0-9._~+/=-]+"@,
                text@,
                "$name=[REDACTED]"@,
            );
            let bearer = replaced(
                "(?i)Bearer\\s+[A-Za-z0-9._~+/=-]+"@,
                named,
                "Bearer [REDACTED]"@,
            );
            r@ == replaced("\\bsk-[A-Za-z0-9_-]{12,}\\b"@, bearer, "[REDACTED]"@)
        }),
{
}

/// A text that is shown is redacted after it was put on one line and before it is cut, so that no part
/// of a secret is left over by the cut; white space around it makes no difference, and a blank text is
/// not shown.
pub proof fn shown_text_is_redacted_before_it_is_cut(text: Seq<char>, blank: Seq<char>, limit: int)
    requires
        limit >= 0,
        is_blank(blank),
    ensures
        sanitized(text, limit) is None <==> is_blank(text),
        sanitized(text, limit) matches Some(shown) ==> {
            let whole = redacted(collapsed(text));
            &&& whole.len() <= limit ==> shown == whole
            &&& whole.len() > limit ==> shown.len() == limit + 1 && shown[limit] == '…' && shown.take(limit)
                == whole.take(limit)
        },
        sanitized(blank + text, limit) == sanitized(text, limit),
        sanitized(text + blank, limit) == sanitized(text, limit),
{
    only_blank_texts_are_sanitized_to_nothing(text, limit);
    crate::text_laws::collapsing_looks_only_at_words(text, blank, Seq::empty());
    let whole = redacted(collapsed(text));
    if whole.len() > limit {
        assert(whole.take(limit).push('…').take(limit) =~= whole.take(limit));
    }
}

/// A summary is that of the session; where the file is no session, the first problem is told, with
/// its line.
pub proof fn summary_is_that_of_the_session(path: Seq<char>, parsed: Result<SessionView, Seq<WarningView>>)
    ensures
        parsed matches Ok(s) ==> summary_of(path, parsed) is Ok && summary_of(path, parsed)->Ok_0.title
            == s.title && summary_of(path, parsed)->Ok_0.summary == s.summary,
        parsed matches Err(warnings) ==> {
            &&& summary_of(path, parsed) is Err
            &&& warnings.len() > 0 ==> summary_of(path, parsed)->Err_0 == (ErrorView::InvalidData {
                path,
                line: warnings[0].line,
                reason: warnings[0].message,
            })
        },
{
}

/// The diagnosis of a valid configuration tells its default model provider, or that there is none, and
/// how many it defines.
pub proof fn valid_configuration_is_summed_up(path: Seq<char>, bytes: Seq<u8>, tree: NodeView)
    requires
        config_text(bytes) is Some,
        toml_tree(config_text(bytes)->0) == Some(tree),
    ensures
        ({
            let message = config_diagnostic(path, ConfigReadView::Bytes(bytes)).message;
            &&& forall|from: Seq<char>| #[trigger]
                holds_text_at(tree, "model_provider"@, from) && !is_blank(from) ==> shows(message, from)
            &&& (forall|from: Seq<char>| #[trigger]
                holds_text_at(tree, "model_provider"@, from) ==> is_blank(from)) ==> shows(message, "未设置"@)
            &&& holds_nothing_at(tree, "model_providers"@) ==> shows(message, decimal(0))
            &&& forall|entries: Seq<(Seq<char>, NodeView)>| #[trigger]
                holds_at(tree, "model_providers"@, NodeView::Table(entries)) ==> shows(
                    message,
                    decimal(entries.len()),
                )
        }),
{
    default_provider_is_the_named_one(tree);
    every_entry_counts(tree);
    let message = config_diagnostic(path, ConfigReadView::Bytes(bytes)).message;
    let named = default_provider(tree);
    let name = match named {
        Some(from) => from,
        None => "未设置"@,
    };
    let count = decimal(provider_total(tree));
    let head = "配置 TOML 有效，默认 provider: "@;
    let rest = "，已定义 "@ + count + " 个 provider"@;
    assert(message =~= head + name + rest);
    shows_what_it_holds(head, name, rest);
    assert(message =~= (head + name + "，已定义 "@) + count + " 个 provider"@);
    shows_what_it_holds(head + name + "，已定义 "@, count, " 个 provider"@);
    if let Some(from) = named {
        assert(holds_text_at(tree, "model_provider"@, from));
    }
    assert forall|entries: Seq<(Seq<char>, NodeView)>| #[trigger]
        holds_at(tree, "model_providers"@, NodeView::Table(entries)) implies shows(
        message,
        decimal(entries.len()),
    ) by {
        assert(provider_total(tree) == entries.len());
    }
}

} // verus!
