//! What holds of the reports and errors of sources.

use vstd::prelude::*;

use super::{combined, error_text, failure_warning, ErrorView, OutcomeView};
use crate::domain::{merged, ReportView, WarningKind};
use crate::plain::{shows, shows_what_it_holds};

verus! {

/// What several sources found stands in their order: the sessions of the first ones, then those of
/// the others, and so the warnings.
pub proof fn reports_stand_in_the_order_of_sources(a: Seq<OutcomeView>, b: Seq<OutcomeView>)
    ensures
        combined(a + b).sessions == combined(a).sessions + combined(b).sessions,
        combined(a + b).warnings == combined(a).warnings + combined(b).warnings,
    decreases b.len(),
{
    if b.len() == 0 {
        assert(a + b =~= a);
        assert(combined(a).sessions + combined(b).sessions =~= combined(a).sessions);
        assert(combined(a).warnings + combined(b).warnings =~= combined(a).warnings);
    } else {
        reports_stand_in_the_order_of_sources(a, b.drop_last());
        assert((a + b).drop_last() =~= a + b.drop_last());
        assert((a + b).last() == b.last());
        assert(combined(a + b).sessions =~= combined(a).sessions + combined(b).sessions);
        assert(combined(a + b).warnings =~= combined(a).warnings + combined(b).warnings);
    }
}

/// One source that could be scanned reports what it found; one that failed reports no session and one
/// warning, which names the source and the reason.
pub proof fn failed_source_is_named(report: ReportView, source: Seq<char>, error: ErrorView)
    ensures
        combined(seq![OutcomeView::Scanned(report)]).sessions == report.sessions,
        combined(seq![OutcomeView::Scanned(report)]).warnings == report.warnings,
        combined(seq![OutcomeView::Failed { source, error }]).sessions.len() == 0,
        combined(seq![OutcomeView::Failed { source, error }]).warnings.len() == 1,
        ({
            let w = combined(seq![OutcomeView::Failed { source, error }]).warnings[0];
            w.kind == WarningKind::Provider && shows(w.message, source) && shows(w.message, error_text(error))
        }),
{
    let none = Seq::<OutcomeView>::empty();
    let good = seq![OutcomeView::Scanned(report)];
    let bad = seq![OutcomeView::Failed { source, error }];
    assert(good.drop_last() =~= none);
    assert(bad.drop_last() =~= none);
    assert(combined(none).sessions.len() == 0 && combined(none).warnings.len() == 0);
    assert(combined(good).sessions =~= report.sessions);
    assert(combined(good).warnings =~= report.warnings);
    let text = error_text(error);
    let w = failure_warning(source, error);
    shows_what_it_holds("来源 "@, source, " 扫描失败: "@ + text);
    assert(w.message =~= "来源 "@ + source + (" 扫描失败: "@ + text));
    shows_what_it_holds("来源 "@ + source + " 扫描失败: "@, text, Seq::empty());
    assert(w.message =~= "来源 "@ + source + " 扫描失败: "@ + text + Seq::empty());
    assert(combined(bad).warnings[0] == w);
}

/// An error tells what it is about: the file and the error of the system, the reason, the program, or
/// the source and what was asked of it.
pub proof fn error_tells_what_it_is_about(e: ErrorView)
    ensures
        match e {
            ErrorView::Io { path, source } => shows(error_text(e), path) && shows(error_text(e), source),
            ErrorView::InvalidData { reason, .. } => shows(error_text(e), reason),
            ErrorView::CommandUnavailable { program } => shows(error_text(e), program),
            ErrorView::Unsupported { provider_id, operation } => shows(error_text(e), provider_id) && shows(
                error_text(e),
                operation,
            ),
            ErrorView::Config { message } => shows(error_text(e), message),
            ErrorView::Process { program, .. } => shows(error_text(e), program),
            ErrorView::Repair { message, .. } => shows(error_text(e), message),
        },
{
    let none = Seq::<char>::empty();
    let text = error_text(e);
    match e {
        ErrorView::Io { path, source } => {
            shows_what_it_holds("无法访问 "@, path, ": "@ + source);
            assert(text =~= "无法访问 "@ + path + (": "@ + source));
            shows_what_it_holds("无法访问 "@ + path + ": "@, source, none);
            assert(text =~= "无法访问 "@ + path + ": "@ + source + none);
        },
        ErrorView::InvalidData { reason, .. } => {
            shows_what_it_holds("会话数据无效: "@, reason, none);
            assert(text =~= "会话数据无效: "@ + reason + none);
        },
        ErrorView::CommandUnavailable { program } => {
            shows_what_it_holds("找不到 Agent CLI: "@, program, none);
            assert(text =~= "找不到 Agent CLI: "@ + program + none);
        },
        ErrorView::Unsupported { provider_id, operation } => {
            shows_what_it_holds("来源 "@, provider_id, " 不支持 "@ + operation);
            assert(text =~= "来源 "@ + provider_id + (" 不支持 "@ + operation));
            shows_what_it_holds("来源 "@ + provider_id + " 不支持 "@, operation, none);
            assert(text =~= "来源 "@ + provider_id + " 不支持 "@ + operation + none);
        },
        ErrorView::Config { message } => {
            shows_what_it_holds("配置错误: "@, message, none);
            assert(text =~= "配置错误: "@ + message + none);
        },
        ErrorView::Process { program, .. } => {
            shows_what_it_holds("外部命令执行失败: "@, program, none);
            assert(text =~= "外部命令执行失败: "@ + program + none);
        },
        ErrorView::Repair { message, .. } => {
            shows_what_it_holds("配置修复失败: "@, message, none);
            assert(text =~= "配置修复失败: "@ + message + none);
        },
    }
}

/// A report that takes in another holds its own sessions and warnings first and then those of the
/// other.
pub proof fn report_takes_in_another_behind_its_own(a: ReportView, b: ReportView, i: int)
    ensures
        merged(a, b).sessions.len() == a.sessions.len() + b.sessions.len(),
        merged(a, b).warnings.len() == a.warnings.len() + b.warnings.len(),
        0 <= i < a.sessions.len() ==> merged(a, b).sessions[i] == a.sessions[i],
        0 <= i < b.sessions.len() ==> merged(a, b).sessions[a.sessions.len() + i] == b.sessions[i],
        0 <= i < a.warnings.len() ==> merged(a, b).warnings[i] == a.warnings[i],
        0 <= i < b.warnings.len() ==> merged(a, b).warnings[a.warnings.len() + i] == b.warnings[i],
{
}

} // verus!
