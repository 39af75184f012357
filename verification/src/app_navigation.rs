//! Opening a session in the desktop app through the URL handler of the system.

use vstd::prelude::*;

use crate::domain::{CommandSpec, CommandView, Diagnostic, DiagnosticSeverity, DiagnosticView};
use crate::model::views;
use crate::text::{cat, cat3, signed_decimal, signed_text};

verus! {

/// Why a URI could not be opened.
#[derive(Debug)]
pub enum AppNavigationError {
    /// The system has no way to open a URI.
    UnsupportedPlatform,
    /// No app is registered for the URI.
    ProtocolUnavailable,
    /// The handler could not be started.
    Spawn {
        /// The error of the system.
        source: String,
    },
    /// The handler failed.
    Launch {
        /// Why, free of what the user did.
        reason: String,
    },
}

/// The model of an `AppNavigationError`.
pub enum NavigationErrorView {
    UnsupportedPlatform,
    ProtocolUnavailable,
    Spawn { source: Seq<char> },
    Launch { reason: Seq<char> },
}

impl View for AppNavigationError {
    type V = NavigationErrorView;

    open spec fn view(&self) -> NavigationErrorView {
        match self {
            AppNavigationError::UnsupportedPlatform => NavigationErrorView::UnsupportedPlatform,
            AppNavigationError::ProtocolUnavailable => NavigationErrorView::ProtocolUnavailable,
            AppNavigationError::Spawn { source } => NavigationErrorView::Spawn { source: source@ },
            AppNavigationError::Launch { reason } => NavigationErrorView::Launch { reason: reason@ },
        }
    }
}

/// What to tell the user about the error `e`.
pub open spec fn navigation_error_text(e: NavigationErrorView) -> Seq<char> {
    match e {
        NavigationErrorView::UnsupportedPlatform => "当前系统不支持打开 Codex App URL"@,
        NavigationErrorView::ProtocolUnavailable => "未检测到 Codex App 的 codex: URL 协议"@,
        NavigationErrorView::Spawn { source } => "无法打开 Codex App URL: "@ + source,
        NavigationErrorView::Launch { reason } => "Codex App URL 处理器失败: "@ + reason,
    }
}

impl AppNavigationError {
    /// What to tell the user.
    pub fn message(&self) -> (r: String)
        ensures
            r@ == navigation_error_text(self@),
    {
        match self {
            AppNavigationError::UnsupportedPlatform => "当前系统不支持打开 Codex App URL".to_owned(),
            AppNavigationError::ProtocolUnavailable => "未检测到 Codex App 的 codex: URL 协议".to_owned(),
            AppNavigationError::Spawn { source } => cat("无法打开 Codex App URL: ", source.as_str()),
            AppNavigationError::Launch { reason } => cat(
                "Codex App URL 处理器失败: ",
                reason.as_str(),
            ),
        }
    }
}

/// The kinds of systems that open URIs in their own ways.
#[derive(Debug, Clone, Copy, PartialEq, Eq, Structural)]
pub enum Platform {
    /// Windows.
    Windows,
    /// macOS.
    MacOs,
    /// Another Unix.
    Unix,
    /// Anything else.
    Other,
}

/// What came of handing a URI to the system.
#[derive(Debug)]
pub enum Launch {
    /// The handler could not be started.
    NotStarted {
        /// The error of the system.
        error: String,
    },
    /// The handler ended, with this exit code where it ended by itself.
    Exited(Option<i32>),
    /// The shell of Windows gave this code.
    ShellCode(i64),
}

/// The model of a `Launch`.
pub enum LaunchView {
    NotStarted { error: Seq<char> },
    Exited(Option<i32>),
    ShellCode(i64),
}

impl View for Launch {
    type V = LaunchView;

    open spec fn view(&self) -> LaunchView {
        match self {
            Launch::NotStarted { error } => LaunchView::NotStarted { error: error@ },
            Launch::Exited(code) => LaunchView::Exited(*code),
            Launch::ShellCode(code) => LaunchView::ShellCode(*code),
        }
    }
}

/// The program that opens URIs, where one does.
pub open spec fn opener(platform: Platform) -> Option<Seq<char>> {
    match platform {
        Platform::MacOs => Some("open"@),
        Platform::Unix => Some("xdg-open"@),
        _ => None,
    }
}

/// What comes of `launch` by the handler `handler`.
pub open spec fn launch_result(handler: Seq<char>, launch: LaunchView) -> Result<(), NavigationErrorView> {
    match launch {
        LaunchView::NotStarted { error } => Err(NavigationErrorView::Spawn { source: error }),
        LaunchView::Exited(Some(0)) => Ok(()),
        LaunchView::Exited(code) => Err(
            NavigationErrorView::Launch {
                reason: handler + " 退出码 "@ + signed_decimal(
                    match code {
                        Some(n) => n as int,
                        None => -1,
                    },
                ),
            },
        ),
        LaunchView::ShellCode(code) => if code > 32 {
            Ok(())
        } else {
            Err(
                NavigationErrorView::Launch {
                    reason: "ShellExecuteW 返回代码 "@ + signed_decimal(code as int),
                },
            )
        },
    }
}

/// What comes of opening a URI: on Windows an app must be registered for it, and elsewhere the
/// opener of the system must succeed.
pub open spec fn open_result(platform: Platform, available: bool, launch: LaunchView) -> Result<
    (),
    NavigationErrorView,
> {
    match platform {
        Platform::Windows => if available {
            launch_result("ShellExecuteW"@, launch)
        } else {
            Err(NavigationErrorView::ProtocolUnavailable)
        },
        Platform::MacOs => launch_result("open"@, launch),
        Platform::Unix => launch_result("xdg-open"@, launch),
        Platform::Other => Err(NavigationErrorView::UnsupportedPlatform),
    }
}

/// The command that opens a URI, where a program does.
pub fn open_command(platform: Platform, uri: &str) -> (r: Option<CommandSpec>)
    ensures
        match opener(platform) {
            Some(program) => r matches Some(command) && command@ == (CommandView {
                program,
                args: seq![uri@],
            }),
            None => r is None,
        },
{
    let mut args: Vec<String> = Vec::new();
    args.push(uri.to_owned());
    proof {
        assert(views(args@) =~= seq![uri@]);
    }
    match platform {
        Platform::MacOs => Some(CommandSpec::new("open", args)),
        Platform::Unix => Some(CommandSpec::new("xdg-open", args)),
        _ => None,
    }
}

fn judge_launch(handler: &str, launch: Launch) -> (r: Result<(), AppNavigationError>)
    ensures
        match r {
            Ok(_) => launch_result(handler@, launch@) is Ok,
            Err(e) => launch_result(handler@, launch@) == Err::<(), NavigationErrorView>(e@),
        },
{
    match launch {
        Launch::NotStarted { error } => Err(AppNavigationError::Spawn { source: error }),
        Launch::Exited(Some(0)) => Ok(()),
        Launch::Exited(code) => {
            let shown: i32 = match code {
                Some(n) => n,
                None => -1,
            };
            let digits = signed_text(shown as i64);
            Err(
                AppNavigationError::Launch {
                    reason: cat3(handler, " 退出码 ", digits.as_str()),
                },
            )
        },
        Launch::ShellCode(code) => if code > 32 {
            Ok(())
        } else {
            let digits = signed_text(code);
            Err(
                AppNavigationError::Launch {
                    reason: cat("ShellExecuteW 返回代码 ", digits.as_str()),
                },
            )
        },
    }
}

/// Judges what came of handing a URI to the system, given whether it can be opened there.
pub fn open_uri(platform: Platform, available: bool, launch: Launch) -> (r: Result<(), AppNavigationError>)
    ensures
        match r {
            Ok(_) => open_result(platform, available, launch@) is Ok,
            Err(e) => open_result(platform, available, launch@) == Err::<(), NavigationErrorView>(e@),
        },
{
    match platform {
        Platform::Windows => if available {
            judge_launch("ShellExecuteW", launch)
        } else {
            Err(AppNavigationError::ProtocolUnavailable)
        },
        Platform::MacOs => judge_launch("open", launch),
        Platform::Unix => judge_launch("xdg-open", launch),
        Platform::Other => Err(AppNavigationError::UnsupportedPlatform),
    }
}

/// Whether URIs can be opened, given whether the handler was found: on Windows the registered
/// protocol, on other Unix systems the opener. On macOS the opener is always there.
pub fn is_available(platform: Platform, handler_found: bool) -> (r: bool)
    ensures
        r == match platform {
            Platform::Windows => handler_found,
            Platform::MacOs => true,
            Platform::Unix => handler_found,
            Platform::Other => false,
        },
{
    match platform {
        Platform::Windows => handler_found,
        Platform::MacOs => true,
        Platform::Unix => handler_found,
        Platform::Other => false,
    }
}

/// Whether sessions can be opened in the desktop app.
pub open spec fn navigation_diagnostic(available: bool) -> DiagnosticView {
    if available {
        DiagnosticView {
            name: "codex-app-navigation"@,
            severity: DiagnosticSeverity::Info,
            message: "已检测到 Codex App 导航入口"@,
            suggestion: None,
        }
    } else {
        DiagnosticView {
            name: "codex-app-navigation"@,
            severity: DiagnosticSeverity::Warning,
            message: "未检测到 Codex App 导航入口，CLI 恢复仍可正常使用"@,
            suggestion: Some("安装或启动 Codex App，或使用 --no-open-in-app 关闭自动导航"@),
        }
    }
}

/// Whether sessions can be opened in the desktop app, as a diagnostic.
pub fn diagnostic(available: bool) -> (r: Diagnostic)
    ensures
        r@ == navigation_diagnostic(available),
{
    if available {
        Diagnostic::plain(
            "codex-app-navigation",
            DiagnosticSeverity::Info,
            "已检测到 Codex App 导航入口",
        )
    } else {
        Diagnostic::advised(
            "codex-app-navigation",
            DiagnosticSeverity::Warning,
            "未检测到 Codex App 导航入口，CLI 恢复仍可正常使用",
            "安装或启动 Codex App，或使用 --no-open-in-app 关闭自动导航",
        )
    }
}

} // verus!
