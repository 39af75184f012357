//! The repair of a configuration, one step at a time: it asks for one action on the disk, is told
//! what came of it, and goes on from there. The old configuration is copied before anything is
//! changed, and put back where the new one does not hold up.

use vstd::prelude::*;

use crate::domain::{RepairReport, RepairView};
use crate::model::{copy_bytes, opt_view, or_text, same_bytes};
use crate::paths::{file_name, join, joined, name_of, parent, parent_of};
use crate::provider::{error_text, ErrorView, ProviderError};
use crate::text::{bytes_of, cat, cat3, cat5, decimal, decimal_text, signed_decimal, signed_text};

use super::config::{config_tree, is_valid_name, parse_document, valid_provider_name};
use super::plan::{alias_added, plan_repair, planned, PlanView, RepairPlan};

verus! {

/// How many names are tried for a new file.
pub const NAME_ATTEMPTS: usize = 32;

/// What a file beside the configuration is for.
#[derive(Debug, Clone, Copy, PartialEq, Eq, Structural)]
pub enum Purpose {
    /// It keeps the old configuration.
    Backup,
    /// It becomes the new configuration.
    Write,
    /// It puts the old configuration back.
    Rollback,
}

/// The part of a file name that says what the file is for.
pub open spec fn purpose_label(purpose: Purpose) -> Seq<char> {
    match purpose {
        Purpose::Backup => "backup"@,
        Purpose::Write => "write"@,
        Purpose::Rollback => "rollback"@,
    }
}

/// The extension of the file name.
pub open spec fn purpose_extension(purpose: Purpose) -> Seq<char> {
    match purpose {
        Purpose::Backup => "bak"@,
        Purpose::Write => "tmp"@,
        Purpose::Rollback => "tmp"@,
    }
}

/// The name of a file beside the configuration `config_path`, made of what it is for, the process,
/// the time and the attempt.
pub open spec fn sibling_name(
    config_path: Seq<char>,
    purpose: Purpose,
    process: nat,
    nanos: int,
    attempt: nat,
    windows: bool,
) -> Seq<char> {
    joined(
        directory_of(config_path, windows),
        or_text(name_of(config_path, windows), "config.toml"@) + ".agentmux-"@ + purpose_label(purpose)
            + "-"@ + decimal(process) + "-"@ + signed_decimal(nanos) + "-"@ + decimal(attempt) + "."@
            + purpose_extension(purpose),
        windows,
    )
}

/// The directory of the configuration `config_path`.
pub open spec fn directory_of(config_path: Seq<char>, windows: bool) -> Seq<char> {
    or_text(parent_of(config_path, windows), "."@)
}

/// The directory of the configuration.
pub fn config_directory(config_path: &str, windows: bool) -> (r: String)
    ensures
        r@ == directory_of(config_path@, windows),
{
    match parent(config_path, windows) {
        Some(directory) => directory,
        None => ".".to_owned(),
    }
}

/// The path of a file beside the configuration, made of what it is for, the process, the time and
/// the attempt.
pub fn sibling_path(
    config_path: &str,
    purpose: Purpose,
    process: u32,
    nanos: i64,
    attempt: usize,
    windows: bool,
) -> (r: String)
    ensures
        r@ == sibling_name(
            config_path@,
            purpose,
            process as nat,
            nanos as int,
            attempt as nat,
            windows,
        ),
{
    let (label, extension) = match purpose {
        Purpose::Backup => ("backup", "bak"),
        Purpose::Write => ("write", "tmp"),
        Purpose::Rollback => ("rollback", "tmp"),
    };
    let process_text = decimal_text(process as u64);
    let nanos_text = signed_text(nanos);
    let attempt_text = decimal_text(attempt as u64);
    let name = match file_name(config_path, windows) {
        Some(name) => name,
        None => "config.toml".to_owned(),
    };
    let head = cat5(name.as_str(), ".agentmux-", label, "-", process_text.as_str());
    let middle = cat5(head.as_str(), "-", nanos_text.as_str(), "-", attempt_text.as_str());
    let sibling = cat3(middle.as_str(), ".", extension);
    join(config_directory(config_path, windows).as_str(), sibling.as_str(), windows)
}

/// What a repair waits for.
#[derive(Debug, Clone, Copy, PartialEq, Eq, Structural)]
pub enum Phase {
    /// The configuration to be read.
    ReadConfig,
    /// The copy of the configuration to be written.
    WriteBackup,
    /// The new configuration to be written beside the old one.
    WriteTemp,
    /// The new configuration to be read again.
    ReadTemp,
    /// The new configuration to take the place of the old one.
    Replace,
    /// The new configuration to be discarded, after which the repair has failed.
    DiscardFailed,
    /// What is left of the new configuration beside the old place to be discarded.
    DiscardTemp,
    /// The configuration to be read in its place.
    ReadInstalled,
    /// The configuration to be checked by the agent.
    Validate,
    /// The copy to be read.
    ReadBackup,
    /// The old configuration to be written beside the new one.
    WriteRollback,
    /// The old configuration to take its place again.
    ReplaceBack,
    /// The old configuration beside its place to be discarded, after which the rollback has failed.
    DiscardRollbackFailed,
    /// What is left of the old configuration beside its place to be discarded.
    DiscardRollback,
    /// The old configuration to be read in its place.
    ReadRestored,
}

/// A repair under way.
#[derive(Debug)]
pub struct Repair {
    config_path: String,
    codex_home: String,
    alias: String,
    phase: Phase,
    original: Vec<u8>,
    rendered: String,
    backup: String,
    temp: String,
    message: String,
    attempt: usize,
}

/// The model of a `Repair`.
pub struct RepairState {
    /// The configuration file.
    pub config_path: Seq<char>,
    /// The directory it lies in.
    pub codex_home: Seq<char>,
    /// The alias to be defined.
    pub alias: Seq<char>,
    /// What the repair waits for.
    pub phase: Phase,
    /// The old configuration, once it was read.
    pub original: Seq<u8>,
    /// The new configuration, once it was made.
    pub rendered: Seq<char>,
    /// The copy of the old configuration, once it was written.
    pub backup: Seq<char>,
    /// The file beside the configuration that is to take its place.
    pub temp: Seq<char>,
    /// Why the repair fails, once it does.
    pub message: Seq<char>,
    /// How many names were found taken.
    pub attempt: nat,
}

impl View for Repair {
    type V = RepairState;

    closed spec fn view(&self) -> RepairState {
        RepairState {
            config_path: self.config_path@,
            codex_home: self.codex_home@,
            alias: self.alias@,
            phase: self.phase,
            original: self.original@,
            rendered: self.rendered@,
            backup: self.backup@,
            temp: self.temp@,
            message: self.message@,
            attempt: self.attempt as nat,
        }
    }
}

/// What is to be done on the disk.
#[derive(Debug)]
pub enum RepairAction {
    /// Read this file.
    Read {
        /// The file.
        path: String,
    },
    /// Write these bytes to a new file beside the configuration.
    WriteSibling {
        /// What the file is for.
        purpose: Purpose,
        /// How many names were found taken.
        attempt: usize,
        /// What it is to hold.
        bytes: Vec<u8>,
    },
    /// Let one file take the place of another at once.
    Replace {
        /// The file.
        from: String,
        /// The file whose place it takes.
        to: String,
    },
    /// Remove this file, if it is there.
    Discard {
        /// The file.
        path: String,
    },
    /// Let the agent check the configuration.
    Validate {
        /// The directory it lies in.
        codex_home: String,
    },
}

/// The model of a `RepairAction`.
pub enum ActionView {
    Read { path: Seq<char> },
    WriteSibling { purpose: Purpose, attempt: nat, bytes: Seq<u8> },
    Replace { from: Seq<char>, to: Seq<char> },
    Discard { path: Seq<char> },
    Validate { codex_home: Seq<char> },
}

impl View for RepairAction {
    type V = ActionView;

    open spec fn view(&self) -> ActionView {
        match self {
            RepairAction::Read { path } => ActionView::Read { path: path@ },
            RepairAction::WriteSibling { purpose, attempt, bytes } => ActionView::WriteSibling {
                purpose: *purpose,
                attempt: *attempt as nat,
                bytes: bytes@,
            },
            RepairAction::Replace { from, to } => ActionView::Replace { from: from@, to: to@ },
            RepairAction::Discard { path } => ActionView::Discard { path: path@ },
            RepairAction::Validate { codex_home } => ActionView::Validate {
                codex_home: codex_home@,
            },
        }
    }
}

/// What came of an action.
#[derive(Debug)]
pub enum RepairEvent {
    /// The file holds this.
    Contents(Vec<u8>),
    /// The file could not be read.
    ReadFailed(String),
    /// The new file has this path.
    Written(String),
    /// There is a file of that name.
    NameTaken,
    /// The new file could not be written.
    WriteFailed(String),
    /// The file has taken the place of the other.
    Replaced,
    /// It has not.
    ReplaceFailed(String),
    /// The file was removed, or could not be.
    Discarded,
    /// The agent found no fault, or there is no agent to ask.
    Accepted {
        /// Whether the agent was asked.
        checked: bool,
    },
    /// The agent found fault.
    Rejected(String),
}

/// The model of a `RepairEvent`.
pub enum EventView {
    Contents(Seq<u8>),
    ReadFailed(Seq<char>),
    Written(Seq<char>),
    NameTaken,
    WriteFailed(Seq<char>),
    Replaced,
    ReplaceFailed(Seq<char>),
    Discarded,
    Accepted { checked: bool },
    Rejected(Seq<char>),
}

impl View for RepairEvent {
    type V = EventView;

    open spec fn view(&self) -> EventView {
        match self {
            RepairEvent::Contents(bytes) => EventView::Contents(bytes@),
            RepairEvent::ReadFailed(error) => EventView::ReadFailed(error@),
            RepairEvent::Written(path) => EventView::Written(path@),
            RepairEvent::NameTaken => EventView::NameTaken,
            RepairEvent::WriteFailed(error) => EventView::WriteFailed(error@),
            RepairEvent::Replaced => EventView::Replaced,
            RepairEvent::ReplaceFailed(error) => EventView::ReplaceFailed(error@),
            RepairEvent::Discarded => EventView::Discarded,
            RepairEvent::Accepted { checked } => EventView::Accepted { checked: *checked },
            RepairEvent::Rejected(error) => EventView::Rejected(error@),
        }
    }
}

/// What the repair `s` asks for.
pub open spec fn action_of(s: RepairState) -> ActionView {
    match s.phase {
        Phase::ReadConfig => ActionView::Read { path: s.config_path },
        Phase::WriteBackup => ActionView::WriteSibling {
            purpose: Purpose::Backup,
            attempt: s.attempt,
            bytes: s.original,
        },
        Phase::WriteTemp => ActionView::WriteSibling {
            purpose: Purpose::Write,
            attempt: s.attempt,
            bytes: vstd::utf8::encode_utf8(s.rendered),
        },
        Phase::ReadTemp => ActionView::Read { path: s.temp },
        Phase::Replace => ActionView::Replace { from: s.temp, to: s.config_path },
        Phase::DiscardFailed => ActionView::Discard { path: s.temp },
        Phase::DiscardTemp => ActionView::Discard { path: s.temp },
        Phase::ReadInstalled => ActionView::Read { path: s.config_path },
        Phase::Validate => ActionView::Validate { codex_home: s.codex_home },
        Phase::ReadBackup => ActionView::Read { path: s.backup },
        Phase::WriteRollback => ActionView::WriteSibling {
            purpose: Purpose::Rollback,
            attempt: s.attempt,
            bytes: s.original,
        },
        Phase::ReplaceBack => ActionView::Replace { from: s.temp, to: s.config_path },
        Phase::DiscardRollbackFailed => ActionView::Discard { path: s.temp },
        Phase::DiscardRollback => ActionView::Discard { path: s.temp },
        Phase::ReadRestored => ActionView::Read { path: s.config_path },
    }
}

/// The error of a repair that failed, with the copy of the old configuration, where there is one.
pub open spec fn repair_error(message: Seq<char>, backup: Option<Seq<char>>) -> ErrorView {
    ErrorView::Repair {
        message: match backup {
            Some(path) => message + ("；配置备份: "@ + path),
            None => message + "；配置备份未创建"@,
        },
        backup_path: backup,
    }
}

/// What is told about a rollback of a repair that failed for `message`, where it failed too.
pub open spec fn rollback_failure(message: Seq<char>, reason: Seq<char>, backup: Seq<char>) -> Seq<char> {
    message + "，自动回滚失败: "@ + reason + "；请使用备份 "@ + backup
}

/// What is told about a rollback of a repair that failed for `message`, where it succeeded.
pub open spec fn rollback_success(message: Seq<char>) -> Seq<char> {
    message + "，已自动恢复原配置"@
}

/// What is told where every name that was tried is taken.
pub open spec fn names_exhausted() -> Seq<char> {
    "无法创建唯一同目录临时文件"@
}

/// The report of a repair that changed nothing.
pub open spec fn unchanged_report(s: RepairState) -> RepairView {
    RepairView {
        config_path: s.config_path,
        backup_path: None,
        alias: s.alias,
        changed: false,
        message: "provider "@ + s.alias + " 已存在，无需修改"@,
    }
}

/// The report of a repair that succeeded.
pub open spec fn changed_report(s: RepairState, checked: bool) -> RepairView {
    RepairView {
        config_path: s.config_path,
        backup_path: Some(s.backup),
        alias: s.alias,
        changed: true,
        message: if checked {
            "已创建 provider 兼容别名 "@ + s.alias + "，Codex 严格配置校验通过"@
        } else {
            "已创建 provider 兼容别名 "@ + s.alias
                + "；Codex CLI 不可用，已完成 TOML 重解析校验"@
        },
    }
}

/// What a repair does next.
pub enum StepView {
    /// It goes on.
    Next(RepairState),
    /// It is done.
    Done(Result<RepairView, ErrorView>),
}

/// The repair `s` in the phase `phase`, with names to be tried from the start.
pub open spec fn turned_to(s: RepairState, phase: Phase) -> StepView {
    StepView::Next(RepairState { phase, attempt: 0, ..s })
}

/// The repair `s` in the phase `phase`, about to fail for `message`.
pub open spec fn failing(s: RepairState, phase: Phase, message: Seq<char>) -> StepView {
    StepView::Next(RepairState { phase, message, attempt: 0, ..s })
}

/// The repair `s` that has failed for `message`.
pub open spec fn failed(message: Seq<char>, backup: Option<Seq<char>>) -> StepView {
    StepView::Done(Err(repair_error(message, backup)))
}

/// The repair `s` whose rollback has failed for `reason`.
pub open spec fn rollback_failed(s: RepairState, reason: Seq<char>) -> StepView {
    failed(rollback_failure(s.message, reason, s.backup), Some(s.backup))
}

/// What the repair `s` does once the configuration was read.
pub open spec fn after_config(s: RepairState, event: EventView) -> StepView {
    match event {
        EventView::Contents(bytes) => match planned(s.config_path, bytes, s.alias) {
            Ok(PlanView::Keep) => StepView::Done(Ok(unchanged_report(s))),
            Ok(PlanView::Rewrite { text }) => turned_to(
                RepairState { original: bytes, rendered: text, ..s },
                Phase::WriteBackup,
            ),
            Err(e) => StepView::Done(Err(e)),
        },
        EventView::ReadFailed(reason) => StepView::Done(
            Err(ErrorView::Io { path: s.config_path, source: reason }),
        ),
        _ => StepView::Next(s),
    }
}

/// What the repair `s` does once a new file was written, or why it could not be.
pub open spec fn after_write(
    s: RepairState,
    event: EventView,
    written: spec_fn(Seq<char>) -> StepView,
    not_written: spec_fn(Seq<char>) -> StepView,
) -> StepView {
    match event {
        EventView::Written(path) => written(path),
        EventView::NameTaken => if s.attempt + 1 < NAME_ATTEMPTS {
            StepView::Next(RepairState { attempt: s.attempt + 1, ..s })
        } else {
            not_written(names_exhausted())
        },
        EventView::WriteFailed(reason) => not_written(reason),
        _ => StepView::Next(s),
    }
}

/// What the repair `s` does once `event` came of what it asked for.
pub open spec fn next_step(s: RepairState, event: EventView) -> StepView {
    match s.phase {
        Phase::ReadConfig => after_config(s, event),
        Phase::WriteBackup => after_write(
            s,
            event,
            |path: Seq<char>|
                turned_to(RepairState { backup: path, ..s }, Phase::WriteTemp),
            |reason: Seq<char>| failed("无法创建配置备份: "@ + reason, None),
        ),
        Phase::WriteTemp => after_write(
            s,
            event,
            |path: Seq<char>| turned_to(RepairState { temp: path, ..s }, Phase::ReadTemp),
            |reason: Seq<char>|
                failed("无法写入同目录临时配置: "@ + reason, Some(s.backup)),
        ),
        Phase::ReadTemp => match event {
            EventView::Contents(bytes) => match config_tree(s.temp, bytes) {
                Ok(_) => turned_to(s, Phase::Replace),
                Err(e) => failing(
                    s,
                    Phase::DiscardFailed,
                    "临时配置校验失败: "@ + error_text(e),
                ),
            },
            EventView::ReadFailed(reason) => failing(
                s,
                Phase::DiscardFailed,
                "无法重新读取临时配置: "@ + reason,
            ),
            _ => StepView::Next(s),
        },
        Phase::Replace => match event {
            EventView::Replaced => turned_to(s, Phase::DiscardTemp),
            EventView::ReplaceFailed(reason) => failing(
                s,
                Phase::DiscardFailed,
                "无法原子替换配置: "@ + reason,
            ),
            _ => StepView::Next(s),
        },
        Phase::DiscardFailed => failed(s.message, Some(s.backup)),
        Phase::DiscardTemp => turned_to(s, Phase::ReadInstalled),
        Phase::ReadInstalled => match event {
            EventView::Contents(bytes) => match config_tree(s.config_path, bytes) {
                Ok(_) => turned_to(s, Phase::Validate),
                Err(_) => failing(s, Phase::ReadBackup, "替换后的配置无法重新解析"@),
            },
            EventView::ReadFailed(_) => failing(s, Phase::ReadBackup, "无法读取替换后的配置"@),
            _ => StepView::Next(s),
        },
        Phase::Validate => match event {
            EventView::Accepted { checked } => StepView::Done(Ok(changed_report(s, checked))),
            EventView::Rejected(reason) => failing(s, Phase::ReadBackup, reason),
            _ => StepView::Next(s),
        },
        Phase::ReadBackup => match event {
            EventView::Contents(bytes) => if bytes == s.original {
                turned_to(s, Phase::WriteRollback)
            } else {
                rollback_failed(s, "备份内容与原配置不一致"@)
            },
            EventView::ReadFailed(reason) => rollback_failed(s, reason),
            _ => StepView::Next(s),
        },
        Phase::WriteRollback => after_write(
            s,
            event,
            |path: Seq<char>| turned_to(RepairState { temp: path, ..s }, Phase::ReplaceBack),
            |reason: Seq<char>| rollback_failed(s, reason),
        ),
        Phase::ReplaceBack => match event {
            EventView::Replaced => turned_to(s, Phase::DiscardRollback),
            EventView::ReplaceFailed(reason) => failing(
                s,
                Phase::DiscardRollbackFailed,
                rollback_failure(s.message, reason, s.backup),
            ),
            _ => StepView::Next(s),
        },
        Phase::DiscardRollbackFailed => failed(s.message, Some(s.backup)),
        Phase::DiscardRollback => turned_to(s, Phase::ReadRestored),
        Phase::ReadRestored => match event {
            EventView::Contents(bytes) => if bytes == s.original {
                failed(rollback_success(s.message), Some(s.backup))
            } else {
                rollback_failed(s, "回滚后的配置与原配置不一致"@)
            },
            EventView::ReadFailed(reason) => rollback_failed(s, reason),
            _ => StepView::Next(s),
        },
    }
}

/// A repair that has just begun.
pub open spec fn begun(config_path: Seq<char>, codex_home: Seq<char>, alias: Seq<char>) -> RepairState {
    RepairState {
        config_path,
        codex_home,
        alias,
        phase: Phase::ReadConfig,
        original: Seq::empty(),
        rendered: Seq::empty(),
        backup: Seq::empty(),
        temp: Seq::empty(),
        message: Seq::empty(),
        attempt: 0,
    }
}

/// What a repair does next.
#[derive(Debug)]
pub enum RepairStep {
    /// It goes on.
    Next(Repair),
    /// It is done.
    Done(Result<RepairReport, ProviderError>),
}

impl View for RepairStep {
    type V = StepView;

    open spec fn view(&self) -> StepView {
        match self {
            RepairStep::Next(repair) => StepView::Next(repair@),
            RepairStep::Done(Ok(report)) => StepView::Done(Ok(report@)),
            RepairStep::Done(Err(e)) => StepView::Done(Err(e@)),
        }
    }
}

fn fail(message: &str, backup: Option<&str>) -> (r: RepairStep)
    ensures
        r@ == failed(message@, opt_view(backup)),
{
    let (note, kept) = match backup {
        Some(path) => (cat("；配置备份: ", path), Some(path.to_owned())),
        None => ("；配置备份未创建".to_owned(), None),
    };
    RepairStep::Done(
        Err(ProviderError::Repair { message: cat(message, note.as_str()), backup_path: kept }),
    )
}

impl Repair {
    #[verifier::type_invariant]
    spec fn sound(self) -> bool {
        &&& self.attempt < NAME_ATTEMPTS
        &&& self.phase != Phase::ReadConfig ==> alias_added(
            self.config_path@,
            self.original@,
            self.rendered@,
            self.alias@,
        )
    }

    /// Begins a repair that defines `alias`, where the user agreed to it and the name is fit.
    pub fn start(config_path: &str, codex_home: &str, alias: &str, confirmed: bool) -> (r: Result<
        Repair,
        ProviderError,
    >)
        ensures
            match r {
                Ok(repair) => confirmed && is_valid_name(alias@) && repair@ == begun(
                    config_path@,
                    codex_home@,
                    alias@,
                ),
                Err(e) => if !confirmed {
                    e@ == (ErrorView::Config { message: "provider 修复尚未确认"@ })
                } else {
                    !is_valid_name(alias@) && e@ == (ErrorView::Config {
                        message: "历史 provider 名称包含不支持的字符"@,
                    })
                },
            },
    {
        if !confirmed {
            return Err(ProviderError::Config { message: "provider 修复尚未确认".to_owned() });
        }
        if !valid_provider_name(alias) {
            return Err(
                ProviderError::Config {
                    message: "历史 provider 名称包含不支持的字符".to_owned(),
                },
            );
        }
        let repair = Repair {
            config_path: config_path.to_owned(),
            codex_home: codex_home.to_owned(),
            alias: alias.to_owned(),
            phase: Phase::ReadConfig,
            original: Vec::new(),
            rendered: String::new(),
            backup: String::new(),
            temp: String::new(),
            message: String::new(),
            attempt: 0,
        };
        proof {
            assert(repair@.original =~= Seq::<u8>::empty());
            assert(repair@.rendered =~= Seq::<char>::empty());
            assert(repair@.backup =~= Seq::<char>::empty());
            assert(repair@.temp =~= Seq::<char>::empty());
            assert(repair@.message =~= Seq::<char>::empty());
        }
        Ok(repair)
    }

    /// What is to be done next.
    pub fn action(&self) -> (r: RepairAction)
        ensures
            r@ == action_of(self@),
    {
        match self.phase {
            Phase::ReadConfig => RepairAction::Read { path: self.config_path.clone() },
            Phase::WriteBackup => RepairAction::WriteSibling {
                purpose: Purpose::Backup,
                attempt: self.attempt,
                bytes: copy_bytes(&self.original),
            },
            Phase::WriteTemp => RepairAction::WriteSibling {
                purpose: Purpose::Write,
                attempt: self.attempt,
                bytes: bytes_of(self.rendered.as_str()),
            },
            Phase::ReadTemp => RepairAction::Read { path: self.temp.clone() },
            Phase::Replace => RepairAction::Replace {
                from: self.temp.clone(),
                to: self.config_path.clone(),
            },
            Phase::DiscardFailed => RepairAction::Discard { path: self.temp.clone() },
            Phase::DiscardTemp => RepairAction::Discard { path: self.temp.clone() },
            Phase::ReadInstalled => RepairAction::Read { path: self.config_path.clone() },
            Phase::Validate => RepairAction::Validate { codex_home: self.codex_home.clone() },
            Phase::ReadBackup => RepairAction::Read { path: self.backup.clone() },
            Phase::WriteRollback => RepairAction::WriteSibling {
                purpose: Purpose::Rollback,
                attempt: self.attempt,
                bytes: copy_bytes(&self.original),
            },
            Phase::ReplaceBack => RepairAction::Replace {
                from: self.temp.clone(),
                to: self.config_path.clone(),
            },
            Phase::DiscardRollbackFailed => RepairAction::Discard { path: self.temp.clone() },
            Phase::DiscardRollback => RepairAction::Discard { path: self.temp.clone() },
            Phase::ReadRestored => RepairAction::Read { path: self.config_path.clone() },
        }
    }

    fn turn_to(self, phase: Phase) -> (r: RepairStep)
        requires
            self@.phase != Phase::ReadConfig,
            phase != Phase::ReadConfig,
        ensures
            r@ == turned_to(self@, phase),
    {
        proof {
            use_type_invariant(&self);
        }
        RepairStep::Next(
            Repair {
                config_path: self.config_path,
                codex_home: self.codex_home,
                alias: self.alias,
                phase,
                original: self.original,
                rendered: self.rendered,
                backup: self.backup,
                temp: self.temp,
                message: self.message,
                attempt: 0,
            },
        )
    }

    fn turn_failing(self, phase: Phase, message: String) -> (r: RepairStep)
        requires
            self@.phase != Phase::ReadConfig,
            phase != Phase::ReadConfig,
        ensures
            r@ == failing(self@, phase, message@),
    {
        proof {
            use_type_invariant(&self);
        }
        RepairStep::Next(
            Repair {
                config_path: self.config_path,
                codex_home: self.codex_home,
                alias: self.alias,
                phase,
                original: self.original,
                rendered: self.rendered,
                backup: self.backup,
                temp: self.temp,
                message,
                attempt: 0,
            },
        )
    }

    fn with_temp(self, path: String, phase: Phase) -> (r: RepairStep)
        requires
            self@.phase != Phase::ReadConfig,
            phase != Phase::ReadConfig,
        ensures
            r@ == turned_to(RepairState { temp: path@, ..self@ }, phase),
    {
        proof {
            use_type_invariant(&self);
        }
        RepairStep::Next(
            Repair {
                config_path: self.config_path,
                codex_home: self.codex_home,
                alias: self.alias,
                phase,
                original: self.original,
                rendered: self.rendered,
                backup: self.backup,
                temp: path,
                message: self.message,
                attempt: 0,
            },
        )
    }

    fn with_backup(self, path: String, phase: Phase) -> (r: RepairStep)
        requires
            self@.phase != Phase::ReadConfig,
            phase != Phase::ReadConfig,
        ensures
            r@ == turned_to(RepairState { backup: path@, ..self@ }, phase),
    {
        proof {
            use_type_invariant(&self);
        }
        RepairStep::Next(
            Repair {
                config_path: self.config_path,
                codex_home: self.codex_home,
                alias: self.alias,
                phase,
                original: self.original,
                rendered: self.rendered,
                backup: path,
                temp: self.temp,
                message: self.message,
                attempt: 0,
            },
        )
    }

    fn next_name(self) -> (r: Result<Repair, Repair>)
        ensures
            match r {
                Ok(repair) => self@.attempt + 1 < NAME_ATTEMPTS && repair@ == (RepairState {
                    attempt: self@.attempt + 1,
                    ..self@
                }),
                Err(repair) => self@.attempt + 1 >= NAME_ATTEMPTS && repair@ == self@,
            },
    {
        proof {
            use_type_invariant(&self);
        }
        if self.attempt + 1 < NAME_ATTEMPTS {
            Ok(
                Repair {
                    config_path: self.config_path,
                    codex_home: self.codex_home,
                    alias: self.alias,
                    phase: self.phase,
                    original: self.original,
                    rendered: self.rendered,
                    backup: self.backup,
                    temp: self.temp,
                    message: self.message,
                    attempt: self.attempt + 1,
                },
            )
        } else {
            Err(self)
        }
    }

    fn fail_backup(self, reason: &str) -> (r: RepairStep)
        ensures
            r@ == failed("无法创建配置备份: "@ + reason@, None),
    {
        fail(cat("无法创建配置备份: ", reason).as_str(), None)
    }

    fn fail_temp(self, reason: &str) -> (r: RepairStep)
        ensures
            r@ == failed("无法写入同目录临时配置: "@ + reason@, Some(self@.backup)),
    {
        fail(
            cat("无法写入同目录临时配置: ", reason).as_str(),
            Some(self.backup.as_str()),
        )
    }

    fn fail_rollback(self, reason: &str) -> (r: RepairStep)
        ensures
            r@ == rollback_failed(self@, reason@),
    {
        let text = cat5(
            self.message.as_str(),
            "，自动回滚失败: ",
            reason,
            "；请使用备份 ",
            self.backup.as_str(),
        );
        fail(text.as_str(), Some(self.backup.as_str()))
    }

    fn plan(self, bytes: Vec<u8>) -> (r: RepairStep)
        ensures
            r@ == after_config(self@, EventView::Contents(bytes@)),
    {
        match plan_repair(self.config_path.as_str(), &bytes, self.alias.as_str()) {
            Ok(RepairPlan::Keep) => {
                let message = cat3("provider ", self.alias.as_str(), " 已存在，无需修改");
                RepairStep::Done(
                    Ok(
                        RepairReport {
                            config_path: self.config_path,
                            backup_path: None,
                            alias: self.alias,
                            changed: false,
                            message,
                        },
                    ),
                )
            },
            Ok(RepairPlan::Rewrite { text }) => RepairStep::Next(
                Repair {
                    config_path: self.config_path,
                    codex_home: self.codex_home,
                    alias: self.alias,
                    phase: Phase::WriteBackup,
                    original: bytes,
                    rendered: text,
                    backup: self.backup,
                    temp: self.temp,
                    message: self.message,
                    attempt: 0,
                },
            ),
            Err(e) => RepairStep::Done(Err(e)),
        }
    }

    fn succeed(self, checked: bool) -> (r: RepairStep)
        ensures
            r@ == StepView::Done(Ok(changed_report(self@, checked))),
    {
        let tail = if checked {
            "，Codex 严格配置校验通过"
        } else {
            "；Codex CLI 不可用，已完成 TOML 重解析校验"
        };
        let message = cat3("已创建 provider 兼容别名 ", self.alias.as_str(), tail);
        RepairStep::Done(
            Ok(
                RepairReport {
                    config_path: self.config_path,
                    backup_path: Some(self.backup),
                    alias: self.alias,
                    changed: true,
                    message,
                },
            ),
        )
    }

    /// Goes on once `event` came of what was asked for; an event that cannot come of it leaves the
    /// repair where it is, but a file that was to be discarded is given up whatever came. A repair that succeeds with a change has
    /// asked for a configuration to be put in place that is the one it read with the alias as a whole
    /// copy of the default model provider and nothing else changed.
    pub fn advance(self, event: RepairEvent) -> (r: RepairStep)
        ensures
            r@ == next_step(self@, event@),
            r@ matches StepView::Done(Ok(report)) && report.changed ==> alias_added(
                self@.config_path,
                self@.original,
                self@.rendered,
                self@.alias,
            ),
    {
        proof {
            use_type_invariant(&self);
        }
        match self.phase {
            Phase::ReadConfig => match event {
                RepairEvent::Contents(bytes) => self.plan(bytes),
                RepairEvent::ReadFailed(reason) => RepairStep::Done(
                    Err(ProviderError::Io { path: self.config_path, source: reason }),
                ),
                _ => RepairStep::Next(self),
            },
            Phase::WriteBackup => match event {
                RepairEvent::Written(path) => self.with_backup(path, Phase::WriteTemp),
                RepairEvent::NameTaken => match self.next_name() {
                    Ok(repair) => RepairStep::Next(repair),
                    Err(repair) => repair.fail_backup("无法创建唯一同目录临时文件"),
                },
                RepairEvent::WriteFailed(reason) => self.fail_backup(reason.as_str()),
                _ => RepairStep::Next(self),
            },
            Phase::WriteTemp => match event {
                RepairEvent::Written(path) => self.with_temp(path, Phase::ReadTemp),
                RepairEvent::NameTaken => match self.next_name() {
                    Ok(repair) => RepairStep::Next(repair),
                    Err(repair) => repair.fail_temp("无法创建唯一同目录临时文件"),
                },
                RepairEvent::WriteFailed(reason) => self.fail_temp(reason.as_str()),
                _ => RepairStep::Next(self),
            },
            Phase::ReadTemp => match event {
                RepairEvent::Contents(bytes) => match parse_document(self.temp.as_str(), &bytes) {
                    Ok(_) => self.turn_to(Phase::Replace),
                    Err(e) => {
                        let reason = e.message();
                        self.turn_failing(
                            Phase::DiscardFailed,
                            cat("临时配置校验失败: ", reason.as_str()),
                        )
                    },
                },
                RepairEvent::ReadFailed(reason) => self.turn_failing(
                    Phase::DiscardFailed,
                    cat("无法重新读取临时配置: ", reason.as_str()),
                ),
                _ => RepairStep::Next(self),
            },
            Phase::Replace => match event {
                RepairEvent::Replaced => self.turn_to(Phase::DiscardTemp),
                RepairEvent::ReplaceFailed(reason) => self.turn_failing(
                    Phase::DiscardFailed,
                    cat("无法原子替换配置: ", reason.as_str()),
                ),
                _ => RepairStep::Next(self),
            },
            Phase::DiscardFailed => fail(self.message.as_str(), Some(self.backup.as_str())),
            Phase::DiscardTemp => self.turn_to(Phase::ReadInstalled),
            Phase::ReadInstalled => match event {
                RepairEvent::Contents(bytes) => match parse_document(
                    self.config_path.as_str(),
                    &bytes,
                ) {
                    Ok(_) => self.turn_to(Phase::Validate),
                    Err(_) => self.turn_failing(
                        Phase::ReadBackup,
                        "替换后的配置无法重新解析".to_owned(),
                    ),
                },
                RepairEvent::ReadFailed(_) => self.turn_failing(
                    Phase::ReadBackup,
                    "无法读取替换后的配置".to_owned(),
                ),
                _ => RepairStep::Next(self),
            },
            Phase::Validate => match event {
                RepairEvent::Accepted { checked } => self.succeed(checked),
                RepairEvent::Rejected(reason) => self.turn_failing(Phase::ReadBackup, reason),
                _ => RepairStep::Next(self),
            },
            Phase::ReadBackup => match event {
                RepairEvent::Contents(bytes) => if same_bytes(&bytes, &self.original) {
                    self.turn_to(Phase::WriteRollback)
                } else {
                    self.fail_rollback("备份内容与原配置不一致")
                },
                RepairEvent::ReadFailed(reason) => self.fail_rollback(reason.as_str()),
                _ => RepairStep::Next(self),
            },
            Phase::WriteRollback => match event {
                RepairEvent::Written(path) => self.with_temp(path, Phase::ReplaceBack),
                RepairEvent::NameTaken => match self.next_name() {
                    Ok(repair) => RepairStep::Next(repair),
                    Err(repair) => repair.fail_rollback("无法创建唯一同目录临时文件"),
                },
                RepairEvent::WriteFailed(reason) => self.fail_rollback(reason.as_str()),
                _ => RepairStep::Next(self),
            },
            Phase::ReplaceBack => match event {
                RepairEvent::Replaced => self.turn_to(Phase::DiscardRollback),
                RepairEvent::ReplaceFailed(reason) => {
                    let text = cat5(
                        self.message.as_str(),
                        "，自动回滚失败: ",
                        reason.as_str(),
                        "；请使用备份 ",
                        self.backup.as_str(),
                    );
                    self.turn_failing(Phase::DiscardRollbackFailed, text)
                },
                _ => RepairStep::Next(self),
            },
            Phase::DiscardRollbackFailed => fail(
                self.message.as_str(),
                Some(self.backup.as_str()),
            ),
            Phase::DiscardRollback => self.turn_to(Phase::ReadRestored),
            Phase::ReadRestored => match event {
                RepairEvent::Contents(bytes) => if same_bytes(&bytes, &self.original) {
                    fail(
                        cat(self.message.as_str(), "，已自动恢复原配置").as_str(),
                        Some(self.backup.as_str()),
                    )
                } else {
                    self.fail_rollback("回滚后的配置与原配置不一致")
                },
                RepairEvent::ReadFailed(reason) => self.fail_rollback(reason.as_str()),
                _ => RepairStep::Next(self),
            },
        }
    }
}

} // verus!
