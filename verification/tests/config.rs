//! Diagnosing and repairing a Codex configuration.

use agentmux::domain::{RepairOptions, RepairReport, ResumeStatus, Session, SourceId};
use agentmux::provider::codex::config::{
    contains_sensitive_fields, inspect_config, parse_document, provider_exists, sensitive_key, valid_provider_name,
    ConfigRead,
};
use agentmux::provider::codex::plan::{plan_repair, RepairPlan};
use agentmux::provider::codex::repair::{sibling_path, Purpose, Repair, RepairAction, RepairEvent, RepairStep};
use agentmux::provider::codex::{check_outcome, CheckRun, CodexProvider};
use agentmux::provider::ProviderError;
use agentmux::time::Timestamp;
use agentmux::toml::parse_toml;
use agentmux::tree::Node;

const PATH: &str = "/codex/config.toml";

fn valid_config() -> String {
    [
        "# 顶部注释\n",
        "model_provider = \"current\"\n",
        "model = \"gpt-5\"\n",
        "\n",
        "[model_providers.current] # 当前 provider\n",
        "name = \"Current\"\n",
        "base_url = \"https://example.invalid/v1\"\n",
        "wire_api = \"responses\"\n",
        "requires_openai_auth = true\n",
        "\n",
        "[features]\n",
        "example = true # 保留尾随注释\n",
    ]
    .concat()
}

/// A disk in memory that can be made to fail.
struct Disk {
    files: Vec<(String, Vec<u8>)>,
    replace_fails: bool,
    write_fails: bool,
    taken: usize,
    spoil_backup: bool,
    done: usize,
}

impl Disk {
    fn with(content: &[u8]) -> Disk {
        Disk {
            files: vec![(PATH.to_owned(), content.to_vec())],
            replace_fails: false,
            write_fails: false,
            taken: 0,
            spoil_backup: false,
            done: 0,
        }
    }

    fn get(&self, path: &str) -> Option<Vec<u8>> {
        self.files.iter().find(|(name, _)| name == path).map(|(_, bytes)| bytes.clone())
    }

    fn remove(&mut self, path: &str) {
        self.files.retain(|(name, _)| name != path);
    }

    fn temporary_files(&self) -> usize {
        self.files.iter().filter(|(name, _)| name.contains(".agentmux-") && name.ends_with(".tmp")).count()
    }

    fn perform(&mut self, action: RepairAction, validate: &mut dyn FnMut() -> RepairEvent) -> RepairEvent {
        self.done += 1;
        match action {
            RepairAction::Read { path } => match self.get(&path) {
                Some(bytes) => RepairEvent::Contents(bytes),
                None => RepairEvent::ReadFailed("no such file".to_owned()),
            },
            RepairAction::WriteSibling { purpose, attempt, bytes } => {
                if attempt < self.taken {
                    return RepairEvent::NameTaken;
                }
                if self.write_fails {
                    return RepairEvent::WriteFailed("disk full".to_owned());
                }
                let mut bytes = bytes;
                if self.spoil_backup && purpose == Purpose::Backup {
                    bytes.push(b'#');
                }
                let path = sibling_path(PATH, purpose, 7, 42, attempt, false);
                self.files.push((path.clone(), bytes));
                RepairEvent::Written(path)
            }
            RepairAction::Replace { from, to } => {
                if self.replace_fails {
                    return RepairEvent::ReplaceFailed("denied".to_owned());
                }
                let bytes = self.get(&from).expect("the file was written");
                self.remove(&from);
                self.remove(&to);
                self.files.push((to, bytes));
                RepairEvent::Replaced
            }
            RepairAction::Discard { path } => {
                self.remove(&path);
                RepairEvent::Discarded
            }
            RepairAction::Validate { codex_home } => {
                assert_eq!(codex_home, "/codex");
                validate()
            }
        }
    }
}

fn repair_alias_with_validator(
    disk: &mut Disk,
    alias: &str,
    confirmed: bool,
    mut validate: impl FnMut() -> RepairEvent,
) -> Result<RepairReport, ProviderError> {
    let mut repair = Repair::start(PATH, "/codex", alias, confirmed)?;
    loop {
        let action = repair.action();
        let event = disk.perform(action, &mut validate);
        match repair.advance(event) {
            RepairStep::Next(next) => repair = next,
            RepairStep::Done(result) => return result,
        }
    }
}

fn accept() -> RepairEvent {
    RepairEvent::Accepted { checked: true }
}

#[test]
fn diagnoses_provider_presence() {
    let read = ConfigRead::Bytes(valid_config().into_bytes());
    assert!(provider_exists(PATH, &read, "current").expect("诊断应成功"));
    assert!(!provider_exists(PATH, &read, "legacy").expect("诊断应成功"));
}

#[test]
fn repairs_alias_preserving_format_and_utf8() {
    let original = valid_config();
    let mut disk = Disk::with(original.as_bytes());

    let report = repair_alias_with_validator(&mut disk, "legacy", true, accept).expect("修复应成功");

    assert!(report.changed);
    assert_eq!(report.alias, "legacy");
    let backup_path = report.backup_path.expect("成功修复应生成备份");
    assert_eq!(disk.get(&backup_path).expect("应能读取备份"), original.as_bytes());
    let bytes = disk.get(PATH).expect("应能读取修复配置");
    assert!(!bytes.starts_with(&[0xef, 0xbb, 0xbf]));
    let text = std::str::from_utf8(&bytes).expect("修复配置应为 UTF-8");
    assert!(text.contains("# 顶部注释"));
    assert!(text.contains("# 当前 provider"));
    assert!(text.contains("# 保留尾随注释"));
    assert!(text.contains("[model_providers.legacy]"));
    let (_, document) = parse_document(PATH, &bytes).expect("修复配置应为合法 TOML");
    let providers = document.field("model_providers").expect("the table");
    let legacy = providers.field("legacy").expect("the copy");
    assert_eq!(legacy.text_field("base_url"), Some("https://example.invalid/v1"));
    assert_eq!(disk.temporary_files(), 0);
}

#[test]
fn rolls_back_when_validator_fails() {
    let original = valid_config();
    let mut disk = Disk::with(original.as_bytes());

    let error = repair_alias_with_validator(&mut disk, "legacy", true, || {
        RepairEvent::Rejected("模拟 Codex 校验失败".to_owned())
    })
    .expect_err("校验失败应触发回滚");
    let error_text = error.message();

    let backup_path = match error {
        ProviderError::Repair { backup_path: Some(path), .. } => path,
        other => panic!("应返回带备份路径的修复错误: {}", other.message()),
    };
    assert!(error_text.contains(&backup_path));
    assert_eq!(disk.get(PATH).expect("应能读取回滚配置"), original.as_bytes());
    assert_eq!(disk.get(&backup_path).expect("回滚后备份应继续存在"), original.as_bytes());
    assert_eq!(disk.temporary_files(), 0);
    assert_eq!(
        error_text,
        format!("配置修复失败: 模拟 Codex 校验失败，已自动恢复原配置；配置备份: {backup_path}")
    );
}

#[test]
fn runs_codex_strict_config_validation() {
    let original = valid_config();
    let mut disk = Disk::with(original.as_bytes());
    let command = CodexProvider::with_home("/codex", false).with_cli_program("fake-codex").validation_command();
    assert_eq!(command.display(), "fake-codex --strict-config features list");

    let report = repair_alias_with_validator(&mut disk, "legacy", true, || check_outcome(CheckRun::Exited(Some(0))))
        .expect("严格配置校验应通过");

    assert!(report.changed);
    assert!(report.message.contains("Codex 严格配置校验通过"));
}

#[test]
fn refuses_unconfirmed_repair() {
    let original = valid_config();
    let mut disk = Disk::with(original.as_bytes());

    let result = repair_alias_with_validator(&mut disk, "legacy", false, accept);

    assert!(matches!(result, Err(ProviderError::Config { .. })));
    assert_eq!(disk.get(PATH).expect("应能读取原配置"), original.as_bytes());
    assert_eq!(disk.files.len(), 1);
    assert_eq!(disk.done, 0);
}

#[test]
fn keeps_existing_alias_unchanged() {
    let config = format!(
        "{}\n[model_providers.legacy]\nname = \"Legacy\"\nbase_url = \"https://legacy.invalid\"\nwire_api = \"responses\"\n",
        valid_config()
    );
    let mut disk = Disk::with(config.as_bytes());

    let report = repair_alias_with_validator(&mut disk, "legacy", true, || panic!("别名已存在时不应调用校验器"))
        .expect("已存在别名应返回成功结果");

    assert!(!report.changed);
    assert!(report.backup_path.is_none());
    assert_eq!(disk.get(PATH).expect("应能读取原配置"), config.as_bytes());
    assert_eq!(disk.files.len(), 1);
}

#[test]
fn refuses_to_copy_sensitive_fields() {
    let config = [
        "model_provider = \"current\"\n",
        "[model_providers.current]\n",
        "name = \"Current\"\n",
        "authorization = \"Bearer must-not-copy\"\n",
    ]
    .concat();
    let mut disk = Disk::with(config.as_bytes());

    let result = repair_alias_with_validator(&mut disk, "legacy", true, accept);

    assert!(matches!(result, Err(ProviderError::Config { .. })));
    assert_eq!(disk.files.len(), 1);
}

#[test]
fn rejects_invalid_utf8_config() {
    let read = ConfigRead::Bytes(vec![0xff, 0xfe]);
    assert!(matches!(
        provider_exists(PATH, &read, "legacy"),
        Err(ProviderError::Config { .. })
    ));
}

#[test]
fn a_configuration_that_cannot_be_read_is_told_apart_from_none() {
    assert!(!provider_exists(PATH, &ConfigRead::Missing, "x").expect("there is none"));
    let read = ConfigRead::Unreadable { reason: "denied".to_owned() };
    let error = provider_exists(PATH, &read, "x").expect_err("unreadable");
    assert_eq!(error.message(), "无法访问 /codex/config.toml: denied");
    let read = ConfigRead::Bytes(b"a = ".to_vec());
    let error = provider_exists(PATH, &read, "x").expect_err("no TOML");
    assert_eq!(error.message(), "配置错误: /codex/config.toml 不是合法 TOML");
}

#[test]
fn a_byte_order_mark_is_ignored_and_not_written_back() {
    let mut bytes = vec![0xef, 0xbb, 0xbf];
    bytes.extend_from_slice(valid_config().as_bytes());
    match plan_repair(PATH, &bytes, "legacy").expect("it can be repaired") {
        RepairPlan::Rewrite { text } => {
            assert!(text.starts_with("# 顶部注释\n"));
            assert!(text.contains("[model_providers.legacy]"));
        }
        RepairPlan::Keep => panic!("the alias is new"),
    }
    let summary = inspect_config(PATH, &bytes).expect("it is TOML");
    assert_eq!(summary.default_provider.as_deref(), Some("current"));
    assert_eq!(summary.provider_count, 1);
}

#[test]
fn repairs_need_a_default_provider_that_is_defined() {
    let plan = |text: &str| plan_repair(PATH, &text.as_bytes().to_vec(), "legacy");
    assert!(plan("a = 1\n").is_err());
    assert!(plan("model_provider = \"x\"\n").is_err());
    assert!(plan("model_provider = \"x\"\n[model_providers]\n").is_err());
    let message = |text: &str| plan(text).expect_err("it cannot be repaired").message();
    assert_eq!(message("a = 1\n"), "配置错误: config.toml 未定义当前默认 model_provider");
    assert_eq!(
        message("model_provider = \"x\"\n"),
        "配置错误: 默认 provider x 没有对应配置表"
    );
    assert_eq!(
        message("model_provider = \"x\"\nmodel_providers = { x = { name = \"n\" } }\n"),
        "配置错误: model_providers 不是可编辑 TOML 表"
    );
    assert!(plan("model_provider = \"x\"\n[model_providers]\nx = { name = \"n\" }\n").is_ok());
    let nested = "model_provider = \"x\"\n[model_providers.x]\n[model_providers.x.http_headers]\nBearer-Token = \"b\"\n";
    assert!(plan(nested).is_err());
    match plan("model_provider = \"x\"\n[model_providers.legacy]\n").expect("nothing to do") {
        RepairPlan::Keep => {}
        RepairPlan::Rewrite { .. } => panic!("the alias is there"),
    }
}

/// The named values of a node, whatever their order.
fn sorted(node: &Node) -> String {
    match node {
        Node::Table(entries) | Node::Inline(entries) => {
            let mut fields: Vec<String> =
                entries.iter().map(|(name, value)| format!("{name}={}", sorted(value))).collect();
            fields.sort();
            format!("{{{}}}", fields.join(","))
        }
        Node::List(items) => format!("[{}]", items.iter().map(sorted).collect::<Vec<_>>().join(",")),
        Node::Text(text) => format!("{text:?}"),
        Node::Scalar(text) => text.clone(),
    }
}

#[test]
fn an_alias_is_a_whole_copy_and_all_else_stays() {
    let configurations = [
        "model_provider = \"current\"\nflag = true\nsize = 1_000\n[model_providers.current]\nname = \"x\"\nretries = 3\n\
         strict = false\nheaders = { a = 1, \"b.c\" = [1, 2.5] }\n[model_providers.current.query]\nversion = 2026-07-10\n\
         [[model_providers.current.hosts]]\nport = 1\n[model_providers.current.hosts.tls]\non = true\n\
         [[model_providers.current.hosts]]\nport = 2\n[model_providers.other]\nname = \"y\"\n[[tools]]\nid = 1\n[tools.sub]\nk = 2\n",
        "model_provider = \"current\"\nmodel_providers.current.name = \"x\"\nmodel_providers.current.deep.er = 7\n[tail]\nz = 1\n",
        "model_provider = \"current\"\n[model_providers.current.sub]\ny = 1\n[model_providers]\ncurrent.deep.name = \"x\"\nz = 2\n",
        "model_provider = \"current\"\r\n[model_providers]\r\ncurrent = { name = \"x\", on = true } # note\r\n",
    ];
    for text in configurations {
        let mut disk = Disk::with(text.as_bytes());
        let (_, before) = parse_document(PATH, &text.as_bytes().to_vec()).expect("TOML");
        let report = repair_alias_with_validator(&mut disk, "legacy.1", true, accept).expect("it is repaired");
        assert!(report.changed);
        let (_, after) = parse_document(PATH, &disk.get(PATH).expect("it is there")).expect("TOML");
        let old = before.field("model_providers").expect("the table");
        let new = after.field("model_providers").expect("the table");
        let current = sorted(old.field("current").expect("the provider"));
        assert_eq!(sorted(new.field("legacy.1").expect("the alias")), current);
        for (name, value) in old.entries().expect("named values") {
            assert_eq!(sorted(new.field(name).expect("it stays")), sorted(value));
        }
        assert_eq!(new.entries().expect("named values").len(), old.entries().expect("named values").len() + 1);
        assert_eq!(before.entries().expect("named values").len(), after.entries().expect("named values").len());
        for (name, value) in before.entries().expect("named values") {
            if name != "model_providers" {
                assert_eq!(sorted(after.field(name).expect("it stays")), sorted(value));
            }
        }
    }
    let first = parse_toml(configurations[0]).expect("TOML");
    assert_eq!(sorted(first.field("size").expect("it is there")), "1_000");
    assert_eq!(sorted(first.field("flag").expect("it is there")), "true");
}

#[test]
fn siblings_lie_beside_the_configuration() {
    let name = |path: &str, windows| sibling_path(path, Purpose::Backup, 7, 42, 1, windows);
    assert_eq!(name("/a/config.toml", false), "/a/config.toml.agentmux-backup-7-42-1.bak");
    assert_eq!(name("/a//config.toml", false), "/a/config.toml.agentmux-backup-7-42-1.bak");
    assert_eq!(name("config.toml", false), "config.toml.agentmux-backup-7-42-1.bak");
    assert_eq!(name("/", false), "./config.toml.agentmux-backup-7-42-1.bak");
    assert_eq!(name(r"C:\a\config.toml", true), r"C:\a\config.toml.agentmux-backup-7-42-1.bak");
}

#[test]
fn names_are_plain() {
    assert!(valid_provider_name("a-B_9"));
    assert!(!valid_provider_name(""));
    assert!(!valid_provider_name("a b"));
    assert!(!valid_provider_name("名"));
    let error = Repair::start(PATH, "/codex", "a b", true).expect_err("no plain name");
    assert_eq!(error.message(), "配置错误: 历史 provider 名称包含不支持的字符");
}

#[test]
fn secrets_are_found_at_any_depth() {
    assert!(sensitive_key("Authorization"));
    assert!(sensitive_key("client_secret"));
    assert!(!sensitive_key("base_url"));
    let secret = Node::Table(vec![("api_key".to_owned(), Node::Text("x".to_owned()))]);
    assert!(contains_sensitive_fields(&Node::List(vec![Node::Scalar("1".to_owned()), secret])));
    let plain = Node::Inline(vec![("name".to_owned(), Node::Text("api_key".to_owned()))]);
    assert!(!contains_sensitive_fields(&plain));
}

#[test]
fn failures_on_disk_leave_the_configuration_alone() {
    let original = valid_config();
    let mut disk = Disk::with(original.as_bytes());
    disk.replace_fails = true;
    let error = repair_alias_with_validator(&mut disk, "legacy", true, accept).expect_err("no replacement");
    assert!(error.message().contains("无法原子替换配置: denied"));
    assert_eq!(disk.get(PATH).expect("it is still there"), original.as_bytes());
    assert_eq!(disk.temporary_files(), 0);

    let mut disk = Disk::with(original.as_bytes());
    disk.write_fails = true;
    let error = repair_alias_with_validator(&mut disk, "legacy", true, accept).expect_err("no backup");
    assert_eq!(
        error.message(),
        "配置修复失败: 无法创建配置备份: disk full；配置备份未创建"
    );
    assert_eq!(disk.files.len(), 1);

    let mut disk = Disk::with(original.as_bytes());
    disk.files.clear();
    let error = repair_alias_with_validator(&mut disk, "legacy", true, accept).expect_err("no configuration");
    assert_eq!(error.message(), "无法访问 /codex/config.toml: no such file");
}

#[test]
fn taken_names_are_skipped_and_run_out() {
    let original = valid_config();
    let mut disk = Disk::with(original.as_bytes());
    disk.taken = 3;
    let report = repair_alias_with_validator(&mut disk, "legacy", true, accept).expect("a name is free");
    assert_eq!(
        report.backup_path.as_deref(),
        Some("/codex/config.toml.agentmux-backup-7-42-3.bak")
    );
    let mut disk = Disk::with(original.as_bytes());
    disk.taken = usize::MAX;
    let error = repair_alias_with_validator(&mut disk, "legacy", true, accept).expect_err("no name is free");
    assert!(error.message().contains("无法创建唯一同目录临时文件"));
}

#[test]
fn a_spoiled_backup_is_not_put_back() {
    let original = valid_config();
    let mut disk = Disk::with(original.as_bytes());
    disk.spoil_backup = true;
    let error = repair_alias_with_validator(&mut disk, "legacy", true, || RepairEvent::Rejected("no".to_owned()))
        .expect_err("rejected");
    assert!(error.message().contains("no，自动回滚失败: 备份内容与原配置不一致；请使用备份 "));
    assert_eq!(disk.temporary_files(), 0);
}

#[test]
fn the_check_of_the_agent_decides() {
    assert!(matches!(check_outcome(CheckRun::NotFound), RepairEvent::Accepted { checked: false }));
    match check_outcome(CheckRun::Exited(Some(11))) {
        RepairEvent::Rejected(reason) => assert_eq!(reason, "Codex 严格配置校验返回非零退出码 11"),
        _ => panic!("it failed"),
    }
    match check_outcome(CheckRun::Exited(None)) {
        RepairEvent::Rejected(reason) => assert_eq!(reason, "Codex 严格配置校验返回非零退出码 -1"),
        _ => panic!("it failed"),
    }
    match check_outcome(CheckRun::NotStarted) {
        RepairEvent::Rejected(reason) => assert_eq!(reason, "无法启动 Codex 严格配置校验"),
        _ => panic!("it failed"),
    }
    let mut disk = Disk::with(valid_config().as_bytes());
    let report = repair_alias_with_validator(&mut disk, "legacy", true, || check_outcome(CheckRun::NotFound))
        .expect("it is repaired");
    assert!(report.message.contains("Codex CLI 不可用，已完成 TOML 重解析校验"));
}

#[test]
fn sessions_without_a_provider_get_no_alias() {
    let zero = Timestamp::new(0, 0).expect("on the calendar");
    let mut session = Session {
        id: "x".to_owned(),
        source: SourceId::new("codex"),
        title: None,
        summary: None,
        cwd: None,
        project: String::new(),
        created_at: zero,
        updated_at: zero,
        model: None,
        model_provider: None,
        interaction: agentmux::domain::InteractionType::Unknown,
        raw_path: String::new(),
        warnings: Vec::new(),
        resume: ResumeStatus::ready(),
    };
    let provider = CodexProvider::with_home("/codex", false);
    let error = provider
        .repair_model_provider(&session, RepairOptions { confirmed: true })
        .expect_err("no provider");
    assert_eq!(error.message(), "配置错误: 会话历史未记录 model_provider，无法创建兼容别名");
    session.model_provider = Some("legacy".to_owned());
    let error = provider
        .repair_model_provider(&session, RepairOptions { confirmed: false })
        .expect_err("not confirmed");
    assert_eq!(error.message(), "配置错误: provider 修复尚未确认");
    let repair = provider
        .repair_model_provider(&session, RepairOptions { confirmed: true })
        .expect("confirmed");
    match repair.action() {
        RepairAction::Read { path } => assert_eq!(path, PATH),
        _ => panic!("the configuration is read first"),
    }
}
