//! What a repair would change: an alias that copies the default model provider.

use vstd::prelude::*;

use crate::provider::{ErrorView, ProviderError};
use crate::text::cat3;
use crate::toml::{can_copy_entry, copy_entry, entry_copied, parse_toml, text_with_copy, toml_tree};
use crate::tree::{field_of, Node, NodeView};

use super::config::{
    config_text, config_tree, contains_sensitive_fields, default_provider, defines, exists_in, has_provider, holds_secret,
    parse_document, read_default, without_mark, ConfigReadView, PROVIDERS_TABLE,
};

verus! {

/// What is to be done to a configuration so that it defines an alias.
#[derive(Debug)]
pub enum AliasDecision {
    /// Nothing: it does.
    Keep,
    /// Copy this model provider.
    Copy {
        /// Its name.
        from: String,
    },
}

/// The model of an `AliasDecision`.
pub enum DecisionView {
    Keep,
    Copy { from: Seq<char> },
}

impl View for AliasDecision {
    type V = DecisionView;

    open spec fn view(&self) -> DecisionView {
        match self {
            AliasDecision::Keep => DecisionView::Keep,
            AliasDecision::Copy { from } => DecisionView::Copy { from: from@ },
        }
    }
}

/// What is to be done to the configuration `tree` so that it defines `alias`, or why nothing can.
pub open spec fn decided(tree: NodeView, alias: Seq<char>) -> Result<DecisionView, ErrorView> {
    if defines(tree, alias) {
        Ok(DecisionView::Keep)
    } else {
        match default_provider(tree) {
            None => Err(
                ErrorView::Config { message: "config.toml 未定义当前默认 model_provider"@ },
            ),
            Some(from) => {
                let providers = field_of(tree, PROVIDERS_TABLE@);
                let source = match providers {
                    Some(table) => field_of(table, from),
                    None => None,
                };
                match source {
                    None => Err(
                        ErrorView::Config {
                            message: "默认 provider "@ + from + " 没有对应配置表"@,
                        },
                    ),
                    Some(item) => if holds_secret(item) {
                        Err(
                            ErrorView::Config {
                                message: "默认 provider 表包含 credential、token 或 secret 字段，拒绝自动复制，请改用环境变量配置"@,
                            },
                        )
                    } else if providers->0 is Table {
                        Ok(DecisionView::Copy { from })
                    } else {
                        Err(
                            ErrorView::Config {
                                message: "model_providers 不是可编辑 TOML 表"@,
                            },
                        )
                    },
                }
            },
        }
    }
}

fn config_error<T>(message: &str) -> (r: Result<T, ProviderError>)
    ensures
        r matches Err(e) && e@ == (ErrorView::Config { message: message@ }),
{
    Err(ProviderError::Config { message: message.to_owned() })
}

/// Decides what is to be done to a configuration so that it defines an alias.
pub fn decide_alias(tree: &Node, alias: &str) -> (r: Result<AliasDecision, ProviderError>)
    ensures
        match r {
            Ok(decision) => decided(tree@, alias@) == Ok::<DecisionView, ErrorView>(decision@),
            Err(e) => decided(tree@, alias@) == Err::<DecisionView, ErrorView>(e@),
        },
{
    if has_provider(tree, alias) {
        return Ok(AliasDecision::Keep);
    }
    let from = match read_default(tree) {
        Some(name) => name,
        None => {
            return config_error("config.toml 未定义当前默认 model_provider");
        },
    };
    let providers = tree.field(PROVIDERS_TABLE);
    let source = match providers {
        Some(table) => table.field(from.as_str()),
        None => None,
    };
    let item = match source {
        Some(item) => item,
        None => {
            let message = cat3("默认 provider ", from.as_str(), " 没有对应配置表");
            return config_error(message.as_str());
        },
    };
    if contains_sensitive_fields(item) {
        return config_error(
            "默认 provider 表包含 credential、token 或 secret 字段，拒绝自动复制，请改用环境变量配置",
        );
    }
    match providers {
        Some(Node::Table(_)) => Ok(AliasDecision::Copy { from }),
        _ => config_error("model_providers 不是可编辑 TOML 表"),
    }
}

/// What a repair is to write.
#[derive(Debug)]
pub enum RepairPlan {
    /// Nothing.
    Keep,
    /// This text.
    Rewrite {
        /// The new configuration.
        text: String,
    },
}

/// The model of a `RepairPlan`.
pub enum PlanView {
    Keep,
    Rewrite { text: Seq<char> },
}

impl View for RepairPlan {
    type V = PlanView;

    open spec fn view(&self) -> PlanView {
        match self {
            RepairPlan::Keep => PlanView::Keep,
            RepairPlan::Rewrite { text } => PlanView::Rewrite { text: text@ },
        }
    }
}

/// What a repair is to write to the configuration `path` of the bytes `bytes` so that it defines
/// `alias`, or why nothing.
pub open spec fn planned(path: Seq<char>, bytes: Seq<u8>, alias: Seq<char>) -> Result<PlanView, ErrorView> {
    match config_tree(path, bytes) {
        Err(e) => Err(e),
        Ok(tree) => match decided(tree, alias) {
            Err(e) => Err(e),
            Ok(DecisionView::Keep) => Ok(PlanView::Keep),
            Ok(DecisionView::Copy { from }) => {
                let text = text_with_copy(config_text(bytes)->0, PROVIDERS_TABLE@, from, alias);
                if toml_tree(text) is Some {
                    Ok(PlanView::Rewrite { text })
                } else {
                    Err(ErrorView::Config { message: "修复后的 TOML 无法重新解析"@ })
                }
            },
        },
    }
}

/// Whether a configuration `path` that holds just `text` defines `alias`.
pub open spec fn text_defines(path: Seq<char>, text: Seq<char>, alias: Seq<char>) -> bool {
    exists_in(path, ConfigReadView::Bytes(vstd::utf8::encode_utf8(text)), alias) == Ok::<
        bool,
        ErrorView,
    >(true)
}

/// Whether `text` is the configuration `path` of the bytes `bytes` with `alias` as a whole copy of
/// the default model provider and nothing else changed: it defines the alias, it starts with no byte
/// order mark, and it holds the copy beside all that was there.
pub open spec fn alias_added(path: Seq<char>, bytes: Seq<u8>, text: Seq<char>, alias: Seq<char>) -> bool {
    &&& text_defines(path, text, alias)
    &&& text.len() > 0 ==> text[0] != '\u{feff}'
    &&& config_tree(path, bytes) matches Ok(before)
    &&& toml_tree(text) matches Some(after)
    &&& default_provider(before) matches Some(from)
    &&& entry_copied(before, after, PROVIDERS_TABLE@, from, alias)
}

/// Plans what a repair is to write. A new text holds the alias as a whole copy of the default model
/// provider, beside all that was there.
pub fn plan_repair(config_path: &str, bytes: &Vec<u8>, alias: &str) -> (r: Result<
    RepairPlan,
    ProviderError,
>)
    ensures
        match r {
            Ok(plan) => planned(config_path@, bytes@, alias@) == Ok::<PlanView, ErrorView>(plan@),
            Err(e) => planned(config_path@, bytes@, alias@) == Err::<PlanView, ErrorView>(e@),
        },
        r matches Ok(RepairPlan::Rewrite { text }) ==> alias_added(
            config_path@,
            bytes@,
            text@,
            alias@,
        ),
{
    let (text, tree) = match parse_document(config_path, bytes) {
        Ok(document) => document,
        Err(e) => {
            return Err(e);
        },
    };
    let from = match decide_alias(&tree, alias) {
        Ok(AliasDecision::Keep) => {
            return Ok(RepairPlan::Keep);
        },
        Ok(AliasDecision::Copy { from }) => from,
        Err(e) => {
            return Err(e);
        },
    };
    proof {
        assert(can_copy_entry(tree@, PROVIDERS_TABLE@, from@, alias@));
    }
    let rendered = copy_entry(text.as_str(), PROVIDERS_TABLE, from.as_str(), alias);
    match parse_toml(rendered.as_str()) {
        Some(after) => {
            proof {
                vstd::utf8::encode_utf8_valid_utf8(rendered@);
                vstd::utf8::encode_utf8_decode_utf8(rendered@);
                assert(without_mark(rendered@) == rendered@);
                assert(defines(after@, alias@));
            }
            Ok(RepairPlan::Rewrite { text: rendered })
        },
        None => config_error("修复后的 TOML 无法重新解析"),
    }
}

} // verus!
