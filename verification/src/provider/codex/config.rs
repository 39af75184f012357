//! The provider configuration: what it defines, and how an alias is added to it.

use vstd::prelude::*;

use crate::model::opt_view;
use crate::provider::{ErrorView, ProviderError};
use crate::text::{
    ascii_lower, blank, cat, chars_of, ends_with, has_suffix, same_text, text_between, text_in_bytes, text_of,
    to_ascii_lower, utf8_text,
};
use crate::toml::{parse_toml, toml_tree};
use crate::tree::{entries_of, entry_views, field_of, text_field_of, Node, NodeView};

use super::metadata::unless_blank;

verus! {

/// What came of looking for the configuration file and reading it.
#[derive(Debug)]
pub enum ConfigRead {
    /// There is no such file.
    Missing,
    /// It could not be read.
    Unreadable {
        /// The error of the system.
        reason: String,
    },
    /// What it holds.
    Bytes(Vec<u8>),
}

/// The model of a `ConfigRead`.
pub enum ConfigReadView {
    Missing,
    Unreadable { reason: Seq<char> },
    Bytes(Seq<u8>),
}

impl View for ConfigRead {
    type V = ConfigReadView;

    open spec fn view(&self) -> ConfigReadView {
        match self {
            ConfigRead::Missing => ConfigReadView::Missing,
            ConfigRead::Unreadable { reason } => ConfigReadView::Unreadable { reason: reason@ },
            ConfigRead::Bytes(bytes) => ConfigReadView::Bytes(bytes@),
        }
    }
}

/// `text` without the byte order mark that it starts with, if it does.
pub open spec fn without_mark(text: Seq<char>) -> Seq<char> {
    if text.len() > 0 && text[0] == '\u{feff}' {
        text.skip(1)
    } else {
        text
    }
}

/// The text of a configuration of the bytes `bytes`, where they are UTF-8.
pub open spec fn config_text(bytes: Seq<u8>) -> Option<Seq<char>> {
    match utf8_text(bytes) {
        Some(text) => Some(without_mark(text)),
        None => None,
    }
}

/// What a configuration file `path` of the bytes `bytes` holds, or why it holds nothing.
pub open spec fn config_tree(path: Seq<char>, bytes: Seq<u8>) -> Result<NodeView, ErrorView> {
    match config_text(bytes) {
        Some(text) => match toml_tree(text) {
            Some(tree) => Ok(tree),
            None => Err(ErrorView::Config { message: path + " 不是合法 TOML"@ }),
        },
        None => Err(ErrorView::Config { message: path + " 不是合法 UTF-8"@ }),
    }
}

fn drop_mark(text: &str) -> (r: String)
    ensures
        r@ == without_mark(text@),
{
    let v = chars_of(text);
    if v.len() > 0 && v[0] == '\u{feff}' {
        let end: usize = v.len();
        proof {
            assert(v@.subrange(1, v@.len() as int) == text@.skip(1));
        }
        text_between(&v, 1, end)
    } else {
        text.to_owned()
    }
}

/// Reads a configuration file as UTF-8 TOML; a byte order mark at its start is ignored. Hands out
/// the text without it and what it holds.
pub fn parse_document(config_path: &str, bytes: &Vec<u8>) -> (r: Result<(String, Node), ProviderError>)
    ensures
        match r {
            Ok(document) => {
                &&& config_text(bytes@) == Some(document.0@)
                &&& config_tree(config_path@, bytes@) == Ok::<NodeView, ErrorView>(document.1@)
                &&& toml_tree(document.0@) == Some(document.1@)
            },
            Err(e) => config_tree(config_path@, bytes@) == Err::<NodeView, ErrorView>(e@),
        },
{
    match text_in_bytes(bytes.as_slice()) {
        Some(given) => {
            let text = drop_mark(given);
            match parse_toml(text.as_str()) {
                Some(tree) => Ok((text, tree)),
                None => Err(
                    ProviderError::Config { message: cat(config_path, " 不是合法 TOML") },
                ),
            }
        },
        None => Err(ProviderError::Config { message: cat(config_path, " 不是合法 UTF-8") }),
    }
}

/// The table of model providers of a configuration.
pub const PROVIDERS_TABLE: &'static str = "model_providers";

/// The entry of a configuration that names the default model provider.
pub const DEFAULT_PROVIDER_ENTRY: &'static str = "model_provider";

/// Whether the configuration `tree` defines the model provider `provider`.
pub open spec fn defines(tree: NodeView, provider: Seq<char>) -> bool {
    field_of(tree, PROVIDERS_TABLE@) matches Some(providers) && field_of(providers, provider) is Some
}

/// The default model provider of the configuration `tree`, unless it is blank.
pub open spec fn default_provider(tree: NodeView) -> Option<Seq<char>> {
    unless_blank(text_field_of(tree, DEFAULT_PROVIDER_ENTRY@))
}

/// How many model providers the configuration `tree` defines.
pub open spec fn provider_total(tree: NodeView) -> nat {
    match field_of(tree, PROVIDERS_TABLE@) {
        Some(providers) => match entries_of(providers) {
            Some(entries) => entries.len(),
            None => 0,
        },
        None => 0,
    }
}

/// Whether the configuration that `read` came of defines `provider`, or why that is not known.
pub open spec fn exists_in(path: Seq<char>, read: ConfigReadView, provider: Seq<char>) -> Result<bool, ErrorView> {
    match read {
        ConfigReadView::Missing => Ok(false),
        ConfigReadView::Unreadable { reason } => Err(ErrorView::Io { path, source: reason }),
        ConfigReadView::Bytes(bytes) => match config_tree(path, bytes) {
            Ok(tree) => Ok(defines(tree, provider)),
            Err(e) => Err(e),
        },
    }
}

/// Whether a configuration defines a model provider.
pub fn has_provider(tree: &Node, provider: &str) -> (r: bool)
    ensures
        r == defines(tree@, provider@),
{
    match tree.field(PROVIDERS_TABLE) {
        Some(providers) => providers.field(provider).is_some(),
        None => false,
    }
}

/// Whether the configuration file defines a model provider; a missing file defines none.
pub fn provider_exists(config_path: &str, read: &ConfigRead, provider: &str) -> (r: Result<
    bool,
    ProviderError,
>)
    ensures
        match r {
            Ok(found) => exists_in(config_path@, read@, provider@) == Ok::<bool, ErrorView>(found),
            Err(e) => exists_in(config_path@, read@, provider@) == Err::<bool, ErrorView>(e@),
        },
{
    match read {
        ConfigRead::Missing => Ok(false),
        ConfigRead::Unreadable { reason } => Err(
            ProviderError::Io { path: config_path.to_owned(), source: reason.clone() },
        ),
        ConfigRead::Bytes(bytes) => match parse_document(config_path, bytes) {
            Ok(document) => Ok(has_provider(&document.1, provider)),
            Err(e) => Err(e),
        },
    }
}

/// What a configuration says about model providers.
#[derive(Debug)]
pub struct ConfigSummary {
    /// The default one, if any.
    pub default_provider: Option<String>,
    /// How many are defined.
    pub provider_count: usize,
}

/// The default model provider of a configuration, unless it is blank.
pub fn read_default(tree: &Node) -> (r: Option<String>)
    ensures
        opt_view(r) == default_provider(tree@),
{
    match tree.text_field(DEFAULT_PROVIDER_ENTRY) {
        Some(name) => if blank(name) {
            None
        } else {
            Some(name.to_owned())
        },
        None => None,
    }
}

/// Sums up what a configuration says about model providers.
pub fn summarize(tree: &Node) -> (r: ConfigSummary)
    ensures
        opt_view(r.default_provider) == default_provider(tree@),
        r.provider_count == provider_total(tree@),
{
    let default_provider = read_default(tree);
    let provider_count = match tree.field(PROVIDERS_TABLE) {
        Some(providers) => match providers.entries() {
            Some(entries) => entries.len(),
            None => 0,
        },
        None => 0,
    };
    ConfigSummary { default_provider, provider_count }
}

/// Sums up what a configuration file says about model providers.
pub fn inspect_config(config_path: &str, bytes: &Vec<u8>) -> (r: Result<ConfigSummary, ProviderError>)
    ensures
        match r {
            Ok(summary) => config_tree(config_path@, bytes@) matches Ok(tree) && opt_view(
                summary.default_provider,
            ) == default_provider(tree) && summary.provider_count == provider_total(tree),
            Err(e) => config_tree(config_path@, bytes@) == Err::<NodeView, ErrorView>(e@),
        },
{
    match parse_document(config_path, bytes) {
        Ok(document) => Ok(summarize(&document.1)),
        Err(e) => Err(e),
    }
}

/// Whether `c` may stand in the name of a model provider.
pub open spec fn is_name_char(c: char) -> bool {
    'a' <= c <= 'z' || 'A' <= c <= 'Z' || '0' <= c <= '9' || c == '-' || c == '_' || c == '.'
}

/// Whether `name` is fit to name a model provider: short, and made of letters, digits, hyphens,
/// underscores and dots.
pub open spec fn is_valid_name(name: Seq<char>) -> bool {
    1 <= name.len() <= 128 && forall|i: int| 0 <= i < name.len() ==> is_name_char(#[trigger] name[i])
}

/// Whether a text is fit to name a model provider.
pub fn valid_provider_name(value: &str) -> (r: bool)
    ensures
        r == is_valid_name(value@),
{
    let v = chars_of(value);
    if v.len() == 0 || v.len() > 128 {
        return false;
    }
    let mut i: usize = 0;
    while i < v.len()
        invariant
            i <= v@.len(),
            v@ == value@,
            forall|k: int| 0 <= k < i ==> is_name_char(#[trigger] v@[k]),
        decreases v@.len() - i,
    {
        let c = v[i];
        let fits = ('a' <= c && c <= 'z') || ('A' <= c && c <= 'Z') || ('0' <= c && c <= '9') || c
            == '-' || c == '_' || c == '.';
        if !fits {
            return false;
        }
        i = i + 1;
    }
    true
}

/// `key` in lower case, with underscores for hyphens.
pub open spec fn normalized(key: Seq<char>) -> Seq<char> {
    Seq::new(
        key.len(),
        |i: int|
            if key[i] == '-' {
                '_'
            } else {
                ascii_lower(key[i])
            },
    )
}

/// Whether an entry named `key` is taken to hold a secret.
pub open spec fn is_sensitive(key: Seq<char>) -> bool {
    let name = normalized(key);
    ||| name == "authorization"@
    ||| name == "password"@
    ||| name == "secret"@
    ||| name == "token"@
    ||| name == "api_key"@
    ||| name == "access_key"@
    ||| name == "private_key"@
    ||| name == "credential"@
    ||| name == "credentials"@
    ||| ends_with(name, "_token"@)
    ||| ends_with(name, "_password"@)
    ||| ends_with(name, "_secret"@)
}

/// Whether an entry with this name is taken to hold a secret.
pub fn sensitive_key(key: &str) -> (r: bool)
    ensures
        r == is_sensitive(key@),
{
    let v = chars_of(key);
    let mut name: Vec<char> = Vec::new();
    let mut i: usize = 0;
    while i < v.len()
        invariant
            i <= v@.len(),
            v@ == key@,
            name@ == normalized(key@.take(i as int)),
        decreases v@.len() - i,
    {
        let c = v[i];
        name.push(
            if c == '-' {
                '_'
            } else {
                to_ascii_lower(c)
            },
        );
        proof {
            assert(normalized(key@.take(i + 1)) =~= normalized(key@.take(i as int)).push(name@.last()));
        }
        i = i + 1;
    }
    proof {
        assert(key@.take(key@.len() as int) == key@);
    }
    let name = text_of(&name);
    let n = name.as_str();
    same_text(n, "authorization") || same_text(n, "password") || same_text(n, "secret") || same_text(
        n,
        "token",
    ) || same_text(n, "api_key") || same_text(n, "access_key") || same_text(n, "private_key")
        || same_text(n, "credential") || same_text(n, "credentials") || has_suffix(n, "_token")
        || has_suffix(n, "_password") || has_suffix(n, "_secret")
}

/// Whether `n` holds, at any depth, an entry that is taken to hold a secret.
pub open spec fn holds_secret(n: NodeView) -> bool
    decreases n,
{
    match n {
        NodeView::List(items) => any_secret(items),
        NodeView::Table(entries) => any_secret_entry(entries),
        NodeView::Inline(entries) => any_secret_entry(entries),
        _ => false,
    }
}

/// Whether one of `items` holds, at any depth, an entry that is taken to hold a secret.
pub open spec fn any_secret(items: Seq<NodeView>) -> bool
    decreases items,
{
    items.len() > 0 && (any_secret(items.drop_last()) || holds_secret(items.last()))
}

/// Whether one of `entries` is taken to hold a secret, or holds at any depth one that is.
pub open spec fn any_secret_entry(entries: Seq<(Seq<char>, NodeView)>) -> bool
    decreases entries,
{
    entries.len() > 0 && (any_secret_entry(entries.drop_last()) || is_sensitive(entries.last().0)
        || holds_secret(entries.last().1))
}

proof fn lemma_any_secret_of_more(items: Seq<NodeView>, n: int)
    requires
        0 <= n <= items.len(),
        any_secret(items.take(n)),
    ensures
        any_secret(items),
    decreases items.len() - n,
{
    if n == items.len() {
        assert(items.take(n) == items);
    } else {
        assert(items.take(n + 1).drop_last() == items.take(n));
        lemma_any_secret_of_more(items, n + 1);
    }
}

proof fn lemma_any_secret_entry_of_more(entries: Seq<(Seq<char>, NodeView)>, n: int)
    requires
        0 <= n <= entries.len(),
        any_secret_entry(entries.take(n)),
    ensures
        any_secret_entry(entries),
    decreases entries.len() - n,
{
    if n == entries.len() {
        assert(entries.take(n) == entries);
    } else {
        assert(entries.take(n + 1).drop_last() == entries.take(n));
        lemma_any_secret_entry_of_more(entries, n + 1);
    }
}

fn entries_sensitive(entries: &Vec<(String, Node)>) -> (r: bool)
    ensures
        r == any_secret_entry(entry_views(entries@)),
    decreases *entries,
{
    let ghost held = entry_views(entries@);
    let mut i: usize = 0;
    while i < entries.len()
        invariant
            i <= entries@.len(),
            held == entry_views(entries@),
            !any_secret_entry(held.take(i as int)),
        decreases entries@.len() - i,
    {
        proof {
            assert(decreases_to!(*entries => entries@[i as int].1));
            let next = held.take(i + 1);
            assert(next.drop_last() == held.take(i as int));
            assert(next.last() == (entries@[i as int].0@, entries@[i as int].1@));
        }
        if sensitive_key(entries[i].0.as_str()) || contains_sensitive_fields(&entries[i].1) {
            proof {
                lemma_any_secret_entry_of_more(held, i + 1);
            }
            return true;
        }
        i = i + 1;
    }
    proof {
        assert(held.take(held.len() as int) == held);
    }
    false
}

/// Whether a node holds, at any depth, an entry that is taken to hold a secret.
pub fn contains_sensitive_fields(item: &Node) -> (r: bool)
    ensures
        r == holds_secret(item@),
    decreases *item,
{
    match item {
        Node::List(items) => {
            let ghost held = item@->List_0;
            let mut i: usize = 0;
            while i < items.len()
                invariant
                    i <= items@.len(),
                    *item == Node::List(*items),
                    item@ == NodeView::List(held),
                    held.len() == items@.len(),
                    forall|k: int| 0 <= k < held.len() ==> #[trigger] held[k] == items@[k]@,
                    !any_secret(held.take(i as int)),
                decreases items@.len() - i,
            {
                proof {
                    assert(decreases_to!(*item => items@[i as int]));
                    let next = held.take(i + 1);
                    assert(next.drop_last() == held.take(i as int));
                    assert(next.last() == held[i as int]);
                }
                if contains_sensitive_fields(&items[i]) {
                    proof {
                        lemma_any_secret_of_more(held, i + 1);
                    }
                    return true;
                }
                i = i + 1;
            }
            proof {
                assert(held.take(held.len() as int) == held);
            }
            false
        },
        Node::Table(entries) => {
            proof {
                assert(item@->Table_0 =~= entry_views(entries@));
            }
            entries_sensitive(entries)
        },
        Node::Inline(entries) => {
            proof {
                assert(item@->Inline_0 =~= entry_views(entries@));
            }
            entries_sensitive(entries)
        },
        _ => false,
    }
}

} // verus!
