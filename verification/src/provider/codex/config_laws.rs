//! What holds of the configuration: which names are taken for secrets, and when a model provider is
//! copied under another name.

use vstd::prelude::*;

use super::super::ErrorView;
use super::config::{
    any_secret, any_secret_entry, config_text, config_tree, default_provider, defines, exists_in, holds_secret,
    is_name_char, is_sensitive, is_valid_name, normalized, provider_total, ConfigReadView,
};
use super::plan::{decided, planned, DecisionView, PlanView};
use crate::plain::{
    field_is_the_first_of_its_name, holds_at, holds_nothing_at, holds_text_at, lowering_forgets_only_case,
    named_values, same_letter, shows, shows_what_it_holds,
};
use crate::text::{ascii_lower, is_blank, utf8_text};
use crate::toml::{text_with_copy, toml_tree};
use crate::tree::{field_of, NodeView};

verus! {

/// Whether `key` is written as `name`, in any case and with `-` where `name` has `_`.
pub open spec fn spelled(key: Seq<char>, name: Seq<char>) -> bool {
    key.len() == name.len() && forall|i: int|
        0 <= i < key.len() ==> if name[i] == '_' {
            #[trigger] key[i] == '_' || key[i] == '-'
        } else {
            same_letter(key[i], name[i])
        }
}

/// Whether the end of `key` is written as `name`, in any case and with `-` where `name` has `_`.
pub open spec fn spelled_at_the_end(key: Seq<char>, name: Seq<char>) -> bool {
    key.len() >= name.len() && spelled(key.skip(key.len() - name.len()), name)
}

/// Whether `key` is a name under which a secret is expected.
pub open spec fn names_a_secret(key: Seq<char>) -> bool {
    ||| spelled(key, "authorization"@)
    ||| spelled(key, "password"@)
    ||| spelled(key, "secret"@)
    ||| spelled(key, "token"@)
    ||| spelled(key, "api_key"@)
    ||| spelled(key, "access_key"@)
    ||| spelled(key, "private_key"@)
    ||| spelled(key, "credential"@)
    ||| spelled(key, "credentials"@)
    ||| spelled_at_the_end(key, "_token"@)
    ||| spelled_at_the_end(key, "_password"@)
    ||| spelled_at_the_end(key, "_secret"@)
}

spec fn is_lower_name(name: Seq<char>) -> bool {
    forall|i: int| 0 <= i < name.len() ==> 'a' <= #[trigger] name[i] <= 'z' || name[i] == '_'
}

proof fn lemma_spelled(key: Seq<char>, name: Seq<char>)
    requires
        is_lower_name(name),
    ensures
        normalized(key) == name <==> spelled(key, name),
{
    assert(normalized(key).len() == key.len());
    assert forall|i: int| 0 <= i < key.len() && i < name.len() implies (normalized(key)[i] == name[i]
        <==> if name[i] == '_' {
        #[trigger] key[i] == '_' || key[i] == '-'
    } else {
        same_letter(key[i], name[i])
    }) by {
        lowering_forgets_only_case(key[i], name[i]);
        assert(ascii_lower(name[i]) == name[i]);
    }
    if normalized(key) == name {
        assert forall|i: int| 0 <= i < key.len() implies if name[i] == '_' {
            #[trigger] key[i] == '_' || key[i] == '-'
        } else {
            same_letter(key[i], name[i])
        } by {
            assert(normalized(key)[i] == name[i]);
        }
    }
    if spelled(key, name) {
        assert forall|i: int| 0 <= i < key.len() implies normalized(key)[i] == name[i] by {
            assert(key[i] == key[i]);
        }
        assert(normalized(key) =~= name);
    }
}

proof fn lemma_spelled_at_the_end(key: Seq<char>, name: Seq<char>)
    requires
        is_lower_name(name),
    ensures
        crate::text::ends_with(normalized(key), name) <==> spelled_at_the_end(key, name),
{
    if key.len() >= name.len() {
        let n = key.len() - name.len();
        assert(normalized(key).skip(n) =~= normalized(key.skip(n)));
        lemma_spelled(key.skip(n), name);
    }
}

proof fn lemma_reveal_names()
    ensures
        is_lower_name("authorization"@),
        is_lower_name("password"@),
        is_lower_name("secret"@),
        is_lower_name("token"@),
        is_lower_name("api_key"@),
        is_lower_name("access_key"@),
        is_lower_name("private_key"@),
        is_lower_name("credential"@),
        is_lower_name("credentials"@),
        is_lower_name("_token"@),
        is_lower_name("_password"@),
        is_lower_name("_secret"@),
{
    reveal_strlit("authorization");
    reveal_strlit("password");
    reveal_strlit("secret");
    reveal_strlit("token");
    reveal_strlit("api_key");
    reveal_strlit("access_key");
    reveal_strlit("private_key");
    reveal_strlit("credential");
    reveal_strlit("credentials");
    reveal_strlit("_token");
    reveal_strlit("_password");
    reveal_strlit("_secret");
}

/// The names taken for secrets are these and no others, in any case and with `-` for `_`:
/// `authorization`, `password`, `secret`, `token`, `api_key`, `access_key`, `private_key`,
/// `credential`, `credentials`, and what ends in `_token`, `_password` or `_secret`.
pub proof fn secret_names_are_these(key: Seq<char>)
    ensures
        is_sensitive(key) <==> names_a_secret(key),
{
    lemma_reveal_names();
    lemma_spelled(key, "authorization"@);
    lemma_spelled(key, "password"@);
    lemma_spelled(key, "secret"@);
    lemma_spelled(key, "token"@);
    lemma_spelled(key, "api_key"@);
    lemma_spelled(key, "access_key"@);
    lemma_spelled(key, "private_key"@);
    lemma_spelled(key, "credential"@);
    lemma_spelled(key, "credentials"@);
    lemma_spelled_at_the_end(key, "_token"@);
    lemma_spelled_at_the_end(key, "_password"@);
    lemma_spelled_at_the_end(key, "_secret"@);
}

/// The settings that every model provider has, in any case, are not taken for secrets.
pub proof fn ordinary_settings_are_no_secrets(key: Seq<char>)
    requires
        spelled(key, "env_key"@) || spelled(key, "base_url"@) || spelled(key, "name"@) || spelled(
            key,
            "wire_api"@,
        ),
    ensures
        !is_sensitive(key),
{
    secret_names_are_these(key);
    reveal_strlit("env_key");
    reveal_strlit("base_url");
    reveal_strlit("name");
    reveal_strlit("wire_api");
    reveal_strlit("authorization");
    reveal_strlit("password");
    reveal_strlit("secret");
    reveal_strlit("token");
    reveal_strlit("api_key");
    reveal_strlit("access_key");
    reveal_strlit("private_key");
    reveal_strlit("credential");
    reveal_strlit("credentials");
    reveal_strlit("_token");
    reveal_strlit("_password");
    reveal_strlit("_secret");
    let n = key.len() as int;
    if spelled(key, "env_key"@) {
        assert(same_letter(key[0], 'e') && same_letter(key[6], 'y'));
        assert(key.skip(1)[5] == key[6] && key.skip(0)[6] == key[6]);
    } else if spelled(key, "base_url"@) {
        assert(same_letter(key[0], 'b') && same_letter(key[7], 'l'));
        assert(key.skip(2)[5] == key[7] && key.skip(1)[6] == key[7]);
    } else if spelled(key, "wire_api"@) {
        assert(same_letter(key[0], 'w') && same_letter(key[7], 'i'));
        assert(key.skip(2)[5] == key[7] && key.skip(1)[6] == key[7]);
    }
    assert(!spelled(key, "api_key"@) && !spelled(key, "password"@));
    assert(!spelled_at_the_end(key, "_token"@));
    assert(!spelled_at_the_end(key, "_secret"@));
}

/// Whether no name anywhere inside `n` is one under which a secret is expected.
pub open spec fn names_no_secret(n: NodeView) -> bool
    decreases n,
{
    match n {
        NodeView::List(items) => forall|i: int|
            0 <= i < items.len() ==> names_no_secret(#[trigger] items[i]),
        NodeView::Table(entries) => forall|i: int|
            0 <= i < entries.len() ==> !names_a_secret((#[trigger] entries[i]).0) && names_no_secret(
                entries[i].1,
            ),
        NodeView::Inline(entries) => forall|i: int|
            0 <= i < entries.len() ==> !names_a_secret((#[trigger] entries[i]).0) && names_no_secret(
                entries[i].1,
            ),
        _ => true,
    }
}

proof fn lemma_any_secret(items: Seq<NodeView>)
    ensures
        any_secret(items) <==> exists|i: int| 0 <= i < items.len() && !names_no_secret(#[trigger] items[i]),
    decreases items,
{
    if items.len() > 0 {
        lemma_any_secret(items.drop_last());
        secrets_are_found_at_any_depth(items.last());
        let less = items.drop_last();
        if any_secret(less) {
            let i = choose|i: int| 0 <= i < less.len() && !names_no_secret(#[trigger] less[i]);
            assert(items[i] == less[i]);
        }
        if exists|i: int| 0 <= i < items.len() && !names_no_secret(#[trigger] items[i]) {
            let i = choose|i: int| 0 <= i < items.len() && !names_no_secret(#[trigger] items[i]);
            if i < less.len() {
                assert(less[i] == items[i]);
            }
        }
    }
}

proof fn lemma_any_secret_entry(entries: Seq<(Seq<char>, NodeView)>)
    ensures
        any_secret_entry(entries) <==> exists|i: int|
            0 <= i < entries.len() && (names_a_secret((#[trigger] entries[i]).0) || !names_no_secret(
                entries[i].1,
            )),
    decreases entries,
{
    if entries.len() > 0 {
        lemma_any_secret_entry(entries.drop_last());
        secret_names_are_these(entries.last().0);
        secrets_are_found_at_any_depth(entries.last().1);
        let less = entries.drop_last();
        if any_secret_entry(less) {
            let i = choose|i: int|
                0 <= i < less.len() && (names_a_secret((#[trigger] less[i]).0) || !names_no_secret(
                    less[i].1,
                ));
            assert(entries[i] == less[i]);
        }
        if exists|i: int|
            0 <= i < entries.len() && (names_a_secret((#[trigger] entries[i]).0) || !names_no_secret(
                entries[i].1,
            )) {
            let i = choose|i: int|
                0 <= i < entries.len() && (names_a_secret((#[trigger] entries[i]).0)
                    || !names_no_secret(entries[i].1));
            if i < less.len() {
                assert(less[i] == entries[i]);
            } else {
                assert(entries[i] == entries.last());
            }
        }
    }
}

/// A value is taken to hold a secret exactly where, at whatever depth, it has a value under the name
/// of one.
pub proof fn secrets_are_found_at_any_depth(n: NodeView)
    ensures
        holds_secret(n) <==> !names_no_secret(n),
    decreases n,
{
    match n {
        NodeView::List(items) => {
            lemma_any_secret(items);
        },
        NodeView::Table(entries) => {
            lemma_any_secret_entry(entries);
        },
        NodeView::Inline(entries) => {
            lemma_any_secret_entry(entries);
        },
        _ => {},
    }
}

/// Whether the configuration defines model provider `name`.
pub open spec fn configures(tree: NodeView, name: Seq<char>) -> bool {
    exists|providers: NodeView, settings: NodeView| #[trigger]
        holds_at(tree, "model_providers"@, providers) && #[trigger] holds_at(providers, name, settings)
}

/// A model provider is defined exactly where the configuration has an entry of its name under
/// `model_providers`.
pub proof fn provider_is_defined_by_its_entry(tree: NodeView, name: Seq<char>)
    ensures
        defines(tree, name) <==> configures(tree, name),
{
    field_is_the_first_of_its_name(tree, "model_providers"@);
    if let Some(providers) = field_of(tree, "model_providers"@) {
        field_is_the_first_of_its_name(providers, name);
        if let Some(settings) = field_of(providers, name) {
            assert(holds_at(tree, "model_providers"@, providers));
            assert(holds_at(providers, name, settings));
        }
    }
    if configures(tree, name) {
        let (providers, settings) = choose|providers: NodeView, settings: NodeView| #[trigger]
            holds_at(tree, "model_providers"@, providers) && #[trigger] holds_at(
                providers,
                name,
                settings,
            );
        assert(field_of(tree, "model_providers"@) == Some(providers));
    }
}

/// Whether the default model provider `from` can be copied: it is a table of its own under an
/// ordinary table `model_providers`, and nothing in it is named like a secret.
pub open spec fn can_lend_its_settings(tree: NodeView, from: Seq<char>) -> bool {
    &&& holds_text_at(tree, "model_provider"@, from)
    &&& !is_blank(from)
    &&& exists|entries: Seq<(Seq<char>, NodeView)>, settings: NodeView| #[trigger]
        holds_at(tree, "model_providers"@, NodeView::Table(entries)) && #[trigger] holds_at(
            NodeView::Table(entries),
            from,
            settings,
        ) && names_no_secret(settings)
}

/// A configuration that already defines the alias is kept, and no other is.  Else the default model
/// provider is copied exactly where it can be: it is named, it has its entry in an ordinary table,
/// and nothing in that entry is named like a secret.
pub proof fn alias_is_copied_from_a_plain_default(tree: NodeView, alias: Seq<char>)
    ensures
        decided(tree, alias) == Ok::<DecisionView, ErrorView>(DecisionView::Keep) <==> configures(tree, alias),
        forall|from: Seq<char>|
            decided(tree, alias) == Ok::<DecisionView, ErrorView>(DecisionView::Copy { from }) <==> {
                &&& !configures(tree, alias)
                &&& #[trigger] can_lend_its_settings(tree, from)
            },
{
    provider_is_defined_by_its_entry(tree, alias);
    field_is_the_first_of_its_name(tree, "model_provider"@);
    field_is_the_first_of_its_name(tree, "model_providers"@);
    assert forall|from: Seq<char>|
        decided(tree, alias) == Ok::<DecisionView, ErrorView>(DecisionView::Copy { from }) <==> {
            &&& !configures(tree, alias)
            &&& #[trigger] can_lend_its_settings(tree, from)
        } by {
        assert(holds_text_at(tree, "model_provider"@, from) <==> field_of(tree, "model_provider"@) == Some(
            NodeView::Text(from),
        ));
        match field_of(tree, "model_providers"@) {
            Some(providers) => {
                assert(holds_at(tree, "model_providers"@, providers));
                field_is_the_first_of_its_name(providers, from);
                if let Some(settings) = field_of(providers, from) {
                    secrets_are_found_at_any_depth(settings);
                    assert(holds_at(providers, from, settings));
                }
            },
            None => {},
        }
        if can_lend_its_settings(tree, from) {
            let (entries, settings) = choose|entries: Seq<(Seq<char>, NodeView)>, settings: NodeView|
                #[trigger]
                holds_at(tree, "model_providers"@, NodeView::Table(entries)) && #[trigger] holds_at(
                    NodeView::Table(entries),
                    from,
                    settings,
                ) && names_no_secret(settings);
            assert(field_of(tree, "model_providers"@) == Some(NodeView::Table(entries)));
            assert(field_of(NodeView::Table(entries), from) == Some(settings));
        }
    }
}

/// A repair of a valid configuration that lacks the alias, and whose default model provider can be
/// copied, yields a rewrite, unless the copy does not parse again.
pub proof fn repair_of_a_plain_default_rewrites(
    path: Seq<char>,
    bytes: Seq<u8>,
    tree: NodeView,
    alias: Seq<char>,
    from: Seq<char>,
)
    requires
        config_tree(path, bytes) == Ok::<NodeView, ErrorView>(tree),
        !configures(tree, alias),
        can_lend_its_settings(tree, from),
    ensures
        ({
            let text = text_with_copy(config_text(bytes)->0, "model_providers"@, from, alias);
            toml_tree(text) is Some ==> planned(path, bytes, alias) == Ok::<PlanView, ErrorView>(
                PlanView::Rewrite { text },
            )
        }),
{
    alias_is_copied_from_a_plain_default(tree, alias);
    assert(can_lend_its_settings(tree, from));
}

/// Why a copy is refused: there is no default model provider; it has no entry; something in its entry
/// is named like a secret; or the table it would go into is written inline.
pub proof fn refused_copy_says_why(tree: NodeView, alias: Seq<char>, message: Seq<char>)
    requires
        decided(tree, alias) == Err::<DecisionView, ErrorView>(ErrorView::Config { message }),
    ensures
        message == "config.toml 未定义当前默认 model_provider"@ || exists|from: Seq<char>| #[trigger]
            holds_text_at(tree, "model_provider"@, from) && !is_blank(from) && {
                ||| !configures(tree, from) && message == "默认 provider "@ + from
                    + " 没有对应配置表"@
                ||| configures(tree, from) && (message
                    == "默认 provider 表包含 credential、token 或 secret 字段，拒绝自动复制，请改用环境变量配置"@
                    || message == "model_providers 不是可编辑 TOML 表"@)
            },
        (forall|from: Seq<char>| #[trigger]
            holds_text_at(tree, "model_provider"@, from) ==> is_blank(from)) ==> message
            == "config.toml 未定义当前默认 model_provider"@,
{
    field_is_the_first_of_its_name(tree, "model_provider"@);
    if let Some(NodeView::Text(from)) = field_of(tree, "model_provider"@) {
        assert(holds_text_at(tree, "model_provider"@, from));
        provider_is_defined_by_its_entry(tree, from);
    }
}

/// A decision that is no success is always an error of the configuration.
pub proof fn refused_copy_is_a_matter_of_configuration(tree: NodeView, alias: Seq<char>)
    requires
        decided(tree, alias) is Err,
    ensures
        decided(tree, alias)->Err_0 is Config,
        !configures(tree, alias),
{
    provider_is_defined_by_its_entry(tree, alias);
}

/// Where there is no configuration, no model provider is defined.  One that cannot be read, or is not
/// TOML, tells nothing, which is an error; any other defines exactly the model providers it has entries
/// for.
pub proof fn missing_configuration_defines_nothing(path: Seq<char>, read: ConfigReadView, name: Seq<char>)
    ensures
        read is Missing ==> exists_in(path, read, name) == Ok::<bool, ErrorView>(false),
        read is Unreadable ==> exists_in(path, read, name) == Err::<bool, ErrorView>(
            ErrorView::Io { path, source: read->reason },
        ),
        read matches ConfigReadView::Bytes(bytes) ==> {
            &&& exists_in(path, read, name) is Ok <==> config_text(bytes) is Some && toml_tree(
                config_text(bytes)->0,
            ) is Some
            &&& exists_in(path, read, name) == Ok::<bool, ErrorView>(true) <==> exists_in(path, read, name) is Ok
                && configures(toml_tree(config_text(bytes)->0)->0, name)
            &&& exists_in(path, read, name) matches Err(e) ==> e is Config
        },
{
    if let ConfigReadView::Bytes(bytes) = read {
        if let Some(text) = config_text(bytes) {
            if let Some(tree) = toml_tree(text) {
                provider_is_defined_by_its_entry(tree, name);
            }
        }
    }
}

/// A byte order mark before the configuration changes nothing of what it says.
pub proof fn byte_order_mark_is_no_content(bytes: Seq<u8>, marked: Seq<u8>, text: Seq<char>)
    requires
        utf8_text(bytes) == Some(text),
        utf8_text(marked) == Some(seq!['\u{feff}'] + text),
        text.len() > 0 ==> text[0] != '\u{feff}',
    ensures
        config_text(bytes) == Some(text),
        config_text(marked) == Some(text),
{
    assert((seq!['\u{feff}'] + text).skip(1) =~= text);
}

/// The default model provider is the text under `model_provider`, where it is not blank.
pub proof fn default_provider_is_the_named_one(tree: NodeView)
    ensures
        forall|from: Seq<char>|
            default_provider(tree) == Some(from) <==> #[trigger] holds_text_at(
                tree,
                "model_provider"@,
                from,
            ) && !is_blank(from),
{
    field_is_the_first_of_its_name(tree, "model_provider"@);
}

/// A configuration without `model_providers` counts none, and one with it as many as it has entries
/// there.
pub proof fn every_entry_counts(tree: NodeView)
    ensures
        holds_nothing_at(tree, "model_providers"@) ==> provider_total(tree) == 0,
        forall|providers: NodeView| #[trigger]
            holds_at(tree, "model_providers"@, providers) ==> provider_total(tree) == (match named_values(
                providers,
            ) {
                Some(entries) => entries.len(),
                None => 0,
            }),
{
    field_is_the_first_of_its_name(tree, "model_providers"@);
}

/// A valid name of a model provider is neither empty nor longer than 128 characters, and takes
/// letters and digits of ASCII, `-`, `_` and `.` at every place, and nothing else.
pub proof fn valid_names_join(a: Seq<char>, c: char)
    ensures
        !is_valid_name(Seq::<char>::empty()),
        is_valid_name(a) ==> a.len() <= 128,
        is_valid_name(a) && a.len() < 128 ==> (is_valid_name(a.push(c)) <==> is_valid_name(seq![c])),
        !is_valid_name(a) && a.len() > 0 ==> !is_valid_name(a.push(c)),
        is_valid_name(seq![c]) <==> {
            ||| 97 <= c as int <= 122
            ||| 65 <= c as int <= 90
            ||| 48 <= c as int <= 57
            ||| c == '-' || c == '_' || c == '.'
        },
{
    assert(seq![c][0] == c);
    assert(a.push(c).last() == c);
    if is_valid_name(seq![c]) && is_valid_name(a) && a.len() < 128 {
        assert forall|i: int| 0 <= i < a.push(c).len() implies is_name_char(#[trigger] a.push(c)[i]) by {
            if i < a.len() {
                assert(a.push(c)[i] == a[i]);
            }
        }
    }
    if is_valid_name(a.push(c)) {
        assert(is_name_char(a.push(c)[a.len() as int]));
        assert forall|i: int| 0 <= i < a.len() implies is_name_char(#[trigger] a[i]) by {
            assert(a.push(c)[i] == a[i]);
        }
    }
}

/// A configuration can be read exactly where it is UTF-8 and TOML; else the error names the file.
pub proof fn only_valid_configuration_is_read(path: Seq<char>, bytes: Seq<u8>)
    ensures
        config_tree(path, bytes) is Ok <==> config_text(bytes) is Some && toml_tree(config_text(bytes)->0) is Some,
        config_tree(path, bytes) matches Ok(tree) ==> toml_tree(config_text(bytes)->0) == Some(tree),
        config_text(bytes) is None <==> utf8_text(bytes) is None,
        config_tree(path, bytes) matches Err(e) ==> e is Config && shows(e->Config_message, path),
{
    if let Err(e) = config_tree(path, bytes) {
        let none = Seq::<char>::empty();
        shows_what_it_holds(none, path, " 不是合法 TOML"@);
        assert(path + " 不是合法 TOML"@ =~= none + path + " 不是合法 TOML"@);
        shows_what_it_holds(none, path, " 不是合法 UTF-8"@);
        assert(path + " 不是合法 UTF-8"@ =~= none + path + " 不是合法 UTF-8"@);
    }
}

/// A configuration that cannot be read, and one whose default cannot be copied, is not rewritten, and
/// the error is that of reading or deciding; one that has the alias is kept.
pub proof fn repair_is_planned_by_what_is_decided(path: Seq<char>, bytes: Seq<u8>, alias: Seq<char>)
    ensures
        config_tree(path, bytes) matches Err(e) ==> planned(path, bytes, alias) == Err::<PlanView, ErrorView>(e),
        config_tree(path, bytes) matches Ok(tree) ==> {
            &&& configures(tree, alias) <==> planned(path, bytes, alias) == Ok::<PlanView, ErrorView>(
                PlanView::Keep,
            )
            &&& decided(tree, alias) matches Err(e) ==> planned(path, bytes, alias) == Err::<
                PlanView,
                ErrorView,
            >(e)
            &&& planned(path, bytes, alias) matches Ok(PlanView::Rewrite { text }) ==> toml_tree(text) is Some
                && exists|from: Seq<char>| #[trigger]
                can_lend_its_settings(tree, from) && text == text_with_copy(
                    config_text(bytes)->0,
                    "model_providers"@,
                    from,
                    alias,
                )
        },
{
    if let Ok(tree) = config_tree(path, bytes) {
        alias_is_copied_from_a_plain_default(tree, alias);
        if let Ok(DecisionView::Copy { from }) = decided(tree, alias) {
            assert(can_lend_its_settings(tree, from));
        }
    }
}

} // verus!
