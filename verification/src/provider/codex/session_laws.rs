//! What holds of every session that is read from a file: where its times, its texts and its state
//! come from.

use vstd::prelude::*;

use super::config::{config_text, ConfigReadView};
use super::config_laws::{configures, missing_configuration_defines_nothing};
use super::ids::filename_id;
use super::index::IndexView;
use super::metadata::{
    first_with_id, gathered, label_of, metadata_of, or_else, record_metadata, record_time, says, selected, MetadataView,
};
use super::records::{jsonl_records, jsonl_warnings, FileReadView};
use super::redact::sanitized;
use super::scan::{judge_resume, resume_check};
use super::sessions::{parsed, FactsView};
use crate::domain::{
    InteractionType, ResumeState, ResumeStatus, Session, SessionView, WarningKind, WarningView,
};
use crate::plain::{field_is_the_first_of_its_name, holds_at, holds_text_at, not_before};
use crate::text::is_blank;
use crate::time::rfc3339_instant;
use crate::toml::toml_tree;
use crate::tree::{field_of, text_field_of, NodeView};

verus! {

/// Whether record `r` is stamped with instant `at`.
pub open spec fn is_stamped(r: NodeView, at: (int, int)) -> bool {
    exists|s: Seq<char>| #[trigger] holds_text_at(r, "timestamp"@, s) && rfc3339_instant(s) == Some(at)
}

proof fn lemma_record_time(r: NodeView, at: (int, int))
    ensures
        record_time(r) == Some(at) <==> is_stamped(r, at),
{
    field_is_the_first_of_its_name(r, "timestamp"@);
    if let Some(s) = text_field_of(r, "timestamp"@) {
        assert(holds_text_at(r, "timestamp"@, s));
    }
}

proof fn lemma_latest_of_records(records: Seq<NodeView>)
    ensures
        forall|i: int, at: (int, int)|
            0 <= i < records.len() && #[trigger] is_stamped(records[i], at) ==> gathered(
                records,
            ).latest_timestamp is Some && not_before(gathered(records).latest_timestamp->0, at),
        gathered(records).latest_timestamp matches Some(at) ==> exists|i: int|
            0 <= i < records.len() && #[trigger] is_stamped(records[i], at),
    decreases records.len(),
{
    if records.len() > 0 {
        let less = records.drop_last();
        lemma_latest_of_records(less);
        let last = records.last();
        let time = record_time(last);
        let before = gathered(less).latest_timestamp;
        let now = gathered(records).latest_timestamp;
        assert forall|i: int, at: (int, int)|
            0 <= i < records.len() && #[trigger] is_stamped(records[i], at) implies now is Some && not_before(
            now->0,
            at,
        ) by {
            if i < less.len() {
                assert(less[i] == records[i]);
                assert(is_stamped(less[i], at));
                assert(not_before(before->0, at));
            } else {
                lemma_record_time(last, at);
            }
        }
        if let Some(at) = now {
            if time == Some(at) {
                lemma_record_time(last, at);
                assert(is_stamped(records[records.len() - 1], at));
            } else {
                assert(before == Some(at));
                let i = choose|i: int| 0 <= i < less.len() && #[trigger] is_stamped(less[i], at);
                assert(is_stamped(records[i], at));
            }
        }
    }
}

/// Whether instant `at` is one at which a session is known to have been touched: the stamp of a
/// record of its file, the update its index entry tells, or the last change of the file.
pub open spec fn is_touch(
    at: (int, int),
    records: Seq<NodeView>,
    index: Option<IndexView>,
    modified_at: Option<(int, int)>,
) -> bool {
    ||| exists|i: int| 0 <= i < records.len() && #[trigger] is_stamped(records[i], at)
    ||| index matches Some(entry) && entry.updated_at == Some(at)
    ||| modified_at == Some(at)
}

/// The update time of a session is one of the instants at which it was touched and none of them is
/// later; where there is none, it is the time of its creation.
pub proof fn update_time_is_the_latest_touch(
    path: Seq<char>,
    read: FileReadView,
    index: Option<IndexView>,
    facts: FactsView,
    s: SessionView,
)
    requires
        parsed(path, read, index, facts) == Ok::<SessionView, Seq<WarningView>>(s),
    ensures
        forall|at: (int, int)| #[trigger]
            is_touch(at, jsonl_records(read), index, facts.modified_at) ==> not_before(s.updated_at, at),
        is_touch(s.updated_at, jsonl_records(read), index, facts.modified_at) || (s.updated_at
            == s.created_at && forall|at: (int, int)|
            !#[trigger] is_touch(at, jsonl_records(read), index, facts.modified_at)),
{
    let records = jsonl_records(read);
    lemma_latest_of_records(records);
    let stamped = gathered(records).latest_timestamp;
    assert forall|at: (int, int)| #[trigger]
        is_touch(at, records, index, facts.modified_at) implies not_before(s.updated_at, at) by {
        if exists|i: int| 0 <= i < records.len() && #[trigger] is_stamped(records[i], at) {
            let i = choose|i: int| 0 <= i < records.len() && #[trigger] is_stamped(records[i], at);
            assert(is_stamped(records[i], at));
        }
    }
    if !is_touch(s.updated_at, records, index, facts.modified_at) {
        if let Some(at) = stamped {
            assert(is_touch(at, records, index, facts.modified_at));
        }
        assert forall|at: (int, int)| !#[trigger] is_touch(at, records, index, facts.modified_at) by {
            if exists|i: int| 0 <= i < records.len() && #[trigger] is_stamped(records[i], at) {
                let i = choose|i: int| 0 <= i < records.len() && #[trigger] is_stamped(records[i], at);
                assert(is_stamped(records[i], at));
            }
        }
    }
}

/// Whether the configuration that was read defines model provider `name`.
pub open spec fn read_defines(config: ConfigReadView, name: Seq<char>) -> bool {
    config matches ConfigReadView::Bytes(bytes) && config_text(bytes) matches Some(text) && toml_tree(
        text,
    ) matches Some(tree) && configures(tree, name)
}

/// Whether the configuration tells what it defines: there is none, or it could be read and is TOML.
pub open spec fn read_tells(config: ConfigReadView) -> bool {
    match config {
        ConfigReadView::Missing => true,
        ConfigReadView::Unreadable { .. } => false,
        ConfigReadView::Bytes(bytes) => config_text(bytes) matches Some(text) && toml_tree(text) is Some,
    }
}

/// A session can be resumed exactly where it is one of Codex, its file is there, the CLI was found,
/// and it names no model provider or one that the configuration defines.
pub proof fn ready_needs_file_cli_and_provider(
    s: SessionView,
    is_file: bool,
    cli: bool,
    config_path: Seq<char>,
    config: ConfigReadView,
)
    ensures
        resume_check(s, is_file, cli, config_path, config).state == ResumeState::Ready <==> {
            &&& s.source == "codex"@
            &&& is_file
            &&& cli
            &&& s.model_provider matches Some(name) ==> read_defines(config, name)
        },
        resume_check(s, is_file, cli, config_path, config).message is None
            <==> resume_check(s, is_file, cli, config_path, config).state == ResumeState::Ready,
{
    if let Some(name) = s.model_provider {
        missing_configuration_defines_nothing(config_path, config, name);
    }
}

/// What stands in the way of a session is told in this order: it is not one of Codex, its file is
/// gone, the CLI is missing, the configuration cannot be read, it does not define the model provider.
/// Only a session that names a model provider can lack it.
pub proof fn first_obstacle_is_told(
    s: SessionView,
    is_file: bool,
    cli: bool,
    config_path: Seq<char>,
    config: ConfigReadView,
)
    ensures
        ({
            let status = resume_check(s, is_file, cli, config_path, config);
            &&& status.state == ResumeState::Unsupported <==> s.source != "codex"@
            &&& status.state == ResumeState::SessionMissing <==> s.source == "codex"@ && !is_file
            &&& status.state == ResumeState::CliMissing <==> s.source == "codex"@ && is_file && !cli
            &&& status.state == ResumeState::Blocked <==> {
                &&& s.source == "codex"@ && is_file && cli
                &&& s.model_provider is Some && !read_tells(config)
            }
            &&& status.state == ResumeState::ProviderMissing <==> {
                &&& s.source == "codex"@ && is_file && cli
                &&& s.model_provider matches Some(name) && read_tells(config) && !read_defines(config, name)
            }
            &&& status.state == ResumeState::ProviderMissing ==> status.message == Some(
                "历史 provider "@ + s.model_provider->0
                    + " 未在 config.toml 中定义；使用 --repair-provider 显式修复"@,
            )
            &&& status.state == ResumeState::Unsupported ==> status.message == Some(
                "会话不属于 Codex 来源"@,
            )
            &&& status.state == ResumeState::SessionMissing ==> status.message == Some(
                "原始会话文件不存在"@,
            )
            &&& status.state == ResumeState::CliMissing ==> status.message == Some(
                "未在 PATH 中找到 Codex CLI"@,
            )
            &&& status.state == ResumeState::Blocked ==> status.message == Some(
                "Codex config.toml 无法解析，请先运行 agentmux doctor"@,
            )
        }),
{
    if let Some(name) = s.model_provider {
        missing_configuration_defines_nothing(config_path, config, name);
    }
}

/// From whether its model provider is defined, a session of Codex whose file and CLI are there is found
/// ready exactly where it names none or a defined one.
pub proof fn verdict_needs_the_provider(
    session: Session,
    is_file: bool,
    cli: bool,
    defined: Option<bool>,
    r: ResumeStatus,
)
    requires
        call_ensures(judge_resume, (&session, is_file, cli, defined), r),
    ensures
        r@.state == ResumeState::Ready <==> {
            &&& session@.source == "codex"@
            &&& is_file
            &&& cli
            &&& session@.model_provider is Some ==> defined == Some(true)
        },
        r@.state == ResumeState::ProviderMissing ==> session@.model_provider is Some && defined == Some(false),
{
}

/// Whether record `r` describes its session by `payload`.
pub open spec fn describes(r: NodeView, payload: NodeView) -> bool {
    holds_text_at(r, "type"@, "session_meta"@) && holds_at(r, "payload"@, payload)
}

/// Whether a description names id `id`: under `id` or, where there is no text, under `session_id`.
pub open spec fn describes_id(payload: NodeView, id: Seq<char>) -> bool {
    ||| holds_text_at(payload, "id"@, id)
    ||| holds_text_at(payload, "session_id"@, id) && forall|t: Seq<char>|
        !#[trigger] holds_text_at(payload, "id"@, t)
}

/// Whether record `i` describes its session by `payload` and no record before it describes one.
pub open spec fn is_first_description(records: Seq<NodeView>, i: int, payload: NodeView) -> bool {
    &&& 0 <= i < records.len()
    &&& describes(records[i], payload)
    &&& forall|j: int, other: NodeView| 0 <= j < i ==> !#[trigger] describes(records[j], other)
}

/// Whether record `i` describes session `id` by `payload` and no record before it does.
pub open spec fn is_first_description_of(
    records: Seq<NodeView>,
    id: Seq<char>,
    i: int,
    payload: NodeView,
) -> bool {
    &&& 0 <= i < records.len()
    &&& describes(records[i], payload)
    &&& describes_id(payload, id)
    &&& forall|j: int, other: NodeView|
        0 <= j < i && #[trigger] describes(records[j], other) ==> !describes_id(other, id)
}

/// Whether the session of a file is described by record `i` with `payload`: the first description of
/// the session that the name of the file names or, where there is none, the first of any.
pub open spec fn is_description(
    records: Seq<NodeView>,
    file_id: Option<Seq<char>>,
    i: int,
    payload: NodeView,
) -> bool {
    ||| file_id matches Some(id) && is_first_description_of(records, id, i, payload)
    ||| is_first_description(records, i, payload) && (file_id matches Some(id) ==> forall|
        j: int,
        other: NodeView,
    |
        0 <= j < records.len() && #[trigger] describes(records[j], other) ==> !describes_id(other, id))
}

proof fn lemma_describes(r: NodeView, payload: NodeView)
    ensures
        describes(r, payload) <==> says(text_field_of(r, "type"@), "session_meta"@)
            && field_of(r, "payload"@) == Some(payload),
{
    field_is_the_first_of_its_name(r, "type"@);
    field_is_the_first_of_its_name(r, "payload"@);
    assert(holds_text_at(r, "type"@, "session_meta"@) <==> field_of(r, "type"@) == Some(
        NodeView::Text("session_meta"@),
    ));
}

proof fn lemma_describes_id(payload: NodeView, time: Option<(int, int)>, id: Seq<char>)
    ensures
        describes_id(payload, id) <==> says(
            metadata_of(payload, time).id,
            id,
        ),
{
    field_is_the_first_of_its_name(payload, "id"@);
    field_is_the_first_of_its_name(payload, "session_id"@);
    if let Some(t) = text_field_of(payload, "id"@) {
        assert(holds_text_at(payload, "id"@, t));
    }
}

/// Whether `places` are the places of the records that describe a session, in order, and `all` what
/// they say.
spec fn places_describe(records: Seq<NodeView>, places: Seq<int>, all: Seq<MetadataView>) -> bool {
    &&& places.len() == all.len()
    &&& forall|k: int|
        0 <= k < places.len() ==> 0 <= #[trigger] places[k] < records.len()
            && record_metadata(records[places[k]]) == Some(all[k])
    &&& forall|k: int, m: int| 0 <= k < m < places.len() ==> #[trigger] places[k] < #[trigger] places[m]
    &&& forall|i: int|
        0 <= i < records.len() && record_metadata(#[trigger] records[i]) is Some
            ==> places.contains(i)
}

proof fn lemma_places(records: Seq<NodeView>) -> (places: Seq<int>)
    ensures
        places_describe(records, places, gathered(records).metadata),
    decreases records.len(),
{
    if records.len() == 0 {
        Seq::empty()
    } else {
        let less = records.drop_last();
        let before = lemma_places(less);
        let n = records.len() - 1;
        let all = gathered(less).metadata;
        match record_metadata(records.last()) {
            Some(m) => {
                let places = before.push(n);
                assert forall|i: int|
                    0 <= i < records.len() && record_metadata(
                        #[trigger] records[i],
                    ) is Some implies places.contains(i) by {
                    if i < n {
                        assert(less[i] == records[i]);
                        let k = choose|k: int| 0 <= k < before.len() && before[k] == i;
                        assert(places[k] == i);
                    } else {
                        assert(places[before.len() as int] == i);
                    }
                }
                assert forall|k: int| 0 <= k < places.len() implies 0 <= #[trigger] places[k] < records.len()
                    && record_metadata(records[places[k]]) == Some(all.push(m)[k]) by {
                    if k < before.len() {
                        assert(places[k] == before[k]);
                        assert(less[before[k]] == records[before[k]]);
                    }
                }
                assert forall|k: int, j: int| 0 <= k < j < places.len() implies #[trigger] places[k]
                    < #[trigger] places[j] by {
                    assert(places[k] == before[k]);
                    if j < before.len() {
                        assert(places[j] == before[j]);
                    }
                }
                places
            },
            None => {
                assert forall|i: int|
                    0 <= i < records.len() && record_metadata(
                        #[trigger] records[i],
                    ) is Some implies before.contains(i) by {
                    assert(less[i] == records[i]);
                }
                assert forall|k: int| 0 <= k < before.len() implies 0 <= #[trigger] before[k] < records.len()
                    && record_metadata(records[before[k]]) == Some(all[k]) by {
                    assert(less[before[k]] == records[before[k]]);
                }
                before
            },
        }
    }
}

proof fn lemma_first_with_id(all: Seq<MetadataView>, id: Seq<char>) -> (k: int)
    ensures
        match first_with_id(all, id) {
            Some(m) => 0 <= k < all.len() && all[k] == m && says(m.id, id) && forall|
                j: int,
            |
                0 <= j < k ==> !says((#[trigger] all[j]).id, id),
            None => forall|j: int|
                0 <= j < all.len() ==> !says((#[trigger] all[j]).id, id),
        },
    decreases all.len(),
{
    if all.len() == 0 || says(all[0].id, id) {
        0
    } else {
        let rest = all.drop_first();
        let k = lemma_first_with_id(rest, id);
        match first_with_id(all, id) {
            Some(m) => {
                assert forall|j: int| 0 <= j < k + 1 implies !says(
                    (#[trigger] all[j]).id,
                    id,
                ) by {
                    if j > 0 {
                        assert(rest[j - 1] == all[j]);
                    }
                }
            },
            None => {
                assert forall|j: int| 0 <= j < all.len() implies !says(
                    (#[trigger] all[j]).id,
                    id,
                ) by {
                    if j > 0 {
                        assert(rest[j - 1] == all[j]);
                    }
                }
            },
        }
        k + 1
    }
}

/// The metadata that a session is made of is that of its description, and there is none exactly where
/// no record describes one.
proof fn lemma_selected_is_described(records: Seq<NodeView>, file_id: Option<Seq<char>>)
    ensures
        forall|i: int, payload: NodeView| #[trigger]
            is_description(records, file_id, i, payload) ==> selected(gathered(records).metadata, file_id)
                == Some(
                metadata_of(payload, record_time(records[i])),
            ),
        selected(gathered(records).metadata, file_id) is None ==> forall|i: int, payload: NodeView|
            0 <= i < records.len() ==> !#[trigger] describes(records[i], payload),
        selected(gathered(records).metadata, file_id) is Some ==> exists|i: int, payload: NodeView| #[trigger]
            is_description(records, file_id, i, payload),
{
    let all = gathered(records).metadata;
    let places = lemma_places(records);
    assert forall|i: int, payload: NodeView|
        0 <= i < records.len() && #[trigger] describes(records[i], payload) implies exists|k: int|
        0 <= k < places.len() && #[trigger] places[k] == i && all[k] == metadata_of(
            payload,
            record_time(records[i]),
        ) by {
        lemma_describes(records[i], payload);
        assert(record_metadata(records[i]) is Some);
        let k = choose|k: int| 0 <= k < places.len() && places[k] == i;
        assert(places[k] == i);
    }
    assert forall|k: int| 0 <= k < places.len() implies describes(
        records[#[trigger] places[k]],
        field_of(records[places[k]], "payload"@)->0,
    ) by {
        lemma_describes(records[places[k]], field_of(records[places[k]], "payload"@)->0);
    }
    let with_id = match file_id {
        Some(id) => lemma_first_with_id(all, id),
        None => 0,
    };
    assert forall|i: int, payload: NodeView| #[trigger] is_description(records, file_id, i, payload) implies selected(
        all,
        file_id,
    ) == Some(metadata_of(payload, record_time(records[i]))) by {
        let k = choose|k: int|
            0 <= k < places.len() && #[trigger] places[k] == i && all[k] == metadata_of(
                payload,
                record_time(records[i]),
            );
        let by_id = file_id is Some && is_first_description_of(records, file_id->0, i, payload);
        if by_id {
            let id = file_id->0;
            lemma_describes_id(payload, record_time(records[i]), id);
            assert(says(all[k].id, id));
            if with_id < k {
                let other = field_of(records[places[with_id]], "payload"@)->0;
                assert(places[with_id] < places[k]);
                assert(describes(records[places[with_id]], other));
                lemma_describes_id(other, record_time(records[places[with_id]]), id);
            } else if k < with_id {
                assert(!says(all[k].id, id));
            }
        } else {
            if k > 0 {
                let other = field_of(records[places[0]], "payload"@)->0;
                assert(places[0] < places[k]);
                assert(describes(records[places[0]], other));
            }
            if let Some(id) = file_id {
                if first_with_id(all, id) is Some {
                    let other = field_of(records[places[with_id]], "payload"@)->0;
                    assert(describes(records[places[with_id]], other));
                    lemma_describes_id(
                        other,
                        record_time(records[places[with_id]]),
                        id,
                    );
                }
            }
        }
    }
    if selected(all, file_id) is Some {
        lemma_description_exists(records, file_id, places, with_id);
    }
}

proof fn lemma_description_exists(
    records: Seq<NodeView>,
    file_id: Option<Seq<char>>,
    places: Seq<int>,
    with_id: int,
)
    requires
        places_describe(records, places, gathered(records).metadata),
        selected(gathered(records).metadata, file_id) is Some,
        file_id matches Some(id) ==> match first_with_id(gathered(records).metadata, id) {
            Some(m) => 0 <= with_id < places.len() && gathered(records).metadata[with_id] == m
                && says(m.id, id) && forall|j: int|
                0 <= j < with_id ==> !says((#[trigger] gathered(records).metadata[j]).id, id),
            None => forall|j: int|
                0 <= j < places.len() ==> !says(
                    (#[trigger] gathered(records).metadata[j]).id,
                    id,
                ),
        },
    ensures
        exists|i: int, payload: NodeView| #[trigger] is_description(records, file_id, i, payload),
{
    let all = gathered(records).metadata;
    let k = match file_id {
        Some(id) => if first_with_id(all, id) is Some {
            with_id
        } else {
            0
        },
        None => 0,
    };
    let i = places[k];
    let payload = field_of(records[i], "payload"@)->0;
    lemma_describes(records[i], payload);
    assert(describes(records[i], payload));
    assert forall|j: int, other: NodeView| 0 <= j < records.len() && #[trigger] describes(records[j], other) implies exists|
        m: int,
    |
        0 <= m < places.len() && #[trigger] places[m] == j && all[m] == metadata_of(
            other,
            record_time(records[j]),
        ) by {
        lemma_describes(records[j], other);
        assert(record_metadata(records[j]) is Some);
        let m = choose|m: int| 0 <= m < places.len() && places[m] == j;
        assert(places[m] == j);
    }
    if file_id is Some && first_with_id(all, file_id->0) is Some {
        let id = file_id->0;
        lemma_describes_id(payload, record_time(records[i]), id);
        assert forall|j: int, other: NodeView|
            0 <= j < i && #[trigger] describes(records[j], other) implies !describes_id(other, id) by {
            let m = choose|m: int|
                0 <= m < places.len() && #[trigger] places[m] == j && all[m]
                    == metadata_of(other, record_time(records[j]));
            if m >= k {
                assert(m == k || places[k] < places[m]);
            }
            assert(!says(all[m].id, id));
            lemma_describes_id(other, record_time(records[j]), id);
        }
        assert(is_first_description_of(records, id, i, payload));
    } else {
        assert forall|j: int, other: NodeView| 0 <= j < i implies !#[trigger] describes(records[j], other) by {
            if describes(records[j], other) {
                let m = choose|m: int| 0 <= m < places.len() && #[trigger] places[m] == j;
                assert(m == 0 || places[0] < places[m]);
            }
        }
        assert(is_first_description(records, i, payload));
        if let Some(id) = file_id {
            assert forall|j: int, other: NodeView|
                0 <= j < records.len() && #[trigger] describes(records[j], other) implies !describes_id(
                other,
                id,
            ) by {
                let m = choose|m: int|
                    0 <= m < places.len() && #[trigger] places[m] == j && all[m]
                        == metadata_of(other, record_time(records[j]));
                assert(!says(all[m].id, id));
                lemma_describes_id(other, record_time(records[j]), id);
            }
        }
    }
    assert(is_description(records, file_id, i, payload));
}

/// A session has the working directory and the model provider of its description, where that has
/// them, and no other.
pub proof fn description_tells_directory_and_provider(
    path: Seq<char>,
    read: FileReadView,
    index: Option<IndexView>,
    facts: FactsView,
    s: SessionView,
    i: int,
    payload: NodeView,
)
    requires
        parsed(path, read, index, facts) == Ok::<SessionView, Seq<WarningView>>(s),
        is_description(jsonl_records(read), filename_id(path, facts.windows), i, payload),
    ensures
        forall|t: Seq<char>|
            s.cwd == Some(t) <==> #[trigger] holds_text_at(payload, "cwd"@, t) && !is_blank(t),
        forall|t: Seq<char>| #[trigger]
            holds_text_at(payload, "model_provider"@, t) ==> s.model_provider == sanitized(t, 80),
        s.model_provider is Some ==> exists|t: Seq<char>| #[trigger]
            holds_text_at(payload, "model_provider"@, t),
{
    lemma_selected_is_described(jsonl_records(read), filename_id(path, facts.windows));
    field_is_the_first_of_its_name(payload, "cwd"@);
    field_is_the_first_of_its_name(payload, "model_provider"@);
    if let Some(t) = text_field_of(payload, "model_provider"@) {
        assert(holds_text_at(payload, "model_provider"@, t));
    }
    if let Some(t) = text_field_of(payload, "cwd"@) {
        assert(holds_text_at(payload, "cwd"@, t));
    }
}

/// Whether a description says that its session was started by `label`: as a text, or as the name of
/// the only entry of a table.
pub open spec fn started_by(payload: NodeView, label: Seq<char>) -> bool {
    ||| holds_text_at(payload, "source"@, label)
    ||| exists|value: NodeView| #[trigger]
        holds_at(payload, "source"@, NodeView::Table(seq![(label, value)]))
}

/// A session is non-interactive exactly where its description says that a subagent started its
/// thread, or that it was started by `exec`, `subagent` or `mcp`; else it is interactive exactly where
/// it was started by `cli`, `vscode`, `desktop` or `user`, or its thread by `user`.
pub proof fn description_tells_interaction(
    path: Seq<char>,
    read: FileReadView,
    index: Option<IndexView>,
    facts: FactsView,
    s: SessionView,
    i: int,
    payload: NodeView,
)
    requires
        parsed(path, read, index, facts) == Ok::<SessionView, Seq<WarningView>>(s),
        is_description(jsonl_records(read), filename_id(path, facts.windows), i, payload),
    ensures
        s.interaction == InteractionType::NonInteractive <==> {
            ||| holds_text_at(payload, "thread_source"@, "subagent"@)
            ||| started_by(payload, "exec"@)
            ||| started_by(payload, "subagent"@)
            ||| started_by(payload, "mcp"@)
        },
        s.interaction == InteractionType::Interactive <==> s.interaction != InteractionType::NonInteractive
            && {
            ||| holds_text_at(payload, "thread_source"@, "user"@)
            ||| started_by(payload, "cli"@)
            ||| started_by(payload, "vscode"@)
            ||| started_by(payload, "desktop"@)
            ||| started_by(payload, "user"@)
        },
{
    lemma_selected_is_described(jsonl_records(read), filename_id(path, facts.windows));
    lemma_started_by(payload, "exec"@);
    lemma_started_by(payload, "subagent"@);
    lemma_started_by(payload, "mcp"@);
    lemma_started_by(payload, "cli"@);
    lemma_started_by(payload, "vscode"@);
    lemma_started_by(payload, "desktop"@);
    lemma_started_by(payload, "user"@);
    field_is_the_first_of_its_name(payload, "thread_source"@);
    assert(holds_text_at(payload, "thread_source"@, "subagent"@) <==> text_field_of(payload, "thread_source"@)
        == Some("subagent"@));
    assert(holds_text_at(payload, "thread_source"@, "user"@) <==> text_field_of(payload, "thread_source"@)
        == Some("user"@));
}

proof fn lemma_started_by(payload: NodeView, label: Seq<char>)
    ensures
        started_by(payload, label) <==> says(
            match field_of(payload, "source"@) {
                Some(value) => label_of(value),
                None => None,
            },
            label,
        ),
{
    field_is_the_first_of_its_name(payload, "source"@);
    assert(holds_text_at(payload, "source"@, label) <==> field_of(payload, "source"@) == Some(
        NodeView::Text(label),
    ));
    if let Some(NodeView::Table(entries)) = field_of(payload, "source"@) {
        if entries.len() == 1 && entries[0].0 == label {
            let value = entries[0].1;
            assert(entries =~= seq![(label, value)]);
            assert(holds_at(payload, "source"@, NodeView::Table(seq![(label, value)])));
        }
    }
    if started_by(payload, label) && !holds_text_at(payload, "source"@, label) {
        let value = choose|value: NodeView| #[trigger]
            holds_at(payload, "source"@, NodeView::Table(seq![(label, value)]));
        assert(field_of(payload, "source"@) == Some(NodeView::Table(seq![(label, value)])));
    }
}

/// A session that no record describes has no working directory and no model provider, and nothing is
/// known of how it was started.
pub proof fn without_description_nothing_is_known(
    path: Seq<char>,
    read: FileReadView,
    index: Option<IndexView>,
    facts: FactsView,
    s: SessionView,
)
    requires
        parsed(path, read, index, facts) == Ok::<SessionView, Seq<WarningView>>(s),
        forall|i: int, payload: NodeView|
            0 <= i < jsonl_records(read).len() ==> !#[trigger] describes(jsonl_records(read)[i], payload),
    ensures
        s.cwd is None,
        s.model_provider is None,
        s.interaction == InteractionType::Unknown,
{
    let records = jsonl_records(read);
    let file_id = filename_id(path, facts.windows);
    lemma_selected_is_described(records, file_id);
    if selected(gathered(records).metadata, file_id) is Some {
        let (i, payload) = choose|i: int, payload: NodeView| #[trigger]
            is_description(records, file_id, i, payload);
        assert(describes(records[i], payload));
    }
}

/// Whether record `i` is stamped with `at` and no record before it is stamped.
pub open spec fn is_first_stamp(records: Seq<NodeView>, i: int, at: (int, int)) -> bool {
    &&& 0 <= i < records.len()
    &&& is_stamped(records[i], at)
    &&& forall|j: int, other: (int, int)| 0 <= j < i ==> !#[trigger] is_stamped(records[j], other)
}

proof fn lemma_first_stamp(records: Seq<NodeView>)
    ensures
        gathered(records).first_timestamp matches Some(at) ==> exists|i: int| #[trigger]
            is_first_stamp(records, i, at),
        gathered(records).first_timestamp is None ==> forall|j: int, other: (int, int)|
            0 <= j < records.len() ==> !#[trigger] is_stamped(records[j], other),
    decreases records.len(),
{
    if records.len() > 0 {
        let less = records.drop_last();
        lemma_first_stamp(less);
        let n = records.len() - 1;
        if let Some(at) = gathered(less).first_timestamp {
            let i = choose|i: int| #[trigger] is_first_stamp(less, i, at);
            assert forall|j: int, other: (int, int)| 0 <= j < i implies !#[trigger] is_stamped(
                records[j],
                other,
            ) by {
                assert(less[j] == records[j]);
            }
            assert(is_first_stamp(records, i, at));
        } else {
            assert forall|j: int, other: (int, int)| 0 <= j < n implies !#[trigger] is_stamped(
                records[j],
                other,
            ) by {
                assert(less[j] == records[j]);
                assert(!is_stamped(less[j], other));
            }
            match record_time(records.last()) {
                Some(at) => {
                    lemma_record_time(records.last(), at);
                    assert(is_first_stamp(records, n, at));
                },
                None => {
                    assert forall|j: int, other: (int, int)|
                        0 <= j < records.len() implies !#[trigger] is_stamped(records[j], other) by {
                        if j == n {
                            lemma_record_time(records.last(), other);
                        }
                    }
                },
            }
        }
    }
}

/// A session was created when its description says so by its own stamp or, where it has none, by
/// that of its record.
pub proof fn description_tells_creation(
    path: Seq<char>,
    read: FileReadView,
    index: Option<IndexView>,
    facts: FactsView,
    s: SessionView,
    i: int,
    payload: NodeView,
    at: (int, int),
)
    requires
        parsed(path, read, index, facts) == Ok::<SessionView, Seq<WarningView>>(s),
        is_description(jsonl_records(read), filename_id(path, facts.windows), i, payload),
        is_stamped(payload, at) || (is_stamped(jsonl_records(read)[i], at) && forall|other: (int, int)|
            !#[trigger] is_stamped(payload, other)),
    ensures
        s.created_at == at,
{
    lemma_selected_is_described(jsonl_records(read), filename_id(path, facts.windows));
    lemma_record_time(payload, at);
    lemma_record_time(jsonl_records(read)[i], at);
    if let Some(other) = record_time(payload) {
        lemma_record_time(payload, other);
    }
}

/// Where its description has no stamp, a session was created at the first stamp of its file; without
/// any, when the file was last changed; and where that is not known, now.
pub proof fn creation_falls_back_to_the_file(
    path: Seq<char>,
    read: FileReadView,
    index: Option<IndexView>,
    facts: FactsView,
    s: SessionView,
)
    requires
        parsed(path, read, index, facts) == Ok::<SessionView, Seq<WarningView>>(s),
        forall|i: int, payload: NodeView, at: (int, int)|
            #![trigger is_description(jsonl_records(read), filename_id(path, facts.windows), i, payload), is_stamped(payload, at)]
            is_description(jsonl_records(read), filename_id(path, facts.windows), i, payload)
                ==> !is_stamped(payload, at) && !is_stamped(jsonl_records(read)[i], at),
    ensures
        forall|i: int, at: (int, int)| #[trigger]
            is_first_stamp(jsonl_records(read), i, at) ==> s.created_at == at,
        (forall|i: int, at: (int, int)|
            0 <= i < jsonl_records(read).len() ==> !#[trigger] is_stamped(jsonl_records(read)[i], at))
            ==> s.created_at == (match facts.modified_at {
            Some(at) => at,
            None => facts.now,
        }),
{
    let records = jsonl_records(read);
    let file_id = filename_id(path, facts.windows);
    lemma_selected_is_described(records, file_id);
    let chosen = selected(gathered(records).metadata, file_id);
    if chosen is Some {
        let (i, payload) = choose|i: int, payload: NodeView| #[trigger]
            is_description(records, file_id, i, payload);
        if let Some(at) = record_time(payload) {
            lemma_record_time(payload, at);
            assert(is_stamped(payload, at));
        }
        if let Some(at) = record_time(records[i]) {
            lemma_record_time(records[i], at);
            assert(!is_stamped(payload, at));
        }
        assert(chosen->0.created_at is None);
    }
    lemma_first_stamp(records);
    assert forall|i: int, at: (int, int)| #[trigger] is_first_stamp(records, i, at) implies s.created_at
        == at by {
        assert(is_stamped(records[i], at));
        let first = gathered(records).first_timestamp;
        assert(first is Some);
        let k = choose|k: int| #[trigger] is_first_stamp(records, k, first->0);
        if k < i {
            assert(!is_stamped(records[k], first->0));
        } else if i < k {
            assert(!is_stamped(records[i], at));
        }
        lemma_record_time(records[i], at);
        lemma_record_time(records[k], first->0);
    }
    if let Some(first) = gathered(records).first_timestamp {
        let k = choose|k: int| #[trigger] is_first_stamp(records, k, first);
        assert(is_stamped(records[k], first));
    }
}

/// Whether record `r` is a turn whose payload holds text `t` under `key`.
pub open spec fn is_turn_with(r: NodeView, key: Seq<char>, t: Seq<char>) -> bool {
    holds_text_at(r, "type"@, "turn_context"@) && exists|payload: NodeView| #[trigger]
        holds_at(r, "payload"@, payload) && holds_text_at(payload, key, t)
}

/// Whether record `i` is the last turn with a text under `key`, and `t` that text.
pub open spec fn is_last_turn_with(records: Seq<NodeView>, key: Seq<char>, i: int, t: Seq<char>) -> bool {
    &&& 0 <= i < records.len()
    &&& is_turn_with(records[i], key, t)
    &&& forall|j: int, other: Seq<char>|
        i < j < records.len() ==> !#[trigger] is_turn_with(records[j], key, other)
}

spec fn turn_text(r: NodeView, key: Seq<char>) -> Option<Seq<char>> {
    if says(text_field_of(r, "type"@), "turn_context"@) {
        match field_of(r, "payload"@) {
            Some(payload) => text_field_of(payload, key),
            None => None,
        }
    } else {
        None
    }
}

proof fn lemma_turn_text(r: NodeView, key: Seq<char>, t: Seq<char>)
    ensures
        turn_text(r, key) == Some(t) <==> is_turn_with(r, key, t),
{
    field_is_the_first_of_its_name(r, "type"@);
    field_is_the_first_of_its_name(r, "payload"@);
    assert(holds_text_at(r, "type"@, "turn_context"@) <==> field_of(r, "type"@) == Some(
        NodeView::Text("turn_context"@),
    ));
    if let Some(payload) = field_of(r, "payload"@) {
        assert(holds_at(r, "payload"@, payload));
        field_is_the_first_of_its_name(payload, key);
        assert(holds_text_at(payload, key, t) <==> field_of(payload, key) == Some(NodeView::Text(t)));
    }
}

proof fn lemma_last_turn(records: Seq<NodeView>)
    ensures
        gathered(records).model matches Some(t) ==> exists|i: int| #[trigger]
            is_last_turn_with(records, "model"@, i, t),
        gathered(records).model is None ==> forall|j: int, t: Seq<char>|
            0 <= j < records.len() ==> !#[trigger] is_turn_with(records[j], "model"@, t),
        gathered(records).summary matches Some(t) ==> exists|i: int| #[trigger]
            is_last_turn_with(records, "summary"@, i, t),
        gathered(records).summary is None ==> forall|j: int, t: Seq<char>|
            0 <= j < records.len() ==> !#[trigger] is_turn_with(records[j], "summary"@, t),
    decreases records.len(),
{
    if records.len() > 0 {
        lemma_last_turn(records.drop_last());
        lemma_last_turn_step(records, "model"@, gathered(records.drop_last()).model, gathered(records).model);
        lemma_last_turn_step(
            records,
            "summary"@,
            gathered(records.drop_last()).summary,
            gathered(records).summary,
        );
    }
}

proof fn lemma_last_turn_step(
    records: Seq<NodeView>,
    key: Seq<char>,
    before: Option<Seq<char>>,
    now: Option<Seq<char>>,
)
    requires
        records.len() > 0,
        now == or_else(turn_text(records.last(), key), before),
        before matches Some(t) ==> exists|i: int| #[trigger]
            is_last_turn_with(records.drop_last(), key, i, t),
        before is None ==> forall|j: int, t: Seq<char>|
            0 <= j < records.len() - 1 ==> !#[trigger] is_turn_with(records.drop_last()[j], key, t),
    ensures
        now matches Some(t) ==> exists|i: int| #[trigger] is_last_turn_with(records, key, i, t),
        now is None ==> forall|j: int, t: Seq<char>|
            0 <= j < records.len() ==> !#[trigger] is_turn_with(records[j], key, t),
{
    let less = records.drop_last();
    let n = records.len() - 1;
    match turn_text(records.last(), key) {
        Some(t) => {
            lemma_turn_text(records.last(), key, t);
            assert(is_last_turn_with(records, key, n, t));
        },
        None => {
            assert forall|other: Seq<char>| !#[trigger] is_turn_with(records[n], key, other) by {
                lemma_turn_text(records.last(), key, other);
            }
            match before {
                Some(t) => {
                    let i = choose|i: int| #[trigger] is_last_turn_with(less, key, i, t);
                    assert forall|j: int, other: Seq<char>|
                        i < j < records.len() implies !#[trigger] is_turn_with(records[j], key, other) by {
                        if j < n {
                            assert(less[j] == records[j]);
                        }
                    }
                    assert(less[i] == records[i]);
                    assert(is_last_turn_with(records, key, i, t));
                },
                None => {
                    assert forall|j: int, t: Seq<char>|
                        0 <= j < records.len() implies !#[trigger] is_turn_with(records[j], key, t) by {
                        if j < n {
                            assert(less[j] == records[j]);
                            assert(!is_turn_with(less[j], key, t));
                        }
                    }
                },
            }
        },
    }
}

proof fn lemma_last_turn_is_one(
    records: Seq<NodeView>,
    key: Seq<char>,
    i: int,
    t: Seq<char>,
    k: int,
    u: Seq<char>,
)
    requires
        is_last_turn_with(records, key, i, t),
        is_last_turn_with(records, key, k, u),
    ensures
        t == u,
{
    if i < k {
        assert(!is_turn_with(records[k], key, u));
    } else if k < i {
        assert(!is_turn_with(records[i], key, t));
    }
    lemma_turn_text(records[i], key, t);
    lemma_turn_text(records[k], key, u);
}

/// A session has the model and the summary of the last turn that tells them, sanitized, the model to
/// 80 characters and the summary to 240, and none where no turn tells it.
pub proof fn last_turn_tells_model_and_summary(
    path: Seq<char>,
    read: FileReadView,
    index: Option<IndexView>,
    facts: FactsView,
    s: SessionView,
)
    requires
        parsed(path, read, index, facts) == Ok::<SessionView, Seq<WarningView>>(s),
    ensures
        forall|i: int, t: Seq<char>| #[trigger]
            is_last_turn_with(jsonl_records(read), "model"@, i, t) ==> s.model == sanitized(t, 80),
        forall|i: int, t: Seq<char>| #[trigger]
            is_last_turn_with(jsonl_records(read), "summary"@, i, t) ==> s.summary == sanitized(t, 240),
        s.model is Some ==> exists|i: int, t: Seq<char>| #[trigger]
            is_last_turn_with(jsonl_records(read), "model"@, i, t),
        s.summary is Some ==> exists|i: int, t: Seq<char>| #[trigger]
            is_last_turn_with(jsonl_records(read), "summary"@, i, t),
{
    let records = jsonl_records(read);
    let g = gathered(records);
    lemma_last_turn(records);
    assert forall|i: int, t: Seq<char>| #[trigger] is_last_turn_with(records, "model"@, i, t) implies s.model
        == sanitized(t, 80) by {
        assert(is_turn_with(records[i], "model"@, t));
        assert(g.model is Some);
        let k = choose|k: int| #[trigger] is_last_turn_with(records, "model"@, k, g.model->0);
        lemma_last_turn_is_one(records, "model"@, i, t, k, g.model->0);
    }
    assert forall|i: int, t: Seq<char>| #[trigger] is_last_turn_with(records, "summary"@, i, t) implies s.summary
        == sanitized(t, 240) by {
        assert(is_turn_with(records[i], "summary"@, t));
        assert(g.summary is Some);
        let k = choose|k: int| #[trigger] is_last_turn_with(records, "summary"@, k, g.summary->0);
        lemma_last_turn_is_one(records, "summary"@, i, t, k, g.summary->0);
    }
    if let Some(t) = g.model {
        let k = choose|k: int| #[trigger] is_last_turn_with(records, "model"@, k, t);
        assert(is_last_turn_with(records, "model"@, k, t));
    }
    if let Some(t) = g.summary {
        let k = choose|k: int| #[trigger] is_last_turn_with(records, "summary"@, k, t);
        assert(is_last_turn_with(records, "summary"@, k, t));
    }
}

/// A file without an id in its name is a session exactly where its description names one that is not
/// blank, which is then its id; else that is told of after its other problems.
pub proof fn session_has_the_id_of_its_file(
    path: Seq<char>,
    read: FileReadView,
    index: Option<IndexView>,
    facts: FactsView,
    i: int,
    payload: NodeView,
)
    requires
        is_description(jsonl_records(read), filename_id(path, facts.windows), i, payload),
        filename_id(path, facts.windows) is None,
    ensures
        forall|id: Seq<char>| #[trigger]
            describes_id(payload, id) && !is_blank(id) ==> (parsed(path, read, index, facts) matches Ok(s)
                && s.id == id),
        (forall|id: Seq<char>| #[trigger] describes_id(payload, id) ==> is_blank(id)) ==> (parsed(
            path,
            read,
            index,
            facts,
        ) matches Err(warnings) && warnings == jsonl_warnings(path, read).push(
            WarningView {
                kind: WarningKind::MissingField,
                path: Some(path),
                line: None,
                message: "会话文件缺少 id，且文件名不包含 UUID"@,
            },
        )),
{
    let records = jsonl_records(read);
    lemma_selected_is_described(records, filename_id(path, facts.windows));
    let time = record_time(records[i]);
    let m = metadata_of(payload, time);
    assert forall|id: Seq<char>| #[trigger] describes_id(payload, id) && !is_blank(id) implies (parsed(
        path,
        read,
        index,
        facts,
    ) matches Ok(s) && s.id == id) by {
        lemma_describes_id(payload, time, id);
    }
    if let Some(id) = m.id {
        lemma_describes_id(payload, time, id);
    }
}

/// What a session takes over unchanged: the id in the name of its file, the title of its index entry,
/// the path of the file and the problems met in it; it is one of Codex, and can be resumed as far as
/// its file and the CLI go.
pub proof fn session_takes_over_what_is_known(
    path: Seq<char>,
    read: FileReadView,
    index: Option<IndexView>,
    facts: FactsView,
    s: SessionView,
)
    requires
        parsed(path, read, index, facts) == Ok::<SessionView, Seq<WarningView>>(s),
    ensures
        filename_id(path, facts.windows) matches Some(id) ==> s.id == id,
        !is_blank(s.id),
        s.title == (match index {
            Some(entry) => entry.title,
            None => None,
        }),
        s.source == "codex"@,
        s.raw_path == path,
        s.warnings == jsonl_warnings(path, read),
        s.resume.state == ResumeState::Ready <==> facts.is_file && facts.cli_available,
        s.resume.state == ResumeState::SessionMissing <==> !facts.is_file,
        s.resume.state == ResumeState::CliMissing <==> facts.is_file && !facts.cli_available,
{
}

} // verus!
