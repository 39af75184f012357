//! What a repair does to the disk, whatever comes of its actions.

use vstd::prelude::*;

use crate::domain::RepairView;
use crate::paths::{joined, name_of, parent_of};
use crate::plain::{shows, shows_what_it_holds};
use crate::provider::ErrorView;
use crate::text::{decimal, signed_decimal};
use crate::toml::toml_tree;

use super::config::config_text;
use super::config_laws::{alias_is_copied_from_a_plain_default, can_lend_its_settings, configures};
use super::plan::{decided, planned, DecisionView, PlanView};
use super::repair::{
    action_of, begun, directory_of, next_step, purpose_extension, purpose_label, repair_error,
    rollback_failure, sibling_name, ActionView, EventView, Phase, Purpose, RepairState, StepView,
};

verus! {

/// The files of a disk: what each path holds.
pub type Disk = Map<Seq<char>, Seq<u8>>;

/// Whether every file of `before` is there in `after` and holds the same.
pub open spec fn keeps_files(before: Disk, after: Disk) -> bool {
    forall|path: Seq<char>| #[trigger]
        before.dom().contains(path) ==> after.dom().contains(path) && after[path] == before[path]
}

/// Whether a disk that nobody else writes to can go from `before` to `after` when `event` comes of
/// `action`: a new file takes no path of another, a replacement happens wholly or not at all, and
/// reading and checking change nothing.
pub open spec fn carries_out(action: ActionView, event: EventView, before: Disk, after: Disk) -> bool {
    match (action, event) {
        (ActionView::Read { path }, EventView::Contents(bytes)) => {
            after == before && before.dom().contains(path) && before[path] == bytes
        },
        (ActionView::Read { .. }, EventView::ReadFailed(_)) => after == before,
        (ActionView::WriteSibling { bytes, .. }, EventView::Written(path)) => {
            !before.dom().contains(path) && after == before.insert(path, bytes)
        },
        (ActionView::WriteSibling { .. }, EventView::NameTaken) => after == before,
        (ActionView::WriteSibling { .. }, EventView::WriteFailed(_)) => keeps_files(before, after),
        (ActionView::Replace { from, to }, EventView::Replaced) => {
            before.dom().contains(from) && after == before.insert(to, before[from]).remove(from)
        },
        (ActionView::Replace { .. }, EventView::ReplaceFailed(_)) => after == before,
        (ActionView::Discard { path }, EventView::Discarded) => {
            after == before || after == before.remove(path)
        },
        (ActionView::Validate { .. }, EventView::Accepted { .. }) => after == before,
        (ActionView::Validate { .. }, EventView::Rejected(_)) => after == before,
        _ => false,
    }
}

/// Whether `path` holds `bytes`.
pub open spec fn holds(disk: Disk, path: Seq<char>, bytes: Seq<u8>) -> bool {
    disk.dom().contains(path) && disk[path] == bytes
}

/// Whether no file of `first` but `config` has been lost or changed.
pub open spec fn others_kept(first: Disk, config: Seq<char>, disk: Disk) -> bool {
    forall|path: Seq<char>| #[trigger]
        first.dom().contains(path) && path != config ==> disk.dom().contains(path) && disk[path]
            == first[path]
}

/// Whether the copy of the old configuration is there, beside the files of `first`.
pub open spec fn backed_up(s: RepairState, first: Disk, disk: Disk) -> bool {
    &&& holds(disk, s.backup, s.original)
    &&& !first.dom().contains(s.backup)
}

/// Whether the file that is to take the place of the configuration is none of the files of `first`
/// and not the copy.
pub open spec fn temp_apart(s: RepairState, first: Disk) -> bool {
    &&& !first.dom().contains(s.temp)
    &&& s.temp != s.backup
}

/// Where a repair that found the disk `first` stands when the disk is `disk`.
pub open spec fn in_order(s: RepairState, first: Disk, disk: Disk) -> bool {
    let config = s.config_path;
    &&& first.dom().contains(config)
    &&& others_kept(first, config, disk)
    &&& s.phase != Phase::ReadConfig ==> s.original == first[config] && planned(
        config,
        s.original,
        s.alias,
    ) == Ok::<PlanView, ErrorView>(PlanView::Rewrite { text: s.rendered })
    &&& match s.phase {
        Phase::ReadConfig => holds(disk, config, first[config]),
        Phase::WriteBackup => holds(disk, config, first[config]),
        Phase::WriteTemp => holds(disk, config, s.original) && backed_up(s, first, disk),
        Phase::ReadTemp | Phase::Replace => holds(disk, config, s.original) && backed_up(
            s,
            first,
            disk,
        ) && temp_apart(s, first) && holds(disk, s.temp, vstd::utf8::encode_utf8(s.rendered)),
        Phase::DiscardFailed => holds(disk, config, s.original) && backed_up(s, first, disk)
            && temp_apart(s, first),
        Phase::DiscardTemp => holds(disk, config, vstd::utf8::encode_utf8(s.rendered))
            && backed_up(s, first, disk) && temp_apart(s, first),
        Phase::ReadInstalled | Phase::Validate => holds(
            disk,
            config,
            vstd::utf8::encode_utf8(s.rendered),
        ) && backed_up(s, first, disk),
        Phase::ReadBackup | Phase::WriteRollback => backed_up(s, first, disk)
            && disk.dom().contains(config),
        Phase::ReplaceBack => backed_up(s, first, disk) && temp_apart(s, first) && holds(
            disk,
            s.temp,
            s.original,
        ) && disk.dom().contains(config),
        Phase::DiscardRollbackFailed => backed_up(s, first, disk) && temp_apart(s, first)
            && says_rollback_failed(s.message, s.backup),
        Phase::DiscardRollback => holds(disk, config, s.original) && backed_up(s, first, disk)
            && temp_apart(s, first),
        Phase::ReadRestored => holds(disk, config, s.original) && backed_up(s, first, disk),
    }
}

/// Whether `message` tells that the old configuration could not be put back and where its copy is.
pub open spec fn says_rollback_failed(message: Seq<char>, backup: Seq<char>) -> bool {
    exists|cause: Seq<char>, reason: Seq<char>|
        message == #[trigger] rollback_failure(cause, reason, backup)
}

/// What a repair that found the disk `first` leaves behind: the old configuration in its place
/// where nothing was to be done or something failed; the new one, beside a copy of the old one,
/// where it succeeded. Where even putting the old one back failed, its copy is there and the error
/// tells so.
pub open spec fn leaves_safe(
    outcome: Result<RepairView, ErrorView>,
    config: Seq<char>,
    alias: Seq<char>,
    first: Disk,
    disk: Disk,
) -> bool {
    &&& others_kept(first, config, disk)
    &&& match outcome {
        Ok(report) => if report.changed {
            &&& planned(config, first[config], alias) matches Ok(PlanView::Rewrite { text })
            &&& holds(disk, config, vstd::utf8::encode_utf8(text))
            &&& report.backup_path matches Some(backup)
            &&& holds(disk, backup, first[config])
        } else {
            holds(disk, config, first[config])
        },
        Err(ErrorView::Repair { message, backup_path: Some(backup) }) => {
            &&& holds(disk, backup, first[config])
            &&& holds(disk, config, first[config]) || exists|told: Seq<char>|
                says_rollback_failed(told, backup) && outcome == Err::<RepairView, ErrorView>(
                    #[trigger] repair_error(told, Some(backup)),
                )
        },
        Err(_) => holds(disk, config, first[config]),
    }
}

/// One step of a repair keeps the disk in order; where it ends the repair, it leaves it safe.
pub proof fn step_keeps_disk_in_order(
    s: RepairState,
    event: EventView,
    first: Disk,
    before: Disk,
    after: Disk,
)
    requires
        in_order(s, first, before),
        carries_out(action_of(s), event, before, after),
    ensures
        match next_step(s, event) {
            StepView::Next(next) => in_order(next, first, after) && next.config_path
                == s.config_path && next.alias == s.alias,
            StepView::Done(outcome) => leaves_safe(outcome, s.config_path, s.alias, first, after),
        },
{
    let config = s.config_path;
    assert(others_kept(first, config, after)) by {
        assert forall|path: Seq<char>| #[trigger]
            first.dom().contains(path) && path != config implies after.dom().contains(path)
            && after[path] == first[path] by {
            assert(before.dom().contains(path));
        }
    }
    match s.phase {
        Phase::WriteBackup => {
            if let EventView::Written(path) = event {
                assert(path != config);
            }
        },
        Phase::ReadBackup => {
            if let EventView::ReadFailed(reason) = event {
                assert(says_rollback_failed(
                    rollback_failure(s.message, reason, s.backup),
                    s.backup,
                ));
            }
        },
        Phase::WriteRollback => {
            let full = super::repair::names_exhausted();
            assert(says_rollback_failed(rollback_failure(s.message, full, s.backup), s.backup));
            if let EventView::WriteFailed(reason) = event {
                assert(says_rollback_failed(
                    rollback_failure(s.message, reason, s.backup),
                    s.backup,
                ));
            }
        },
        Phase::ReplaceBack => {
            if let EventView::ReplaceFailed(reason) = event {
                assert(says_rollback_failed(
                    rollback_failure(s.message, reason, s.backup),
                    s.backup,
                ));
            }
        },
        Phase::DiscardRollbackFailed => {
            assert(says_rollback_failed(s.message, s.backup));
        },
        _ => {},
    }
}

/// Whether `states` are those that a repair goes through as `events` come of its actions and the
/// disk goes through `disks`.
pub open spec fn is_run(states: Seq<RepairState>, events: Seq<EventView>, disks: Seq<Disk>) -> bool {
    &&& states.len() == disks.len() == events.len() + 1
    &&& forall|i: int|
        0 <= i < events.len() ==> {
            &&& carries_out(
                action_of(states[i]),
                #[trigger] events[i],
                disks[i],
                disks[i + 1],
            )
            &&& next_step(states[i], events[i]) == StepView::Next(states[i + 1])
        }
}

/// A repair never loses the configuration: at every point of every run that starts at its beginning
/// the disk is in order, and whatever ends the run leaves it safe.
pub proof fn repair_never_loses_the_configuration(
    codex_home: Seq<char>,
    states: Seq<RepairState>,
    events: Seq<EventView>,
    disks: Seq<Disk>,
    ending: EventView,
    after: Disk,
)
    requires
        is_run(states, events, disks),
        states[0] == begun(states[0].config_path, codex_home, states[0].alias),
        disks[0].dom().contains(states[0].config_path),
        carries_out(action_of(states.last()), ending, disks.last(), after),
    ensures
        in_order(states.last(), disks[0], disks.last()),
        next_step(states.last(), ending) matches StepView::Done(outcome) ==> leaves_safe(
            outcome,
            states[0].config_path,
            states[0].alias,
            disks[0],
            after,
        ),
{
    lemma_run_in_order(codex_home, states, events, disks);
    step_keeps_disk_in_order(states.last(), ending, disks[0], disks.last(), after);
}

proof fn lemma_run_in_order(
    codex_home: Seq<char>,
    states: Seq<RepairState>,
    events: Seq<EventView>,
    disks: Seq<Disk>,
)
    requires
        is_run(states, events, disks),
        states[0] == begun(states[0].config_path, codex_home, states[0].alias),
        disks[0].dom().contains(states[0].config_path),
    ensures
        in_order(states.last(), disks[0], disks.last()),
        states.last().config_path == states[0].config_path,
        states.last().alias == states[0].alias,
    decreases events.len(),
{
    if events.len() > 0 {
        let n = events.len() - 1;
        assert forall|i: int| 0 <= i < events.drop_last().len() implies {
            &&& carries_out(
                action_of(states.drop_last()[i]),
                #[trigger] events.drop_last()[i],
                disks.drop_last()[i],
                disks.drop_last()[i + 1],
            )
            &&& next_step(states.drop_last()[i], events.drop_last()[i]) == StepView::Next(
                states.drop_last()[i + 1],
            )
        } by {
            assert(events.drop_last()[i] == events[i]);
        }
        lemma_run_in_order(codex_home, states.drop_last(), events.drop_last(), disks.drop_last());
        assert(events[n] == events.last());
        step_keeps_disk_in_order(states[n], events[n], disks[0], disks[n], disks[n + 1]);
    }
}

/// The paths that the repair `s` may have added to the disk so far.
pub open spec fn added_paths(s: RepairState) -> Set<Seq<char>> {
    match s.phase {
        Phase::ReadConfig | Phase::WriteBackup => Set::empty(),
        Phase::WriteTemp
        | Phase::ReadInstalled
        | Phase::Validate
        | Phase::ReadBackup
        | Phase::WriteRollback
        | Phase::ReadRestored => set![s.backup],
        _ => set![s.backup, s.temp],
    }
}

/// Whether a disk on which files can be removed goes from `before` to `after`: what is discarded is
/// gone, and a file that could not be written is not there.
pub open spec fn carries_out_tidily(action: ActionView, event: EventView, before: Disk, after: Disk) -> bool {
    &&& carries_out(action, event, before, after)
    &&& action matches ActionView::Discard { path } ==> after == before.remove(path)
    &&& event is WriteFailed ==> after == before
}

/// The paths of the files that `outcome` tells to have been added: the copy of the old configuration,
/// if any.
pub open spec fn told_paths(outcome: Result<RepairView, ErrorView>) -> Set<Seq<char>> {
    match outcome {
        Ok(report) => match report.backup_path {
            Some(backup) => set![backup],
            None => Set::empty(),
        },
        Err(ErrorView::Repair { backup_path: Some(backup), .. }) => set![backup],
        Err(_) => Set::empty(),
    }
}

/// Whether `states` are those that a repair goes through as `events` come of its actions on a disk
/// on which files can be removed and which goes through `disks`.
pub open spec fn is_tidy_run(states: Seq<RepairState>, events: Seq<EventView>, disks: Seq<Disk>) -> bool {
    &&& is_run(states, events, disks)
    &&& forall|i: int|
        0 <= i < events.len() ==> carries_out_tidily(
            action_of(states[i]),
            #[trigger] events[i],
            disks[i],
            disks[i + 1],
        )
}

/// A repair leaves no temporary file behind where discarding works: at every point of every run that
/// starts at its beginning the disk holds no files but those it held and those the repair still
/// needs, and once the run has ended none but those it held and the copy of the old configuration
/// that the outcome tells about.
pub proof fn repair_leaves_no_temporary_file(
    codex_home: Seq<char>,
    states: Seq<RepairState>,
    events: Seq<EventView>,
    disks: Seq<Disk>,
    ending: EventView,
    after: Disk,
)
    requires
        is_tidy_run(states, events, disks),
        states[0] == begun(states[0].config_path, codex_home, states[0].alias),
        disks[0].dom().contains(states[0].config_path),
        carries_out_tidily(action_of(states.last()), ending, disks.last(), after),
    ensures
        disks.last().dom().subset_of(disks[0].dom().union(added_paths(states.last()))),
        next_step(states.last(), ending) matches StepView::Done(outcome) ==> after.dom().subset_of(
            disks[0].dom().union(told_paths(outcome)),
        ),
{
    lemma_run_in_order(codex_home, states, events, disks);
    lemma_run_adds_only_what_it_needs(codex_home, states, events, disks);
    step_leaves_no_temporary_file(states.last(), ending, disks[0], disks.last(), after);
}

proof fn lemma_run_adds_only_what_it_needs(
    codex_home: Seq<char>,
    states: Seq<RepairState>,
    events: Seq<EventView>,
    disks: Seq<Disk>,
)
    requires
        is_tidy_run(states, events, disks),
        states[0] == begun(states[0].config_path, codex_home, states[0].alias),
        disks[0].dom().contains(states[0].config_path),
    ensures
        disks.last().dom().subset_of(disks[0].dom().union(added_paths(states.last()))),
    decreases events.len(),
{
    if events.len() > 0 {
        let n = events.len() - 1;
        let fewer = events.drop_last();
        assert forall|i: int| 0 <= i < fewer.len() implies {
            &&& carries_out(
                action_of(states.drop_last()[i]),
                #[trigger] fewer[i],
                disks.drop_last()[i],
                disks.drop_last()[i + 1],
            )
            &&& next_step(states.drop_last()[i], fewer[i]) == StepView::Next(
                states.drop_last()[i + 1],
            )
        } by {
            assert(fewer[i] == events[i]);
        }
        assert forall|i: int| 0 <= i < fewer.len() implies carries_out_tidily(
            action_of(states.drop_last()[i]),
            #[trigger] fewer[i],
            disks.drop_last()[i],
            disks.drop_last()[i + 1],
        ) by {
            assert(fewer[i] == events[i]);
        }
        lemma_run_adds_only_what_it_needs(codex_home, states.drop_last(), fewer, disks.drop_last());
        lemma_run_in_order(codex_home, states.drop_last(), fewer, disks.drop_last());
        assert(events[n] == events.last());
        step_leaves_no_temporary_file(states[n], events[n], disks[0], disks[n], disks[n + 1]);
    }
}

/// Where discarding works, one step of a repair adds no file but those it still needs, and a repair
/// that is done has added none but the copy of the old configuration that it tells about.
pub proof fn step_leaves_no_temporary_file(
    s: RepairState,
    event: EventView,
    first: Disk,
    before: Disk,
    after: Disk,
)
    requires
        in_order(s, first, before),
        carries_out_tidily(action_of(s), event, before, after),
        before.dom().subset_of(first.dom().union(added_paths(s))),
    ensures
        match next_step(s, event) {
            StepView::Next(next) => after.dom().subset_of(first.dom().union(added_paths(next))),
            StepView::Done(outcome) => after.dom().subset_of(
                first.dom().union(told_paths(outcome)),
            ),
        },
{
    let allowed = first.dom().union(added_paths(s));
    assert forall|path: Seq<char>| #[trigger] after.dom().contains(path) implies allowed.contains(path)
        || (event matches EventView::Written(new) && path == new) by {
        if before.dom().contains(path) {
            assert(allowed.contains(path));
        }
    }
}

/// Whether `bytes` are a configuration that can be read: UTF-8, and TOML behind a byte order mark or
/// without one.
pub open spec fn is_readable(bytes: Seq<u8>) -> bool {
    config_text(bytes) matches Some(text) && toml_tree(text) is Some
}

/// A repair succeeds with a change only where the agent accepted the configuration that took the
/// place of the old one, or there is no agent, and without one only where the configuration has the
/// alias already; nothing else ends it well.
pub proof fn only_acceptance_ends_a_repair_well(s: RepairState, event: EventView, report: RepairView)
    requires
        next_step(s, event) == StepView::Done(Ok(report)),
    ensures
        report.changed ==> s.phase == Phase::Validate && event is Accepted && report.backup_path == Some(
            s.backup,
        ),
        !report.changed ==> {
            &&& s.phase == Phase::ReadConfig
            &&& report.backup_path is None
            &&& event matches EventView::Contents(bytes) && is_readable(bytes) && configures(
                toml_tree(config_text(bytes)->0)->0,
                s.alias,
            )
        },
        report.config_path == s.config_path,
        report.alias == s.alias,
        shows(report.message, s.alias),
{
    let none = Seq::<char>::empty();
    if report.changed {
        if report.message == "已创建 provider 兼容别名 "@ + s.alias + "，Codex 严格配置校验通过"@ {
            shows_what_it_holds("已创建 provider 兼容别名 "@, s.alias, "，Codex 严格配置校验通过"@);
        } else {
            shows_what_it_holds(
                "已创建 provider 兼容别名 "@,
                s.alias,
                "；Codex CLI 不可用，已完成 TOML 重解析校验"@,
            );
        }
    } else {
        shows_what_it_holds("provider "@, s.alias, " 已存在，无需修改"@);
        if let EventView::Contents(bytes) = event {
            if let Some(text) = config_text(bytes) {
                if let Some(tree) = toml_tree(text) {
                    alias_is_copied_from_a_plain_default(tree, s.alias);
                    let decision = decided(tree, s.alias);
                    if let Ok(DecisionView::Copy { from }) = decision {
                        assert(can_lend_its_settings(tree, from));
                    }
                }
            }
        }
    }
}

/// The new configuration takes the place of the old one only after it was read back and can be read;
/// and in its place it is checked by the agent only after it was read there and can be read.
pub proof fn only_readable_configuration_is_put_in_place(s: RepairState, event: EventView, next: RepairState)
    requires
        next_step(s, event) == StepView::Next(next),
        next.phase != s.phase,
    ensures
        next.phase == Phase::Replace ==> s.phase == Phase::ReadTemp && (event matches EventView::Contents(bytes)
            && is_readable(bytes)),
        next.phase == Phase::Validate ==> s.phase == Phase::ReadInstalled && (event matches EventView::Contents(
            bytes,
        ) && is_readable(bytes)),
        next.phase == Phase::WriteTemp ==> s.phase == Phase::WriteBackup && event is Written,
        next.phase == Phase::ReplaceBack ==> s.phase == Phase::WriteRollback && event is Written,
        next.phase == Phase::WriteRollback ==> s.phase == Phase::ReadBackup && event == EventView::Contents(
            s.original,
        ),
{
}

/// Once the new configuration is in its place, whatever fails leads to putting the old one back, and
/// the reason is kept.
pub proof fn failure_in_place_is_rolled_back(s: RepairState, event: EventView)
    ensures
        s.phase == Phase::Validate ==> (event matches EventView::Rejected(reason) ==> (next_step(s, event) matches
            StepView::Next(next) && next.phase == Phase::ReadBackup && next.message == reason)),
        s.phase == Phase::ReadInstalled && event is ReadFailed ==> (next_step(s, event) matches StepView::Next(
            next,
        ) && next.phase == Phase::ReadBackup),
        s.phase == Phase::ReadInstalled ==> (event matches EventView::Contents(bytes) && !is_readable(bytes)
            ==> (next_step(s, event) matches StepView::Next(next) && next.phase == Phase::ReadBackup)),
{
}

/// A name that is taken is tried anew under the next number, 32 times in all; then the write has
/// failed.
pub proof fn taken_names_are_tried_again(s: RepairState)
    requires
        s.phase == Phase::WriteBackup || s.phase == Phase::WriteTemp || s.phase == Phase::WriteRollback,
    ensures
        s.attempt < 31 ==> next_step(s, EventView::NameTaken) == StepView::Next(
            RepairState { attempt: s.attempt + 1, ..s },
        ),
        s.attempt >= 31 ==> next_step(s, EventView::NameTaken) == next_step(
            s,
            EventView::WriteFailed("无法创建唯一同目录临时文件"@),
        ),
        next_step(s, EventView::WriteFailed("无法创建唯一同目录临时文件"@)) matches StepView::Done(outcome)
            && outcome is Err,
{
}

/// The states of a repair that is at `s` while `events` come one after the other, as long as it goes
/// on.
pub open spec fn after_events(s: RepairState, events: Seq<EventView>) -> StepView
    decreases events.len(),
{
    if events.len() == 0 {
        StepView::Next(s)
    } else {
        match next_step(s, events[0]) {
            StepView::Next(next) => after_events(next, events.drop_first()),
            done => done,
        }
    }
}

/// A repair that nothing fails succeeds: it reads the configuration, writes the copy and the new one,
/// reads that, puts it in place, reads it there and has it checked; the outcome names the copy.
pub proof fn undisturbed_repair_succeeds(
    config: Seq<char>,
    home: Seq<char>,
    alias: Seq<char>,
    bytes: Seq<u8>,
    text: Seq<char>,
    backup: Seq<char>,
    temp: Seq<char>,
    read_back: Seq<u8>,
    installed: Seq<u8>,
    checked: bool,
)
    requires
        planned(config, bytes, alias) == Ok::<PlanView, ErrorView>(PlanView::Rewrite { text }),
        is_readable(read_back),
        is_readable(installed),
    ensures
        ({
            let events = seq![
                EventView::Contents(bytes),
                EventView::Written(backup),
                EventView::Written(temp),
                EventView::Contents(read_back),
                EventView::Replaced,
                EventView::Discarded,
                EventView::Contents(installed),
                EventView::Accepted { checked },
            ];
            after_events(begun(config, home, alias), events) matches StepView::Done(Ok(report)) && report.changed
                && report.backup_path == Some(backup) && report.config_path == config && report.alias == alias
        }),
{
    reveal_with_fuel(after_events, 9);
    let events = seq![
        EventView::Contents(bytes),
        EventView::Written(backup),
        EventView::Written(temp),
        EventView::Contents(read_back),
        EventView::Replaced,
        EventView::Discarded,
        EventView::Contents(installed),
        EventView::Accepted { checked },
    ];
    let s1 = next_step(begun(config, home, alias), events[0])->Next_0;
    let s2 = next_step(s1, events[1])->Next_0;
    let s3 = next_step(s2, events[2])->Next_0;
    let s4 = next_step(s3, events[3])->Next_0;
    let s5 = next_step(s4, events[4])->Next_0;
    let s6 = next_step(s5, events[5])->Next_0;
    let s7 = next_step(s6, events[6])->Next_0;
    assert(events.drop_first()[0] == events[1]);
    assert(events.drop_first().drop_first()[0] == events[2]);
    assert(events.drop_first().drop_first().drop_first()[0] == events[3]);
    assert(events.drop_first().drop_first().drop_first().drop_first()[0] == events[4]);
    assert(events.drop_first().drop_first().drop_first().drop_first().drop_first()[0] == events[5]);
    assert(events.drop_first().drop_first().drop_first().drop_first().drop_first().drop_first()[0]
        == events[6]);
    assert(events.drop_first().drop_first().drop_first().drop_first().drop_first().drop_first().drop_first()[0]
        == events[7]);
}

/// A rejected configuration is put back: the copy is read, the old configuration written and put in
/// place and read there; the repair then fails with the reason, and names the copy.
pub proof fn rejected_configuration_is_put_back(s: RepairState, reason: Seq<char>, temp: Seq<char>)
    requires
        s.phase == Phase::Validate,
    ensures
        ({
            let events = seq![
                EventView::Rejected(reason),
                EventView::Contents(s.original),
                EventView::Written(temp),
                EventView::Replaced,
                EventView::Discarded,
                EventView::Contents(s.original),
            ];
            after_events(s, events) matches StepView::Done(Err(ErrorView::Repair { message, backup_path }))
                && backup_path == Some(s.backup) && shows(message, reason) && shows(message, s.backup)
        }),
{
    reveal_with_fuel(after_events, 7);
    let events = seq![
        EventView::Rejected(reason),
        EventView::Contents(s.original),
        EventView::Written(temp),
        EventView::Replaced,
        EventView::Discarded,
        EventView::Contents(s.original),
    ];
    assert(events.drop_first()[0] == events[1]);
    assert(events.drop_first().drop_first()[0] == events[2]);
    assert(events.drop_first().drop_first().drop_first()[0] == events[3]);
    assert(events.drop_first().drop_first().drop_first().drop_first()[0] == events[4]);
    assert(events.drop_first().drop_first().drop_first().drop_first().drop_first()[0] == events[5]);
    let none = Seq::<char>::empty();
    let told = "，已自动恢复原配置"@;
    let copy = "；配置备份: "@ + s.backup;
    let message = reason + told + copy;
    shows_what_it_holds(none, reason, told + copy);
    assert(message =~= none + reason + (told + copy));
    shows_what_it_holds(reason + told + "；配置备份: "@, s.backup, none);
    assert(message =~= reason + told + "；配置备份: "@ + s.backup + none);
}

/// What a repair reads, writes, replaces and discards: the configuration and what it holds in its
/// place, the new one and the copy where they were written, and nothing else.
pub proof fn repair_touches_only_its_files(s: RepairState)
    ensures
        ({
            let action = action_of(s);
            let reads_config = s.phase == Phase::ReadConfig || s.phase == Phase::ReadInstalled || s.phase
                == Phase::ReadRestored;
            let replaces = s.phase == Phase::Replace || s.phase == Phase::ReplaceBack;
            let discards = s.phase == Phase::DiscardFailed || s.phase == Phase::DiscardTemp || s.phase
                == Phase::DiscardRollbackFailed || s.phase == Phase::DiscardRollback;
            &&& reads_config ==> action == (ActionView::Read { path: s.config_path })
            &&& s.phase == Phase::ReadTemp ==> action == (ActionView::Read { path: s.temp })
            &&& s.phase == Phase::ReadBackup ==> action == (ActionView::Read { path: s.backup })
            &&& replaces ==> action == (ActionView::Replace { from: s.temp, to: s.config_path })
            &&& discards ==> action == (ActionView::Discard { path: s.temp })
            &&& s.phase == Phase::Validate ==> action == (ActionView::Validate { codex_home: s.codex_home })
            &&& s.phase == Phase::WriteBackup ==> action is WriteSibling && action->purpose == Purpose::Backup
                && action->bytes == s.original
            &&& s.phase == Phase::WriteTemp ==> action is WriteSibling && action->purpose == Purpose::Write
                && action->bytes == vstd::utf8::encode_utf8(s.rendered)
            &&& s.phase == Phase::WriteRollback ==> action is WriteSibling && action->purpose
                == Purpose::Rollback && action->bytes == s.original
        }),
{
}

/// The name of a file beside the configuration shows the name of the configuration, what the file is
/// for, the process, the time and the number of the attempt.
pub proof fn sibling_names_tell_their_purpose(
    config: Seq<char>,
    name: Seq<char>,
    purpose: Purpose,
    process: nat,
    nanos: int,
    attempt: nat,
    windows: bool,
) -> (sibling: Seq<char>)
    requires
        name_of(config, windows) == Some(name),
    ensures
        sibling_name(config, purpose, process, nanos, attempt, windows) == joined(
            directory_of(config, windows),
            sibling,
            windows,
        ),
        sibling == name + ".agentmux-"@ + (match purpose {
            Purpose::Backup => "backup"@,
            Purpose::Write => "write"@,
            Purpose::Rollback => "rollback"@,
        }) + "-"@ + decimal(process) + "-"@ + signed_decimal(nanos) + "-"@ + decimal(attempt) + (
        match purpose {
            Purpose::Backup => ".bak"@,
            Purpose::Write => ".tmp"@,
            Purpose::Rollback => ".tmp"@,
        }),
        parent_of(config, windows) matches Some(parent) ==> directory_of(config, windows) == parent,
        parent_of(config, windows) is None ==> directory_of(config, windows) == "."@,
{
    reveal_strlit(".");
    reveal_strlit("bak");
    reveal_strlit("tmp");
    reveal_strlit(".bak");
    reveal_strlit(".tmp");
    let head = name + ".agentmux-"@ + purpose_label(purpose) + "-"@ + decimal(process) + "-"@
        + signed_decimal(nanos) + "-"@ + decimal(attempt);
    assert("."@ + "bak"@ =~= ".bak"@);
    assert("."@ + "tmp"@ =~= ".tmp"@);
    let end = purpose_extension(purpose);
    assert(head + "."@ + end =~= head + ("."@ + end));
    head + "."@ + end
}

/// Before anything is written, a configuration that cannot be read ends the repair with its path and
/// the error of the system, and one that cannot be repaired with the reason for that.
pub proof fn nothing_is_written_for_a_hopeless_repair(s: RepairState, reason: Seq<char>, bytes: Seq<u8>)
    requires
        s.phase == Phase::ReadConfig,
    ensures
        next_step(s, EventView::ReadFailed(reason)) == StepView::Done(
            Err(ErrorView::Io { path: s.config_path, source: reason }),
        ),
        planned(s.config_path, bytes, s.alias) matches Err(e) ==> next_step(s, EventView::Contents(bytes))
            == StepView::Done(Err(e)),
{
}

/// Whether `step` ends a repair with an error that shows `reason` and names the copy `backup`.
pub open spec fn fails_with(step: StepView, reason: Seq<char>, backup: Option<Seq<char>>) -> bool {
    step matches StepView::Done(Err(ErrorView::Repair { message, backup_path })) && backup_path == backup && shows(
        message,
        reason,
    ) && (backup matches Some(path) ==> shows(message, path))
}

proof fn lemma_fails_with(head: Seq<char>, reason: Seq<char>, tail: Seq<char>, backup: Option<Seq<char>>)
    ensures
        fails_with(
            StepView::Done(Err(repair_error(head + reason + tail, backup))),
            reason,
            backup,
        ),
{
    let none = Seq::<char>::empty();
    let message = head + reason + tail;
    match backup {
        Some(path) => {
            let rest = tail + ("；配置备份: "@ + path);
            shows_what_it_holds(head, reason, rest);
            assert(message + ("；配置备份: "@ + path) =~= head + reason + rest);
            shows_what_it_holds(message + "；配置备份: "@, path, none);
            assert(message + ("；配置备份: "@ + path) =~= message + "；配置备份: "@ + path + none);
        },
        None => {
            let rest = tail + "；配置备份未创建"@;
            shows_what_it_holds(head, reason, rest);
            assert(message + "；配置备份未创建"@ =~= head + reason + rest);
        },
    }
}

/// A copy that cannot be written ends the repair without one; a new configuration that cannot be
/// written ends it beside the copy; and one that cannot be put in place is discarded first.  Each time
/// the reason is told.
pub proof fn failed_writes_are_told_with_their_reason(s: RepairState, reason: Seq<char>)
    ensures
        s.phase == Phase::WriteBackup ==> fails_with(next_step(s, EventView::WriteFailed(reason)), reason, None),
        s.phase == Phase::WriteTemp ==> fails_with(
            next_step(s, EventView::WriteFailed(reason)),
            reason,
            Some(s.backup),
        ),
        s.phase == Phase::Replace ==> (next_step(s, EventView::ReplaceFailed(reason)) matches StepView::Next(
            next,
        ) && next.phase == Phase::DiscardFailed && next.backup == s.backup && fails_with(
            next_step(next, EventView::Discarded),
            reason,
            Some(s.backup),
        )),
        s.phase == Phase::ReadTemp ==> (next_step(s, EventView::ReadFailed(reason)) matches StepView::Next(next)
            && next.phase == Phase::DiscardFailed && fails_with(
            next_step(next, EventView::Discarded),
            reason,
            Some(s.backup),
        )),
{
    let none = Seq::<char>::empty();
    let a = "无法创建配置备份: "@;
    let b = "无法写入同目录临时配置: "@;
    let c = "无法原子替换配置: "@;
    let d = "无法重新读取临时配置: "@;
    lemma_fails_with(a, reason, none, None);
    lemma_fails_with(b, reason, none, Some(s.backup));
    lemma_fails_with(c, reason, none, Some(s.backup));
    lemma_fails_with(d, reason, none, Some(s.backup));
    assert(a + reason + none =~= a + reason);
    assert(b + reason + none =~= b + reason);
    assert(c + reason + none =~= c + reason);
    assert(d + reason + none =~= d + reason);
}

/// Where the old configuration cannot be put back, the error tells why the repair failed, why that
/// failed too, and where the copy is.
pub proof fn failed_rollback_tells_both_reasons(s: RepairState, reason: Seq<char>)
    ensures
        s.phase == Phase::ReadBackup ==> fails_with(
            next_step(s, EventView::ReadFailed(reason)),
            reason,
            Some(s.backup),
        ) && fails_with(next_step(s, EventView::ReadFailed(reason)), s.message, Some(s.backup)),
        s.phase == Phase::WriteRollback ==> fails_with(
            next_step(s, EventView::WriteFailed(reason)),
            reason,
            Some(s.backup),
        ) && fails_with(next_step(s, EventView::WriteFailed(reason)), s.message, Some(s.backup)),
        s.phase == Phase::ReadRestored ==> fails_with(
            next_step(s, EventView::ReadFailed(reason)),
            reason,
            Some(s.backup),
        ) && fails_with(next_step(s, EventView::ReadFailed(reason)), s.message, Some(s.backup)),
        forall|bytes: Seq<u8>|
            s.phase == Phase::ReadBackup && bytes != s.original ==> fails_with(
                #[trigger] next_step(s, EventView::Contents(bytes)),
                s.message,
                Some(s.backup),
            ),
{
    let none = Seq::<char>::empty();
    let mid = "，自动回滚失败: "@;
    let end = "；请使用备份 "@ + s.backup;
    lemma_fails_with(s.message + mid, reason, end, Some(s.backup));
    lemma_fails_with(none, s.message, mid + reason + end, Some(s.backup));
    assert(rollback_failure(s.message, reason, s.backup) =~= s.message + mid + reason + end);
    assert(rollback_failure(s.message, reason, s.backup) =~= none + s.message + (mid + reason + end));
    let odd = "备份内容与原配置不一致"@;
    lemma_fails_with(none, s.message, mid + odd + end, Some(s.backup));
    assert(rollback_failure(s.message, odd, s.backup) =~= none + s.message + (mid + odd + end));
}

} // verus!
