//! Switching `~/.codex` to another profile, and saving the current account
//! as a profile: which steps run in which order, what progress is shown
//! meanwhile, which failures end the run and which are passed over.
//!
//! The steps themselves (quitting Codex, moving directories, linking) are
//! performed by the application; after each it reports what happened, and
//! the machine here answers with the next step.
use vstd::prelude::*;

use crate::account::{account_slug, suggested_profile_id, AccountInfo};
use crate::slug::{candidate, first_free, name_views};
use crate::text::{chars_of, extend_str, string_of};

verus! {

/// The progress notes shown while switching.
#[derive(Clone, Copy)]
pub enum Progress {
    QuittingCodex,
    RepairingHistory,
    SyncingCurrent,
    PreparingTarget,
    SharingHistory,
    LinkingCodexHome,
    LaunchingCodex,
    Finished,
}

/// A progress note as the window shows it.
pub struct ProgressNote {
    pub stage: String,
    pub message: String,
    pub percent: u8,
}

pub open spec fn progress_stage(p: Progress) -> Seq<char> {
    match p {
        Progress::QuittingCodex => "quitting_codex"@,
        Progress::RepairingHistory => "syncing_current"@,
        Progress::SyncingCurrent => "syncing_current"@,
        Progress::PreparingTarget => "preparing_target"@,
        Progress::SharingHistory => "sharing_history"@,
        Progress::LinkingCodexHome => "linking_codex_home"@,
        Progress::LaunchingCodex => "launching_codex"@,
        Progress::Finished => "done"@,
    }
}

pub open spec fn progress_message(p: Progress) -> Seq<char> {
    match p {
        Progress::QuittingCodex => "正在退出 Codex"@,
        Progress::RepairingHistory => "正在修复共享会话"@,
        Progress::SyncingCurrent => "正在同步当前账号"@,
        Progress::PreparingTarget => "正在准备目标 profile"@,
        Progress::SharingHistory => "正在共享会话和工作区"@,
        Progress::LinkingCodexHome => "正在切换 ~/.codex"@,
        Progress::LaunchingCodex => "正在启动 Codex"@,
        Progress::Finished => "切换完成"@,
    }
}

pub open spec fn progress_percent(p: Progress) -> u8 {
    match p {
        Progress::QuittingCodex => 8,
        Progress::RepairingHistory => 24,
        Progress::SyncingCurrent => 32,
        Progress::PreparingTarget => 48,
        Progress::SharingHistory => 64,
        Progress::LinkingCodexHome => 78,
        Progress::LaunchingCodex => 90,
        Progress::Finished => 100,
    }
}

/// The stage, text and percentage of a progress note.
pub fn progress_note(p: Progress) -> (r: ProgressNote)
    ensures
        r.stage@ == progress_stage(p),
        r.message@ == progress_message(p),
        r.percent == progress_percent(p),
{
    let (stage, message, percent): (&str, &str, u8) = match p {
        Progress::QuittingCodex => ("quitting_codex", "正在退出 Codex", 8),
        Progress::RepairingHistory => ("syncing_current", "正在修复共享会话", 24),
        Progress::SyncingCurrent => ("syncing_current", "正在同步当前账号", 32),
        Progress::PreparingTarget => ("preparing_target", "正在准备目标 profile", 48),
        Progress::SharingHistory => ("sharing_history", "正在共享会话和工作区", 64),
        Progress::LinkingCodexHome => ("linking_codex_home", "正在切换 ~/.codex", 78),
        Progress::LaunchingCodex => ("launching_codex", "正在启动 Codex", 90),
        Progress::Finished => ("done", "切换完成", 100),
    };
    ProgressNote { stage: string_of(&chars_of(stage)), message: string_of(&chars_of(message)), percent }
}

/// The outcome of a switch that went through.
pub struct SwitchResult {
    pub profile_id: String,
    pub launched: bool,
}

/// The steps of a switch. Each names the work the application does when
/// the machine asks for it.
#[derive(Clone, Copy)]
pub enum SwitchStep {
    /// Nothing has happened yet.
    Start,
    /// Find out whether the target profile exists.
    CheckTarget,
    /// Cache the usage of the active profile, then quit Codex.
    QuitCodex,
    /// Share the history of every profile and refresh their usage caches.
    ReconcileProfiles,
    /// Carry the workspace and desktop state of the active profile over.
    SyncActiveProfile,
    /// Make the target profile complete enough for Codex Desktop.
    HydrateTarget,
    /// Share history, desktop state and workspaces with the target.
    ShareTargetHistory,
    /// Find out whether `~/.codex` is a link, a directory or missing.
    InspectCodexHome,
    /// Remove the link `~/.codex`.
    RemoveCodexHomeLink,
    /// Link `~/.codex` to the target and record the activation time.
    LinkCodexHome,
    /// Start Codex.
    LaunchCodex,
    /// The switch is over.
    Finished,
}

/// What the application reports after a step.
pub enum StepEvent {
    /// The run begins.
    Begin,
    /// Whether the target profile exists.
    TargetChecked { exists: bool },
    /// Whether `~/.codex` is a link, and whether anything is there.
    CodexHomeInspected { is_link: bool, exists: bool },
    /// The step succeeded.
    Done,
    /// The step failed with this error.
    Failed { error: String },
}

/// What the machine asks for next: a step, with a progress note to show
/// first; or the end of the run.
pub enum SwitchAction {
    Run { progress: Option<Progress>, step: SwitchStep },
    Finish { progress: Option<Progress>, result: Result<SwitchResult, String> },
}

/// An event, with its error as text.
pub enum EventV {
    Begin,
    TargetChecked(bool),
    CodexHomeInspected(bool, bool),
    Done,
    Failed(Seq<char>),
}

pub open spec fn event_view(e: StepEvent) -> EventV {
    match e {
        StepEvent::Begin => EventV::Begin,
        StepEvent::TargetChecked { exists } => EventV::TargetChecked(exists),
        StepEvent::CodexHomeInspected { is_link, exists } => EventV::CodexHomeInspected(is_link, exists),
        StepEvent::Done => EventV::Done,
        StepEvent::Failed { error } => EventV::Failed(error@),
    }
}

/// An action, with texts as character sequences; a finished switch is
/// represented by the id of the profile it switched to and whether Codex
/// was launched.
pub enum ActionV {
    Run(Option<Progress>, SwitchStep),
    Finish(Option<Progress>, Result<(Seq<char>, bool), Seq<char>>),
}

pub open spec fn action_view(a: SwitchAction) -> ActionV {
    match a {
        SwitchAction::Run { progress, step } => ActionV::Run(progress, step),
        SwitchAction::Finish { progress, result } => ActionV::Finish(
            progress,
            match result {
                Ok(r) => Ok((r.profile_id@, r.launched)),
                Err(e) => Err(e@),
            },
        ),
    }
}

/// The events that each step can report.
pub open spec fn switch_accepts(step: SwitchStep, e: EventV) -> bool {
    match step {
        SwitchStep::Start => e is Begin,
        SwitchStep::CheckTarget => e is TargetChecked,
        SwitchStep::InspectCodexHome => e is CodexHomeInspected,
        SwitchStep::Finished => false,
        _ => e is Done || e is Failed,
    }
}

/// A step that runs after showing a note.
pub open spec fn run(p: Progress, s: SwitchStep) -> (SwitchStep, ActionV) {
    (s, ActionV::Run(Some(p), s))
}

/// A step that runs without a note.
pub open spec fn run_quietly(s: SwitchStep) -> (SwitchStep, ActionV) {
    (s, ActionV::Run(None, s))
}

/// The end of a failed run.
pub open spec fn fail(e: Seq<char>) -> (SwitchStep, ActionV) {
    (SwitchStep::Finished, ActionV::Finish(None, Err(e)))
}

/// The switch to profile `id`: the next step after `step` reported `e`.
/// Failures of the repairs of all profiles and of the active profile are
/// passed over; every other failure ends the run with its error.
pub open spec fn switch_next(id: Seq<char>, step: SwitchStep, e: EventV) -> (SwitchStep, ActionV) {
    match (step, e) {
        (SwitchStep::Start, _) => run_quietly(SwitchStep::CheckTarget),
        (SwitchStep::CheckTarget, EventV::TargetChecked(exists)) => if exists {
            run(Progress::QuittingCodex, SwitchStep::QuitCodex)
        } else {
            fail("profile 不存在："@ + id)
        },
        (SwitchStep::InspectCodexHome, EventV::CodexHomeInspected(is_link, exists)) => if is_link {
            run_quietly(SwitchStep::RemoveCodexHomeLink)
        } else if exists {
            fail("当前账号还没保存成 profile。请先保存当前账号。"@)
        } else {
            run_quietly(SwitchStep::LinkCodexHome)
        },
        (SwitchStep::ReconcileProfiles, _) => run(Progress::SyncingCurrent, SwitchStep::SyncActiveProfile),
        (SwitchStep::SyncActiveProfile, _) => run(Progress::PreparingTarget, SwitchStep::HydrateTarget),
        (_, EventV::Failed(error)) => fail(error),
        (SwitchStep::QuitCodex, _) => run(Progress::RepairingHistory, SwitchStep::ReconcileProfiles),
        (SwitchStep::HydrateTarget, _) => run(Progress::SharingHistory, SwitchStep::ShareTargetHistory),
        (SwitchStep::ShareTargetHistory, _) => run(Progress::LinkingCodexHome, SwitchStep::InspectCodexHome),
        (SwitchStep::RemoveCodexHomeLink, _) => run_quietly(SwitchStep::LinkCodexHome),
        (SwitchStep::LinkCodexHome, _) => run(Progress::LaunchingCodex, SwitchStep::LaunchCodex),
        (_, _) => (SwitchStep::Finished, ActionV::Finish(Some(Progress::Finished), Ok((id, true)))),
    }
}

/// Whether `step` can report event `e` (see `switch_accepts`).
pub fn switch_accepts_event(step: SwitchStep, e: &StepEvent) -> (r: bool)
    ensures
        r == switch_accepts(step, event_view(*e)),
{
    match step {
        SwitchStep::Start => matches!(e, StepEvent::Begin),
        SwitchStep::CheckTarget => matches!(e, StepEvent::TargetChecked { .. }),
        SwitchStep::InspectCodexHome => matches!(e, StepEvent::CodexHomeInspected { .. }),
        SwitchStep::Finished => false,
        _ => matches!(e, StepEvent::Done) || matches!(e, StepEvent::Failed { .. }),
    }
}

/// The next step of the switch to `profile_id`, after `step` reported `e`.
pub fn switch_step(profile_id: &str, step: SwitchStep, e: StepEvent) -> (r: (SwitchStep, SwitchAction))
    requires
        switch_accepts(step, event_view(e)),
    ensures
        (r.0, action_view(r.1)) == switch_next(profile_id@, step, event_view(e)),
{
    match (step, e) {
        (SwitchStep::Start, _) => (SwitchStep::CheckTarget, SwitchAction::Run { progress: None, step: SwitchStep::CheckTarget }),
        (SwitchStep::CheckTarget, StepEvent::TargetChecked { exists }) => {
            if exists {
                (SwitchStep::QuitCodex, SwitchAction::Run { progress: Some(Progress::QuittingCodex), step: SwitchStep::QuitCodex })
            } else {
                let mut m = chars_of("profile 不存在：");
                extend_str(&mut m, profile_id);
                (SwitchStep::Finished, SwitchAction::Finish { progress: None, result: Err(string_of(&m)) })
            }
        },
        (SwitchStep::InspectCodexHome, StepEvent::CodexHomeInspected { is_link, exists }) => {
            if is_link {
                (SwitchStep::RemoveCodexHomeLink, SwitchAction::Run { progress: None, step: SwitchStep::RemoveCodexHomeLink })
            } else if exists {
                let m = chars_of("当前账号还没保存成 profile。请先保存当前账号。");
                (SwitchStep::Finished, SwitchAction::Finish { progress: None, result: Err(string_of(&m)) })
            } else {
                (SwitchStep::LinkCodexHome, SwitchAction::Run { progress: None, step: SwitchStep::LinkCodexHome })
            }
        },
        (SwitchStep::ReconcileProfiles, _) => (
            SwitchStep::SyncActiveProfile,
            SwitchAction::Run { progress: Some(Progress::SyncingCurrent), step: SwitchStep::SyncActiveProfile },
        ),
        (SwitchStep::SyncActiveProfile, _) => (
            SwitchStep::HydrateTarget,
            SwitchAction::Run { progress: Some(Progress::PreparingTarget), step: SwitchStep::HydrateTarget },
        ),
        (_, StepEvent::Failed { error }) => (SwitchStep::Finished, SwitchAction::Finish { progress: None, result: Err(error) }),
        (SwitchStep::QuitCodex, _) => (
            SwitchStep::ReconcileProfiles,
            SwitchAction::Run { progress: Some(Progress::RepairingHistory), step: SwitchStep::ReconcileProfiles },
        ),
        (SwitchStep::HydrateTarget, _) => (
            SwitchStep::ShareTargetHistory,
            SwitchAction::Run { progress: Some(Progress::SharingHistory), step: SwitchStep::ShareTargetHistory },
        ),
        (SwitchStep::ShareTargetHistory, _) => (
            SwitchStep::InspectCodexHome,
            SwitchAction::Run { progress: Some(Progress::LinkingCodexHome), step: SwitchStep::InspectCodexHome },
        ),
        (SwitchStep::RemoveCodexHomeLink, _) => (
            SwitchStep::LinkCodexHome,
            SwitchAction::Run { progress: None, step: SwitchStep::LinkCodexHome },
        ),
        (SwitchStep::LinkCodexHome, _) => (
            SwitchStep::LaunchCodex,
            SwitchAction::Run { progress: Some(Progress::LaunchingCodex), step: SwitchStep::LaunchCodex },
        ),
        (_, _) => (
            SwitchStep::Finished,
            SwitchAction::Finish {
                progress: Some(Progress::Finished),
                result: Ok(SwitchResult { profile_id: string_of(&chars_of(profile_id)), launched: true }),
            },
        ),
    }
}

/// The steps of saving the current `~/.codex` as a profile.
#[derive(Clone, Copy)]
pub enum SaveStep {
    /// Nothing has happened yet.
    Start,
    /// Find out whether `~/.codex` is a link, a directory or missing.
    InspectCodexHome,
    /// Read the account of `~/.codex` and the names in the profile root.
    ReadAccount,
    /// Quit Codex.
    QuitCodex,
    /// Create the profile root and move `~/.codex` into it under the new id.
    MoveCodexHome,
    /// Share history, desktop state and workspaces with the new profile,
    /// and record its activation time.
    ShareProfile,
    /// Link `~/.codex` to the new profile.
    LinkCodexHome,
    /// Share the history of every profile and refresh their usage caches.
    ReconcileProfiles,
    /// Start Codex.
    LaunchCodex,
    /// Saving is over.
    Finished,
}

/// What the application reports after a step of saving.
pub enum SaveEvent {
    Begin,
    CodexHomeInspected { is_link: bool, exists: bool },
    /// The account found in `~/.codex`, and the names already in the
    /// profile root.
    AccountRead { info: AccountInfo, existing: Vec<String> },
    Done,
    Failed { error: String },
}

/// What saving asks for next: a step, or the end with the new profile's id.
pub enum SaveAction {
    Run(SaveStep),
    Finish(Result<String, String>),
}

/// Where saving stands, and the id chosen for the new profile once it is
/// known.
pub struct SaveState {
    pub step: SaveStep,
    pub profile_id: String,
}

/// The events that each step of saving can report.
pub open spec fn save_accepts(step: SaveStep, e: SaveEvent) -> bool {
    match step {
        SaveStep::Start => e is Begin,
        SaveStep::InspectCodexHome => e is CodexHomeInspected,
        SaveStep::ReadAccount => e matches SaveEvent::AccountRead { existing, .. } && existing.len() < usize::MAX,
        SaveStep::Finished => false,
        _ => e is Done || e is Failed,
    }
}

pub open spec fn save_action_view(a: SaveAction) -> Result<SaveStep, Result<Seq<char>, Seq<char>>> {
    match a {
        SaveAction::Run(s) => Ok(s),
        SaveAction::Finish(Ok(id)) => Err(Ok(id@)),
        SaveAction::Finish(Err(e)) => Err(Err(e@)),
    }
}

/// The step after `step` of saving, when it reported `e` (the account read
/// is handled apart, by `save_next_ok`). Every failure ends the run with
/// its error, except those of the repairs of all profiles.
pub open spec fn save_next(step: SaveStep, id: Seq<char>, e: SaveEvent) -> (SaveStep, Result<SaveStep, Result<Seq<char>, Seq<char>>>) {
    match (step, e) {
        (SaveStep::Start, _) => (SaveStep::InspectCodexHome, Ok(SaveStep::InspectCodexHome)),
        (SaveStep::InspectCodexHome, SaveEvent::CodexHomeInspected { is_link, exists }) => if !exists {
            (SaveStep::Finished, Err(Err("~/.codex 不存在。"@)))
        } else if is_link {
            (SaveStep::Finished, Err(Err("当前账号已经保存为 profile。"@)))
        } else {
            (SaveStep::ReadAccount, Ok(SaveStep::ReadAccount))
        },
        (SaveStep::ReadAccount, _) => (SaveStep::QuitCodex, Ok(SaveStep::QuitCodex)),
        (SaveStep::ReconcileProfiles, _) => (SaveStep::LaunchCodex, Ok(SaveStep::LaunchCodex)),
        (_, SaveEvent::Failed { error }) => (SaveStep::Finished, Err(Err(error@))),
        (SaveStep::QuitCodex, _) => (SaveStep::MoveCodexHome, Ok(SaveStep::MoveCodexHome)),
        (SaveStep::MoveCodexHome, _) => (SaveStep::ShareProfile, Ok(SaveStep::ShareProfile)),
        (SaveStep::ShareProfile, _) => (SaveStep::LinkCodexHome, Ok(SaveStep::LinkCodexHome)),
        (SaveStep::LinkCodexHome, _) => (SaveStep::ReconcileProfiles, Ok(SaveStep::ReconcileProfiles)),
        (_, _) => (SaveStep::Finished, Err(Ok(id))),
    }
}

/// The id under which saving keeps the account: chosen from the account
/// when it is read, kept otherwise.
pub open spec fn save_id_ok(old_id: Seq<char>, e: SaveEvent, id: Seq<char>) -> bool {
    match e {
        SaveEvent::AccountRead { info, existing } => exists|k: nat|
            first_free(account_slug(info), name_views(existing@), k) && id == candidate(account_slug(info), k),
        _ => id == old_id,
    }
}

/// Whether `step` of saving can report event `e` (see `save_accepts`).
pub fn save_accepts_event(step: SaveStep, e: &SaveEvent) -> (r: bool)
    ensures
        r == save_accepts(step, *e),
{
    match step {
        SaveStep::Start => matches!(e, SaveEvent::Begin),
        SaveStep::InspectCodexHome => matches!(e, SaveEvent::CodexHomeInspected { .. }),
        SaveStep::ReadAccount => match e {
            SaveEvent::AccountRead { existing, .. } => existing.len() < usize::MAX,
            _ => false,
        },
        SaveStep::Finished => false,
        _ => matches!(e, SaveEvent::Done) || matches!(e, SaveEvent::Failed { .. }),
    }
}

/// The next step of saving the current account, after `state.step`
/// reported `e`.
pub fn save_step(state: SaveState, e: SaveEvent) -> (r: (SaveState, SaveAction))
    requires
        save_accepts(state.step, e),
    ensures
        (r.0.step, save_action_view(r.1)) == save_next(state.step, r.0.profile_id@, e),
        save_id_ok(state.profile_id@, e, r.0.profile_id@),
{
    let id = state.profile_id;
    match (state.step, e) {
        (SaveStep::Start, _) => (SaveState { step: SaveStep::InspectCodexHome, profile_id: id }, SaveAction::Run(SaveStep::InspectCodexHome)),
        (SaveStep::InspectCodexHome, SaveEvent::CodexHomeInspected { is_link, exists }) => {
            if !exists {
                let m = chars_of("~/.codex 不存在。");
                (SaveState { step: SaveStep::Finished, profile_id: id }, SaveAction::Finish(Err(string_of(&m))))
            } else if is_link {
                let m = chars_of("当前账号已经保存为 profile。");
                (SaveState { step: SaveStep::Finished, profile_id: id }, SaveAction::Finish(Err(string_of(&m))))
            } else {
                (SaveState { step: SaveStep::ReadAccount, profile_id: id }, SaveAction::Run(SaveStep::ReadAccount))
            }
        },
        (SaveStep::ReadAccount, SaveEvent::AccountRead { info, existing }) => {
            let new_id = suggested_profile_id(&info, &existing);
            (SaveState { step: SaveStep::QuitCodex, profile_id: new_id }, SaveAction::Run(SaveStep::QuitCodex))
        },
        (SaveStep::ReconcileProfiles, _) => (SaveState { step: SaveStep::LaunchCodex, profile_id: id }, SaveAction::Run(SaveStep::LaunchCodex)),
        (_, SaveEvent::Failed { error }) => (SaveState { step: SaveStep::Finished, profile_id: id }, SaveAction::Finish(Err(error))),
        (SaveStep::QuitCodex, _) => (SaveState { step: SaveStep::MoveCodexHome, profile_id: id }, SaveAction::Run(SaveStep::MoveCodexHome)),
        (SaveStep::MoveCodexHome, _) => (SaveState { step: SaveStep::ShareProfile, profile_id: id }, SaveAction::Run(SaveStep::ShareProfile)),
        (SaveStep::ShareProfile, _) => (SaveState { step: SaveStep::LinkCodexHome, profile_id: id }, SaveAction::Run(SaveStep::LinkCodexHome)),
        (SaveStep::LinkCodexHome, _) => (SaveState { step: SaveStep::ReconcileProfiles, profile_id: id }, SaveAction::Run(SaveStep::ReconcileProfiles)),
        (_, _) => {
            let done = crate::provider::copy_string(&id);
            (SaveState { step: SaveStep::Finished, profile_id: id }, SaveAction::Finish(Ok(done)))
        },
    }
}

/// The outputs of the switch to `id` from `step` on, when the steps
/// report `events` one after the other.
pub open spec fn switch_trace(id: Seq<char>, step: SwitchStep, events: Seq<EventV>) -> Seq<(SwitchStep, ActionV)>
    decreases events.len(),
{
    if events.len() == 0 {
        seq![]
    } else {
        let n = switch_next(id, step, events[0]);
        seq![n] + switch_trace(id, n.0, events.drop_first())
    }
}

/// Each of `events` is one that the step it is reported to can report.
pub open spec fn switch_events_fit(id: Seq<char>, step: SwitchStep, events: Seq<EventV>) -> bool
    decreases events.len(),
{
    if events.len() == 0 {
        true
    } else {
        switch_accepts(step, events[0]) && switch_events_fit(id, switch_next(id, step, events[0]).0, events.drop_first())
    }
}

/// The progress note an output shows, if any.
pub open spec fn note_of(a: ActionV) -> Option<Progress> {
    match a {
        ActionV::Run(p, _) => p,
        ActionV::Finish(p, _) => p,
    }
}

/// The percentage last shown before `step` runs.
pub open spec fn shown_before(step: SwitchStep) -> int {
    match step {
        SwitchStep::Start => 0,
        SwitchStep::CheckTarget => 0,
        SwitchStep::QuitCodex => 8,
        SwitchStep::ReconcileProfiles => 24,
        SwitchStep::SyncActiveProfile => 32,
        SwitchStep::HydrateTarget => 48,
        SwitchStep::ShareTargetHistory => 64,
        SwitchStep::InspectCodexHome => 78,
        SwitchStep::RemoveCodexHomeLink => 78,
        SwitchStep::LinkCodexHome => 78,
        SwitchStep::LaunchCodex => 90,
        SwitchStep::Finished => 100,
    }
}

proof fn lemma_notes_increase(id: Seq<char>, step: SwitchStep, events: Seq<EventV>)
    requires
        switch_events_fit(id, step, events),
    ensures
        forall|i: int|
            0 <= i < switch_trace(id, step, events).len() && #[trigger] note_of(switch_trace(id, step, events)[i].1) is Some
                ==> progress_percent(note_of(switch_trace(id, step, events)[i].1)->0) > shown_before(step),
        forall|i: int, j: int|
            0 <= i < j < switch_trace(id, step, events).len() && note_of(#[trigger] switch_trace(id, step, events)[i].1) is Some
                && note_of(#[trigger] switch_trace(id, step, events)[j].1) is Some ==> progress_percent(
                note_of(switch_trace(id, step, events)[i].1)->0,
            ) < progress_percent(note_of(switch_trace(id, step, events)[j].1)->0),
    decreases events.len(),
{
    if events.len() > 0 {
        let n = switch_next(id, step, events[0]);
        let rest = events.drop_first();
        lemma_notes_increase(id, n.0, rest);
        let t = switch_trace(id, step, events);
        let tr = switch_trace(id, n.0, rest);
        assert(t == seq![n] + tr);
        assert(note_of(n.1) is Some ==> progress_percent(note_of(n.1)->0) > shown_before(step)
            && shown_before(n.0) >= progress_percent(note_of(n.1)->0));
        assert(shown_before(n.0) >= shown_before(step));
        assert forall|i: int| 0 <= i < t.len() && #[trigger] note_of(t[i].1) is Some implies progress_percent(
            note_of(t[i].1)->0,
        ) > shown_before(step) by {
            if i > 0 {
                assert(t[i] == tr[i - 1]);
            }
        }
        assert forall|i: int, j: int|
            0 <= i < j < t.len() && note_of(#[trigger] t[i].1) is Some && note_of(#[trigger] t[j].1) is Some implies progress_percent(
            note_of(t[i].1)->0,
        ) < progress_percent(note_of(t[j].1)->0) by {
            assert(t[j] == tr[j - 1]);
            if i > 0 {
                assert(t[i] == tr[i - 1]);
            }
        }
    }
}

/// Along any switch, the progress shown only goes up: of two notes shown
/// one after the other, the later one has the higher percentage.
pub proof fn switch_progress_increases(id: Seq<char>, events: Seq<EventV>, i: int, j: int)
    requires
        switch_events_fit(id, SwitchStep::Start, events),
        0 <= i < j < switch_trace(id, SwitchStep::Start, events).len(),
        note_of(switch_trace(id, SwitchStep::Start, events)[i].1) is Some,
        note_of(switch_trace(id, SwitchStep::Start, events)[j].1) is Some,
    ensures
        progress_percent(note_of(switch_trace(id, SwitchStep::Start, events)[i].1)->0) < progress_percent(
            note_of(switch_trace(id, SwitchStep::Start, events)[j].1)->0,
        ),
{
    lemma_notes_increase(id, SwitchStep::Start, events);
}

/// The steps by which `~/.codex` is only touched once the target was found.
pub open spec fn after_check(step: SwitchStep) -> bool {
    !(step is Start || step is CheckTarget)
}

/// The steps by which `~/.codex` was seen to be a link or missing.
pub open spec fn after_inspect(step: SwitchStep) -> bool {
    step is RemoveCodexHomeLink || step is LinkCodexHome || step is LaunchCodex || step is Finished
}

/// Event `e` reports that the target profile exists.
pub open spec fn reports_target(e: EventV) -> bool {
    e == EventV::TargetChecked(true)
}

/// Event `e` reports `~/.codex` as a link or as missing.
pub open spec fn reports_free_home(e: EventV) -> bool {
    match e {
        EventV::CodexHomeInspected(is_link, exists) => is_link || !exists,
        _ => false,
    }
}

proof fn lemma_trace_len(id: Seq<char>, step: SwitchStep, events: Seq<EventV>)
    ensures
        switch_trace(id, step, events).len() == events.len(),
    decreases events.len(),
{
    if events.len() > 0 {
        lemma_trace_len(id, switch_next(id, step, events[0]).0, events.drop_first());
    }
}

proof fn lemma_link_guarded(id: Seq<char>, step: SwitchStep, events: Seq<EventV>, k: int)
    requires
        switch_events_fit(id, step, events),
        0 <= k < events.len(),
        switch_trace(id, step, events)[k].1 == ActionV::Run(None, SwitchStep::LinkCodexHome),
    ensures
        after_check(step) || exists|a: int| 0 <= a < k && #[trigger] reports_target(events[a]),
        after_inspect(step) || exists|b: int| 0 <= b <= k && #[trigger] reports_free_home(events[b]),
    decreases events.len(),
{
    let n = switch_next(id, step, events[0]);
    let rest = events.drop_first();
    let tr = switch_trace(id, n.0, rest);
    let t = switch_trace(id, step, events);
    assert(t == seq![n] + tr);
    lemma_trace_len(id, n.0, rest);
    if k == 0 {
        if step is InspectCodexHome {
            assert(reports_free_home(events[0]));
        }
    } else {
        assert(t[k] == tr[k - 1]);
        reveal_with_fuel(switch_events_fit, 2);
        assert(switch_accepts(n.0, rest[0]));
        lemma_link_guarded(id, n.0, rest, k - 1);
        if !after_check(n.0) {
            let a = choose|a: int| 0 <= a < k - 1 && #[trigger] reports_target(rest[a]);
            assert(rest[a] == events[a + 1]);
            assert(reports_target(events[a + 1]));
        } else if !after_check(step) {
            assert(reports_target(events[0]));
        }
        if !after_inspect(n.0) {
            let b = choose|b: int| 0 <= b <= k - 1 && #[trigger] reports_free_home(rest[b]);
            assert(rest[b] == events[b + 1]);
            assert(reports_free_home(events[b + 1]));
        } else if !after_inspect(step) {
            assert(reports_free_home(events[0]));
        }
    }
}

/// A switch only links `~/.codex` to the target after the target profile
/// was found, and after `~/.codex` was seen to be a link or missing: an
/// account that was never saved as a profile is not replaced.
pub proof fn switch_links_only_when_safe(id: Seq<char>, events: Seq<EventV>, k: int)
    requires
        switch_events_fit(id, SwitchStep::Start, events),
        0 <= k < switch_trace(id, SwitchStep::Start, events).len(),
        switch_trace(id, SwitchStep::Start, events)[k].1 == ActionV::Run(None, SwitchStep::LinkCodexHome),
    ensures
        exists|a: int| 0 <= a < k && #[trigger] reports_target(events[a]),
        exists|b: int| 0 <= b <= k && #[trigger] reports_free_home(events[b]),
{
    lemma_trace_len(id, SwitchStep::Start, events);
    lemma_link_guarded(id, SwitchStep::Start, events, k);
}

/// A switch that ends well ends with the final note and the requested
/// profile, and only after Codex was launched.
pub proof fn switch_succeeds_after_launch(id: Seq<char>, step: SwitchStep, e: EventV)
    requires
        switch_accepts(step, e),
        switch_next(id, step, e).1 matches ActionV::Finish(_, Ok(_)),
    ensures
        step is LaunchCodex,
        e is Done,
        switch_next(id, step, e).1 == ActionV::Finish(Some(Progress::Finished), Ok((id, true))),
{
}

/// A switch to a missing profile, or over a `~/.codex` that was never saved
/// as a profile, ends in an error with its message and no note; and a
/// switch reports success only with Codex launched.
pub proof fn switch_refuses_what_it_cannot_do(id: Seq<char>, step: SwitchStep, e: EventV)
    requires
        switch_accepts(step, e),
    ensures
        switch_next(id, SwitchStep::CheckTarget, EventV::TargetChecked(false)).1 == ActionV::Finish(
            None,
            Err("profile 不存在："@ + id),
        ),
        switch_next(id, SwitchStep::InspectCodexHome, EventV::CodexHomeInspected(false, true)).1 == ActionV::Finish(
            None,
            Err("当前账号还没保存成 profile。请先保存当前账号。"@),
        ),
        switch_next(id, step, e).1 matches ActionV::Finish(_, Ok((pid, launched))) ==> pid == id && launched,
{
}

/// Saving never takes the name of a profile that is already there.
pub proof fn saved_id_is_new(old_id: Seq<char>, info: AccountInfo, existing: Vec<String>, id: Seq<char>)
    requires
        save_id_ok(old_id, SaveEvent::AccountRead { info, existing }, id),
    ensures
        !name_views(existing@).contains(id),
{
}

} // verus!
