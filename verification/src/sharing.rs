//! How a profile is prepared for Codex Desktop and made to share history:
//! which entries of `~/.codex` a new profile is given, how profile
//! directories are named in backups, and the `sqlite3` invocations that
//! flush and merge desktop state.
use vstd::prelude::*;

use crate::paths::{path_join, path_parts, path_parts_exec, ProfileStore};
use crate::provider::copy_string;
use crate::text::{chars_of, extend_chars, extend_str, int_text, int_text_exec, str_eq, string_of, views};
use crate::workspace::strs;

verus! {

// ---------------------------------------------------------------------------
// Preparing a profile for Codex Desktop
// ---------------------------------------------------------------------------

/// The entries of `~/.codex` that a profile is given when it lacks them.
pub open spec fn hydrate_items() -> Seq<Seq<char>> {
    seq![
        ".codex-global-state.json"@,
        ".codex-global-state.json.bak"@,
        ".personality_migration"@,
        ".tmp"@,
        "ambient-suggestions"@,
        "cache"@,
        "computer-use"@,
        "installation_id"@,
        "memories"@,
        "models_cache.json"@,
        "plugins"@,
        "rules"@,
        "skills"@,
        "sqlite"@,
        "tmp"@,
        "vendor_imports"@,
        "version.json"@,
    ]
}

/// The folders a prepared profile has.
pub open spec fn hydrate_folders() -> Seq<Seq<char>> {
    seq!["sessions"@, "log"@, "shell_snapshots"@]
}

/// What preparing a profile copies from `~/.codex` (each entry only when
/// the profile lacks it) and which folders it creates; after either, the
/// profile's history, desktop state and workspaces are shared.
pub struct HydratePlan {
    pub copy_items: Vec<String>,
    pub folders: Vec<String>,
}

fn string_list(items: &[&str]) -> (r: Vec<String>)
    ensures
        strs(r@) == Seq::new(items@.len(), |i: int| items@[i]@),
{
    let mut r: Vec<String> = Vec::new();
    let mut i: usize = 0;
    while i < items.len()
        invariant
            i <= items@.len(),
            strs(r@) == Seq::new(i as nat, |k: int| items@[k]@),
        decreases items@.len() - i,
    {
        let item = string_of(&chars_of(items[i]));
        let ghost before = r@;
        r.push(item);
        assert(strs(r@) =~= strs(before).push(items@[i as int]@));
        assert(strs(r@) =~= Seq::new((i + 1) as nat, |k: int| items@[k]@));
        i = i + 1;
    }
    r
}

/// The profile `~/.codex` links to is `id`.
pub open spec fn names_target(active: Option<&String>, id: Seq<char>) -> bool {
    match active {
        Some(a) => a@ == id,
        None => false,
    }
}

/// Preparing profile `id` for Codex Desktop. It fails when the profile is
/// missing, and, unless it is the profile `~/.codex` already links to, when
/// there is no `~/.codex` to copy from. The profile `~/.codex` links to is
/// only re-shared.
pub fn hydrate_plan(profile_id: &str, target_exists: bool, home_is_link: bool, active: Option<&String>, home_exists: bool) -> (r:
    Result<HydratePlan, String>)
    ensures
        !target_exists ==> (r matches Err(e) && e@ == "profile 不存在："@ + profile_id@),
        target_exists && home_is_link && names_target(active, profile_id@) ==> (r matches Ok(p)
            && p.copy_items@.len() == 0 && p.folders@.len() == 0),
        target_exists && !(home_is_link && names_target(active, profile_id@)) && !home_exists ==> (r matches Err(e)
            && e@ == "找不到可用于初始化 Desktop profile 的 ~/.codex。"@),
        target_exists && !(home_is_link && names_target(active, profile_id@)) && home_exists ==> (r matches Ok(p)
            && strs(p.copy_items@) == hydrate_items() && strs(p.folders@) == hydrate_folders()),
{
    if !target_exists {
        let mut m = chars_of("profile 不存在：");
        extend_str(&mut m, profile_id);
        return Err(string_of(&m));
    }
    let is_active = match active {
        Some(a) => str_eq(a.as_str(), profile_id),
        None => false,
    };
    if home_is_link && is_active {
        return Ok(HydratePlan { copy_items: Vec::new(), folders: Vec::new() });
    }
    if !home_exists {
        return Err(string_of(&chars_of("找不到可用于初始化 Desktop profile 的 ~/.codex。")));
    }
    let items: [&str; 17] = [
        ".codex-global-state.json",
        ".codex-global-state.json.bak",
        ".personality_migration",
        ".tmp",
        "ambient-suggestions",
        "cache",
        "computer-use",
        "installation_id",
        "memories",
        "models_cache.json",
        "plugins",
        "rules",
        "skills",
        "sqlite",
        "tmp",
        "vendor_imports",
        "version.json",
    ];
    let folders: [&str; 3] = ["sessions", "log", "shell_snapshots"];
    let copy_items = string_list(&items);
    let folder_list = string_list(&folders);
    assert(strs(copy_items@) =~= hydrate_items());
    assert(strs(folder_list@) =~= hydrate_folders());
    Ok(HydratePlan { copy_items, folders: folder_list })
}

// ---------------------------------------------------------------------------
// Names of paths
// ---------------------------------------------------------------------------

/// `Path::file_name`: the last component, unless the path has none or ends
/// in `..`.
pub open spec fn file_name_of(p: Seq<char>) -> Option<Seq<char>> {
    let ps = path_parts(p);
    if ps.len() == 0 || ps.last() == ".."@ {
        None
    } else {
        Some(ps.last())
    }
}

/// The name of a profile directory as backups are labelled with it; a path
/// without a name is called "profile".
pub open spec fn profile_name_of(p: Seq<char>) -> Seq<char> {
    match file_name_of(p) {
        Some(n) => n,
        None => "profile"@,
    }
}

/// The name of a profile directory (see `profile_name_of`).
pub fn profile_name(path: &str) -> (r: String)
    ensures
        r@ == profile_name_of(path@),
{
    let parts = path_parts_exec(&chars_of(path));
    if parts.len() == 0 {
        return string_of(&chars_of("profile"));
    }
    let last = &parts[parts.len() - 1];
    let dots = chars_of("..");
    assert(views(parts@).last() == last@);
    if crate::text::chars_eq(last, &dots) {
        string_of(&chars_of("profile"))
    } else {
        string_of(last)
    }
}

/// Where a backup of something labelled `label` goes, taken at Unix time
/// `timestamp`: `<shared history>/backups/<label>-<timestamp>`.
pub open spec fn backup_path_of(home: Seq<char>, label: Seq<char>, timestamp: int) -> Seq<char> {
    path_join(
        path_join(path_join(path_join(home, ".codex-profiles"@), "_shared-history"@), "backups"@),
        label + "-"@ + int_text(timestamp),
    )
}

impl ProfileStore {
    /// The backup folder entry for `label` at Unix time `timestamp`.
    pub fn backup_path(&self, label: &str, timestamp: i64) -> (r: String)
        ensures
            r@ == backup_path_of(self.home@, label@, timestamp as int),
    {
        let root = self.shared_history_root();
        let backups = crate::paths::join_path(root.as_str(), "backups");
        let mut name = chars_of(label);
        extend_str(&mut name, "-");
        let t = int_text_exec(timestamp);
        extend_chars(&mut name, &t);
        crate::paths::join_path(backups.as_str(), string_of(&name).as_str())
    }
}

// ---------------------------------------------------------------------------
// Desktop state databases
// ---------------------------------------------------------------------------

/// The `sqlite3` arguments that flush the write-ahead log of the database
/// at `path` into it, when it is a file of the profile itself (it exists and
/// is not a link); none otherwise.
pub fn checkpoint_sqlite(path: &str, exists: bool, is_link: bool) -> (r: Option<Vec<String>>)
    ensures
        exists && !is_link ==> (r matches Some(args) && strs(args@) == seq![path@, "PRAGMA wal_checkpoint(TRUNCATE);"@]),
        !(exists && !is_link) ==> r is None,
{
    if exists && !is_link {
        let mut args: Vec<String> = Vec::new();
        args.push(string_of(&chars_of(path)));
        args.push(string_of(&chars_of("PRAGMA wal_checkpoint(TRUNCATE);")));
        assert(strs(args@) =~= seq![path@, "PRAGMA wal_checkpoint(TRUNCATE);"@]);
        Some(args)
    } else {
        None
    }
}

// ---------------------------------------------------------------------------
// Sharing history and desktop state
// ---------------------------------------------------------------------------

/// What becomes of a profile's own sessions folder or session index when
/// history is shared.
pub enum LinkAction {
    /// It already links to the shared one.
    Keep,
    /// It links elsewhere: remove the link, then link to the shared one.
    Relink,
    /// It is the profile's own: move it to the backups under `label`, then
    /// link to the shared one.
    BackupThenLink { label: String },
}

/// The action for the entry `what` (`sessions`, `session-index`) of the
/// profile at `profile_dir` (its contents are first copied into the shared
/// one whenever it is not linked to it yet).
pub fn history_link_action(is_link_to_shared: bool, is_link: bool, profile_dir: &str, what: &str) -> (r: LinkAction)
    ensures
        is_link_to_shared ==> r is Keep,
        !is_link_to_shared && is_link ==> r is Relink,
        !is_link_to_shared && !is_link ==> (r matches LinkAction::BackupThenLink { label } && label@ == profile_name_of(
            profile_dir@,
        ) + "-"@ + what@),
{
    if is_link_to_shared {
        LinkAction::Keep
    } else if is_link {
        LinkAction::Relink
    } else {
        let mut label = chars_of(profile_name(profile_dir).as_str());
        extend_str(&mut label, "-");
        extend_str(&mut label, what);
        LinkAction::BackupThenLink { label: string_of(&label) }
    }
}

/// The first move for a desktop state database `base` of a profile: copy it
/// into the shared folder when the shared one is missing; merge the threads
/// of a `state_` database into the shared one otherwise.
pub enum StateFirst {
    CopyMissing,
    MergeThreads,
    Nothing,
}

pub fn desktop_state_first(base: &str, shared_exists: bool) -> (r: StateFirst)
    ensures
        !shared_exists ==> r is CopyMissing,
        shared_exists && crate::text::has_prefix(base@, "state_"@) ==> r is MergeThreads,
        shared_exists && !crate::text::has_prefix(base@, "state_"@) ==> r is Nothing,
{
    if !shared_exists {
        StateFirst::CopyMissing
    } else if crate::text::starts_with_str(&chars_of(base), "state_") {
        StateFirst::MergeThreads
    } else {
        StateFirst::Nothing
    }
}

/// Whether the threads of the shared database `base` are recorded under the
/// active profile's provider: a `state_` database that exists.
pub fn aligns_threads(base: &str, shared_exists: bool) -> (r: bool)
    ensures
        r == (crate::text::has_prefix(base@, "state_"@) && shared_exists),
{
    crate::text::starts_with_str(&chars_of(base), "state_") && shared_exists
}

/// Whether the profile's database is then replaced by links to the shared
/// one, and whether its own files are backed up first: not when a merge
/// failed or there is still no shared database; a backup when the
/// profile's file is not a link yet.
pub fn desktop_state_link(first: &StateFirst, merge_ok: bool, shared_exists: bool, local_is_link: bool) -> (r: Option<bool>)
    ensures
        ((first is MergeThreads && !merge_ok) || !shared_exists) ==> r is None,
        !((first is MergeThreads && !merge_ok) || !shared_exists) ==> r == Some(!local_is_link),
{
    match first {
        StateFirst::MergeThreads => {
            if !merge_ok {
                return None;
            }
        },
        _ => {},
    }
    if !shared_exists {
        None
    } else {
        Some(!local_is_link)
    }
}

} // verus!
