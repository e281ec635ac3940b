//! The bookkeeping of activated environments: each active environment is a
//! temporary file with its `.env` content, linked into the project folder,
//! and recorded in a manifest so that links can be removed later. The
//! application performs the file operations; this module decides them.

use vstd::prelude::*;
use crate::error::EnvlyError;
use crate::ids::{Timestamp, uuid_text, uuid_string};
use crate::paths::{path_eq, same_path, path_under, starts_with_dir, path_joined, join_path};
use crate::text::push_str;

verus! {

/// The name of the manifest file in the temporary directory.
pub const MANIFEST_FILE: &'static str = "active_envs.json";

/// How many hours a recorded link stays valid.
pub const STALE_TTL_HOURS: i64 = 24;

/// What is found at the place where an environment's link goes.
#[derive(Debug, Clone, Copy, PartialEq, Eq, Structural)]
pub enum ExistingFile {
    /// Nothing is there.
    Absent,
    /// A link into the temporary directory, made by this application.
    EnvlySymlink,
    /// A link that points elsewhere.
    ForeignSymlink,
    /// A regular file.
    RegularFile,
}

/// What is at a path, given whether it exists (following links), whether it
/// has metadata of its own (a link, even a broken one), and where it links
/// to if it is a link.
pub open spec fn existing_kind(exists: bool, has_metadata: bool, link_target: Option<Seq<char>>, tmp_dir: Seq<char>) -> ExistingFile {
    if !exists && !has_metadata {
        ExistingFile::Absent
    } else {
        match link_target {
            Some(t) => if path_under(t, tmp_dir) {
                ExistingFile::EnvlySymlink
            } else {
                ExistingFile::ForeignSymlink
            },
            None => ExistingFile::RegularFile,
        }
    }
}

/// Decides what is at a path from what the file system says of it: whether
/// it exists, whether it has metadata of its own, and its link target if it
/// is a link. A link into `tmp_dir` is this application's.
pub fn detect_existing(exists: bool, has_metadata: bool, link_target: Option<&str>, tmp_dir: &str) -> (r:
    ExistingFile)
    ensures
        r == existing_kind(
            exists,
            has_metadata,
            match link_target {
                Some(t) => Some(t@),
                None => None,
            },
            tmp_dir@,
        ),
{
    if !exists && !has_metadata {
        return ExistingFile::Absent;
    }
    match link_target {
        Some(t) => {
            if starts_with_dir(t, tmp_dir) {
                ExistingFile::EnvlySymlink
            } else {
                ExistingFile::ForeignSymlink
            }
        },
        None => ExistingFile::RegularFile,
    }
}

/// The path of the manifest file in `tmp_dir`.
pub fn manifest_path(tmp_dir: &str) -> (p: String)
    ensures
        p@ == path_joined(tmp_dir@, MANIFEST_FILE@),
{
    join_path(tmp_dir, MANIFEST_FILE)
}

/// The path of the link for a project folder and environment file name.
pub fn link_path(project_path: &str, env_filename: &str) -> (p: String)
    ensures
        p@ == path_joined(project_path@, env_filename@),
{
    join_path(project_path, env_filename)
}

/// The name of a temporary file: `env-` and a UUID.
pub open spec fn temp_name_text(id: u128) -> Seq<char> {
    "env-"@ + uuid_text(id)
}

/// The name of the temporary file for the UUID `id`.
pub fn temp_file_name(id: u128) -> (s: String)
    ensures
        s@ == temp_name_text(id),
{
    let mut s = String::from_str("env-");
    let u = uuid_string(id);
    push_str(&mut s, u.as_str());
    s
}

/// What to do with what is at a link's place before the link is made.
pub enum ExistingAction {
    /// Nothing is in the way.
    Nothing,
    /// Remove the old link of this application.
    RemoveLink,
    /// Move the regular file to this backup path.
    MoveToBackup(String),
}

/// The detail of the error for a link that this application did not make.
pub open spec fn foreign_link_message(symlink_path: Seq<char>) -> Seq<char> {
    "An unrecognized symlink already exists at '"@ + symlink_path
        + "'. Please remove it manually."@
}

/// Decides how to clear the place of the link `symlink_path` of project
/// folder `project_path` and file `env_filename`: keep clear, replace this
/// application's link, back a regular file up to `<env_filename>.bak`, or
/// refuse a foreign link.
pub fn existing_action(existing: ExistingFile, project_path: &str, env_filename: &str, symlink_path: &str) -> (r:
    Result<ExistingAction, EnvlyError>)
    ensures
        existing == ExistingFile::Absent ==> r matches Ok(ExistingAction::Nothing),
        existing == ExistingFile::EnvlySymlink ==> r matches Ok(ExistingAction::RemoveLink),
        existing == ExistingFile::RegularFile ==> (r matches Ok(ExistingAction::MoveToBackup(b)) && b@
            == path_joined(project_path@, env_filename@ + ".bak"@)),
        existing == ExistingFile::ForeignSymlink ==> (r matches Err(EnvlyError::Validation(m)) && m@
            == foreign_link_message(symlink_path@)),
{
    match existing {
        ExistingFile::Absent => Ok(ExistingAction::Nothing),
        ExistingFile::EnvlySymlink => Ok(ExistingAction::RemoveLink),
        ExistingFile::RegularFile => {
            let mut name = String::from_str(env_filename);
            push_str(&mut name, ".bak");
            Ok(ExistingAction::MoveToBackup(join_path(project_path, name.as_str())))
        },
        ExistingFile::ForeignSymlink => {
            let mut m = String::from_str("An unrecognized symlink already exists at '");
            push_str(&mut m, symlink_path);
            push_str(&mut m, "'. Please remove it manually.");
            Err(EnvlyError::Validation(m))
        },
    }
}

/// One recorded link: the temporary file's name and path, the link's path,
/// the process that made it and when.
#[derive(Debug)]
pub struct ManifestEntry {
    pub id: String,
    pub temp_path: String,
    pub symlink_path: String,
    pub pid: u32,
    pub created_at: Timestamp,
}

/// The recorded links.
#[derive(Debug)]
pub struct Manifest {
    pub entries: Vec<ManifestEntry>,
}

/// The whole hours from `from` to `to`, rounded towards zero, as
/// `(to - from).num_hours()` counts them for two UTC times.
pub open spec fn whole_hours(from: Timestamp, to: Timestamp) -> int {
    let nanos = (to.secs - from.secs) * 1_000_000_000 + (to.nanos - from.nanos);
    let secs = if nanos >= 0 {
        nanos / 1_000_000_000
    } else {
        -((-nanos) / 1_000_000_000)
    };
    if secs >= 0 {
        secs / 3600
    } else {
        -((-secs) / 3600)
    }
}

/// Whether a recorded link is stale: its process is gone, or it is at least
/// `STALE_TTL_HOURS` old.
pub open spec fn stale(alive: bool, created_at: Timestamp, now: Timestamp) -> bool {
    !alive || whole_hours(created_at, now) >= STALE_TTL_HOURS
}

/// The whole hours from `from` to `to`, rounded towards zero.
pub fn elapsed_hours(from: Timestamp, to: Timestamp) -> (h: i64)
    ensures
        h == whole_hours(from, to),
{
    let nanos: i128 = (to.secs as i128 - from.secs as i128) * 1_000_000_000 + (to.nanos as i128
        - from.nanos as i128);
    let secs: i128 = if nanos >= 0 {
        nanos / 1_000_000_000
    } else {
        -((-nanos) / 1_000_000_000)
    };
    let hours: i128 = if secs >= 0 {
        secs / 3600
    } else {
        -((-secs) / 3600)
    };
    assert(-0x4_0000_0000_0000_0000 <= secs <= 0x4_0000_0000_0000_0000) by (nonlinear_arith)
        requires
            secs == (if nanos >= 0 { nanos / 1_000_000_000 } else { -((-nanos) / 1_000_000_000) }),
            -0x4_0000_0000_0000_0000 * 1_000_000_000 <= nanos <= 0x4_0000_0000_0000_0000
                * 1_000_000_000,
    ;
    assert(-0x4000_0000_0000_0000 <= hours <= 0x4000_0000_0000_0000) by (nonlinear_arith)
        requires
            hours == (if secs >= 0 { secs / 3600 } else { -((-secs) / 3600) }),
            -0x4_0000_0000_0000_0000 <= secs <= 0x4_0000_0000_0000_0000,
    ;
    hours as i64
}

/// Whether a link made at `created_at` by a process that is `alive` or not
/// is stale at `now`.
pub fn is_stale(alive: bool, created_at: Timestamp, now: Timestamp) -> (b: bool)
    ensures
        b == stale(alive, created_at, now),
{
    !alive || elapsed_hours(created_at, now) >= STALE_TTL_HOURS
}

/// The entries of `s` whose flag in `flags` is `want`, in their order.
pub open spec fn select_entries(s: Seq<ManifestEntry>, flags: Seq<bool>, want: bool) -> Seq<ManifestEntry>
    decreases s.len(),
{
    if s.len() == 0 || flags.len() != s.len() {
        Seq::empty()
    } else if flags.last() == want {
        select_entries(s.drop_last(), flags.drop_last(), want).push(s.last())
    } else {
        select_entries(s.drop_last(), flags.drop_last(), want)
    }
}

/// Whether each entry of `s` is stale at `now`, given for each whether its
/// process is alive.
pub open spec fn stale_flags(s: Seq<ManifestEntry>, alive: Seq<bool>, now: Timestamp) -> Seq<bool> {
    Seq::new(s.len(), |i: int| stale(alive[i], s[i].created_at, now))
}

/// The entries of `s` whose link is not `symlink_path`.
pub open spec fn entries_except(s: Seq<ManifestEntry>, symlink_path: Seq<char>) -> Seq<ManifestEntry> {
    select_entries(s, Seq::new(s.len(), |i: int| path_eq(s[i].symlink_path@, symlink_path)), false)
}

impl Manifest {
    /// An empty manifest.
    pub fn new() -> (m: Self)
        ensures
            m.entries@ == Seq::<ManifestEntry>::empty(),
    {
        Manifest { entries: Vec::new() }
    }

    /// Records a new link.
    pub fn record(&mut self, entry: ManifestEntry)
        ensures
            final(self).entries@ == old(self).entries@.push(entry),
    {
        self.entries.push(entry);
    }

    /// Forgets the links recorded at `symlink_path`.
    pub fn forget_link(&mut self, symlink_path: &str)
        ensures
            final(self).entries@ == entries_except(old(self).entries@, symlink_path@),
    {
        let ghost s = self.entries@;
        let ghost flags = Seq::new(s.len(), |i: int| path_eq(s[i].symlink_path@, symlink_path@));
        let mut rest: Vec<ManifestEntry> = Vec::new();
        std::mem::swap(&mut rest, &mut self.entries);
        let n = rest.len();
        let mut i: usize = 0;
        while rest.len() > 0
            invariant
                n == s.len(),
                flags.len() == s.len(),
                flags == Seq::new(s.len(), |i: int| path_eq(s[i].symlink_path@, symlink_path@)),
                rest.len() <= n,
                i == n - rest.len(),
                rest@ == s.skip(i as int),
                self.entries@ == select_entries(s.take(i as int), flags.take(i as int), false),
            decreases rest.len(),
        {
            let e = rest.remove(0);
            proof {
                assert(s.take(i + 1).drop_last() =~= s.take(i as int));
                assert(flags.take(i + 1).drop_last() =~= flags.take(i as int));
                assert(s.take(i + 1).last() == s[i as int]);
                assert(flags.take(i + 1).last() == flags[i as int]);
                assert(e == s[i as int]);
                assert(rest@ =~= s.skip(i + 1));
            }
            if !same_path(e.symlink_path.as_str(), symlink_path) {
                self.entries.push(e);
            }
            i = i + 1;
        }
        proof {
            assert(s.take(n as int) =~= s);
            assert(flags.take(n as int) =~= flags);
        }
    }

    /// Forgets every recorded link and gives them back, in order.
    pub fn take_all(&mut self) -> (all: Vec<ManifestEntry>)
        ensures
            all@ == old(self).entries@,
            final(self).entries@ == Seq::<ManifestEntry>::empty(),
    {
        let mut all: Vec<ManifestEntry> = Vec::new();
        std::mem::swap(&mut all, &mut self.entries);
        all
    }

    /// Forgets the stale links, given for each entry whether its process is
    /// alive, and gives them back; the others stay in order.
    pub fn retain_fresh(&mut self, alive: &Vec<bool>, now: Timestamp) -> (stale_entries: Vec<ManifestEntry>)
        requires
            alive@.len() == old(self).entries@.len(),
        ensures
            final(self).entries@ == select_entries(
                old(self).entries@,
                stale_flags(old(self).entries@, alive@, now),
                false,
            ),
            stale_entries@ == select_entries(
                old(self).entries@,
                stale_flags(old(self).entries@, alive@, now),
                true,
            ),
    {
        let ghost s = self.entries@;
        let ghost flags = stale_flags(s, alive@, now);
        let mut rest: Vec<ManifestEntry> = Vec::new();
        std::mem::swap(&mut rest, &mut self.entries);
        let mut gone: Vec<ManifestEntry> = Vec::new();
        let n = rest.len();
        let mut i: usize = 0;
        while rest.len() > 0
            invariant
                n == s.len(),
                alive@.len() == n,
                flags == stale_flags(s, alive@, now),
                rest.len() <= n,
                i == n - rest.len(),
                rest@ == s.skip(i as int),
                self.entries@ == select_entries(s.take(i as int), flags.take(i as int), false),
                gone@ == select_entries(s.take(i as int), flags.take(i as int), true),
            decreases rest.len(),
        {
            let e = rest.remove(0);
            proof {
                assert(s.take(i + 1).drop_last() =~= s.take(i as int));
                assert(flags.take(i + 1).drop_last() =~= flags.take(i as int));
                assert(s.take(i + 1).last() == s[i as int]);
                assert(flags.take(i + 1).last() == flags[i as int]);
                assert(e == s[i as int]);
                assert(rest@ =~= s.skip(i + 1));
            }
            if is_stale(alive[i], e.created_at, now) {
                gone.push(e);
            } else {
                self.entries.push(e);
            }
            i = i + 1;
        }
        proof {
            assert(s.take(n as int) =~= s);
            assert(flags.take(n as int) =~= flags);
        }
        gone
    }
}

} // verus!
