//! The per-mod install state machine.  One task drives one subscription
//! from `Checking` to a terminal state; the decisions — is the mod up to
//! date, which file matches the target platform, may a download without
//! a known length proceed, what the manifest records afterwards — are
//! pure functions here, while the download and extraction they direct
//! happen outside the library.

use vstd::prelude::*;

use crate::manifest::Manifest;
use crate::platform::Platform;

verus! {

/// A remotely sourced record of one mod the user wants installed: its
/// id, its latest update timestamp, and its file variant per platform.
pub struct Subscription {
    pub mod_id: u32,
    pub date_updated: u64,
    pub platform_files: Vec<(Platform, u64)>,
}

/// The states an install task moves through.
#[derive(Clone, Copy, PartialEq, Eq, Structural, Debug)]
pub enum ModState {
    Checking,
    Downloading,
    Installing,
    Updating,
    Installed,
    Updated,
    AlreadyInstalled,
    Failed,
}

impl ModState {
    /// The state's display name.
    pub fn label(&self) -> (m: &'static str)
        ensures
            match self {
                ModState::Checking => m@ == "Checking"@,
                ModState::Downloading => m@ == "Downloading"@,
                ModState::Installing => m@ == "Installing"@,
                ModState::Updating => m@ == "Updating"@,
                ModState::Installed => m@ == "Installed"@,
                ModState::Updated => m@ == "Updated"@,
                ModState::AlreadyInstalled => m@ == "Already installed"@,
                ModState::Failed => m@ == "Failed"@,
            },
    {
        match self {
            ModState::Checking => "Checking",
            ModState::Downloading => "Downloading",
            ModState::Installing => "Installing",
            ModState::Updating => "Updating",
            ModState::Installed => "Installed",
            ModState::Updated => "Updated",
            ModState::AlreadyInstalled => "Already installed",
            ModState::Failed => "Failed",
        }
    }

    /// Whether the task is finished: no transition leaves these states.
    pub fn is_terminal(&self) -> (b: bool)
        ensures
            b == match self {
                ModState::Installed
                | ModState::Updated
                | ModState::AlreadyInstalled
                | ModState::Failed => true,
                _ => false,
            },
    {
        match self {
            ModState::Installed
            | ModState::Updated
            | ModState::AlreadyInstalled
            | ModState::Failed => true,
            _ => false,
        }
    }

    /// How the state is presented: still working, finished well, or
    /// finished badly.
    pub fn class(&self) -> (c: StateClass)
        ensures
            c == match self {
                ModState::Checking
                | ModState::Downloading
                | ModState::Installing
                | ModState::Updating => StateClass::Active,
                ModState::Installed
                | ModState::Updated
                | ModState::AlreadyInstalled => StateClass::Done,
                ModState::Failed => StateClass::Failed,
            },
    {
        match self {
            ModState::Checking
            | ModState::Downloading
            | ModState::Installing
            | ModState::Updating => StateClass::Active,
            ModState::Installed
            | ModState::Updated
            | ModState::AlreadyInstalled => StateClass::Done,
            ModState::Failed => StateClass::Failed,
        }
    }
}

/// Presentation class of a state.
#[derive(Clone, Copy, PartialEq, Eq, Structural, Debug)]
pub enum StateClass {
    Active,
    Done,
    Failed,
}

/// Why one mod's install failed.  Such an error is folded into the
/// task's `Failed` outcome and never aborts sibling installs.
#[derive(Debug)]
pub enum ModError {
    /// The subscription offers no file for the target platform.
    NoPlatformFile,
    /// This host needs a configured platform choice and none is set.
    PlatformNotSet,
    /// The download did not report a total length, which progress
    /// reporting requires.
    MissingContentLength,
    /// The downloaded bytes are not a readable archive.
    BadArchive,
    /// The archive holds no entries at all.
    EmptyArchive,
    /// The archive's first entry has no usable top-level name.
    EmptyEntryName,
    /// The network failed mid-transfer; the text says how.
    Transport(String),
}

impl ModError {
    /// A short description for the user.
    pub fn message<'a>(&'a self) -> (m: &'a str)
        ensures
            match self {
                ModError::NoPlatformFile => m@ == "mod has no file for the target platform"@,
                ModError::PlatformNotSet => m@ == "platform is not set"@,
                ModError::MissingContentLength => m@
                    == "download did not provide a content length"@,
                ModError::BadArchive => m@ == "mod archive could not be read"@,
                ModError::EmptyArchive => m@ == "mod archive is empty"@,
                ModError::EmptyEntryName => m@ == "mod archive entry has no usable name"@,
                ModError::Transport(s) => m@ == s@,
            },
    {
        match self {
            ModError::NoPlatformFile => "mod has no file for the target platform",
            ModError::PlatformNotSet => "platform is not set",
            ModError::MissingContentLength => "download did not provide a content length",
            ModError::BadArchive => "mod archive could not be read",
            ModError::EmptyArchive => "mod archive is empty",
            ModError::EmptyEntryName => "mod archive entry has no usable name",
            ModError::Transport(s) => s.as_str(),
        }
    }
}

/// What the checking phase decides for one candidate.
pub enum InstallPlan {
    /// The manifest's record is at least as new as the subscription:
    /// nothing to do.
    AlreadyInstalled,
    /// Download file `file_id`; `updating` tells whether a prior record
    /// existed, which decides `Installed` versus `Updated` at the end.
    Fetch { file_id: u64, updating: bool },
}

/// The first file variant matching the target platform.
pub open spec fn spec_file_for(files: Seq<(Platform, u64)>, target: Platform) -> Option<u64>
    decreases files.len(),
{
    if files.len() == 0 {
        None
    } else if files[0].0 == target {
        Some(files[0].1)
    } else {
        spec_file_for(files.skip(1), target)
    }
}

/// What checking decides: a record at least as new as the subscription
/// (equal timestamps included) means up to date; otherwise the matching
/// file is fetched, and a missing match is a failure.
pub open spec fn spec_plan(m: Manifest, sub: Subscription, target: Platform) -> Result<
    InstallPlan,
    ModError,
> {
    match m.get_model(sub.mod_id) {
        Some(entry) => if entry.0 >= sub.date_updated {
            Ok(InstallPlan::AlreadyInstalled)
        } else {
            match spec_file_for(sub.platform_files@, target) {
                Some(file_id) => Ok(InstallPlan::Fetch { file_id, updating: true }),
                None => Err(ModError::NoPlatformFile),
            }
        },
        None => match spec_file_for(sub.platform_files@, target) {
            Some(file_id) => Ok(InstallPlan::Fetch { file_id, updating: false }),
            None => Err(ModError::NoPlatformFile),
        },
    }
}

/// Decide what to do for one candidate against the pre-run manifest
/// snapshot.
pub fn plan_install(m: &Manifest, sub: &Subscription, target: Platform) -> (r: Result<
    InstallPlan,
    ModError,
>)
    requires
        m.wf(),
    ensures
        r == spec_plan(*m, *sub, target),
{
    let updating: bool;
    match m.lookup_date(sub.mod_id) {
        Some(date) => {
            if date >= sub.date_updated {
                return Ok(InstallPlan::AlreadyInstalled);
            }
            updating = true;
        },
        None => {
            updating = false;
        },
    }
    let n = sub.platform_files.len();
    let mut i: usize = 0;
    proof {
        assert(sub.platform_files@.skip(0) =~= sub.platform_files@);
    }
    while i < n
        invariant
            n == sub.platform_files@.len(),
            i <= n,
            match m.get_model(sub.mod_id) {
                Some(entry) => entry.0 < sub.date_updated && updating,
                None => !updating,
            },
            spec_file_for(sub.platform_files@, target) == spec_file_for(
                sub.platform_files@.skip(i as int),
                target,
            ),
        decreases n - i,
    {
        let (platform, file_id) = sub.platform_files[i];
        proof {
            assert(sub.platform_files@.skip(i as int)[0] == sub.platform_files@[i as int]);
            assert(sub.platform_files@.skip(i as int).skip(1) =~= sub.platform_files@.skip(
                i + 1,
            ));
        }
        if platform == target {
            proof {
                assert(spec_file_for(sub.platform_files@.skip(i as int), target) == Some(
                    file_id,
                ));
            }
            return Ok(InstallPlan::Fetch { file_id, updating });
        }
        i += 1;
    }
    proof {
        assert(sub.platform_files@.skip(n as int) =~= Seq::<(Platform, u64)>::empty());
    }
    Err(ModError::NoPlatformFile)
}

/// A download may only proceed when the stream reports its total length;
/// reliable progress reporting requires it.
pub fn require_content_length(len: Option<u64>) -> (r: Result<u64, ModError>)
    ensures
        match len {
            Some(l) => r == Ok::<u64, ModError>(l),
            None => r == Err::<u64, ModError>(ModError::MissingContentLength),
        },
{
    match len {
        Some(l) => Ok(l),
        None => Err(ModError::MissingContentLength),
    }
}

/// Record a finished install in the manifest: the subscription's
/// timestamp and the extracted folder overwrite or create the record,
/// and the terminal state says whether this was an update.
pub fn record_install(m: &mut Manifest, sub: &Subscription, updating: bool, folder: Vec<u8>) -> (st:
    ModState)
    requires
        old(m).wf(),
    ensures
        final(m).wf(),
        final(m).secret_chunk_count == old(m).secret_chunk_count,
        final(m).get_model(sub.mod_id) == Some((sub.date_updated, folder@)),
        forall|id: u32| id != sub.mod_id ==> final(m).get_model(id) == old(m).get_model(id),
        st == (if updating {
            ModState::Updated
        } else {
            ModState::Installed
        }),
{
    m.upsert(
        crate::manifest::InstalledMod {
            mod_id: sub.mod_id,
            date_updated: sub.date_updated,
            folder,
        },
    );
    if updating {
        ModState::Updated
    } else {
        ModState::Installed
    }
}

/// Fold a task's result into its terminal state: an error of any step
/// becomes `Failed` and goes no further.
pub fn outcome_of(r: &Result<ModState, ModError>) -> (st: ModState)
    ensures
        match r {
            Ok(s) => st == s,
            Err(_) => st is Failed,
        },
{
    match r {
        Ok(s) => *s,
        Err(_) => ModState::Failed,
    }
}

/// One in-flight install: the subscription's id, where the task stands,
/// and its transfer progress.
pub struct InstallTask {
    pub mod_id: u32,
    pub state: ModState,
    pub bytes_received: u64,
    pub bytes_total: u64,
}

impl InstallTask {
    /// A task starts in `Checking` with no bytes transferred.
    pub fn new(mod_id: u32) -> (t: InstallTask)
        ensures
            t.mod_id == mod_id,
            t.state is Checking,
            t.bytes_received == 0,
            t.bytes_total == 0,
    {
        InstallTask { mod_id, state: ModState::Checking, bytes_received: 0, bytes_total: 0 }
    }

    /// Move the task to a new state.
    pub fn set_state(&mut self, state: ModState)
        ensures
            final(self).state == state,
            final(self).mod_id == old(self).mod_id,
            final(self).bytes_received == old(self).bytes_received,
            final(self).bytes_total == old(self).bytes_total,
    {
        self.state = state;
    }

    /// Record the download's total length when the stream reports it.
    pub fn set_total_bytes(&mut self, total: u64)
        ensures
            final(self).bytes_total == total,
            final(self).mod_id == old(self).mod_id,
            final(self).state == old(self).state,
            final(self).bytes_received == old(self).bytes_received,
    {
        self.bytes_total = total;
    }

    /// Account a received chunk.
    pub fn add_bytes(&mut self, n: u64)
        requires
            old(self).bytes_received + n <= u64::MAX,
        ensures
            final(self).bytes_received == old(self).bytes_received + n,
            final(self).mod_id == old(self).mod_id,
            final(self).state == old(self).state,
            final(self).bytes_total == old(self).bytes_total,
    {
        self.bytes_received = self.bytes_received + n;
    }

    /// Mark the task failed.
    pub fn fail(&mut self)
        ensures
            final(self).state is Failed,
            final(self).mod_id == old(self).mod_id,
            final(self).bytes_received == old(self).bytes_received,
            final(self).bytes_total == old(self).bytes_total,
    {
        self.state = ModState::Failed;
    }
}

/// A record at least as new as the subscription makes checking decide
/// `AlreadyInstalled` — in particular an exactly equal timestamp, which
/// is what makes repeated runs idempotent rather than re-updating.
pub proof fn lemma_timestamp_tie_break(m: Manifest, sub: Subscription, target: Platform)
    requires
        m.get_model(sub.mod_id) matches Some(entry) && entry.0 >= sub.date_updated,
    ensures
        spec_plan(m, sub, target) == Ok::<InstallPlan, ModError>(InstallPlan::AlreadyInstalled),
{
}

/// After a run in which every candidate ended at least as new as its
/// subscription — which `record_install` guarantees for every installed
/// or updated mod, and `AlreadyInstalled` leaves true — a second run
/// over the unchanged subscription list plans no work at all: every
/// candidate resolves to `AlreadyInstalled`.
pub proof fn lemma_idempotent_second_run(
    m2: Manifest,
    subs: Seq<Subscription>,
    target: Platform,
)
    requires
        forall|i: int| 0 <= i < subs.len()
            ==> ((#[trigger] m2.get_model(subs[i].mod_id)) matches Some(entry)
                && entry.0 >= subs[i].date_updated),
    ensures
        forall|i: int| 0 <= i < subs.len()
            ==> #[trigger] spec_plan(m2, subs[i], target) == Ok::<InstallPlan, ModError>(
                InstallPlan::AlreadyInstalled,
            ),
{
    assert forall|i: int| 0 <= i < subs.len() implies #[trigger] spec_plan(m2, subs[i], target)
        == Ok::<InstallPlan, ModError>(InstallPlan::AlreadyInstalled) by {
        assert(m2.get_model(subs[i].mod_id) matches Some(entry)
            && entry.0 >= subs[i].date_updated);
        lemma_timestamp_tie_break(m2, subs[i], target);
    }
}

} // verus!
