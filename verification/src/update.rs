//! The self-update flow: which release to offer, and how the status moves.
//!
//! Fetching the release list, downloading and replacing the binary happen in
//! the application; this module decides what a fetched list means and which
//! status follows each step.

use vstd::prelude::*;

verus! {

#[verifier::external_type_specification]
#[verifier::external_body]
pub struct ExUpdateError(self_update::errors::Error);

/// What `self_update::version::bump_is_greater(current, other)` gives: `None`
/// when either text is not a semantic version, else whether `other` is a
/// greater version than `current`.
pub uninterp spec fn bump_outcome(current: Seq<char>, other: Seq<char>) -> Option<bool>;

/// Calls `self_update::version::bump_is_greater`, which parses both texts as
/// semantic versions and compares them.
///
/// Trusted: the result is named by [`bump_outcome`]. A version is never
/// greater than itself (semver's `Version` is totally ordered), which is also
/// stated.
#[verifier::external_body]
fn bump_is_greater(current: &str, other: &str) -> (r: Result<bool, self_update::errors::Error>)
    ensures
        r is Ok <==> bump_outcome(current@, other@) is Some,
        r matches Ok(b) ==> bump_outcome(current@, other@) == Some(b),
        current@ == other@ ==> !(r matches Ok(true)),
{
    self_update::version::bump_is_greater(current, other)
}

/// The message of an update error, as its `Display` writes it.
///
/// Trusted: only that a text comes back; its wording is the crate's.
#[verifier::external_body]
fn update_error_message(e: &self_update::errors::Error) -> String {
    e.to_string()
}

/// The version this program runs.
pub fn current_version() -> (r: &'static str)
    ensures
        r@ == seq!['0', '.', '1', '.', '0'],
{
    proof {
        reveal_strlit("0.1.0");
    }
    "0.1.0"
}

/// One published release: its version and its release notes, if any.
#[derive(Clone, Debug)]
pub struct ReleaseInfo {
    pub version: String,
    pub body: Option<String>,
}

/// The notes shown for a release: its body, or nothing.
pub open spec fn notes_of(body: Option<String>) -> Seq<char> {
    match body {
        Some(b) => b@,
        None => seq![],
    }
}

/// What to offer for the newest release, given whether it is newer than the
/// running version: its version and notes, or nothing.
pub fn release_offer(latest: ReleaseInfo, newer: bool) -> (r: Option<(String, String)>)
    ensures
        newer <==> r is Some,
        r matches Some(o) ==> o.0@ == latest.version@ && o.1@ == notes_of(latest.body),
{
    if newer {
        let notes = match latest.body {
            Some(b) => b,
            None => String::new(),
        };
        Some((latest.version, notes))
    } else {
        None
    }
}

/// Decides what the release list fetched from the server means: the newest
/// release (the first of the list) is offered with its notes when it is
/// newer than `current`; an empty list, or a newest release that is not
/// newer, offers nothing. Versions that do not parse are an error.
pub fn latest_release(current: &str, releases: Vec<ReleaseInfo>) -> (r: Result<
    Option<(String, String)>,
    String,
>)
    ensures
        releases@.len() == 0 ==> r matches Ok(None),
        releases@.len() > 0 ==> ({
            let latest = releases@[0];
            let outcome = bump_outcome(current@, latest.version@);
            &&& (r is Err <==> outcome is None)
            &&& (outcome == Some(false) ==> r matches Ok(None))
            &&& (outcome == Some(true) ==> (r matches Ok(Some(o)) && o.0@ == latest.version@ && o.1@
                == notes_of(latest.body)))
        }),
        releases@.len() > 0 && releases@[0].version@ == current@ ==> !(r matches Ok(Some(_))),
{
    let mut releases = releases;
    if releases.len() == 0 {
        return Ok(None);
    }
    let latest = releases.remove(0);
    match bump_is_greater(current, latest.version.as_str()) {
        Ok(newer) => Ok(release_offer(latest, newer)),
        Err(e) => Err(update_error_message(&e)),
    }
}

/// State of the update flow, polled by the interface each frame.
#[derive(Clone, Debug)]
pub enum UpdateStatus {
    /// Nothing has happened yet.
    Idle,
    /// A release check is in flight.
    Checking,
    /// The running version is the latest.
    UpToDate,
    /// A newer release is available.
    Available { version: String, notes: String },
    /// The new version is being downloaded and installed.
    Installing,
    /// Installed successfully; a restart is required to apply it.
    Installed { version: String },
    /// Something went wrong (network, permissions, ...).
    Failed(String),
}

impl Default for UpdateStatus {
    /// The flow starts idle.
    fn default() -> (r: Self)
        ensures
            r is Idle,
    {
        UpdateStatus::Idle
    }
}

/// Whether a release check may start from `s`: only once, from the idle state.
pub open spec fn check_may_start(s: UpdateStatus) -> bool {
    s is Idle
}

/// Whether an installation may start from `s`: not while one runs.
pub open spec fn install_may_start(s: UpdateStatus) -> bool {
    !(s is Installing)
}

impl UpdateStatus {
    /// The status a release check starts with, or `None` when one is running
    /// or has already been resolved.
    pub fn begin_check(&self) -> (r: Option<UpdateStatus>)
        ensures
            check_may_start(*self) <==> r is Some,
            r matches Some(s) ==> s is Checking,
    {
        match self {
            UpdateStatus::Idle => Some(UpdateStatus::Checking),
            _ => None,
        }
    }

    /// The status once a release check has answered.
    pub fn check_finished(result: Result<Option<(String, String)>, String>) -> (r: UpdateStatus)
        ensures
            match result {
                Ok(Some(offer)) => r == UpdateStatus::Available { version: offer.0, notes: offer.1 },
                Ok(None) => r is UpToDate,
                Err(e) => r == UpdateStatus::Failed(e),
            },
    {
        match result {
            Ok(Some((version, notes))) => UpdateStatus::Available { version, notes },
            Ok(None) => UpdateStatus::UpToDate,
            Err(e) => UpdateStatus::Failed(e),
        }
    }

    /// The status an installation starts with, or `None` while one runs.
    pub fn begin_install(&self) -> (r: Option<UpdateStatus>)
        ensures
            install_may_start(*self) <==> r is Some,
            r matches Some(s) ==> s is Installing,
    {
        match self {
            UpdateStatus::Installing => None,
            _ => Some(UpdateStatus::Installing),
        }
    }

    /// The status once an installation has ended.
    pub fn install_finished(result: Result<String, String>) -> (r: UpdateStatus)
        ensures
            match result {
                Ok(version) => r == UpdateStatus::Installed { version },
                Err(e) => r == UpdateStatus::Failed(e),
            },
    {
        match result {
            Ok(version) => UpdateStatus::Installed { version },
            Err(e) => UpdateStatus::Failed(e),
        }
    }
}

/// What the toolbar shows for the update flow.
#[derive(Clone, Debug)]
pub enum UpdateBanner {
    /// Nothing (idle or up to date).
    Hidden,
    /// A spinner while the release check runs.
    Checking,
    /// A button offering to update to `version`.
    Offer { version: String },
    /// A spinner while the update installs.
    Installing,
    /// A button restarting into the installed `version`.
    Restart { version: String },
    /// A quiet note that updates are unavailable.
    Unavailable,
}

impl UpdateStatus {
    /// The toolbar element for this status.
    pub fn banner(&self) -> (r: UpdateBanner)
        ensures
            match *self {
                UpdateStatus::Idle | UpdateStatus::UpToDate => r is Hidden,
                UpdateStatus::Checking => r is Checking,
                UpdateStatus::Available { version, notes: _ } => r == UpdateBanner::Offer { version },
                UpdateStatus::Installing => r is Installing,
                UpdateStatus::Installed { version } => r == UpdateBanner::Restart { version },
                UpdateStatus::Failed(_) => r is Unavailable,
            },
    {
        match self {
            UpdateStatus::Idle | UpdateStatus::UpToDate => UpdateBanner::Hidden,
            UpdateStatus::Checking => UpdateBanner::Checking,
            UpdateStatus::Available { version, .. } => UpdateBanner::Offer { version: version.clone() },
            UpdateStatus::Installing => UpdateBanner::Installing,
            UpdateStatus::Installed { version } => UpdateBanner::Restart { version: version.clone() },
            UpdateStatus::Failed(_) => UpdateBanner::Unavailable,
        }
    }
}

/// A release check starts at most once: the status it starts with refuses a
/// second one, and so does every status a check can end in.
pub proof fn lemma_check_runs_once(result: Result<Option<(String, String)>, String>)
    ensures
        !check_may_start(UpdateStatus::Checking),
        !check_may_start(
            match result {
                Ok(Some(offer)) => UpdateStatus::Available { version: offer.0, notes: offer.1 },
                Ok(None) => UpdateStatus::UpToDate,
                Err(e) => UpdateStatus::Failed(e),
            },
        ),
{
}

/// Two installations never run at once: the status an installation starts
/// with refuses another until it has ended.
pub proof fn lemma_install_not_reentered(s: UpdateStatus)
    ensures
        install_may_start(s) ==> !install_may_start(UpdateStatus::Installing),
        !install_may_start(s) ==> s is Installing,
{
}

} // verus!
