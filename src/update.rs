//! The decisions of one update check, as a machine that is handed the result
//! of each step and answers with the next step to take.

use crate::version::{is_empty_record, is_newer, lemma_first_run_updates, newer, Version};
use vstd::prelude::*;

verus! {

/// The step at which a check gave up.
#[derive(PartialEq, Eq, Structural, Clone, Copy, Debug)]
pub enum FailedStage {
    LocalLoad,
    RemoteFetch,
    DownloadOrExtract,
}

/// How a check ended.
#[derive(PartialEq, Eq, Structural, Clone, Copy, Debug)]
pub enum Outcome {
    /// The remote release was installed and recorded.
    Updated,
    /// The installed version is the published one; nothing was done.
    UpToDate,
    Failed(FailedStage),
}

/// Where a check stands, and what it carries to the steps still to come.
#[derive(PartialEq, Eq, Debug)]
pub enum UpdateState {
    AwaitingLocal { id: String },
    AwaitingRemote { id: String, local: Version },
    AwaitingArchive { remote: Version },
    AwaitingInstall { remote: Version },
    AwaitingRecord,
    AwaitingNotify,
    Finished(Outcome),
}

/// The result of the step last asked for.
#[derive(PartialEq, Eq, Debug)]
pub enum Event {
    /// The local record was read; `None` when there is no local record.
    LocalLoaded(Option<Version>),
    LocalLoadFailed,
    /// The published record; `None` when it could not be had.
    RemoteFetched(Option<Version>),
    /// Whether the archive was downloaded and unpacked into the staging
    /// directory.
    ArchiveStaged(bool),
    Installed,
    Recorded,
    Notified,
}

/// The next step to take.
#[derive(PartialEq, Eq, Debug)]
pub enum Action {
    LoadLocal,
    FetchRemote { id: String },
    DownloadAndExtract { id: String },
    /// Move what was unpacked into the destination directory.
    Install,
    /// Store this record as the installed version.
    Record(Version),
    Notify,
    /// The check is over.
    Finish(Outcome),
    /// The event does not belong to the current step: nothing to do.
    Ignore,
}

pub open spec fn finishes(next: UpdateState, a: Action, o: Outcome) -> bool {
    next == UpdateState::Finished(o) && a == Action::Finish(o)
}

pub open spec fn unchanged(s: UpdateState, next: UpdateState, a: Action) -> bool {
    next == s && a == Action::Ignore
}

/// One move of the machine: in state `s`, on event `e`, it goes to `next` and
/// asks for `a`.
pub open spec fn transition(s: UpdateState, e: Event, next: UpdateState, a: Action) -> bool {
    match s {
        UpdateState::AwaitingLocal { id } => match e {
            Event::LocalLoaded(Some(v)) => next == (UpdateState::AwaitingRemote { id, local: v })
                && a == (Action::FetchRemote { id }),
            Event::LocalLoaded(None) => {
                &&& next is AwaitingRemote
                &&& next->AwaitingRemote_id == id
                &&& is_empty_record(next->AwaitingRemote_local)
                &&& a == (Action::FetchRemote { id })
            },
            Event::LocalLoadFailed => finishes(next, a, Outcome::Failed(FailedStage::LocalLoad)),
            _ => unchanged(s, next, a),
        },
        UpdateState::AwaitingRemote { id, local } => match e {
            Event::RemoteFetched(Some(r)) => if newer(local, r) {
                next == (UpdateState::AwaitingArchive { remote: r }) && a == (
                Action::DownloadAndExtract { id: r.id })
            } else {
                finishes(next, a, Outcome::UpToDate)
            },
            Event::RemoteFetched(None) => finishes(
                next,
                a,
                Outcome::Failed(FailedStage::RemoteFetch),
            ),
            _ => unchanged(s, next, a),
        },
        UpdateState::AwaitingArchive { remote } => match e {
            Event::ArchiveStaged(true) => next == (UpdateState::AwaitingInstall { remote }) && a
                == Action::Install,
            Event::ArchiveStaged(false) => finishes(
                next,
                a,
                Outcome::Failed(FailedStage::DownloadOrExtract),
            ),
            _ => unchanged(s, next, a),
        },
        UpdateState::AwaitingInstall { remote } => match e {
            Event::Installed => next == UpdateState::AwaitingRecord && a == Action::Record(remote),
            _ => unchanged(s, next, a),
        },
        UpdateState::AwaitingRecord => match e {
            Event::Recorded => next == UpdateState::AwaitingNotify && a == Action::Notify,
            _ => unchanged(s, next, a),
        },
        UpdateState::AwaitingNotify => match e {
            Event::Notified => finishes(next, a, Outcome::Updated),
            _ => unchanged(s, next, a),
        },
        UpdateState::Finished(_) => unchanged(s, next, a),
    }
}

/// Begins a check of the release line `id`: the local record is read first.
pub fn start(id: String) -> (r: (UpdateState, Action))
    ensures
        r.0 == (UpdateState::AwaitingLocal { id }),
        r.1 == Action::LoadLocal,
{
    (UpdateState::AwaitingLocal { id }, Action::LoadLocal)
}

/// Moves the check on by the result of the step last asked for.
pub fn step(s: UpdateState, e: Event) -> (r: (UpdateState, Action))
    ensures
        transition(s, e, r.0, r.1),
{
    match s {
        UpdateState::AwaitingLocal { id } => match e {
            Event::LocalLoaded(Some(v)) => {
                let fetch = Action::FetchRemote { id: id.clone() };
                (UpdateState::AwaitingRemote { id, local: v }, fetch)
            },
            Event::LocalLoaded(None) => {
                let fetch = Action::FetchRemote { id: id.clone() };
                (UpdateState::AwaitingRemote { id, local: Version::default() }, fetch)
            },
            Event::LocalLoadFailed => {
                let o = Outcome::Failed(FailedStage::LocalLoad);
                (UpdateState::Finished(o), Action::Finish(o))
            },
            _ => (UpdateState::AwaitingLocal { id }, Action::Ignore),
        },
        UpdateState::AwaitingRemote { id, local } => match e {
            Event::RemoteFetched(Some(r)) => {
                if is_newer(&local, &r) {
                    let download = Action::DownloadAndExtract { id: r.id.clone() };
                    (UpdateState::AwaitingArchive { remote: r }, download)
                } else {
                    (UpdateState::Finished(Outcome::UpToDate), Action::Finish(Outcome::UpToDate))
                }
            },
            Event::RemoteFetched(None) => {
                let o = Outcome::Failed(FailedStage::RemoteFetch);
                (UpdateState::Finished(o), Action::Finish(o))
            },
            _ => (UpdateState::AwaitingRemote { id, local }, Action::Ignore),
        },
        UpdateState::AwaitingArchive { remote } => match e {
            Event::ArchiveStaged(true) => (UpdateState::AwaitingInstall { remote }, Action::Install),
            Event::ArchiveStaged(false) => {
                let o = Outcome::Failed(FailedStage::DownloadOrExtract);
                (UpdateState::Finished(o), Action::Finish(o))
            },
            _ => (UpdateState::AwaitingArchive { remote }, Action::Ignore),
        },
        UpdateState::AwaitingInstall { remote } => match e {
            Event::Installed => (UpdateState::AwaitingRecord, Action::Record(remote)),
            _ => (UpdateState::AwaitingInstall { remote }, Action::Ignore),
        },
        UpdateState::AwaitingRecord => match e {
            Event::Recorded => (UpdateState::AwaitingNotify, Action::Notify),
            _ => (UpdateState::AwaitingRecord, Action::Ignore),
        },
        UpdateState::AwaitingNotify => match e {
            Event::Notified => (UpdateState::Finished(Outcome::Updated), Action::Finish(Outcome::Updated)),
            _ => (UpdateState::AwaitingNotify, Action::Ignore),
        },
        UpdateState::Finished(o) => (UpdateState::Finished(o), Action::Ignore),
    }
}

/// A release that differs from the installed one, once its archive is
/// staged and installed, is the very record that the machine asks to store.
pub proof fn lemma_records_fetched_release(
    id: String,
    local: Version,
    remote: Version,
    s1: UpdateState,
    a1: Action,
    s2: UpdateState,
    a2: Action,
    s3: UpdateState,
    a3: Action,
)
    requires
        newer(local, remote),
        transition(
            UpdateState::AwaitingRemote { id, local },
            Event::RemoteFetched(Some(remote)),
            s1,
            a1,
        ),
        transition(s1, Event::ArchiveStaged(true), s2, a2),
        transition(s2, Event::Installed, s3, a3),
    ensures
        a1 == (Action::DownloadAndExtract { id: remote.id }),
        a2 == Action::Install,
        a3 == Action::Record(remote),
{
}

/// When the published record cannot be had, or has the installed version
/// token, the check ends at once: nothing is downloaded, installed or
/// stored.
pub proof fn lemma_no_work_without_new_release(
    id: String,
    local: Version,
    fetched: Option<Version>,
    next: UpdateState,
    a: Action,
)
    requires
        fetched is None || fetched->0.version@ == local.version@,
        transition(
            UpdateState::AwaitingRemote { id, local },
            Event::RemoteFetched(fetched),
            next,
            a,
        ),
    ensures
        next is Finished,
        a is Finish,
        fetched is None ==> a == Action::Finish(Outcome::Failed(FailedStage::RemoteFetch)),
        fetched is Some ==> a == Action::Finish(Outcome::UpToDate),
{
}

/// With no local record, the check goes on to download any published
/// release whose version token is not empty.
pub proof fn lemma_first_run_downloads(
    id: String,
    remote: Version,
    s1: UpdateState,
    a1: Action,
    s2: UpdateState,
    a2: Action,
)
    requires
        remote.version@.len() > 0,
        transition(UpdateState::AwaitingLocal { id }, Event::LocalLoaded(None), s1, a1),
        transition(s1, Event::RemoteFetched(Some(remote)), s2, a2),
    ensures
        a1 == (Action::FetchRemote { id }),
        a2 == (Action::DownloadAndExtract { id: remote.id }),
        s2 == (UpdateState::AwaitingArchive { remote }),
{
    lemma_first_run_updates(s1->AwaitingRemote_local, remote);
}

} // verus!
