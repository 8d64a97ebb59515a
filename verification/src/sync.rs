//! The metadata sync loop's decisions: push local creations and deletions,
//! then pull the note list, and what the window is told afterwards.
//!
//! The loop itself (timers, HTTP, the local database) runs in the desktop
//! shell, which asks these functions what each reply means and what state to
//! show. Push comes first: a note created offline has to exist on the server
//! before the pull can say anything useful about it.

use vstd::prelude::*;
use crate::api::{CreateNoteRequest, NoteSummary, SyncResponse};
use crate::remote::RemoteError;
use crate::store::Pending;

verus! {

/// Bound on pages pulled per run, so a first sync of a large library
/// converges quickly without blocking the loop indefinitely.
pub const MAX_PAGES: usize = 20;

#[derive(Debug, Clone, Copy, PartialEq, Eq, Structural)]
pub enum SyncStatus {
    Synced,
    Syncing,
    Offline,
}

/// What the window is shown about syncing.
#[derive(Debug, Clone, PartialEq)]
pub struct SyncState {
    pub status: SyncStatus,
    /// Human-readable detail, shown only when there is something to say.
    pub message: Option<String>,
    /// Local creations and deletions not yet accepted by the server.
    pub pending: i64,
    pub logged_in: bool,
    pub server_url: String,
}

/// Why a pass stopped. Both the server and the local database can fail, and
/// both collapse to these three outcomes for the window.
#[derive(Debug, Clone, PartialEq)]
pub enum Failure {
    Offline,
    Unauthorized,
    Message(String),
}

/// Whether `f` is the failure the server error `err` becomes: a dropped
/// connection and an expired session keep their meaning, anything else is
/// shown as its message.
pub open spec fn fails_as(err: RemoteError, f: Failure) -> bool {
    match err {
        RemoteError::Offline => f == Failure::Offline,
        RemoteError::Unauthorized => f == Failure::Unauthorized,
        _ => f matches Failure::Message(m) && m@ == err.text(),
    }
}

impl Failure {
    /// A local database error; its cause is for the log, not the window.
    pub fn from_local() -> (f: Failure)
        ensures
            f matches Failure::Message(m) && m@ == "本地数据库出错"@,
    {
        Failure::Message(String::from_str("本地数据库出错"))
    }

    pub fn from_remote(err: RemoteError) -> (f: Failure)
        ensures
            fails_as(err, f),
    {
        match err {
            RemoteError::Offline => Failure::Offline,
            RemoteError::Unauthorized => Failure::Unauthorized,
            other => Failure::Message(other.message()),
        }
    }
}


// ---------------------------------------------------------------------------
// Starting a pass
// ---------------------------------------------------------------------------

/// How a pass begins, once it is known whether there is a client with
/// credentials to sync with.
#[derive(Debug, Clone, Copy, PartialEq, Eq, Structural)]
pub enum PassStart {
    /// No credentials on the first pass after start: back to the login screen.
    SignOut,
    /// No credentials on a later pass: show offline and wait.
    ShowOffline,
    /// Push, then pull.
    Sync,
}

pub fn pass_start(has_client: bool, initial_pass: bool) -> (p: PassStart)
    ensures
        p == (if has_client {
            PassStart::Sync
        } else if initial_pass {
            PassStart::SignOut
        } else {
            PassStart::ShowOffline
        }),
{
    if has_client {
        PassStart::Sync
    } else if initial_pass {
        PassStart::SignOut
    } else {
        PassStart::ShowOffline
    }
}

// ---------------------------------------------------------------------------
// Finishing a pass
// ---------------------------------------------------------------------------

/// What has just happened in a pass, once push and pull are over.
#[derive(Debug, Clone, PartialEq)]
pub enum PassEvent {
    /// Push and pull went through.
    Synced,
    /// The server's full list was read and the local rows reconciled with it.
    Reconciled,
    /// Something failed: push, pull, the list or the local database.
    Failed(Failure),
}

/// What a pass does next.
#[derive(Debug, Clone, PartialEq)]
pub enum PassAction {
    /// Read the server's full list and reconcile the local rows against it.
    ReconcileList,
    /// Show the state as synced; the pass is over.
    ShowSynced,
    /// Settle the failure; the pass is over.
    Settle(Failure),
}

/// The first pass after start reconciles against the server's full list
/// before it shows Synced, since rows cached from an earlier session may be
/// stale; later passes trust the change feed. Any failure is settled.
pub fn pass_step(initial_pass: bool, event: PassEvent) -> (a: PassAction)
    ensures
        a == (match event {
            PassEvent::Synced => if initial_pass {
                PassAction::ReconcileList
            } else {
                PassAction::ShowSynced
            },
            PassEvent::Reconciled => PassAction::ShowSynced,
            PassEvent::Failed(f) => PassAction::Settle(f),
        }),
{
    match event {
        PassEvent::Synced => if initial_pass {
            PassAction::ReconcileList
        } else {
            PassAction::ShowSynced
        },
        PassEvent::Reconciled => PassAction::ShowSynced,
        PassEvent::Failed(f) => PassAction::Settle(f),
    }
}

/// What reading the server's full list means for the pass.
pub fn after_list(reply: Result<Vec<NoteSummary>, RemoteError>) -> (r: Result<Vec<NoteSummary>, Failure>)
    ensures
        match reply {
            Ok(notes) => r == Ok::<Vec<NoteSummary>, Failure>(notes),
            Err(e) => r matches Err(f) && fails_as(e, f),
        },
{
    match reply {
        Ok(notes) => Ok(notes),
        Err(e) => Err(Failure::from_remote(e)),
    }
}

// ---------------------------------------------------------------------------
// Push
// ---------------------------------------------------------------------------

/// What the push does for one outbox entry.
#[derive(Debug, Clone, PartialEq)]
pub enum PushStep {
    /// Send this creation; the id travels with it, so a retry after a dropped
    /// connection cannot produce a duplicate.
    Create(CreateNoteRequest),
    /// Tombstone this note on the server, then clear the entry.
    Delete(String),
    /// Clear the entry without asking the server: the note was created and
    /// deleted offline and never reached it.
    Forget(String),
}

pub fn push_step(note: &Pending) -> (step: PushStep)
    ensures
        note.deleted && note.rev > 0 ==> step == PushStep::Delete(note.id),
        note.deleted && note.rev <= 0 ==> step == PushStep::Forget(note.id),
        !note.deleted ==> step == PushStep::Create(
            CreateNoteRequest { id: Some(note.id), title: note.title },
        ),
{
    if note.deleted {
        if note.rev > 0 {
            PushStep::Delete(note.id.clone())
        } else {
            PushStep::Forget(note.id.clone())
        }
    } else {
        PushStep::Create(CreateNoteRequest { id: Some(note.id.clone()), title: note.title.clone() })
    }
}

/// The server's answer to a tombstone. A 404 is the desired end state too, so
/// any API-level rejection is treated as "it is not there" and the entry is
/// cleared; only a failure to reach the server or to be let in stops the pass.
pub fn after_delete(reply: Result<(), RemoteError>) -> (r: Result<(), Failure>)
    ensures
        match reply {
            Ok(()) => r is Ok,
            Err(RemoteError::Api { .. }) => r is Ok,
            Err(e) => r matches Err(f) && fails_as(e, f),
        },
{
    match reply {
        Ok(()) => Ok(()),
        Err(RemoteError::Api { .. }) => Ok(()),
        Err(e) => Err(Failure::from_remote(e)),
    }
}

/// The server's answer to a creation: the note as the server now has it, to
/// be written back to the outbox entry, or why the pass stops.
pub fn after_create(reply: Result<NoteSummary, RemoteError>) -> (r: Result<NoteSummary, Failure>)
    ensures
        match reply {
            Ok(saved) => r == Ok::<NoteSummary, Failure>(saved),
            Err(e) => r matches Err(f) && fails_as(e, f),
        },
{
    match reply {
        Ok(saved) => Ok(saved),
        Err(e) => Err(Failure::from_remote(e)),
    }
}

// ---------------------------------------------------------------------------
// Pull
// ---------------------------------------------------------------------------

/// The server's answer to a page request: the page to apply, or why the pass
/// stops.
pub fn after_page(reply: Result<SyncResponse, RemoteError>) -> (r: Result<SyncResponse, Failure>)
    ensures
        match reply {
            Ok(page) => r == Ok::<SyncResponse, Failure>(page),
            Err(e) => r matches Err(f) && fails_as(e, f),
        },
{
    match reply {
        Ok(page) => Ok(page),
        Err(e) => Err(Failure::from_remote(e)),
    }
}

/// Whether the pull asks for another page after applying the `pages_done`th
/// one: only while the server still had changes, and never more than
/// [`MAX_PAGES`] in one pass.
pub fn pull_continues(pages_done: usize, last_page_empty: bool) -> (more: bool)
    ensures
        more == (!last_page_empty && pages_done < MAX_PAGES),
{
    !last_page_empty && pages_done < MAX_PAGES
}

// ---------------------------------------------------------------------------
// What the window is shown
// ---------------------------------------------------------------------------

/// The state a fresh engine starts in: syncing when there is a session to sync
/// with, offline otherwise.
pub fn initial_state(configured: bool, server_url: String) -> (s: SyncState)
    ensures
        s.status == (if configured {
            SyncStatus::Syncing
        } else {
            SyncStatus::Offline
        }),
        s.message is None,
        s.pending == 0,
        s.logged_in == configured,
        s.server_url == server_url,
{
    SyncState {
        status: if configured {
            SyncStatus::Syncing
        } else {
            SyncStatus::Offline
        },
        message: None,
        pending: 0,
        logged_in: configured,
        server_url,
    }
}

/// Logging in to a different server drops the local cache: ids and change-log
/// positions from another server mean nothing here. A first login switches
/// nothing.
pub fn switches_server(current: &str, next: &str) -> (b: bool)
    ensures
        b == (current@.len() > 0 && current@ != next@),
{
    crate::chars::to_chars(current).len() > 0 && !crate::chars::str_eq(current, next)
}

impl SyncState {
    /// After a successful login to `server_url`.
    pub fn signed_in(self, server_url: String) -> (s: SyncState)
        ensures
            s == (SyncState {
                logged_in: true,
                server_url,
                status: SyncStatus::Syncing,
                message: None,
                ..self
            }),
    {
        SyncState { logged_in: true, server_url, status: SyncStatus::Syncing, message: None, ..self }
    }

    /// After the token has been forgotten: back to the login screen.
    pub fn signed_out(self) -> (s: SyncState)
        ensures
            s == signed_out_state(self),
    {
        SyncState { logged_in: false, status: SyncStatus::Offline, message: None, ..self }
    }

    /// With the outbox size re-read; an unreadable count keeps the last one.
    pub fn with_pending(self, count: Option<i64>) -> (s: SyncState)
        ensures
            s == (SyncState {
                pending: match count {
                    Some(c) => c,
                    None => self.pending,
                },
                ..self
            }),
    {
        let pending = match count {
            Some(c) => c,
            None => self.pending,
        };
        SyncState { pending, ..self }
    }

    /// A pass has started.
    pub fn syncing(self) -> (s: SyncState)
        ensures
            s == (SyncState { status: SyncStatus::Syncing, ..self }),
    {
        SyncState { status: SyncStatus::Syncing, ..self }
    }

    /// A pass has finished cleanly.
    pub fn synced(self) -> (s: SyncState)
        ensures
            s == (SyncState { status: SyncStatus::Synced, message: None, ..self }),
    {
        SyncState { status: SyncStatus::Synced, message: None, ..self }
    }

    /// No session to sync with on a later pass: shown offline, nothing more.
    pub fn offline(self) -> (s: SyncState)
        ensures
            s == (SyncState { status: SyncStatus::Offline, ..self }),
    {
        SyncState { status: SyncStatus::Offline, ..self }
    }
}

/// Whether a failed pass forgets the session. An expired token always does.
/// On the first pass after startup any failure does, so a bad start lands on
/// the login screen; a later network drop or error keeps the editor open and
/// retries in the background.
pub open spec fn forgets(outcome: Failure, initial_pass: bool) -> bool {
    match outcome {
        Failure::Unauthorized => true,
        _ => initial_pass,
    }
}

pub fn settle_forgets(outcome: &Failure, initial_pass: bool) -> (b: bool)
    ensures
        b == forgets(*outcome, initial_pass),
        initial_pass ==> b,
        !initial_pass ==> (b <==> *outcome is Unauthorized),
{
    match outcome {
        Failure::Unauthorized => true,
        _ => initial_pass,
    }
}

/// What a failed pass shows: `s` is what `state` becomes once the session has
/// been forgotten, when [`forgets`] says so.
pub open spec fn settles_to(state: SyncState, outcome: Failure, initial_pass: bool, s: SyncState) -> bool {
    match outcome {
        Failure::Offline => if initial_pass {
            &&& s == SyncState { message: s.message, ..state }
            &&& s.message matches Some(m) && m@ == "无法连接服务器，请重新登录"@
        } else {
            s == SyncState { status: SyncStatus::Offline, message: None, ..state }
        },
        Failure::Unauthorized => {
            &&& s == SyncState { status: SyncStatus::Offline, message: s.message, ..state }
            &&& s.message matches Some(m) && m@ == "登录已过期，请重新登录"@
        },
        Failure::Message(m) => if initial_pass {
            s == SyncState { message: Some(m), ..state }
        } else {
            s == SyncState { status: SyncStatus::Offline, message: Some(m), ..state }
        },
    }
}

/// The state after the token has been forgotten: back to the login screen.
pub open spec fn signed_out_state(state: SyncState) -> SyncState {
    SyncState { logged_in: false, status: SyncStatus::Offline, message: None, ..state }
}

pub fn settled(state: SyncState, outcome: Failure, initial_pass: bool) -> (s: SyncState)
    ensures
        settles_to(state, outcome, initial_pass, s),
{
    match outcome {
        Failure::Offline => {
            if initial_pass {
                SyncState { message: Some(String::from_str("无法连接服务器，请重新登录")), ..state }
            } else {
                SyncState { status: SyncStatus::Offline, message: None, ..state }
            }
        },
        Failure::Unauthorized => SyncState {
            status: SyncStatus::Offline,
            message: Some(String::from_str("登录已过期，请重新登录")),
            ..state
        },
        Failure::Message(m) => {
            if initial_pass {
                SyncState { message: Some(m), ..state }
            } else {
                SyncState { status: SyncStatus::Offline, message: Some(m), ..state }
            }
        },
    }
}


/// An expired session always ends on the login screen, offline, saying why,
/// whichever pass it happens on.
pub proof fn expired_session_signs_out(state: SyncState, initial_pass: bool, s: SyncState)
    requires
        settles_to(signed_out_state(state), Failure::Unauthorized, initial_pass, s),
    ensures
        forgets(Failure::Unauthorized, initial_pass),
        !s.logged_in,
        s.status == SyncStatus::Offline,
        s.message matches Some(m) && m@ == "登录已过期，请重新登录"@,
{
}

/// A failed first pass after startup returns to the login screen, whatever
/// the failure was.
pub proof fn failed_start_signs_out(state: SyncState, outcome: Failure, s: SyncState)
    requires
        settles_to(signed_out_state(state), outcome, true, s),
    ensures
        forgets(outcome, true),
        !s.logged_in,
        s.status == SyncStatus::Offline,
        s.message is Some,
{
}

/// A network drop on a later pass keeps the session and the editor: the
/// window only shows offline, and the next pass retries.
pub proof fn later_drop_keeps_session(state: SyncState, s: SyncState)
    requires
        settles_to(state, Failure::Offline, false, s),
    ensures
        !forgets(Failure::Offline, false),
        s.logged_in == state.logged_in,
        s.server_url == state.server_url,
        s.status == SyncStatus::Offline,
        s.message is None,
{
}

/// An expired session, as the server reports it, signs the desktop out on
/// the first pass and on every later one.
pub proof fn expired_token_always_signs_out(f: Failure, initial_pass: bool)
    requires
        fails_as(RemoteError::Unauthorized, f),
    ensures
        forgets(f, initial_pass),
{
}

/// A dropped connection after the first pass never signs the desktop out:
/// the editor stays open and the next pass retries.
pub proof fn dropped_connection_keeps_credentials(f: Failure)
    requires
        fails_as(RemoteError::Offline, f),
    ensures
        !forgets(f, false),
{
}

/// On the first pass after start every failure returns to the login screen;
/// on a later pass only an expired session does. A dropped connection or a
/// server's error message keeps the credentials, and the next pass retries.
pub proof fn only_an_expired_session_forgets_later(f: Failure, m: String)
    ensures
        forgets(f, true),
        forgets(f, false) <==> f is Unauthorized,
        !forgets(Failure::Message(m), false),
        !forgets(Failure::Offline, false),
        forgets(Failure::Unauthorized, false),
{
}
} // verus!
