//! Wire types shared by every NoteDock component: the single source of truth
//! for the HTTP contract. Note bodies are deliberately absent; they live in a
//! Yjs document synced over the WebSocket endpoint. Everything here is
//! metadata.

use vstd::prelude::*;
use crate::json::Json;

verus! {

/// Timestamps cross the wire as RFC 3339 UTC strings.
pub type Timestamp = String;

/// Server-assigned metadata revision, bumped whenever a note's title, preview
/// or tombstone state changes. It is not a body version.
pub type Rev = i64;

/// Position in the server's global change log. Clients keep the last cursor
/// they saw and ask for everything after it.
pub type ChangeSeq = i64;

pub const API_PREFIX: &'static str = "/api/v1";

/// An empty TipTap document: `{"type": "doc", "content": []}`.
pub open spec fn empty_doc_spec(doc: Json) -> bool {
    &&& doc matches Json::Object(entries)
    &&& entries@.len() == 2
    &&& entries@[0].0@ == "type"@
    &&& entries@[0].1 matches Json::String(t) && t@ == "doc"@
    &&& entries@[1].0@ == "content"@
    &&& entries@[1].1 matches Json::Array(items) && items@.len() == 0
}

/// An empty TipTap document, the shape a client falls back to when a
/// document fails to load.
pub fn empty_doc() -> (doc: Json)
    ensures
        empty_doc_spec(doc),
{
    let mut entries: Vec<(String, Json)> = Vec::new();
    entries.push((String::from_str("type"), Json::String(String::from_str("doc"))));
    entries.push((String::from_str("content"), Json::Array(Vec::new())));
    Json::Object(entries)
}

/// Everything the clients know about a note without opening it, both for the
/// list and for the sync feed.
#[derive(Debug, Clone, PartialEq)]
pub struct NoteSummary {
    pub id: String,
    /// Derived from the first line of the body on every materialization.
    pub title: String,
    /// Leading plain text, for the list and the command palette.
    pub preview: String,
    pub rev: Rev,
    pub updated_at: Timestamp,
    /// Tombstone flag. Deleted notes keep flowing through `/sync` so clients
    /// can drop their local copies; the list endpoint omits them.
    pub deleted: bool,
}

#[derive(Debug, Clone, PartialEq)]
pub struct CreateNoteRequest {
    /// Client-chosen UUID, so a note written offline keeps one identity and a
    /// retried upload cannot produce a duplicate. `None` lets the server
    /// allocate one.
    pub id: Option<String>,
    /// Provisional name, shown until the first body edit derives the real one.
    pub title: String,
}

#[derive(Debug, Clone, PartialEq)]
pub struct SyncResponse {
    /// Notes (including tombstones) whose metadata changed after the cursor.
    pub changes: Vec<NoteSummary>,
    /// Cursor to send next time.
    pub cursor: ChangeSeq,
}

#[derive(Debug, Clone, PartialEq)]
pub struct LoginRequest {
    pub password: String,
    /// Human-readable device name, shown when auditing active sessions.
    pub label: Option<String>,
}

#[derive(Debug, Clone, PartialEq)]
pub struct LoginResponse {
    pub token: String,
    pub expires_at: Timestamp,
}

#[derive(Debug, Clone, PartialEq)]
pub struct AuthStatusResponse {
    pub initialized: bool,
}

#[derive(Debug, Clone, PartialEq)]
pub struct SetupRequest {
    pub password: String,
    pub label: Option<String>,
}

/// Short-lived credential for opening the note WebSocket.
#[derive(Debug, Clone, PartialEq)]
pub struct TicketResponse {
    pub ticket: String,
    pub expires_at: Timestamp,
    /// Absolute `ws://` or `wss://` URL the client should open, already
    /// carrying the ticket.
    pub url: String,
}

#[derive(Debug, Clone, Copy, PartialEq, Eq, Structural)]
pub enum ErrorCode {
    BadRequest,
    Unauthorized,
    NotFound,
    TooManyRequests,
    Internal,
}

impl ErrorCode {
    /// The wire spelling (`snake_case`).
    pub open spec fn wire_name(self) -> Seq<char> {
        match self {
            ErrorCode::BadRequest => "bad_request"@,
            ErrorCode::Unauthorized => "unauthorized"@,
            ErrorCode::NotFound => "not_found"@,
            ErrorCode::TooManyRequests => "too_many_requests"@,
            ErrorCode::Internal => "internal"@,
        }
    }

    pub fn as_str(&self) -> (s: &'static str)
        ensures
            s@ == self.wire_name(),
    {
        match self {
            ErrorCode::BadRequest => "bad_request",
            ErrorCode::Unauthorized => "unauthorized",
            ErrorCode::NotFound => "not_found",
            ErrorCode::TooManyRequests => "too_many_requests",
            ErrorCode::Internal => "internal",
        }
    }
}

/// Every non-2xx response uses this shape.
#[derive(Debug, Clone, PartialEq)]
pub struct ApiErrorBody {
    pub code: ErrorCode,
    pub message: String,
}

} // verus!
