//! What the desktop client asks the server, and how it reads the answer.
//! The HTTP round trip itself belongs to the shell; the URLs it builds and the
//! rules for turning a reply into an error are here.

use vstd::prelude::*;
use crate::api::{ApiErrorBody, ErrorCode, API_PREFIX};
use crate::chars::{to_chars, from_chars, extend_chars};
use crate::num::{int_text, i64_chars};

verus! {

/// Why a request to the server failed.
#[derive(Debug, Clone, PartialEq)]
pub enum RemoteError {
    /// Never reached the server. The caller keeps the local change and retries.
    Offline,
    Unauthorized,
    Api { code: ErrorCode, message: String },
    /// Anything else, such as a reply that could not be read.
    Other(String),
}

impl RemoteError {
    /// What the error says when shown.
    pub open spec fn text(self) -> Seq<char> {
        match self {
            RemoteError::Offline => "无法连接到服务器"@,
            RemoteError::Unauthorized => "登录已过期"@,
            RemoteError::Api { code, message } => "服务器返回错误："@ + message@,
            RemoteError::Other(m) => m@,
        }
    }

    pub fn message(&self) -> (r: String)
        ensures
            r@ == self.text(),
    {
        match self {
            RemoteError::Offline => String::from_str("无法连接到服务器"),
            RemoteError::Unauthorized => String::from_str("登录已过期"),
            RemoteError::Api { code, message } => {
                let mut out = to_chars("服务器返回错误：");
                extend_chars(&mut out, &to_chars(message.as_str()));
                from_chars(&out)
            },
            RemoteError::Other(m) => m.clone(),
        }
    }
}

/// Absolute URL of an API path on the server at `base`.
pub fn api_url(base: &str, path: &str) -> (r: String)
    ensures
        r@ == base@ + API_PREFIX@ + path@,
{
    let mut out = to_chars(base);
    extend_chars(&mut out, &to_chars(API_PREFIX));
    extend_chars(&mut out, &to_chars(path));
    from_chars(&out)
}

/// Path of one note.
pub fn note_path(id: &str) -> (r: String)
    ensures
        r@ == "/notes/"@ + id@,
{
    let mut out = to_chars("/notes/");
    extend_chars(&mut out, &to_chars(id));
    from_chars(&out)
}

/// Path of the change feed after `since`.
pub fn sync_path(since: i64) -> (r: String)
    ensures
        r@ == "/sync?since="@ + int_text(since as int),
{
    let mut out = to_chars("/sync?since=");
    extend_chars(&mut out, &i64_chars(since));
    from_chars(&out)
}

/// Turns a reply into success or the matching [`RemoteError`]: an expired
/// session, the server's own error, or, for a body that is not the expected
/// error shape (a proxy's HTML 502, say), an internal error naming the status.
/// `status_line` is the status as the server sent it, e.g. `502 Bad Gateway`;
/// `body` is the reply's error body when it could be read as one.
pub fn check_reply(success: bool, status_line: &str, body: Option<ApiErrorBody>) -> (r: Result<
    (),
    RemoteError,
>)
    ensures
        success ==> r is Ok,
        !success ==> match body {
            Some(b) => if b.code == ErrorCode::Unauthorized {
                r == Err::<(), RemoteError>(RemoteError::Unauthorized)
            } else {
                r == Err::<(), RemoteError>(RemoteError::Api { code: b.code, message: b.message })
            },
            None => r matches Err(RemoteError::Api { code, message }) && code == ErrorCode::Internal
                && message@ == "服务器返回 "@ + status_line@,
        },
{
    if success {
        return Ok(());
    }
    match body {
        Some(b) => match b.code {
            ErrorCode::Unauthorized => Err(RemoteError::Unauthorized),
            code => Err(RemoteError::Api { code, message: b.message }),
        },
        None => {
            let mut out = to_chars("服务器返回 ");
            extend_chars(&mut out, &to_chars(status_line));
            Err(RemoteError::Api { code: ErrorCode::Internal, message: from_chars(&out) })
        },
    }
}

} // verus!
