//! Where the server lives and whether there is a session for it.
//!
//! The settings file itself (and the window opacity it keeps, a float) is the
//! desktop shell's business; what is decided about its contents is here.

use vstd::prelude::*;
use crate::chars::{strip_end, trim, to_chars, from_chars, trim_chars, strip_end_chars, starts_with};

verus! {

/// What the settings panel shows under "关于". The data directory is worth
/// surfacing: it is where the offline cache and the bearer token live.
#[derive(Debug, Clone, PartialEq)]
pub struct AppInfo {
    pub version: String,
    pub data_dir: String,
    pub db_path: String,
}

/// The file in the app-data directory that holds the server URL, the token
/// and the window preferences: the one secret on the machine stays in a
/// single file that only the desktop's native side reads.
pub const SETTINGS_FILE: &'static str = "settings.json";

/// Whether the window floats above everything else unless the settings say
/// otherwise. On by default: that is the point of the app.
pub fn enabled() -> (b: bool)
    ensures
        b,
{
    true
}

/// Whether `s` begins with `p`.
pub open spec fn has_prefix(s: Seq<char>, p: Seq<char>) -> bool {
    p.len() <= s.len() && s.take(p.len() as int) == p
}

/// What [`normalize_url`] makes of a user-typed origin.
pub open spec fn normalized_url(raw: Seq<char>) -> Seq<char> {
    let t = strip_end(trim(raw), '/');
    if t.len() == 0 {
        Seq::empty()
    } else if has_prefix(t, "http://"@) || has_prefix(t, "https://"@) {
        t
    } else {
        "http://"@ + t
    }
}

/// Trims a user-typed origin into something that can be concatenated with an
/// API path. A bare host means plain HTTP, which is what the first-stage
/// deployment speaks.
pub fn normalize_url(raw: &str) -> (r: String)
    ensures
        r@ == normalized_url(raw@),
        // A trailing slash would produce `//api/v1/...`.
        r@.len() == 0 || r@.last() != '/',
        r@.len() == 0 || has_prefix(r@, "http://"@) || has_prefix(r@, "https://"@),
{
    let t = strip_end_chars(&trim_chars(&to_chars(raw)), '/');
    proof {
        lemma_strip_end_last(trim(raw@), '/');
    }
    if t.len() == 0 {
        return String::new();
    }
    let http = to_chars("http://");
    let https = to_chars("https://");
    if starts_with(&t, &http) || starts_with(&t, &https) {
        from_chars(&t)
    } else {
        let mut out = http;
        crate::chars::extend_chars(&mut out, &t);
        assert(out@.take(http@.len() as int) == "http://"@);
        from_chars(&out)
    }
}

pub proof fn lemma_strip_end_last(s: Seq<char>, c: char)
    ensures
        strip_end(s, c).len() == 0 || strip_end(s, c).last() != c,
    decreases s.len(),
{
    if s.len() > 0 && s.last() == c {
        lemma_strip_end_last(s.drop_last(), c);
    }
}

/// Whether there is both a server to talk to and a token to talk with.
pub fn is_configured(server_url: &str, token: &Option<String>) -> (b: bool)
    ensures
        b == (server_url@.len() > 0 && token is Some),
{
    to_chars(server_url).len() > 0 && token.is_some()
}

/// The origin a login goes to: the user's input normalized, or the message
/// asking for it when nothing usable was typed.
pub fn login_origin(server_url: &str) -> (r: Result<String, String>)
    ensures
        match r {
            Ok(url) => url@ == normalized_url(server_url@) && url@.len() > 0,
            Err(m) => normalized_url(server_url@).len() == 0 && m@ == "请填写服务器地址"@,
        },
{
    let url = normalize_url(server_url);
    if to_chars(url.as_str()).len() == 0 {
        Err(String::from_str("请填写服务器地址"))
    } else {
        Ok(url)
    }
}

/// Where the web client is opened from: the configured server, once there
/// is one.
pub fn web_client_url(server_url: &str) -> (r: Result<String, String>)
    ensures
        match r {
            Ok(url) => url@ == server_url@ && server_url@.len() > 0,
            Err(m) => server_url@.len() == 0 && m@ == "尚未设置服务器地址"@,
        },
{
    let v = to_chars(server_url);
    if v.len() == 0 {
        Err(String::from_str("尚未设置服务器地址"))
    } else {
        Ok(from_chars(&v))
    }
}

} // verus!
