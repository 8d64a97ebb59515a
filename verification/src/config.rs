//! Reading the server's configuration values. The values come from the
//! environment, which the server shell reads; what they mean is decided here.

use vstd::prelude::*;
use crate::chars::{split_on, split_chars, trim, trim_chars, to_chars, from_chars};
use crate::num::{parse_i64, parse_i64_text};

verus! {

/// Where the server listens unless configured otherwise.
pub const DEFAULT_BIND: &'static str = "[::]:8080";

/// Where the database lives unless configured otherwise.
pub const DEFAULT_DB_PATH: &'static str = "data/notedock.db";

/// Origins allowed by default: the web client's Vite dev server.
pub const DEFAULT_CORS_ORIGINS: &'static str = "http://localhost:5173,http://127.0.0.1:5173";

/// Sessions last this many days unless configured otherwise.
pub const DEFAULT_SESSION_TTL_DAYS: i64 = 30;

/// The non-blank entries of a comma-separated list, each trimmed, in order.
pub open spec fn list_entries(pieces: Seq<Seq<char>>) -> Seq<Seq<char>>
    decreases pieces.len(),
{
    if pieces.len() == 0 {
        Seq::empty()
    } else {
        let r = list_entries(pieces.drop_last());
        let t = trim(pieces.last());
        if t.len() > 0 {
            r.push(t)
        } else {
            r
        }
    }
}

/// Origins allowed to call the API from a browser, from the configured
/// comma-separated list or the default one.
pub fn cors_origins(configured: Option<&str>) -> (r: Vec<String>)
    ensures
        r@.len() == list_entries(split_on(
            match configured {
                Some(c) => c@,
                None => DEFAULT_CORS_ORIGINS@,
            },
            ',',
        )).len(),
        forall|i: int|
            0 <= i < r@.len() ==> #[trigger] r@[i]@ == list_entries(
                split_on(
                    match configured {
                        Some(c) => c@,
                        None => DEFAULT_CORS_ORIGINS@,
                    },
                    ',',
                ),
            )[i],
{
    let raw = match configured {
        Some(c) => to_chars(c),
        None => to_chars(DEFAULT_CORS_ORIGINS),
    };
    let pieces = split_chars(&raw, ',');
    let ghost ps = split_on(raw@, ',');
    let mut out: Vec<String> = Vec::new();
    let mut j: usize = 0;
    assert(ps.take(0) == Seq::<Seq<char>>::empty());
    while j < pieces.len()
        invariant
            j <= pieces@.len() == ps.len(),
            forall|i: int| 0 <= i < pieces@.len() ==> #[trigger] pieces@[i]@ == ps[i],
            out@.len() == list_entries(ps.take(j as int)).len(),
            forall|i: int| 0 <= i < out@.len() ==> #[trigger] out@[i]@ == list_entries(ps.take(j as int))[i],
        decreases pieces@.len() - j,
    {
        assert(ps.take(j + 1).drop_last() == ps.take(j as int));
        assert(ps.take(j + 1).last() == ps[j as int]);
        let t = trim_chars(&pieces[j]);
        if t.len() > 0 {
            out.push(from_chars(&t));
        }
        j += 1;
    }
    assert(ps.take(pieces@.len() as int) == ps);
    out
}

/// Where the password comes from.
#[derive(Debug, Clone, PartialEq)]
pub enum PasswordSource {
    /// An Argon2 PHC string, as deployed.
    Hash(String),
    /// A plaintext password, hashed at boot. For local development only: the
    /// password then lives in the process environment.
    Plain(String),
}

/// The configured hash wins when it is not blank, then a non-blank plaintext
/// password. There is deliberately no default: a server reachable from the
/// public internet must not ship with a known password.
pub fn password_source(hash: Option<&str>, plain: Option<&str>) -> (r: Result<PasswordSource, String>)
    ensures
        match (hash, plain) {
            (Some(h), _) if trim(h@).len() > 0 => r matches Ok(PasswordSource::Hash(x)) && x@ == h@,
            (_, Some(p)) if trim(p@).len() > 0 => r matches Ok(PasswordSource::Plain(x)) && x@ == p@,
            _ => r matches Err(m) && m@ == "set NOTEDOCK_PASSWORD_HASH (or NOTEDOCK_PASSWORD for local dev). Generate a hash with `notedock-server hash-password <password>`"@,
        },
{
    if let Some(h) = hash {
        let v = to_chars(h);
        if trim_chars(&v).len() > 0 {
            return Ok(PasswordSource::Hash(from_chars(&v)));
        }
    }
    if let Some(p) = plain {
        let v = to_chars(p);
        if trim_chars(&v).len() > 0 {
            return Ok(PasswordSource::Plain(from_chars(&v)));
        }
    }
    Err(String::from_str(
        "set NOTEDOCK_PASSWORD_HASH (or NOTEDOCK_PASSWORD for local dev). Generate a hash with `notedock-server hash-password <password>`",
    ))
}

/// How long sessions last: the configured whole number of days, or the
/// default when none is configured.
pub fn session_ttl_days(configured: Option<&str>) -> (r: Result<i64, String>)
    ensures
        match configured {
            None => r == Ok::<i64, String>(DEFAULT_SESSION_TTL_DAYS),
            Some(c) => match parse_i64_text(c@) {
                Some(d) => r == Ok::<i64, String>(d),
                None => r matches Err(m) && m@ == "NOTEDOCK_SESSION_TTL_DAYS must be an integer"@,
            },
        },
{
    match configured {
        None => Ok(DEFAULT_SESSION_TTL_DAYS),
        Some(c) => match parse_i64(c) {
            Some(d) => Ok(d),
            None => Err(String::from_str("NOTEDOCK_SESSION_TTL_DAYS must be an integer")),
        },
    }
}

} // verus!
