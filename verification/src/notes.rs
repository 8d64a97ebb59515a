//! Note metadata on the server: how a stored row reads, how a note gets its
//! id, and what the create, delete and sync endpoints answer.
//!
//! Every write bumps a note's `rev` and appends to the change log in one
//! transaction; the transactions are the server shell's, the decisions are
//! here.

use vstd::prelude::*;
use crate::api::{ChangeSeq, NoteSummary};
use crate::auth::{now_v7, uuid_hyphenated};
use crate::chars::{trim, str_trim};
use crate::error::AppError;
use crate::text::{preview, preview_of};

verus! {

/// Characters of body text kept for the list preview.
pub const PREVIEW_CHARS: usize = 120;

/// Cap on rows returned by the list and sync endpoints. A client that hits it
/// comes back for the next page with an advanced cursor.
pub const PAGE_LIMIT: i64 = 500;

/// The sync feed's query.
#[derive(Debug, Clone, PartialEq)]
pub struct SyncQuery {
    /// Highest change-log position the client already has. `0` means "send me
    /// everything", which is also what a fresh client sends.
    pub since: ChangeSeq,
}

/// A stored note row as the API shows it: the preview is derived from the
/// body text, and a tombstone is any row with a deletion time.
pub fn note_summary(
    id: String,
    title: String,
    content_text: &str,
    rev: i64,
    updated_at: String,
    deleted_at: Option<String>,
) -> (n: NoteSummary)
    ensures
        n.id == id,
        n.title == title,
        n.preview@ == preview_of(content_text@, PREVIEW_CHARS as nat),
        n.rev == rev,
        n.updated_at == updated_at,
        n.deleted == deleted_at is Some,
{
    NoteSummary {
        id,
        title,
        preview: preview(content_text, PREVIEW_CHARS),
        rev,
        updated_at,
        deleted: deleted_at.is_some(),
    }
}

/// Reading a single note: a tombstone is not found. Clients learn about
/// deletions from the change feed, the only place tombstones surface.
pub fn visible(note: NoteSummary) -> (r: Result<NoteSummary, AppError>)
    ensures
        note.deleted ==> r == Err::<NoteSummary, AppError>(AppError::NotFound),
        !note.deleted ==> r == Ok::<NoteSummary, AppError>(note),
{
    if note.deleted {
        Err(AppError::NotFound)
    } else {
        Ok(note)
    }
}

/// Canonical text of a UUID, as `uuid` parses and prints it.
pub uninterp spec fn uuid_canonical(s: Seq<char>) -> Option<Seq<char>>;

/// `Uuid::parse_str` then `to_string`: the hyphenated lowercase form of the
/// UUID `s` spells (simple, hyphenated, braced or URN), or nothing when `s`
/// is not one.
#[verifier::external_body]
fn parse_uuid(s: &str) -> (r: Option<String>)
    ensures
        match r {
            Some(t) => uuid_canonical(s@) == Some(t@) && t@.len() == 36,
            None => uuid_canonical(s@) is None,
        },
{
    uuid::Uuid::parse_str(s).ok().map(|u| u.to_string())
}

/// A client-chosen id, once parsed: only UUIDs are accepted. Ids reach SQL as
/// bind parameters, so this is not an injection guard; it keeps clients from
/// inventing id formats the rest of the system does not expect.
pub fn client_id(parsed: Option<String>) -> (r: Result<String, AppError>)
    ensures
        match parsed {
            Some(id) => r == Ok::<String, AppError>(id),
            None => r matches Err(AppError::BadRequest(m)) && m@ == "id 必须是 UUID"@,
        },
{
    match parsed {
        Some(id) => Ok(id),
        None => Err(AppError::BadRequest(String::from_str("id 必须是 UUID"))),
    }
}

/// The id a new note is stored under: the canonical form of the one the
/// client chose (trimmed), or a fresh time-ordered UUID.
pub fn resolve_note_id(given: Option<&str>) -> (r: Result<String, AppError>)
    ensures
        match given {
            Some(g) => match uuid_canonical(trim(g@)) {
                Some(c) => r matches Ok(id) && id@ == c,
                None => r matches Err(AppError::BadRequest(m)) && m@ == "id 必须是 UUID"@,
            },
            None => r matches Ok(id) && id@.len() == 36 && exists|b: Seq<u8>|
                crate::auth::uuid_shaped(b, 7) && id@ == #[trigger] crate::auth::hyphenated_text(b),
        },
{
    match given {
        Some(g) => {
            let trimmed = str_trim(g);
            client_id(parse_uuid(trimmed.as_str()))
        },
        None => {
            let bytes = now_v7();
            proof {
                crate::auth::lemma_hex_text(bytes@);
            }
            Ok(uuid_hyphenated(&bytes))
        },
    }
}

/// A note's stored title: what the client offered, trimmed.
pub fn note_title(title: &str) -> (r: String)
    ensures
        r@ == trim(title@),
{
    str_trim(title)
}

/// The status a create answers with. Creating with an id that already exists
/// returns the existing note with 200 rather than failing, which is what lets
/// a retry after a dropped connection go through without a duplicate.
pub fn created_status(rows_inserted: u64) -> (status: u16)
    ensures
        rows_inserted == 0 ==> status == 200,
        rows_inserted > 0 ==> status == 201,
{
    if rows_inserted == 0 {
        200
    } else {
        201
    }
}

/// What a delete did: `Ok(true)` when it tombstoned a live note, so a change
/// is recorded; `Ok(false)` when the note was already a tombstone, which is a
/// no-op rather than another revision; not found when there is no such note.
pub fn delete_outcome(rows_tombstoned: u64, exists: bool) -> (r: Result<bool, AppError>)
    ensures
        rows_tombstoned > 0 ==> r == Ok::<bool, AppError>(true),
        rows_tombstoned == 0 && exists ==> r == Ok::<bool, AppError>(false),
        rows_tombstoned == 0 && !exists ==> r == Err::<bool, AppError>(AppError::NotFound),
{
    if rows_tombstoned > 0 {
        Ok(true)
    } else if exists {
        Ok(false)
    } else {
        Err(AppError::NotFound)
    }
}

/// The cursor a sync page answers with: the change-log position of its last
/// row, or, when nothing is new, the log's high-water mark, which also repairs
/// a client that sent a cursor from the future.
pub fn sync_cursor(last_row_seq: Option<i64>, high_water: i64) -> (c: i64)
    ensures
        c == match last_row_seq {
            Some(s) => s,
            None => high_water,
        },
{
    match last_row_seq {
        Some(s) => s,
        None => high_water,
    }
}

} // verus!
