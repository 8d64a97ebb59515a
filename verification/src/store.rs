//! The local note list, as rows.
//!
//! Note bodies are not here; each one is a Yjs document the window holds. This
//! list is what lets the app open, search and pick a note with no network at
//! all. `dirty` means only that a note's creation or deletion has not reached
//! the server yet.

use vstd::prelude::*;
use crate::chars::{to_chars, from_chars, str_trim, trim};
use crate::num::{int_text, parse_i64_text, i64_chars, parse_i64, lemma_int_text_roundtrip};
use crate::api::NoteSummary;
use crate::chars::str_eq;

verus! {

/// A note as the floating window sees it: metadata only, plus `dirty` so the
/// sync dot can be honest about a creation that has not been uploaded.
#[derive(Debug, Clone, PartialEq)]
pub struct LocalNote {
    pub id: String,
    pub title: String,
    pub preview: String,
    pub rev: i64,
    pub updated_at: String,
    pub dirty: bool,
}

/// A local creation or deletion still to be sent. `rev == 0` means the note
/// has never reached the server, so it needs a create rather than a tombstone.
#[derive(Debug, Clone, PartialEq)]
pub struct Pending {
    pub id: String,
    pub title: String,
    pub rev: i64,
    pub deleted: bool,
}

/// A stored row read back as a note; the table keeps `dirty` as an integer.
pub fn local_note(
    id: String,
    title: String,
    preview: String,
    rev: i64,
    updated_at: String,
    dirty: i64,
) -> (n: LocalNote)
    ensures
        n == (LocalNote { id, title, preview, rev, updated_at, dirty: dirty != 0 }),
{
    LocalNote { id, title, preview, rev, updated_at, dirty: dirty != 0 }
}

/// A stored outbox row read back; the table keeps `deleted` as an integer.
pub fn pending_row(id: String, title: String, rev: i64, deleted: i64) -> (p: Pending)
    ensures
        p == (Pending { id, title, rev, deleted: deleted != 0 }),
{
    Pending { id, title, rev, deleted: deleted != 0 }
}

/// The row a note created on this machine starts as: trimmed title, no
/// preview yet, `rev = 0` because it has never been uploaded, and dirty so the
/// sync loop turns it into a POST.
pub fn offline_note(id: String, title: &str, now: String) -> (n: LocalNote)
    ensures
        n.id == id,
        n.title@ == trim(title@),
        n.preview@ == Seq::<char>::empty(),
        n.rev == 0,
        n.updated_at == now,
        n.dirty,
{
    LocalNote { id, title: str_trim(title), preview: String::new(), rev: 0, updated_at: now, dirty: true }
}

/// A note created on this machine: a fresh time-ordered UUID as its id, so
/// it keeps one identity from the moment it exists, and otherwise as
/// [`offline_note`] makes it.
pub fn new_local_note(title: &str, now: String) -> (n: LocalNote)
    ensures
        n.id@.len() == 36,
        exists|b: Seq<u8>| crate::auth::uuid_shaped(b, 7) && n.id@ == #[trigger] crate::auth::hyphenated_text(b),
        n.title@ == trim(title@),
        n.preview@ == Seq::<char>::empty(),
        n.rev == 0,
        n.updated_at == now,
        n.dirty,
{
    let bytes = crate::auth::now_v7();
    proof {
        crate::auth::lemma_hex_text(bytes@);
    }
    offline_note(crate::auth::uuid_hyphenated(&bytes), title, now)
}

/// The text the sync cursor is stored as.
pub fn cursor_text(cursor: i64) -> (r: String)
    ensures
        r@ == int_text(cursor as int),
{
    from_chars(&i64_chars(cursor))
}

/// The sync cursor read back from its stored text: a missing or unreadable
/// value starts over from the beginning of the change log.
pub open spec fn cursor_of(raw: Option<Seq<char>>) -> i64 {
    match raw {
        Some(t) => match parse_i64_text(t) {
            Some(c) => c,
            None => 0,
        },
        None => 0,
    }
}

pub fn cursor_from(raw: Option<&str>) -> (c: i64)
    ensures
        c == cursor_of(match raw {
            Some(t) => Some(t@),
            None => None,
        }),
{
    match raw {
        Some(t) => match parse_i64(t) {
            Some(c) => c,
            None => 0,
        },
        None => 0,
    }
}

/// A cursor that was stored reads back as itself.
pub proof fn cursor_roundtrip(cursor: i64)
    ensures
        cursor_of(Some(int_text(cursor as int))) == cursor,
{
    lemma_int_text_roundtrip(cursor);
}

// ---------------------------------------------------------------------------
// Reconciling against the server's list
// ---------------------------------------------------------------------------

/// Whether the server's list names the note `id`.
pub open spec fn listed(server: Seq<NoteSummary>, id: Seq<char>) -> bool {
    exists|j: int| 0 <= j < server.len() && #[trigger] server[j].id@ == id
}

/// The clean local ids, in order, that the server's list does not name.
pub open spec fn stale(local: Seq<String>, server: Seq<NoteSummary>) -> Seq<Seq<char>>
    decreases local.len(),
{
    if local.len() == 0 {
        Seq::empty()
    } else {
        let before = stale(local.drop_last(), server);
        if listed(server, local.last()@) {
            before
        } else {
            before.push(local.last()@)
        }
    }
}

/// Reconciling drops exactly the clean rows the server's list does not name:
/// an id is stale if and only if it is a local id and the server lacks it.
pub proof fn stale_is_exactly_the_unlisted(local: Seq<String>, server: Seq<NoteSummary>, id: Seq<char>)
    ensures
        stale(local, server).contains(id) <==> (!listed(server, id) && exists|i: int|
            0 <= i < local.len() && #[trigger] local[i]@ == id),
    decreases local.len(),
{
    if local.len() > 0 {
        let init = local.drop_last();
        stale_is_exactly_the_unlisted(init, server, id);
        let before = stale(init, server);
        if exists|i: int| 0 <= i < init.len() && #[trigger] init[i]@ == id {
            let i = choose|i: int| 0 <= i < init.len() && #[trigger] init[i]@ == id;
            assert(local[i]@ == id);
        }
        if exists|i: int| 0 <= i < local.len() && #[trigger] local[i]@ == id {
            let i = choose|i: int| 0 <= i < local.len() && #[trigger] local[i]@ == id;
            if i < local.len() - 1 {
                assert(init[i]@ == id);
            }
        }
        if !listed(server, local.last()@) {
            let after = before.push(local.last()@);
            assert(after.contains(id) <==> (before.contains(id) || id == local.last()@)) by {
                if after.contains(id) {
                    let j = choose|j: int| 0 <= j < after.len() && after[j] == id;
                    if j < before.len() {
                        assert(before[j] == id);
                    }
                }
                if before.contains(id) {
                    let j = choose|j: int| 0 <= j < before.len() && before[j] == id;
                    assert(after[j] == id);
                }
                if id == local.last()@ {
                    assert(after[before.len() as int] == id);
                }
            }
        }
    }
}

fn is_listed(server: &Vec<NoteSummary>, id: &str) -> (b: bool)
    ensures
        b == listed(server@, id@),
{
    let mut j: usize = 0;
    while j < server.len()
        invariant
            j <= server.len(),
            forall|k: int| 0 <= k < j ==> #[trigger] server@[k].id@ != id@,
        decreases server.len() - j,
    {
        if str_eq(server[j].id.as_str(), id) {
            return true;
        }
        j = j + 1;
    }
    false
}

/// The clean local rows to drop after signing in: every one the server's list
/// does not name is stale data from an earlier server or session. Dirty rows
/// are not passed in; they may be offline creations still to be uploaded.
pub fn stale_ids(local: &Vec<String>, server: &Vec<NoteSummary>) -> (r: Vec<String>)
    ensures
        r@.len() == stale(local@, server@).len(),
        forall|k: int| 0 <= k < r@.len() ==> #[trigger] r@[k]@ == stale(local@, server@)[k],
{
    let mut out: Vec<String> = Vec::new();
    let mut i: usize = 0;
    while i < local.len()
        invariant
            i <= local.len(),
            out@.len() == stale(local@.take(i as int), server@).len(),
            forall|k: int| 0 <= k < out@.len() ==> #[trigger] out@[k]@ == stale(local@.take(i as int), server@)[k],
        decreases local.len() - i,
    {
        let ghost before = local@.take(i as int);
        let ghost after = local@.take(i + 1);
        assert(after.drop_last() == before);
        assert(after.last() == local@[i as int]);
        if !is_listed(server, local[i].as_str()) {
            out.push(local[i].clone());
        }
        i = i + 1;
    }
    assert(local@.take(local.len() as int) == local@);
    out
}

} // verus!
