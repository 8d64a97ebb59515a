//! Live Yjs rooms: one per note that somebody currently has open.
//!
//! A room owns the authoritative document and fans updates out to every other
//! connection; those are the server shell's. What is decided here: which room
//! a connection joins, when the last one out closes it, and what title and log
//! a room leaves behind.

use vstd::prelude::*;
use crate::chars::{to_chars, from_chars, chars_eq, str_trim, trim, trim_chars};
use crate::text::{derive_title, title_of, split_lines, split_nl, join_nl};

verus! {

/// An update to relay, tagged with the connection it came from so that
/// connection does not receive its own echo.
#[derive(Clone)]
pub struct Relay {
    pub from: usize,
    pub update: std::sync::Arc<Vec<u8>>,
}

/// Whether a relayed update goes out on connection `me`: everyone gets it but
/// its sender.
pub fn relays_to(relay: &Relay, me: usize) -> (b: bool)
    ensures
        b == (relay.from != me),
{
    relay.from != me
}

/// Once a note's update log passes this many rows, it is merged into one, so
/// cold-start replay stays bounded however long a note has been edited.
pub const COMPACT_AFTER: i64 = 300;

pub fn needs_compaction(rows: i64) -> (b: bool)
    ensures
        b == (rows > COMPACT_AFTER),
{
    rows > COMPACT_AFTER
}

/// The title a document gives its note: the collaborative title field when it
/// holds anything, else the first line of the body.
pub fn materialized_title(collaborative_title: &str, body: &str) -> (t: String)
    ensures
        t@ == if collaborative_title@.len() == 0 {
            title_of(body@)
        } else {
            collaborative_title@
        },
{
    if to_chars(collaborative_title).len() == 0 {
        derive_title(body)
    } else {
        from_chars(&to_chars(collaborative_title))
    }
}

/// The title stored after materializing: a note named from the palette keeps
/// that name until the body gives it one.
pub fn stored_title(current: &str, derived: &str) -> (t: String)
    ensures
        t@ == if derived@.len() == 0 {
            current@
        } else {
            derived@
        },
{
    if to_chars(derived).len() == 0 {
        from_chars(&to_chars(current))
    } else {
        from_chars(&to_chars(derived))
    }
}

/// The collaborative title as shown: trimmed.
pub fn document_title(raw: &str) -> (t: String)
    ensures
        t@ == trim(raw@),
{
    str_trim(raw)
}

/// Notes written before the Yjs migration have no update log but still have
/// their text; a first open rebuilds a document from it, and that document is
/// worth logging only if there was anything to rebuild.
pub fn needs_legacy_snapshot(body: &str, title: &str) -> (b: bool)
    ensures
        b == (trim(body@).len() > 0 || trim(title@).len() > 0),
{
    trim_chars(&to_chars(body)).len() > 0 || trim_chars(&to_chars(title)).len() > 0
}

/// The paragraphs a legacy note's text becomes: one per line, empty lines
/// included, as `str::split('\n')` yields them.
pub fn legacy_paragraphs(body: &str) -> (r: Vec<String>)
    ensures
        r@.len() == split_nl(body@).len(),
        forall|i: int| 0 <= i < r@.len() ==> #[trigger] r@[i]@ == split_nl(body@)[i],
{
    let lines = split_lines(&to_chars(body));
    let mut out: Vec<String> = Vec::new();
    let mut i: usize = 0;
    while i < lines.len()
        invariant
            i <= lines@.len(),
            out@.len() == i,
            forall|j: int| 0 <= j < i ==> #[trigger] out@[j]@ == lines@[j]@,
        decreases lines@.len() - i,
    {
        out.push(from_chars(&lines[i]));
        i += 1;
    }
    out
}

/// Joining the pieces of `s` again puts back the characters taken out.
proof fn lemma_join_split(s: Seq<char>)
    ensures
        join_nl(split_nl(s)) == s,
    decreases s.len(),
{
    crate::chars::lemma_split_on_nonempty(s, '\n');
    if s.len() > 0 {
        let s0 = s.drop_last();
        lemma_join_split(s0);
        crate::chars::lemma_split_on_nonempty(s0, '\n');
        let r = split_nl(s0);
        if s.last() == '\n' {
            let r2 = r.push(Seq::<char>::empty());
            assert(r2.drop_last() == r);
            assert(join_nl(r2) == join_nl(r) + seq!['\n'] + Seq::<char>::empty());
            assert(s =~= s0 + seq!['\n'] + Seq::<char>::empty());
        } else {
            let r2 = r.update(r.len() - 1, r.last().push(s.last()));
            if r.len() == 1 {
                assert(join_nl(r2) == r2[0]);
                assert(s =~= s0.push(s.last()));
            } else {
                assert(r2.drop_last() == r.drop_last());
                assert(join_nl(r2) == join_nl(r.drop_last()) + seq!['\n'] + r.last().push(s.last()));
                assert(join_nl(r) == join_nl(r.drop_last()) + seq!['\n'] + r.last());
                assert(join_nl(r2) =~= join_nl(r).push(s.last()));
                assert(s =~= s0.push(s.last()));
            }
        }
    }
}

/// A legacy note is rebuilt line for line: its paragraphs, joined by
/// newlines, give back its text exactly.
pub proof fn legacy_paragraphs_rebuild_the_text(body: Seq<char>)
    ensures
        join_nl(split_nl(body)) == body,
{
    lemma_join_split(body);
}

// ---------------------------------------------------------------------------
// Which rooms are open
// ---------------------------------------------------------------------------

/// An open room and how many connections are in it.
pub struct OpenRoom<T> {
    pub note_id: String,
    pub room: T,
    pub members: u64,
}

pub open spec fn rooms_map<T>(es: Seq<OpenRoom<T>>) -> Map<Seq<char>, (T, nat)>
    decreases es.len(),
{
    if es.len() == 0 {
        Map::empty()
    } else {
        rooms_map(es.drop_last()).insert(es.last().note_id@, (es.last().room, es.last().members as nat))
    }
}

pub open spec fn distinct_rooms<T>(es: Seq<OpenRoom<T>>) -> bool {
    forall|i: int, j: int| 0 <= i < j < es.len() ==> es[i].note_id@ != es[j].note_id@
}

proof fn lemma_rooms_has<T>(es: Seq<OpenRoom<T>>, k: Seq<char>)
    ensures
        rooms_map(es).contains_key(k) <==> exists|i: int| 0 <= i < es.len() && #[trigger] es[i].note_id@ == k,
    decreases es.len(),
{
    if es.len() > 0 {
        lemma_rooms_has(es.drop_last(), k);
        if rooms_map(es.drop_last()).contains_key(k) {
            let i = choose|i: int| 0 <= i < es.drop_last().len() && #[trigger] es.drop_last()[i].note_id@ == k;
            assert(es[i].note_id@ == k);
        }
        if exists|i: int| 0 <= i < es.len() && #[trigger] es[i].note_id@ == k {
            let i = choose|i: int| 0 <= i < es.len() && #[trigger] es[i].note_id@ == k;
            if i < es.len() - 1 {
                assert(es.drop_last()[i].note_id@ == k);
            }
        }
    }
}

proof fn lemma_rooms_value<T>(es: Seq<OpenRoom<T>>, i: int)
    requires
        distinct_rooms(es),
        0 <= i < es.len(),
    ensures
        rooms_map(es).contains_key(es[i].note_id@),
        rooms_map(es)[es[i].note_id@] == (es[i].room, es[i].members as nat),
    decreases es.len(),
{
    lemma_rooms_has(es, es[i].note_id@);
    if i < es.len() - 1 {
        assert(es.drop_last()[i] == es[i]);
        assert(distinct_rooms(es.drop_last())) by {
            assert forall|a: int, b: int| 0 <= a < b < es.drop_last().len() implies es.drop_last()[a].note_id@
                != es.drop_last()[b].note_id@ by {
                assert(es.drop_last()[a] == es[a] && es.drop_last()[b] == es[b]);
            }
        }
        lemma_rooms_value(es.drop_last(), i);
    }
}

/// Rebuilding the table with one entry changed changes only that note's
/// entry.
proof fn lemma_rooms_update<T>(es: Seq<OpenRoom<T>>, i: int, e: OpenRoom<T>)
    requires
        distinct_rooms(es),
        0 <= i < es.len(),
        e.note_id@ == es[i].note_id@,
    ensures
        distinct_rooms(es.update(i, e)),
        rooms_map(es.update(i, e)) == rooms_map(es).insert(e.note_id@, (e.room, e.members as nat)),
{
    let fs = es.update(i, e);
    assert forall|a: int, b: int| 0 <= a < b < fs.len() implies fs[a].note_id@ != fs[b].note_id@ by {
        assert(fs[a].note_id@ == es[a].note_id@ && fs[b].note_id@ == es[b].note_id@);
    }
    assert forall|k: Seq<char>| #[trigger] rooms_map(fs).contains_key(k) <==> rooms_map(es).insert(
        e.note_id@,
        (e.room, e.members as nat),
    ).contains_key(k) by {
        lemma_rooms_has(fs, k);
        lemma_rooms_has(es, k);
        if exists|j: int| 0 <= j < es.len() && #[trigger] es[j].note_id@ == k {
            let j = choose|j: int| 0 <= j < es.len() && #[trigger] es[j].note_id@ == k;
            assert(fs[j].note_id@ == k);
        }
        if exists|j: int| 0 <= j < fs.len() && #[trigger] fs[j].note_id@ == k {
            let j = choose|j: int| 0 <= j < fs.len() && #[trigger] fs[j].note_id@ == k;
            assert(es[j].note_id@ == k);
        }
    }
    assert forall|k: Seq<char>| #[trigger] rooms_map(fs).contains_key(k) implies rooms_map(fs)[k]
        == rooms_map(es).insert(e.note_id@, (e.room, e.members as nat))[k] by {
        lemma_rooms_has(fs, k);
        let j = choose|j: int| 0 <= j < fs.len() && #[trigger] fs[j].note_id@ == k;
        lemma_rooms_value(fs, j);
        if j != i {
            assert(fs[j] == es[j]);
            lemma_rooms_value(es, j);
        }
    }
    assert(rooms_map(fs) =~= rooms_map(es).insert(e.note_id@, (e.room, e.members as nat)));
}

proof fn lemma_rooms_remove<T>(es: Seq<OpenRoom<T>>, i: int)
    requires
        distinct_rooms(es),
        0 <= i < es.len(),
    ensures
        distinct_rooms(es.remove(i)),
        rooms_map(es.remove(i)) == rooms_map(es).remove(es[i].note_id@),
{
    let fs = es.remove(i);
    let key = es[i].note_id@;
    assert forall|a: int, b: int| 0 <= a < b < fs.len() implies fs[a].note_id@ != fs[b].note_id@ by {
        let a0 = if a < i { a } else { a + 1 };
        let b0 = if b < i { b } else { b + 1 };
        assert(fs[a] == es[a0] && fs[b] == es[b0]);
    }
    assert forall|k: Seq<char>| #[trigger] rooms_map(fs).contains_key(k) <==> rooms_map(es).remove(
        key,
    ).contains_key(k) by {
        lemma_rooms_has(fs, k);
        lemma_rooms_has(es, k);
        if exists|j: int| 0 <= j < es.len() && #[trigger] es[j].note_id@ == k {
            let j = choose|j: int| 0 <= j < es.len() && #[trigger] es[j].note_id@ == k;
            if k != key {
                let j2 = if j < i { j } else { j - 1 };
                assert(fs[j2] == es[j]);
            }
        }
        if exists|j: int| 0 <= j < fs.len() && #[trigger] fs[j].note_id@ == k {
            let j = choose|j: int| 0 <= j < fs.len() && #[trigger] fs[j].note_id@ == k;
            let j0 = if j < i { j } else { j + 1 };
            assert(fs[j] == es[j0]);
        }
    }
    assert forall|k: Seq<char>| #[trigger] rooms_map(fs).contains_key(k) implies rooms_map(fs)[k]
        == rooms_map(es)[k] by {
        lemma_rooms_has(fs, k);
        let j = choose|j: int| 0 <= j < fs.len() && #[trigger] fs[j].note_id@ == k;
        let j0 = if j < i { j } else { j + 1 };
        assert(fs[j] == es[j0]);
        lemma_rooms_value(fs, j);
        lemma_rooms_value(es, j0);
    }
    assert(rooms_map(fs) =~= rooms_map(es).remove(key));
}

/// Whether `room` is open in the table under some note.
pub open spec fn holds_room<T>(table: Map<Seq<char>, (T, nat)>, room: T) -> bool {
    exists|k: Seq<char>| #[trigger] table.contains_key(k) && table[k].0 == room
}

/// Whether `room` is among `rooms`.
pub open spec fn listed_room<T>(rooms: Seq<&T>, room: T) -> bool {
    exists|i: int| 0 <= i < rooms.len() && *#[trigger] rooms[i] == room
}

/// The open rooms by note, each with its connection count. A room is in the
/// table exactly while somebody is connected to it.
pub struct RoomTable<T> {
    entries: Vec<OpenRoom<T>>,
}

impl<T> View for RoomTable<T> {
    type V = Map<Seq<char>, (T, nat)>;

    closed spec fn view(&self) -> Map<Seq<char>, (T, nat)> {
        rooms_map(self.entries@)
    }
}

impl<T> RoomTable<T> {
    /// Every open room is keyed by its note once and has someone in it.
    pub closed spec fn wf(&self) -> bool {
        &&& distinct_rooms(self.entries@)
        &&& forall|i: int| 0 <= i < self.entries@.len() ==> #[trigger] self.entries@[i].members > 0
    }

    /// A room is open only while somebody is connected to it.
    pub proof fn open_rooms_are_occupied(&self, k: Seq<char>)
        requires
            self.wf(),
            self@.contains_key(k),
        ensures
            self@[k].1 > 0,
    {
        lemma_rooms_has(self.entries@, k);
        let j = choose|j: int| 0 <= j < self.entries@.len() && #[trigger] self.entries@[j].note_id@ == k;
        lemma_rooms_value(self.entries@, j);
    }

    pub fn new() -> (t: RoomTable<T>)
        ensures
            t.wf(),
            t@ == Map::<Seq<char>, (T, nat)>::empty(),
    {
        RoomTable { entries: Vec::new() }
    }

    fn find(&self, note_id: &Vec<char>) -> (r: Option<usize>)
        requires
            self.wf(),
        ensures
            match r {
                Some(i) => i < self.entries@.len() && self.entries@[i as int].note_id@ == note_id@,
                None => !self@.contains_key(note_id@),
            },
    {
        let mut i: usize = 0;
        while i < self.entries.len()
            invariant
                i <= self.entries@.len(),
                forall|j: int| 0 <= j < i ==> #[trigger] self.entries@[j].note_id@ != note_id@,
            decreases self.entries@.len() - i,
        {
            if chars_eq(&to_chars(self.entries[i].note_id.as_str()), note_id) {
                return Some(i);
            }
            i += 1;
        }
        proof {
            lemma_rooms_has(self.entries@, note_id@);
        }
        None
    }

    /// How many connections the note's room has; zero when it is not open.
    pub fn connections(&self, note_id: &str) -> (n: u64)
        requires
            self.wf(),
        ensures
            n == (if self@.contains_key(note_id@) {
                self@[note_id@].1
            } else {
                0
            }),
    {
        match self.find(&to_chars(note_id)) {
            Some(i) => {
                proof {
                    lemma_rooms_value(self.entries@, i as int);
                }
                self.entries[i].members
            },
            None => 0,
        }
    }

    /// Every open room, once each: what the metadata flusher walks.
    pub fn rooms(&self) -> (r: Vec<&T>)
        requires
            self.wf(),
        ensures
            forall|i: int| 0 <= i < r@.len() ==> holds_room(self@, *#[trigger] r@[i]),
            forall|k: Seq<char>| #[trigger] self@.contains_key(k) ==> listed_room(r@, self@[k].0),
    {
        let mut out: Vec<&T> = Vec::new();
        let mut i: usize = 0;
        while i < self.entries.len()
            invariant
                self.wf(),
                i <= self.entries@.len(),
                out@.len() == i,
                forall|j: int| 0 <= j < i ==> *out@[j] == #[trigger] self.entries@[j].room,
            decreases self.entries@.len() - i,
        {
            out.push(&self.entries[i].room);
            i += 1;
        }
        proof {
            let es = self.entries@;
            assert forall|j: int| 0 <= j < out@.len() implies holds_room(self@, *#[trigger] out@[j]) by {
                lemma_rooms_value(es, j);
                assert(*out@[j] == es[j].room);
                assert(self@.contains_key(es[j].note_id@) && self@[es[j].note_id@].0 == *out@[j]);
            }
            assert forall|k: Seq<char>| #[trigger] self@.contains_key(k) implies listed_room(out@, self@[k].0) by {
                lemma_rooms_has(es, k);
                let j = choose|j: int| 0 <= j < es.len() && #[trigger] es[j].note_id@ == k;
                lemma_rooms_value(es, j);
                assert(*out@[j] == es[j].room);
                assert(0 <= j < out@.len() && *out@[j] == self@[k].0);
            }
        }
        out
    }

    /// Joins the note's room if it is open, counting one more connection, and
    /// hands it back; `None` when the room has to be opened first.
    pub fn join(&mut self, note_id: &str) -> (r: Option<&T>)
        requires
            old(self).wf(),
            old(self)@.contains_key(note_id@) ==> old(self)@[note_id@].1 < u64::MAX,
        ensures
            final(self).wf(),
            match r {
                Some(room) => old(self)@.contains_key(note_id@) && *room == old(self)@[note_id@].0
                    && final(self)@ == old(self)@.insert(
                    note_id@,
                    (old(self)@[note_id@].0, old(self)@[note_id@].1 + 1),
                ),
                None => !old(self)@.contains_key(note_id@) && final(self)@ == old(self)@,
            },
    {
        let key = to_chars(note_id);
        match self.find(&key) {
            Some(i) => {
                proof {
                    lemma_rooms_value(self.entries@, i as int);
                }
                let ghost es = self.entries@;
                let members = self.entries[i].members + 1;
                self.entries[i].members = members;
                proof {
                    let e = self.entries@[i as int];
                    assert(self.entries@ == es.update(i as int, e));
                    lemma_rooms_update(es, i as int, e);
                    assert forall|j: int| 0 <= j < self.entries@.len() implies #[trigger] self.entries@[j].members > 0 by {
                        if j != i {
                            assert(self.entries@[j] == es[j]);
                        }
                    }
                }
                Some(&self.entries[i].room)
            },
            None => None,
        }
    }

    /// Opens a room for a note that has none, with its first connection.
    pub fn open(&mut self, note_id: String, room: T)
        requires
            old(self).wf(),
            !old(self)@.contains_key(note_id@),
        ensures
            final(self).wf(),
            final(self)@ == old(self)@.insert(note_id@, (room, 1nat)),
    {
        let ghost es = self.entries@;
        proof {
            lemma_rooms_has(es, note_id@);
        }
        self.entries.push(OpenRoom { note_id, room, members: 1 });
        proof {
            let fs = self.entries@;
            assert(fs.drop_last() == es);
            assert forall|a: int, b: int| 0 <= a < b < fs.len() implies fs[a].note_id@ != fs[b].note_id@ by {
                if b == fs.len() - 1 {
                    assert(fs[a] == es[a]);
                } else {
                    assert(fs[a] == es[a] && fs[b] == es[b]);
                }
            }
            assert forall|j: int| 0 <= j < fs.len() implies #[trigger] fs[j].members > 0 by {
                if j < es.len() {
                    assert(fs[j] == es[j]);
                }
            }
        }
    }

    /// Drops a connection. The last one out closes the room and hands it back,
    /// so its metadata can be flushed and an idle server holds no documents.
    pub fn leave(&mut self, note_id: &str) -> (r: Option<T>)
        requires
            old(self).wf(),
        ensures
            final(self).wf(),
            match r {
                Some(room) => old(self)@.contains_key(note_id@) && old(self)@[note_id@] == (room, 1nat)
                    && final(self)@ == old(self)@.remove(note_id@),
                None => if old(self)@.contains_key(note_id@) {
                    old(self)@[note_id@].1 > 1 && final(self)@ == old(self)@.insert(
                        note_id@,
                        (old(self)@[note_id@].0, (old(self)@[note_id@].1 - 1) as nat),
                    )
                } else {
                    final(self)@ == old(self)@
                },
            },
    {
        let key = to_chars(note_id);
        match self.find(&key) {
            Some(i) => {
                proof {
                    lemma_rooms_value(self.entries@, i as int);
                }
                let ghost es = self.entries@;
                if self.entries[i].members > 1 {
                    let members = self.entries[i].members - 1;
                    self.entries[i].members = members;
                    proof {
                        let e = self.entries@[i as int];
                        assert(self.entries@ == es.update(i as int, e));
                        lemma_rooms_update(es, i as int, e);
                        assert forall|j: int| 0 <= j < self.entries@.len() implies #[trigger] self.entries@[j].members > 0 by {
                            if j != i {
                                assert(self.entries@[j] == es[j]);
                            }
                        }
                    }
                    None
                } else {
                    let e = self.entries.remove(i);
                    proof {
                        lemma_rooms_remove(es, i as int);
                        assert forall|j: int| 0 <= j < self.entries@.len() implies #[trigger] self.entries@[j].members > 0 by {
                            let j0 = if j < i { j } else { j + 1 };
                            assert(self.entries@[j] == es[j0]);
                        }
                    }
                    Some(e.room)
                }
            },
            None => None,
        }
    }
}

/// One room per note: joining a note that has a room open hands back that
/// same room with one more connection, leaves every other note's room as it
/// was, and opens nothing.
pub proof fn join_shares_the_open_room<T>(table: Map<Seq<char>, (T, nat)>, note_id: Seq<char>, other: Seq<char>)
    requires
        table.contains_key(note_id),
    ensures
        ({
            let joined = table.insert(note_id, (table[note_id].0, table[note_id].1 + 1));
            &&& joined.dom() == table.dom()
            &&& joined[note_id].0 == table[note_id].0
            &&& joined[note_id].1 == table[note_id].1 + 1
            &&& other != note_id && table.contains_key(other) ==> joined[other] == table[other]
        }),
{
    let joined = table.insert(note_id, (table[note_id].0, table[note_id].1 + 1));
    assert(joined.dom() =~= table.dom());
}

/// A room stays open while anyone is still in it: joining and leaving again
/// puts the table back as it was.
pub proof fn join_then_leave_restores<T>(table: Map<Seq<char>, (T, nat)>, note_id: Seq<char>)
    requires
        table.contains_key(note_id),
        table[note_id].1 > 0,
    ensures
        ({
            let joined = table.insert(note_id, (table[note_id].0, table[note_id].1 + 1));
            &&& joined[note_id].1 > 1
            &&& joined.insert(note_id, (joined[note_id].0, (joined[note_id].1 - 1) as nat)) == table
        }),
{
    let joined = table.insert(note_id, (table[note_id].0, table[note_id].1 + 1));
    assert(joined.insert(note_id, (joined[note_id].0, (joined[note_id].1 - 1) as nat)) =~= table);
}

} // verus!
