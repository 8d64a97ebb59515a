//! The note WebSocket: the single-use ticket that opens it, the URL a client
//! is handed, and the frames that travel over it.
//!
//! Frames are binary, first byte a tag:
//!   1  state vector: "here is what I have", sent by both sides on connect;
//!   2  diff: "here is what you are missing", answering a state vector;
//!   3  update: an incremental change.

use vstd::prelude::*;
use crate::api::API_PREFIX;
use crate::chars::{split_on, split_chars, trim, trim_chars, to_chars, from_chars, extend_chars, chars_eq};

verus! {

/// The query a client opens the socket with.
#[derive(Debug, Clone, PartialEq)]
pub struct Connect {
    pub ticket: String,
    /// Note whose document this connection edits.
    pub note: String,
}

pub const MSG_STATE_VECTOR: u8 = 1;
pub const MSG_DIFF: u8 = 2;
pub const MSG_UPDATE: u8 = 3;

/// How long a ticket stays good, in milliseconds: long enough to survive a
/// slow page load, short enough that a ticket left in a proxy log is
/// worthless by the time anyone reads it.
pub const TICKET_TTL_MS: u64 = 30_000;

// ---------------------------------------------------------------------------
// The URL a client opens
// ---------------------------------------------------------------------------

/// Whether a forwarded protocol header says the client came in over HTTPS:
/// its first entry, trimmed, is `https`.
pub open spec fn forwarded_https(proto: Option<Seq<char>>) -> bool {
    match proto {
        Some(p) => trim(split_on(p, ',')[0]) == "https"@,
        None => false,
    }
}

pub open spec fn opt_view(o: Option<&str>) -> Option<Seq<char>> {
    match o {
        Some(s) => Some(s@),
        None => None,
    }
}

/// The URL a client should open with `ticket`. Behind a TLS-terminating proxy
/// the client must be told `wss://`, and only the proxy's forwarded headers
/// know that; the host is the forwarded one, else the request's, else
/// `localhost`.
pub open spec fn websocket_url_of(
    forwarded_proto: Option<Seq<char>>,
    forwarded_host: Option<Seq<char>>,
    host: Option<Seq<char>>,
    ticket: Seq<char>,
) -> Seq<char> {
    let scheme = if forwarded_https(forwarded_proto) {
        "wss"@
    } else {
        "ws"@
    };
    let h = match forwarded_host {
        Some(f) => f,
        None => match host {
            Some(x) => x,
            None => "localhost"@,
        },
    };
    scheme + "://"@ + h + API_PREFIX@ + "/ws?ticket="@ + ticket
}

/// The URL names the proxy's forwarded host whenever there is one, whatever
/// the forwarded protocol says and whatever host the request itself names;
/// without one, the request's host, else `localhost`. The scheme is `wss`
/// exactly when the forwarded protocol's first entry is `https`.
pub proof fn websocket_url_takes_the_forwarded_host(
    proto: Option<Seq<char>>,
    forwarded: Seq<char>,
    host: Option<Seq<char>>,
    other_host: Option<Seq<char>>,
    request_host: Seq<char>,
    ticket: Seq<char>,
)
    ensures
        websocket_url_of(proto, Some(forwarded), host, ticket) == websocket_url_of(
            proto,
            Some(forwarded),
            other_host,
            ticket,
        ),
        websocket_url_of(proto, Some(forwarded), host, ticket) == (if forwarded_https(proto) {
            "wss"@
        } else {
            "ws"@
        }) + "://"@ + forwarded + API_PREFIX@ + "/ws?ticket="@ + ticket,
        websocket_url_of(proto, None, Some(request_host), ticket) == (if forwarded_https(proto) {
            "wss"@
        } else {
            "ws"@
        }) + "://"@ + request_host + API_PREFIX@ + "/ws?ticket="@ + ticket,
        websocket_url_of(proto, None, None, ticket) == (if forwarded_https(proto) {
            "wss"@
        } else {
            "ws"@
        }) + "://"@ + "localhost"@ + API_PREFIX@ + "/ws?ticket="@ + ticket,
        forwarded_https(Some("https"@)),
        !forwarded_https(None),
{
    reveal_strlit("https");
    crate::chars::lemma_split_on_nonempty("https"@, ',');
    let pieces = split_on("https"@, ',');
    assert(forall|i: int| 0 <= i < "https"@.len() ==> "https"@[i] != ',');
    assert(pieces[0] == "https"@) by {
        lemma_split_plain("https"@, ',');
    }
    assert(!crate::chars::is_ws("https"@[0]) && !crate::chars::is_ws("https"@.last()));
    crate::chars::lemma_trim_fixed("https"@);
}

/// A text without the separator splits into itself.
proof fn lemma_split_plain(s: Seq<char>, sep: char)
    requires
        forall|i: int| 0 <= i < s.len() ==> s[i] != sep,
    ensures
        split_on(s, sep) == seq![s],
    decreases s.len(),
{
    if s.len() > 0 {
        lemma_split_plain(s.drop_last(), sep);
        assert(s.drop_last().push(s.last()) == s);
        let r = seq![s.drop_last()];
        assert(r.update(0, r.last().push(s.last())) =~= seq![s]);
    } else {
        assert(s =~= Seq::<char>::empty());
    }
}

pub fn websocket_url(
    forwarded_proto: Option<&str>,
    forwarded_host: Option<&str>,
    host: Option<&str>,
    ticket: &str,
) -> (r: String)
    ensures
        r@ == websocket_url_of(
            opt_view(forwarded_proto),
            opt_view(forwarded_host),
            opt_view(host),
            ticket@,
        ),
{
    let secure = match forwarded_proto {
        Some(p) => {
            let pieces = split_chars(&to_chars(p), ',');
            proof {
                crate::chars::lemma_split_on_nonempty(p@, ',');
            }
            chars_eq(&trim_chars(&pieces[0]), &to_chars("https"))
        },
        None => false,
    };
    let mut out = if secure {
        to_chars("wss")
    } else {
        to_chars("ws")
    };
    extend_chars(&mut out, &to_chars("://"));
    let h = match forwarded_host {
        Some(f) => f,
        None => match host {
            Some(x) => x,
            None => "localhost",
        },
    };
    extend_chars(&mut out, &to_chars(h));
    extend_chars(&mut out, &to_chars(API_PREFIX));
    extend_chars(&mut out, &to_chars("/ws?ticket="));
    extend_chars(&mut out, &to_chars(ticket));
    from_chars(&out)
}

// ---------------------------------------------------------------------------
// Frames
// ---------------------------------------------------------------------------

/// A binary frame: the tag byte, then the payload.
pub fn frame(kind: u8, payload: &[u8]) -> (r: Vec<u8>)
    ensures
        r@ == seq![kind] + payload@,
{
    let mut buf: Vec<u8> = Vec::new();
    buf.push(kind);
    let mut i: usize = 0;
    while i < payload.len()
        invariant
            i <= payload@.len(),
            buf@ == seq![kind] + payload@.take(i as int),
        decreases payload@.len() - i,
    {
        buf.push(payload[i]);
        assert(payload@.take(i + 1) == payload@.take(i as int).push(payload@[i as int]));
        i += 1;
    }
    assert(payload@.take(payload@.len() as int) == payload@);
    buf
}

/// A frame reads back as what was framed: its first byte is the tag and the
/// rest is the payload, which is what [`read_frame`] takes apart.
pub proof fn frame_reads_back(kind: u8, payload: Seq<u8>)
    ensures
        (seq![kind] + payload).len() > 0,
        (seq![kind] + payload)[0] == kind,
        (seq![kind] + payload).skip(1) == payload,
{
    assert((seq![kind] + payload).skip(1) =~= payload);
}

/// What an incoming binary frame asks of the room.
#[derive(Debug, Clone, PartialEq)]
pub enum Incoming {
    /// An empty frame: nothing to do.
    Empty,
    /// The peer's state vector: answer with a diff.
    StateVector(Vec<u8>),
    /// A diff or an update: apply it.
    Update(Vec<u8>),
    /// A tag this protocol does not have: ignored.
    Unknown(u8),
}

pub fn read_frame(payload: &[u8]) -> (r: Incoming)
    ensures
        payload@.len() == 0 ==> r == Incoming::Empty,
        payload@.len() > 0 ==> match r {
            Incoming::StateVector(body) => payload@[0] == MSG_STATE_VECTOR && body@ == payload@.skip(1),
            Incoming::Update(body) => (payload@[0] == MSG_DIFF || payload@[0] == MSG_UPDATE)
                && body@ == payload@.skip(1),
            Incoming::Unknown(tag) => tag == payload@[0] && payload@[0] != MSG_STATE_VECTOR
                && payload@[0] != MSG_DIFF && payload@[0] != MSG_UPDATE,
            Incoming::Empty => false,
        },
{
    if payload.len() == 0 {
        return Incoming::Empty;
    }
    let kind = payload[0];
    let mut body: Vec<u8> = Vec::new();
    let mut i: usize = 1;
    while i < payload.len()
        invariant
            1 <= i <= payload@.len(),
            body@ == payload@.subrange(1, i as int),
        decreases payload@.len() - i,
    {
        body.push(payload[i]);
        assert(payload@.subrange(1, i + 1) == payload@.subrange(1, i as int).push(payload@[i as int]));
        i += 1;
    }
    assert(payload@.subrange(1, payload@.len() as int) == payload@.skip(1));
    if kind == MSG_STATE_VECTOR {
        Incoming::StateVector(body)
    } else if kind == MSG_DIFF || kind == MSG_UPDATE {
        Incoming::Update(body)
    } else {
        Incoming::Unknown(kind)
    }
}

/// A new ticket: 64 lowercase hex characters from two random v4 UUIDs.
pub fn new_ticket() -> (t: String)
    ensures
        t@.len() == 64,
        crate::auth::is_lower_hex(t@),
        exists|a: Seq<u8>, b: Seq<u8>|
            crate::auth::uuid_shaped(a, 4) && crate::auth::uuid_shaped(b, 4) && t@ == #[trigger] crate::auth::hex_text(a)
                + #[trigger] crate::auth::hex_text(b),
{
    crate::auth::new_token()
}

// ---------------------------------------------------------------------------
// Tickets
// ---------------------------------------------------------------------------

/// Whether a ticket issued at `issued` is still good at `now`. A clock that
/// reads earlier than the issue time counts as no time passed.
pub open spec fn fresh(issued: u64, now: u64) -> bool {
    (if now >= issued {
        now - issued
    } else {
        0
    }) < TICKET_TTL_MS
}

/// Tickets by the time they were issued.
pub open spec fn entries_map(es: Seq<(String, u64)>) -> Map<Seq<char>, u64>
    decreases es.len(),
{
    if es.len() == 0 {
        Map::empty()
    } else {
        entries_map(es.drop_last()).insert(es.last().0@, es.last().1)
    }
}

pub open spec fn distinct_keys(es: Seq<(String, u64)>) -> bool {
    forall|i: int, j: int| 0 <= i < j < es.len() ==> es[i].0@ != es[j].0@
}

proof fn lemma_entries_has(es: Seq<(String, u64)>, k: Seq<char>)
    ensures
        entries_map(es).contains_key(k) <==> exists|i: int| 0 <= i < es.len() && #[trigger] es[i].0@ == k,
    decreases es.len(),
{
    if es.len() > 0 {
        lemma_entries_has(es.drop_last(), k);
        if entries_map(es.drop_last()).contains_key(k) {
            let i = choose|i: int| 0 <= i < es.drop_last().len() && #[trigger] es.drop_last()[i].0@ == k;
            assert(es[i].0@ == k);
        }
        if exists|i: int| 0 <= i < es.len() && #[trigger] es[i].0@ == k {
            let i = choose|i: int| 0 <= i < es.len() && #[trigger] es[i].0@ == k;
            if i < es.len() - 1 {
                assert(es.drop_last()[i].0@ == k);
            }
        }
    }
}

proof fn lemma_entries_value(es: Seq<(String, u64)>, i: int)
    requires
        distinct_keys(es),
        0 <= i < es.len(),
    ensures
        entries_map(es).contains_key(es[i].0@),
        entries_map(es)[es[i].0@] == es[i].1,
    decreases es.len(),
{
    lemma_entries_has(es, es[i].0@);
    if i < es.len() - 1 {
        assert(es.drop_last()[i] == es[i]);
        assert(distinct_keys(es.drop_last())) by {
            assert forall|a: int, b: int| 0 <= a < b < es.drop_last().len() implies es.drop_last()[a].0@
                != es.drop_last()[b].0@ by {
                assert(es.drop_last()[a] == es[a] && es.drop_last()[b] == es[b]);
            }
        }
        lemma_entries_value(es.drop_last(), i);
        assert(es.last().0@ != es[i].0@);
    }
}

/// Whether `e` is one of the first `n` entries of `es`.
pub open spec fn among(e: (String, u64), es: Seq<(String, u64)>, n: int) -> bool {
    exists|a: int| 0 <= a < n && #[trigger] es[a] == e
}

/// Issued tickets, held only in memory: they expire in seconds, and unlike
/// the session table there is no persisted copy for a database leak to expose.
pub struct TicketBook {
    entries: Vec<(String, u64)>,
}

impl View for TicketBook {
    type V = Map<Seq<char>, u64>;

    closed spec fn view(&self) -> Map<Seq<char>, u64> {
        entries_map(self.entries@)
    }
}

/// The book after issuing `ticket` at `now`: expired tickets are dropped
/// first.
pub open spec fn after_issue(book: Map<Seq<char>, u64>, ticket: Seq<char>, now: u64) -> Map<
    Seq<char>,
    u64,
> {
    Map::new(|k: Seq<char>| book.contains_key(k) && fresh(book[k], now), |k: Seq<char>| book[k]).insert(
        ticket,
        now,
    )
}

/// Whether `ticket` opens a socket at `now` against the book.
pub open spec fn admits(book: Map<Seq<char>, u64>, ticket: Seq<char>, now: u64) -> bool {
    book.contains_key(ticket) && fresh(book[ticket], now)
}

impl TicketBook {
    pub closed spec fn wf(&self) -> bool {
        distinct_keys(self.entries@)
    }

    pub fn new() -> (b: TicketBook)
        ensures
            b.wf(),
            b@ == Map::<Seq<char>, u64>::empty(),
    {
        TicketBook { entries: Vec::new() }
    }

    fn find(&self, ticket: &Vec<char>) -> (r: Option<usize>)
        requires
            self.wf(),
        ensures
            match r {
                Some(i) => i < self.entries@.len() && self.entries@[i as int].0@ == ticket@,
                None => !self@.contains_key(ticket@),
            },
    {
        let mut i: usize = 0;
        while i < self.entries.len()
            invariant
                i <= self.entries@.len(),
                forall|j: int| 0 <= j < i ==> #[trigger] self.entries@[j].0@ != ticket@,
            decreases self.entries@.len() - i,
        {
            if chars_eq(&to_chars(self.entries[i].0.as_str()), ticket) {
                return Some(i);
            }
            i += 1;
        }
        proof {
            lemma_entries_has(self.entries@, ticket@);
        }
        None
    }

    /// Removes the entry at `i`.
    fn remove_at(&mut self, i: usize) -> (e: (String, u64))
        requires
            old(self).wf(),
            i < old(self).entries@.len(),
        ensures
            final(self).wf(),
            e == old(self).entries@[i as int],
            final(self)@ == old(self)@.remove(e.0@),
    {
        let ghost es = self.entries@;
        let e = self.entries.remove(i);
        proof {
            let fs = self.entries@;
            assert(fs == es.remove(i as int));
            assert(distinct_keys(fs)) by {
                assert forall|a: int, b: int| 0 <= a < b < fs.len() implies fs[a].0@ != fs[b].0@ by {
                    let a0 = if a < i { a } else { a + 1 };
                    let b0 = if b < i { b } else { b + 1 };
                    assert(fs[a] == es[a0] && fs[b] == es[b0]);
                }
            }
            assert forall|k: Seq<char>| #[trigger] entries_map(fs).contains_key(k) <==> entries_map(
                es,
            ).remove(e.0@).contains_key(k) by {
                lemma_entries_has(fs, k);
                lemma_entries_has(es, k);
                if exists|j: int| 0 <= j < es.len() && #[trigger] es[j].0@ == k {
                    let j = choose|j: int| 0 <= j < es.len() && #[trigger] es[j].0@ == k;
                    if k != e.0@ {
                        assert(j != i);
                        let j2 = if j < i { j } else { j - 1 };
                        assert(fs[j2] == es[j]);
                    }
                }
                if exists|j: int| 0 <= j < fs.len() && #[trigger] fs[j].0@ == k {
                    let j = choose|j: int| 0 <= j < fs.len() && #[trigger] fs[j].0@ == k;
                    let j0 = if j < i { j } else { j + 1 };
                    assert(fs[j] == es[j0]);
                    assert(j0 != i);
                }
            }
            assert forall|k: Seq<char>| #[trigger] entries_map(fs).contains_key(k) implies entries_map(fs)[k]
                == entries_map(es)[k] by {
                lemma_entries_has(fs, k);
                let j = choose|j: int| 0 <= j < fs.len() && #[trigger] fs[j].0@ == k;
                let j0 = if j < i { j } else { j + 1 };
                assert(fs[j] == es[j0]);
                lemma_entries_value(fs, j);
                lemma_entries_value(es, j0);
            }
            assert(entries_map(fs) =~= entries_map(es).remove(e.0@));
        }
        e
    }

    /// Records a freshly issued ticket, dropping the ones that have expired.
    pub fn issue(&mut self, ticket: String, now: u64)
        requires
            old(self).wf(),
        ensures
            final(self).wf(),
            final(self)@ == after_issue(old(self)@, ticket@, now),
    {
        let ghost es = self.entries@;
        let mut kept: Vec<(String, u64)> = Vec::new();
        let mut i: usize = 0;
        while i < self.entries.len()
            invariant
                i <= self.entries@.len(),
                self.entries@ == es,
                distinct_keys(es),
                distinct_keys(kept@),
                forall|j: int| 0 <= j < kept@.len() ==> among(#[trigger] kept@[j], es, i as int),
                forall|a: int| 0 <= a < i && fresh(es[a].1, now) ==> among(#[trigger] es[a], kept@, kept@.len() as int),
                forall|j: int| 0 <= j < kept@.len() ==> fresh(#[trigger] kept@[j].1, now),
            decreases self.entries@.len() - i,
        {
            let (t, at) = (self.entries[i].0.clone(), self.entries[i].1);
            let issued = at;
            let elapsed = if now >= issued {
                now - issued
            } else {
                0
            };
            if elapsed < TICKET_TTL_MS {
                let ghost before = kept@;
                kept.push((t, at));
                proof {
                    assert(kept@[before.len() as int] == es[i as int]);
                    assert forall|a: int, b: int| 0 <= a < b < kept@.len() implies kept@[a].0@ != kept@[b].0@ by {
                        if b == before.len() {
                            assert(kept@[a] == before[a]);
                            assert(among(before[a], es, i as int));
                            let a0 = choose|a0: int| 0 <= a0 < i && #[trigger] es[a0] == before[a];
                        } else {
                            assert(kept@[a] == before[a] && kept@[b] == before[b]);
                        }
                    }
                    assert forall|j: int| 0 <= j < kept@.len() implies among(#[trigger] kept@[j], es, i + 1) by {
                        if j < before.len() {
                            assert(kept@[j] == before[j]);
                            assert(among(before[j], es, i as int));
                            let a0 = choose|a0: int| 0 <= a0 < i && #[trigger] es[a0] == before[j];
                            assert(es[a0] == kept@[j]);
                        } else {
                            assert(kept@[j] == es[i as int]);
                        }
                    }
                    assert forall|a: int| 0 <= a < i + 1 && fresh(es[a].1, now) implies among(#[trigger] es[a], kept@, kept@.len() as int) by {
                        if a < i {
                            assert(among(es[a], before, before.len() as int));
                            let j = choose|j: int| 0 <= j < before.len() && #[trigger] before[j] == es[a];
                            assert(kept@[j] == before[j]);
                        } else {
                            assert(kept@[before.len() as int] == es[a]);
                        }
                    }
                    assert forall|j: int| 0 <= j < kept@.len() implies fresh(#[trigger] kept@[j].1, now) by {
                        if j < before.len() {
                            assert(kept@[j] == before[j]);
                        }
                    }
                }
            }
            i += 1;
        }
        let ghost filtered = Map::new(
            |k: Seq<char>| entries_map(es).contains_key(k) && fresh(entries_map(es)[k], now),
            |k: Seq<char>| entries_map(es)[k],
        );
        proof {
            assert forall|k: Seq<char>| #[trigger] entries_map(kept@).contains_key(k) <==> filtered.contains_key(k) by {
                lemma_entries_has(kept@, k);
                lemma_entries_has(es, k);
                if exists|j: int| 0 <= j < kept@.len() && #[trigger] kept@[j].0@ == k {
                    let j = choose|j: int| 0 <= j < kept@.len() && #[trigger] kept@[j].0@ == k;
                    assert(among(kept@[j], es, i as int));
                    let a = choose|a: int| 0 <= a < i && #[trigger] es[a] == kept@[j];
                    assert(es[a].0@ == k);
                    lemma_entries_value(es, a);
                }
                if filtered.contains_key(k) {
                    let a = choose|a: int| 0 <= a < es.len() && #[trigger] es[a].0@ == k;
                    lemma_entries_value(es, a);
                    assert(among(es[a], kept@, kept@.len() as int));
                    let j = choose|j: int| 0 <= j < kept@.len() && #[trigger] kept@[j] == es[a];
                    assert(kept@[j].0@ == k);
                }
            }
            assert forall|k: Seq<char>| #[trigger] entries_map(kept@).contains_key(k) implies entries_map(kept@)[k]
                == filtered[k] by {
                lemma_entries_has(kept@, k);
                let j = choose|j: int| 0 <= j < kept@.len() && #[trigger] kept@[j].0@ == k;
                assert(among(kept@[j], es, i as int));
                let a = choose|a: int| 0 <= a < i && #[trigger] es[a] == kept@[j];
                lemma_entries_value(kept@, j);
                lemma_entries_value(es, a);
            }
            assert(entries_map(kept@) =~= filtered);
        }
        self.entries = kept;
        let key = to_chars(ticket.as_str());
        match self.find(&key) {
            Some(j) => {
                self.remove_at(j);
            },
            None => {},
        }
        let ghost before = self.entries@;
        assert(!entries_map(before).contains_key(ticket@));
        self.entries.push((ticket, now));
        proof {
            let fs = self.entries@;
            assert(fs.drop_last() == before);
            lemma_entries_has(before, ticket@);
            assert forall|a: int, b: int| 0 <= a < b < fs.len() implies fs[a].0@ != fs[b].0@ by {
                if b == fs.len() - 1 {
                    assert(fs[a] == before[a]);
                } else {
                    assert(fs[a] == before[a] && fs[b] == before[b]);
                }
            }
            assert(entries_map(fs) =~= filtered.insert(ticket@, now));
        }
    }

    /// Spends a ticket: it is taken out of the book whether or not it turns
    /// out to be fresh, and opens a socket only if it was issued and has not
    /// expired.
    pub fn redeem(&mut self, ticket: &str, now: u64) -> (ok: bool)
        requires
            old(self).wf(),
        ensures
            final(self).wf(),
            ok == admits(old(self)@, ticket@, now),
            final(self)@ == old(self)@.remove(ticket@),
    {
        let key = to_chars(ticket);
        match self.find(&key) {
            Some(i) => {
                proof {
                    lemma_entries_value(self.entries@, i as int);
                }
                let (_, issued) = self.remove_at(i);
                let elapsed = if now >= issued {
                    now - issued
                } else {
                    0
                };
                elapsed < TICKET_TTL_MS
            },
            None => {
                assert(self@.remove(ticket@) =~= self@);
                false
            },
        }
    }
}

/// A ticket opens at most one socket: once spent, it admits nothing, however
/// soon it is presented again.
pub proof fn ticket_is_single_use(book: Map<Seq<char>, u64>, ticket: Seq<char>, now: u64, later: u64)
    ensures
        !admits(book.remove(ticket), ticket, later),
{
}

/// A ticket just issued opens a socket for exactly the time-to-live.
pub proof fn issued_ticket_admits_until_expiry(
    book: Map<Seq<char>, u64>,
    ticket: Seq<char>,
    now: u64,
    later: u64,
)
    ensures
        admits(after_issue(book, ticket, now), ticket, later) == fresh(now, later),
{
}

/// Issuing one ticket leaves every other fresh ticket as it was.
pub proof fn issue_keeps_other_fresh_tickets(
    book: Map<Seq<char>, u64>,
    ticket: Seq<char>,
    other: Seq<char>,
    now: u64,
)
    requires
        other != ticket,
        admits(book, other, now),
    ensures
        admits(after_issue(book, ticket, now), other, now),
        after_issue(book, ticket, now)[other] == book[other],
{
}

} // verus!
