//! A note's Yjs document: applying an update to it, answering a peer's state
//! vector, rebuilding it from the stored log or from a legacy note's text.
//! The document itself is the `yrs` crate's; which update counts as a change,
//! and what a legacy note becomes, is decided here.
//!
//! The crate is built with its `small-client` feature: client ids are read
//! as 32-bit values, as Yjs writes them, and reading an id never panics
//! (without the feature, an id of 2^53 or more trips a debug assertion).

use vstd::prelude::*;
use yrs::updates::decoder::Decode;
use yrs::updates::encoder::Encode;
use yrs::{GetString, ReadTxn, Text, Transact, XmlFragment};
use crate::chars::{trim, to_chars};
use crate::rooms::{document_title, legacy_paragraphs};
use crate::text::{split_nl, tidy_text, walk_xml_all, xml_plain_text, XmlNode};

verus! {

#[verifier::external_type_specification]
#[verifier::external_body]
pub struct ExDoc(yrs::Doc);

#[verifier::external_type_specification]
#[verifier::external_body]
pub struct ExXmlOut(yrs::XmlOut);

#[verifier::external_type_specification]
#[verifier::external_body]
pub struct ExTransaction<'doc>(yrs::Transaction<'doc>);

/// The root XML fragment `y-prosemirror` keeps a ProseMirror document in,
/// and so where TipTap's Collaboration extension writes.
pub const ROOT: &'static str = "default";

/// The text holding a note's collaborative title.
pub const TITLE: &'static str = "title";

// ---------------------------------------------------------------------------
// Outside calls
// ---------------------------------------------------------------------------

/// `yrs::Doc::new`: an empty document.
#[verifier::external_body]
fn new_doc() -> yrs::Doc {
    yrs::Doc::new()
}

/// `Update::decode_v1` then `TransactionMut::apply_update`: merges the update
/// into the document, or says why it could not. Decoding starts with a
/// variable-length count, and bytes that all have their high bit set never
/// end one: `read_var_u32` runs out of bytes or gives up after eleven, so
/// such an update (the empty one among them) is always refused. When else
/// either step fails is left unsaid: decoding reserves memory as the bytes
/// ask, so the outcome is not a function of the bytes alone. Built with
/// `small-client`, decoding reads each client id as 32 bits and has no
/// assertion to trip on any bytes.
#[verifier::external_body]
fn apply_update_bytes(doc: &yrs::Doc, update: &[u8]) -> (r: Result<(), String>)
    ensures
        unreadable(update@) ==> r is Err,
{
    let update = yrs::Update::decode_v1(update).map_err(|err| err.to_string())?;
    doc.transact_mut().apply_update(update).map_err(|err| err.to_string())
}

/// `ReadTxn::snapshot`: what the document holds, read in one transaction. Its
/// state vector comes as (client, clock) entries, each client once; its
/// delete set as (client, start, end) ranges, which `yrs` keeps merged. The
/// order of either is not promised.
#[verifier::external_body]
fn doc_state(doc: &yrs::Doc) -> (r: (Vec<(u64, u32)>, Vec<(u64, u32, u32)>))
    ensures
        distinct_clients(r.0@),
{
    let snapshot = doc.transact().snapshot();
    let clocks = snapshot.state_map.iter().map(|(client, clock)| (client.get(), *clock)).collect();
    let deleted = snapshot.delete_set.iter().flat_map(|(client, ranges)| {
        ranges.iter().map(|range| (client.get(), range.start, range.end)).collect::<Vec<_>>()
    }).collect();
    (clocks, deleted)
}

/// `StateVector::decode_v1` then `encode_diff_v1`: everything the document
/// holds that the peer's state vector does not, as an update; or why the
/// state vector could not be read. The state vector starts with a
/// variable-length count, so bytes that all have their high bit set are
/// always refused; when else decoding fails is left unsaid. Built with
/// `small-client`, a client id of any size is taken without an assertion.
#[verifier::external_body]
fn encode_diff_bytes(doc: &yrs::Doc, peer_state_vector: &[u8]) -> (r: Result<Vec<u8>, String>)
    ensures
        unreadable(peer_state_vector@) ==> r is Err,
{
    let peer = yrs::StateVector::decode_v1(peer_state_vector).map_err(|err| err.to_string())?;
    Ok(doc.transact().encode_diff_v1(&peer))
}

/// `ReadTxn::state_vector` then `encode_v1`: what the document holds, as the
/// state vector a peer diffs against.
#[verifier::external_body]
fn encode_state_vector(doc: &yrs::Doc) -> Vec<u8> {
    doc.transact().state_vector().encode_v1()
}

/// `encode_diff_v1` against an empty state vector: the whole document as one
/// update, which replaces a long update log.
#[verifier::external_body]
fn encode_whole(doc: &yrs::Doc) -> Vec<u8> {
    doc.transact().encode_diff_v1(&yrs::StateVector::default())
}

/// `XmlFragment::push_back` of an empty `paragraph` element at the end of the
/// root fragment named `root`.
#[verifier::external_body]
fn push_paragraph(doc: &yrs::Doc, root: &str) {
    let fragment = doc.get_or_insert_xml_fragment(root);
    fragment.push_back(&mut doc.transact_mut(), yrs::XmlElementPrelim::empty("paragraph"));
}

/// `XmlFragment::push_back` of a `paragraph` element holding `text` as its
/// one text node, at the end of the root fragment named `root`.
#[verifier::external_body]
fn push_paragraph_text(doc: &yrs::Doc, root: &str, text: &str) {
    let fragment = doc.get_or_insert_xml_fragment(root);
    let child: yrs::types::xml::XmlIn = yrs::XmlTextPrelim::new(text).into();
    fragment.push_back(&mut doc.transact_mut(), yrs::XmlElementPrelim::new("paragraph", [child]));
}

/// `Text::insert` of `title` at the start of the text named `name`.
#[verifier::external_body]
fn insert_title(doc: &yrs::Doc, name: &str, title: &str) {
    let text = doc.get_or_insert_text(name);
    text.insert(&mut doc.transact_mut(), 0, title);
}

/// One node of the document's XML tree, converted as it stands: a text leaf
/// with its `get_string`, an element with its tag and children, a fragment
/// with its children.
#[verifier::external_body]
fn xml_node(txn: &yrs::Transaction<'_>, node: &yrs::XmlOut) -> XmlNode {
    match node {
        yrs::XmlOut::Text(value) => XmlNode::Text(value.get_string(txn)),
        yrs::XmlOut::Element(element) => XmlNode::Element(
            element.tag().to_string(),
            element.children(txn).map(|child| xml_node(txn, &child)).collect(),
        ),
        yrs::XmlOut::Fragment(inner) => XmlNode::Fragment(inner.children(txn).map(|child| xml_node(txn, &child)).collect()),
    }
}

/// The children of the root fragment named `root`, converted as
/// [`xml_node`] does.
#[verifier::external_body]
fn xml_children(doc: &yrs::Doc, root: &str) -> Vec<XmlNode> {
    let fragment = doc.get_or_insert_xml_fragment(root);
    let txn = doc.transact();
    fragment.children(&txn).map(|child| xml_node(&txn, &child)).collect()
}

/// `GetString::get_string` of the text named `name`.
#[verifier::external_body]
fn text_content(doc: &yrs::Doc, name: &str) -> String {
    let text = doc.get_or_insert_text(name);
    let content = text.get_string(&doc.transact());
    content
}

// ---------------------------------------------------------------------------
// Whether an update changed anything
// ---------------------------------------------------------------------------

/// Bytes that cannot start a Yjs message: every one has its high bit set, so
/// the variable-length count every message starts with never ends. The
/// empty message is one of them.
pub open spec fn unreadable(bytes: Seq<u8>) -> bool {
    forall|i: int| 0 <= i < bytes.len() ==> bytes[i] >= 128
}

/// No client appears twice.
pub open spec fn distinct_clients(cs: Seq<(u64, u32)>) -> bool {
    forall|i: int, j: int| 0 <= i < j < cs.len() ==> cs[i].0 != cs[j].0
}

/// The same entries, in whatever order.
pub open spec fn same_entries<T>(a: Seq<T>, b: Seq<T>) -> bool {
    forall|e: T| a.contains(e) <==> b.contains(e)
}

fn holds(cs: &Vec<(u64, u32)>, e: (u64, u32)) -> (b: bool)
    ensures
        b == cs@.contains(e),
{
    let mut i: usize = 0;
    while i < cs.len()
        invariant
            i <= cs.len(),
            forall|j: int| 0 <= j < i ==> cs@[j] != e,
        decreases cs.len() - i,
    {
        if cs[i].0 == e.0 && cs[i].1 == e.1 {
            assert(cs@[i as int] == e);
            return true;
        }
        i += 1;
    }
    false
}

/// Whether every entry of `a` is in `b`.
fn all_held(a: &Vec<(u64, u32)>, b: &Vec<(u64, u32)>) -> (r: bool)
    ensures
        r == (forall|e: (u64, u32)| a@.contains(e) ==> b@.contains(e)),
{
    let mut i: usize = 0;
    while i < a.len()
        invariant
            i <= a.len(),
            forall|j: int| 0 <= j < i ==> b@.contains(#[trigger] a@[j]),
        decreases a.len() - i,
    {
        if !holds(b, a[i]) {
            assert(a@.contains(a@[i as int]));
            return false;
        }
        i += 1;
    }
    assert forall|e: (u64, u32)| a@.contains(e) implies b@.contains(e) by {
        let j = choose|j: int| 0 <= j < a@.len() && a@[j] == e;
        assert(b@.contains(a@[j]));
    }
    true
}

fn holds_range(rs: &Vec<(u64, u32, u32)>, e: (u64, u32, u32)) -> (b: bool)
    ensures
        b == rs@.contains(e),
{
    let mut i: usize = 0;
    while i < rs.len()
        invariant
            i <= rs.len(),
            forall|j: int| 0 <= j < i ==> rs@[j] != e,
        decreases rs.len() - i,
    {
        if rs[i].0 == e.0 && rs[i].1 == e.1 && rs[i].2 == e.2 {
            assert(rs@[i as int] == e);
            return true;
        }
        i += 1;
    }
    false
}

/// Whether every range of `a` is in `b`.
fn all_ranges_held(a: &Vec<(u64, u32, u32)>, b: &Vec<(u64, u32, u32)>) -> (r: bool)
    ensures
        r == (forall|e: (u64, u32, u32)| a@.contains(e) ==> b@.contains(e)),
{
    let mut i: usize = 0;
    while i < a.len()
        invariant
            i <= a.len(),
            forall|j: int| 0 <= j < i ==> b@.contains(#[trigger] a@[j]),
        decreases a.len() - i,
    {
        if !holds_range(b, a[i]) {
            assert(a@.contains(a@[i as int]));
            return false;
        }
        i += 1;
    }
    assert forall|e: (u64, u32, u32)| a@.contains(e) implies b@.contains(e) by {
        let j = choose|j: int| 0 <= j < a@.len() && a@[j] == e;
        assert(b@.contains(a@[j]));
    }
    true
}

/// Whether applying an update changed the document: it inserted something,
/// so the state vector moved, or it deleted something, so the delete set
/// grew. An update that does neither (the handshake diff of an empty
/// document, a change already merged) changed nothing.
pub fn update_changed(
    before_clocks: &Vec<(u64, u32)>,
    before_deleted: &Vec<(u64, u32, u32)>,
    after_clocks: &Vec<(u64, u32)>,
    after_deleted: &Vec<(u64, u32, u32)>,
) -> (b: bool)
    ensures
        b == !(same_entries(before_clocks@, after_clocks@) && same_entries(before_deleted@, after_deleted@)),
{
    let clocks_same = all_held(before_clocks, after_clocks) && all_held(after_clocks, before_clocks);
    let deleted_same = all_ranges_held(before_deleted, after_deleted) && all_ranges_held(after_deleted, before_deleted);
    !(clocks_same && deleted_same)
}

/// What counts as a change between two readings of a document: a client
/// whose clock moved, a client that appeared, a deletion that appeared; and
/// what does not: the same entries read back in another order.
pub proof fn what_counts_as_a_change(
    before: Seq<(u64, u32)>,
    after: Seq<(u64, u32)>,
    before_deleted: Seq<(u64, u32, u32)>,
    after_deleted: Seq<(u64, u32, u32)>,
)
    ensures
        forall|c: u64, k1: u32, k2: u32|
            #![trigger before.contains((c, k1)), after.contains((c, k2))]
            distinct_clients(after) && before.contains((c, k1)) && after.contains((c, k2)) && k1 != k2
                ==> !same_entries(before, after),
        forall|c: u64, k: u32|
            #![trigger after.contains((c, k))]
            after.contains((c, k)) && (forall|k0: u32| !before.contains((c, k0))) ==> !same_entries(before, after),
        forall|e: (u64, u32, u32)|
            #![trigger after_deleted.contains(e)]
            after_deleted.contains(e) && !before_deleted.contains(e) ==> !same_entries(before_deleted, after_deleted),
        before.to_multiset() == after.to_multiset() && before_deleted.to_multiset() == after_deleted.to_multiset()
            ==> same_entries(before, after) && same_entries(before_deleted, after_deleted),
{
    assert forall|c: u64, k1: u32, k2: u32|
        #![trigger before.contains((c, k1)), after.contains((c, k2))]
        distinct_clients(after) && before.contains((c, k1)) && after.contains((c, k2)) && k1 != k2
            implies !same_entries(before, after) by {
        if same_entries(before, after) {
            assert(after.contains((c, k1)));
            let i = choose|i: int| 0 <= i < after.len() && after[i] == (c, k1);
            let j = choose|j: int| 0 <= j < after.len() && after[j] == (c, k2);
            assert(i != j);
            if i < j {
                assert(after[i].0 != after[j].0);
            } else {
                assert(after[j].0 != after[i].0);
            }
        }
    }
    assert forall|c: u64, k: u32|
        #![trigger after.contains((c, k))]
        after.contains((c, k)) && (forall|k0: u32| !before.contains((c, k0))) implies !same_entries(before, after) by {
        if same_entries(before, after) {
            assert(before.contains((c, k)));
        }
    }
    if before.to_multiset() == after.to_multiset() && before_deleted.to_multiset() == after_deleted.to_multiset() {
        assert forall|e: (u64, u32)| before.contains(e) <==> after.contains(e) by {
            vstd::seq_lib::to_multiset_contains(before, e);
            vstd::seq_lib::to_multiset_contains(after, e);
        }
        assert forall|e: (u64, u32, u32)| before_deleted.contains(e) <==> after_deleted.contains(e) by {
            vstd::seq_lib::to_multiset_contains(before_deleted, e);
            vstd::seq_lib::to_multiset_contains(after_deleted, e);
        }
    }
}

/// Applies an update sent by a peer, and reads the document's state just
/// before and just after: the result is `Ok(true)` exactly when, between
/// those two readings, a client's clock moved, a client appeared, or the
/// delete set changed; `Ok(false)` when nothing did; an error when the update
/// could not be read or merged.
pub fn apply_update_observed(doc: &yrs::Doc, update: &[u8]) -> (r: (
    Result<bool, String>,
    (Vec<(u64, u32)>, Vec<(u64, u32, u32)>),
    (Vec<(u64, u32)>, Vec<(u64, u32, u32)>),
))
    ensures
        unreadable(update@) ==> r.0 is Err,
        r.0 matches Ok(changed) ==> changed == !(same_entries((r.1).0@, (r.2).0@) && same_entries(
            (r.1).1@,
            (r.2).1@,
        )),
{
    let before = doc_state(doc);
    match apply_update_bytes(doc, update) {
        Ok(()) => {
            let after = doc_state(doc);
            let changed = update_changed(&before.0, &before.1, &after.0, &after.1);
            (Ok(changed), before, after)
        },
        Err(err) => {
            let after = doc_state(doc);
            (Err(err), before, after)
        },
    }
}

/// Applies an update sent by a peer: `Ok(true)` when it changed the
/// document, so it is worth storing and relaying; `Ok(false)` when it did
/// not; an error when the update could not be read or merged, always so for
/// bytes that cannot start a Yjs message. What changed is judged as
/// [`apply_update_observed`] says, on the document's state read before and
/// after.
pub fn apply_update(doc: &yrs::Doc, update: &[u8]) -> (r: Result<bool, String>)
    ensures
        unreadable(update@) ==> r is Err,
{
    apply_update_observed(doc, update).0
}

/// What the document holds that a peer with the given state vector lacks, as
/// an update to send it; an error when the state vector cannot be read.
pub fn diff(doc: &yrs::Doc, peer_state_vector: &[u8]) -> (r: Result<Vec<u8>, String>)
    ensures
        unreadable(peer_state_vector@) ==> r is Err,
{
    encode_diff_bytes(doc, peer_state_vector)
}

/// The document's state vector, sent to a peer on connect so it knows what to
/// send back.
pub fn state_vector(doc: &yrs::Doc) -> Vec<u8> {
    encode_state_vector(doc)
}

/// The whole document as a single update, to store in place of its log.
pub fn snapshot(doc: &yrs::Doc) -> Vec<u8> {
    encode_whole(doc)
}

/// Rebuilds a document by applying the stored updates in order, stopping at
/// the first that cannot be read or merged. Every logged update is handed to
/// `yrs`: one that cannot start a Yjs message, anywhere in the log, fails the
/// replay.
pub fn replay(updates: &Vec<Vec<u8>>) -> (r: Result<yrs::Doc, String>)
    ensures
        updates@.len() == 0 ==> r is Ok,
        (exists|i: int| 0 <= i < updates@.len() && unreadable(#[trigger] updates@[i]@)) ==> r is Err,
{
    let doc = new_doc();
    let mut i: usize = 0;
    while i < updates.len()
        invariant
            i <= updates.len(),
            forall|j: int| 0 <= j < i ==> !unreadable(#[trigger] updates@[j]@),
        decreases updates.len() - i,
    {
        match apply_update_bytes(&doc, updates[i].as_slice()) {
            Ok(()) => {},
            Err(err) => {
                return Err(err);
            },
        }
        i += 1;
    }
    Ok(doc)
}

// ---------------------------------------------------------------------------
// Reading a document out
// ---------------------------------------------------------------------------

/// The document's XML tree: the children of its root fragment.
pub fn xml_tree(doc: &yrs::Doc) -> Vec<XmlNode> {
    xml_children(doc, ROOT)
}

/// The document's text, newline-separated, as [`xml_plain_text`] reads its
/// XML tree.
pub fn plain_text(doc: &yrs::Doc) -> (r: String)
    ensures
        exists|nodes: Seq<XmlNode>| r@ == #[trigger] tidy_text(walk_xml_all(nodes)),
{
    let nodes = xml_tree(doc);
    let r = xml_plain_text(&nodes);
    assert(r@ == tidy_text(walk_xml_all(nodes@)));
    r
}

/// The document's collaborative title, trimmed.
pub fn title(doc: &yrs::Doc) -> (t: String)
    ensures
        exists|raw: Seq<char>| t@ == #[trigger] trim(raw),
{
    let raw = text_content(doc, TITLE);
    let t = document_title(raw.as_str());
    assert(t@ == trim(raw@));
    t
}

// ---------------------------------------------------------------------------
// Legacy notes
// ---------------------------------------------------------------------------

/// What a note written before the Yjs migration becomes: a paragraph per
/// line of its text, as `str::split('\n')` yields the lines, and its title
/// trimmed, when anything is left of it.
pub fn legacy_plan(body: &str, title: &str) -> (r: (Vec<String>, Option<String>))
    ensures
        r.0@.len() == split_nl(body@).len(),
        forall|i: int| 0 <= i < r.0@.len() ==> #[trigger] r.0@[i]@ == split_nl(body@)[i],
        match r.1 {
            Some(t) => t@ == trim(title@) && t@.len() > 0,
            None => trim(title@).len() == 0,
        },
{
    let paragraphs = legacy_paragraphs(body);
    let t = document_title(title);
    if to_chars(t.as_str()).len() == 0 {
        (paragraphs, None)
    } else {
        (paragraphs, Some(t))
    }
}

/// Rebuilds a document for a note written before the Yjs migration, as
/// [`legacy_plan`] lays it out: an empty line becomes an empty paragraph,
/// any other a paragraph holding its text, and the title goes into the
/// title text only when there is one.
pub fn legacy_doc(body: &str, title: &str) -> yrs::Doc {
    let (paragraphs, title) = legacy_plan(body, title);
    let doc = new_doc();
    let mut i: usize = 0;
    while i < paragraphs.len()
        invariant
            i <= paragraphs.len(),
        decreases paragraphs.len() - i,
    {
        if to_chars(paragraphs[i].as_str()).len() == 0 {
            push_paragraph(&doc, ROOT);
        } else {
            push_paragraph_text(&doc, ROOT, paragraphs[i].as_str());
        }
        i += 1;
    }
    if let Some(t) = title {
        insert_title(&doc, TITLE, t.as_str());
    }
    doc
}

} // verus!
