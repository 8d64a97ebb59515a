//! Deriving plain text from a note's body.
//!
//! The server never renders notes, but it needs their text: for the list
//! preview, for the command palette, and for the title. Two shapes of input
//! arrive here. [`plain_text`] walks a TipTap JSON document and
//! [`xml_plain_text`] walks the Yjs XML tree the server materializes; both share
//! [`is_block`] and [`tidy`], so the two cannot disagree about where lines end.

use vstd::prelude::*;
use crate::chars::{split_on, split_chars, trim, trim_end, to_chars, from_chars, extend_chars, trim_end_chars, trim_chars, slice_chars, str_eq};
use crate::json::{Json, key_index, find_key, lemma_key_index_bounds};

verus! {

// ---------------------------------------------------------------------------
// Lines
// ---------------------------------------------------------------------------

/// The pieces of `s` between newlines, as `str::split('\n')` yields them: a
/// string ending in a newline has an empty last piece.
pub open spec fn split_nl(s: Seq<char>) -> Seq<Seq<char>> {
    split_on(s, '\n')
}

/// The lines of a text that hold something: each piece with its trailing
/// whitespace removed, blank ones dropped.
pub open spec fn keep_lines(ls: Seq<Seq<char>>) -> Seq<Seq<char>>
    decreases ls.len(),
{
    if ls.len() == 0 {
        Seq::empty()
    } else {
        let r = keep_lines(ls.drop_last());
        let t = trim_end(ls.last());
        if t.len() > 0 {
            r.push(t)
        } else {
            r
        }
    }
}

/// Lines joined with a newline between each two.
pub open spec fn join_nl(ls: Seq<Seq<char>>) -> Seq<char>
    decreases ls.len(),
{
    if ls.len() == 0 {
        Seq::empty()
    } else if ls.len() == 1 {
        ls[0]
    } else {
        join_nl(ls.drop_last()) + seq!['\n'] + ls.last()
    }
}

/// What [`tidy`] makes of `s`: its non-blank lines, trailing whitespace
/// removed, one newline between each two.
///
/// `str::lines` differs from a split on `'\n'` only in a `'\r'` before each
/// newline and in a last empty line; trimming the end of every line and
/// dropping the empty ones removes both differences.
pub open spec fn tidy_text(s: Seq<char>) -> Seq<char> {
    join_nl(keep_lines(split_nl(s)))
}

pub open spec fn free_of(s: Seq<char>, c: char) -> bool {
    forall|j: int| 0 <= j < s.len() ==> #[trigger] s[j] != c
}

proof fn lemma_split_append(x: Seq<char>, y: Seq<char>, sep: char)
    requires
        free_of(y, sep),
    ensures
        split_on(x + y, sep) == split_on(x, sep).update(
            split_on(x, sep).len() - 1,
            split_on(x, sep).last() + y,
        ),
    decreases y.len(),
{
    crate::chars::lemma_split_on_nonempty(x, sep);
    let sx = split_on(x, sep);
    if y.len() == 0 {
        assert(x + y == x);
        assert(sx.last() + y == sx.last());
        assert(sx.update(sx.len() - 1, sx.last()) == sx);
    } else {
        let y0 = y.drop_last();
        assert(free_of(y0, sep)) by {
            assert forall|j: int| 0 <= j < y0.len() implies #[trigger] y0[j] != sep by {
                assert(y0[j] == y[j]);
            }
        }
        lemma_split_append(x, y0, sep);
        assert((x + y).drop_last() == x + y0);
        assert((x + y).last() == y.last());
        assert(y.last() != sep);
        assert((sx.last() + y0).push(y.last()) == sx.last() + y);
    }
}

/// Lines without newlines, joined and split again, come back as they were.
proof fn lemma_split_join(ls: Seq<Seq<char>>)
    requires
        ls.len() >= 1,
        forall|i: int| 0 <= i < ls.len() ==> free_of(#[trigger] ls[i], '\n'),
    ensures
        split_nl(join_nl(ls)) == ls,
    decreases ls.len(),
{
    if ls.len() == 1 {
        lemma_split_append(Seq::empty(), ls[0], '\n');
        assert(Seq::<char>::empty() + ls[0] == ls[0]);
        assert(split_nl(Seq::<char>::empty()) == seq![Seq::<char>::empty()]);
        assert(seq![Seq::<char>::empty()].update(0, Seq::<char>::empty() + ls[0]) == ls);
    } else {
        let front = ls.drop_last();
        assert forall|i: int| 0 <= i < front.len() implies free_of(#[trigger] front[i], '\n') by {
            assert(front[i] == ls[i]);
        }
        lemma_split_join(front);
        let x = join_nl(front).push('\n');
        assert(join_nl(ls) == x + ls.last());
        assert(x.drop_last() == join_nl(front));
        assert(split_nl(x) == front.push(Seq::<char>::empty()));
        assert(free_of(ls.last(), '\n'));
        lemma_split_append(x, ls.last(), '\n');
        assert(Seq::<char>::empty() + ls.last() == ls.last());
        assert(front.push(Seq::<char>::empty()).update(front.len() as int, ls.last()) == ls);
    }
}

/// Lines that are already kept lines are kept as they are.
proof fn lemma_keep_kept(ls: Seq<Seq<char>>)
    requires
        forall|i: int| 0 <= i < ls.len() ==> (#[trigger] ls[i]).len() > 0 && trim_end(ls[i]) == ls[i],
    ensures
        keep_lines(ls) == ls,
    decreases ls.len(),
{
    if ls.len() > 0 {
        let front = ls.drop_last();
        assert forall|i: int| 0 <= i < front.len() implies (#[trigger] front[i]).len() > 0 && trim_end(front[i]) == front[i] by {
            assert(front[i] == ls[i]);
        }
        lemma_keep_kept(front);
        assert(ls.last() == ls[ls.len() - 1]);
        assert(front.push(ls.last()) == ls);
    }
}

/// What is kept is non-blank, has no trailing whitespace, and holds no
/// newline when the pieces held none.
proof fn lemma_kept_shape(ls: Seq<Seq<char>>)
    requires
        forall|i: int| 0 <= i < ls.len() ==> free_of(#[trigger] ls[i], '\n'),
    ensures
        forall|i: int|
            0 <= i < keep_lines(ls).len() ==> (#[trigger] keep_lines(ls)[i]).len() > 0
                && trim_end(keep_lines(ls)[i]) == keep_lines(ls)[i] && free_of(keep_lines(ls)[i], '\n'),
    decreases ls.len(),
{
    if ls.len() > 0 {
        let front = ls.drop_last();
        assert forall|i: int| 0 <= i < front.len() implies free_of(#[trigger] front[i], '\n') by {
            assert(front[i] == ls[i]);
        }
        lemma_kept_shape(front);
        let t = trim_end(ls.last());
        crate::chars::lemma_trim_end_is_prefix(ls.last());
        crate::chars::lemma_trim_end_idempotent(ls.last());
        assert(ls.last() == ls[ls.len() - 1]);
        assert(free_of(t, '\n')) by {
            assert forall|j: int| 0 <= j < t.len() implies #[trigger] t[j] != '\n' by {
                assert(t[j] == ls.last()[j]);
            }
        }
        let r = keep_lines(front);
        assert forall|i: int| 0 <= i < keep_lines(ls).len() implies (#[trigger] keep_lines(ls)[i]).len() > 0
            && trim_end(keep_lines(ls)[i]) == keep_lines(ls)[i] && free_of(keep_lines(ls)[i], '\n') by {
            if i < r.len() {
                assert(keep_lines(ls)[i] == r[i]);
            } else {
                assert(keep_lines(ls)[i] == t);
            }
        }
    }
}

/// Tidying tidy text changes nothing: what [`tidy`] produces has no blank
/// line, no trailing whitespace on any line, and no newline at either end.
pub proof fn tidy_is_idempotent(s: Seq<char>)
    ensures
        tidy_text(tidy_text(s)) == tidy_text(s),
{
    let pieces = split_nl(s);
    crate::chars::lemma_split_on_pieces(s, '\n');
    assert forall|i: int| 0 <= i < pieces.len() implies free_of(#[trigger] pieces[i], '\n') by {
        assert forall|j: int| 0 <= j < pieces[i].len() implies #[trigger] pieces[i][j] != '\n' by {
            assert(split_on(s, '\n')[i][j] != '\n');
        }
    }
    let kept = keep_lines(pieces);
    lemma_kept_shape(pieces);
    if kept.len() == 0 {
        assert(tidy_text(s) == Seq::<char>::empty());
        assert(split_nl(Seq::<char>::empty()) == seq![Seq::<char>::empty()]);
        let e = seq![Seq::<char>::empty()];
        assert(e.drop_last() == Seq::<Seq<char>>::empty());
        assert(e.last() == Seq::<char>::empty());
        assert(trim_end(Seq::<char>::empty()) == Seq::<char>::empty());
        assert(keep_lines(Seq::<Seq<char>>::empty()) == Seq::<Seq<char>>::empty());
        assert(keep_lines(e) == Seq::<Seq<char>>::empty());
    } else {
        assert forall|i: int| 0 <= i < kept.len() implies free_of(#[trigger] kept[i], '\n') by {}
        lemma_split_join(kept);
        lemma_keep_kept(kept);
    }
}

/// Splits on every `'\n'`, as `str::split('\n')` does.
pub fn split_lines(v: &Vec<char>) -> (r: Vec<Vec<char>>)
    ensures
        r@.len() == split_nl(v@).len(),
        forall|i: int| 0 <= i < r@.len() ==> #[trigger] r@[i]@ == split_nl(v@)[i],
{
    split_chars(v, '\n')
}

/// Collapses the blank lines that nested block nodes inevitably produce.
pub fn tidy(raw: &str) -> (r: String)
    ensures
        r@ == tidy_text(raw@),
{
    from_chars(&tidy_chars(&to_chars(raw)))
}

pub fn tidy_chars(v: &Vec<char>) -> (r: Vec<char>)
    ensures
        r@ == tidy_text(v@),
{
    let lines = split_lines(v);
    let ghost ls = split_nl(v@);
    let mut out: Vec<char> = Vec::new();
    let mut kept: usize = 0;
    let mut j: usize = 0;
    assert(ls.take(0) == Seq::<Seq<char>>::empty());
    while j < lines.len()
        invariant
            j <= lines@.len() == ls.len(),
            forall|i: int| 0 <= i < lines@.len() ==> #[trigger] lines@[i]@ == ls[i],
            kept == keep_lines(ls.take(j as int)).len(),
            kept <= j,
            out@ == join_nl(keep_lines(ls.take(j as int))),
        decreases lines@.len() - j,
    {
        let ghost prev = keep_lines(ls.take(j as int));
        assert(ls.take(j + 1).drop_last() == ls.take(j as int));
        assert(ls.take(j + 1).last() == ls[j as int]);
        let t = trim_end_chars(&lines[j]);
        if t.len() > 0 {
            if kept > 0 {
                out.push('\n');
            }
            extend_chars(&mut out, &t);
            proof {
                let now = prev.push(t@);
                assert(now.drop_last() == prev);
                if kept > 0 {
                    assert(join_nl(now) == join_nl(prev) + seq!['\n'] + t@);
                } else {
                    assert(join_nl(now) == t@);
                }
            }
            kept += 1;
        }
        j += 1;
    }
    assert(ls.take(lines@.len() as int) == ls);
    out
}

// ---------------------------------------------------------------------------
// Block nodes
// ---------------------------------------------------------------------------

/// Node types that end a line of text.
pub open spec fn block_type(t: Seq<char>) -> bool {
    ||| t == "paragraph"@
    ||| t == "heading"@
    ||| t == "blockquote"@
    ||| t == "codeBlock"@
    ||| t == "listItem"@
    ||| t == "bulletList"@
    ||| t == "orderedList"@
    ||| t == "taskItem"@
    ||| t == "horizontalRule"@
}

/// Every TipTap block node ends a line: paragraphs, headings, quotes, code
/// blocks, list items and lists, task items and rules. The inline text node,
/// the hard break (a line end of its own) and the document do not.
pub proof fn block_nodes_end_lines()
    ensures
        block_type("paragraph"@),
        block_type("heading"@),
        block_type("blockquote"@),
        block_type("codeBlock"@),
        block_type("listItem"@),
        block_type("bulletList"@),
        block_type("orderedList"@),
        block_type("taskItem"@),
        block_type("horizontalRule"@),
        !block_type("text"@),
        !block_type("doc"@),
        !block_type("hardBreak"@),
{
    lemma_literals();
    reveal_strlit("hardBreak");
    reveal_strlit("paragraph");
    reveal_strlit("heading");
    reveal_strlit("blockquote");
    reveal_strlit("codeBlock");
    reveal_strlit("listItem");
    reveal_strlit("bulletList");
    reveal_strlit("orderedList");
    reveal_strlit("taskItem");
    reveal_strlit("horizontalRule");
    assert("hardBreak"@[0] != "paragraph"@[0]);
    assert("hardBreak"@.len() != "heading"@.len());
    assert("hardBreak"@[0] != "blockquote"@[0]);
    assert("hardBreak"@[0] != "codeBlock"@[0]);
    assert("hardBreak"@.len() != "listItem"@.len());
    assert("hardBreak"@[0] != "bulletList"@[0]);
    assert("hardBreak"@.len() != "orderedList"@.len());
    assert("hardBreak"@.len() != "taskItem"@.len());
    assert("hardBreak"@.len() != "horizontalRule"@.len());
}

pub fn is_block(node_type: &str) -> (b: bool)
    ensures
        b == block_type(node_type@),
{
    str_eq(node_type, "paragraph") || str_eq(node_type, "heading") || str_eq(
        node_type,
        "blockquote",
    ) || str_eq(node_type, "codeBlock") || str_eq(node_type, "listItem") || str_eq(
        node_type,
        "bulletList",
    ) || str_eq(node_type, "orderedList") || str_eq(node_type, "taskItem") || str_eq(
        node_type,
        "horizontalRule",
    )
}

// ---------------------------------------------------------------------------
// Walking a TipTap JSON document
// ---------------------------------------------------------------------------

/// The string value of the member named `key`, or nothing when it is missing
/// or is not a string.
pub open spec fn str_member(entries: Seq<(String, Json)>, key: Seq<char>) -> Option<Seq<char>> {
    let i = key_index(entries, key);
    if 0 <= i < entries.len() {
        match entries[i].1 {
            Json::String(s) => Some(s@),
            _ => None,
        }
    } else {
        None
    }
}

/// The text a JSON node contributes before tidying: text leaves in document
/// order, a newline for a hard break and after every block node.
pub open spec fn walk_json(node: Json) -> Seq<char>
    decreases node,
{
    match node {
        Json::Array(items) => walk_json_all(items@),
        Json::Object(entries) => {
            let t = match str_member(entries@, "type"@) {
                Some(t) => t,
                None => Seq::empty(),
            };
            if t == "hardBreak"@ {
                seq!['\n']
            } else {
                let text = match str_member(entries@, "text"@) {
                    Some(x) => x,
                    None => Seq::empty(),
                };
                let i = key_index(entries@, "content"@);
                let content = if 0 <= i < entries@.len() {
                    walk_json(entries@[i].1)
                } else {
                    Seq::empty()
                };
                text + content + if block_type(t) {
                    seq!['\n']
                } else {
                    Seq::empty()
                }
            }
        },
        _ => Seq::empty(),
    }
}

pub open spec fn walk_json_all(items: Seq<Json>) -> Seq<char>
    decreases items,
{
    if items.len() == 0 {
        Seq::empty()
    } else {
        walk_json_all(items.drop_last()) + walk_json(items.last())
    }
}

/// How the JSON walk reads a document: an array gives its items' text one
/// after another, a hard break gives one newline whatever else it carries,
/// and a string, number, boolean or null gives nothing.
pub proof fn json_walk_shape(node: Json)
    ensures
        node matches Json::Array(items) ==> walk_json(node) == walk_json_all(items@),
        node matches Json::Object(entries) && str_member(entries@, "type"@) == Some("hardBreak"@) ==> walk_json(node)
            == seq!['\n'],
        node is Null || node is Bool || node is Number || node is String ==> walk_json(node) == Seq::<char>::empty(),
        forall|xs: Seq<Json>, y: Json| #[trigger] walk_json_all(xs.push(y)) == walk_json_all(xs) + walk_json(y),
{
    assert forall|xs: Seq<Json>, y: Json| #[trigger] walk_json_all(xs.push(y)) == walk_json_all(xs) + walk_json(y) by {
        assert(xs.push(y).drop_last() == xs);
    }
}

/// The string value of a member, if it is one.
fn member_str<'a>(entries: &'a Vec<(String, Json)>, key: &str) -> (r: Option<&'a String>)
    ensures
        match r {
            Some(s) => str_member(entries@, key@) == Some(s@),
            None => str_member(entries@, key@) is None,
        },
{
    proof {
        lemma_key_index_bounds(entries@, key@);
    }
    match find_key(entries, key) {
        Some(i) => match &entries[i].1 {
            Json::String(s) => Some(s),
            _ => None,
        },
        None => None,
    }
}

/// Appends the text a JSON node contributes, as [`walk_json`] reads it;
/// nothing already in `out` changes.
pub fn walk(node: &Json, out: &mut Vec<char>)
    ensures
        final(out)@ == old(out)@ + walk_json(*node),
    decreases node,
{
    match node {
        Json::Array(items) => {
            let mut i: usize = 0;
            assert(items@.take(0) == Seq::<Json>::empty());
            while i < items.len()
                invariant
                    i <= items.len(),
                    *node == Json::Array(*items),
                    out@ == old(out)@ + walk_json_all(items@.take(i as int)),
                decreases items.len() - i,
            {
                assert(items@.take(i + 1).drop_last() == items@.take(i as int));
                assert(items@.take(i + 1).last() == items@[i as int]);
                proof {
                    assert((*node)->Array_0 == *items);
                    assert(decreases_to!(*node => (*node)->Array_0));
                    assert(decreases_to!(*items => items@));
                    assert(decreases_to!(items@ => items@[i as int]));
                    assert(decreases_to!(*node => items@[i as int]));
                }
                walk(&items[i], out);
                i += 1;
            }
            assert(items@.take(items.len() as int) == items@);
        },
        Json::Object(entries) => {
            let ty = member_str(entries, "type");
            let t = match ty {
                Some(s) => to_chars(s.as_str()),
                None => Vec::new(),
            };
            if chars_is(&t, "hardBreak") {
                out.push('\n');
                return;
            }
            if let Some(text) = member_str(entries, "text") {
                extend_chars(out, &to_chars(text.as_str()));
            }
            match find_key(entries, "content") {
                Some(i) => {
                    proof {
                        lemma_key_index_bounds(entries@, "content"@);
                    }
                    walk(&entries[i].1, out);
                },
                None => {},
            }
            if is_block_chars(&t) {
                out.push('\n');
            }
        },
        _ => {},
    }
}

/// Whether the characters spell `lit`.
fn chars_is(v: &Vec<char>, lit: &str) -> (r: bool)
    ensures
        r == (v@ == lit@),
{
    crate::chars::chars_eq(v, &to_chars(lit))
}

fn is_block_chars(v: &Vec<char>) -> (b: bool)
    ensures
        b == block_type(v@),
{
    is_block(from_chars(v).as_str())
}

/// Flattens a ProseMirror JSON document into newline-separated plain text.
pub fn plain_text(doc: &Json) -> (r: String)
    ensures
        r@ == tidy_text(walk_json(*doc)),
{
    let mut out: Vec<char> = Vec::new();
    walk(doc, &mut out);
    assert(out@ == walk_json(*doc));
    from_chars(&tidy_chars(&out))
}

// ---------------------------------------------------------------------------
// Walking a Yjs XML tree
// ---------------------------------------------------------------------------

/// A node of the XML tree `y-prosemirror` keeps a ProseMirror document in:
/// text leaves, elements tagged with the node name, and nested fragments.
pub enum XmlNode {
    Text(String),
    Element(String, Vec<XmlNode>),
    Fragment(Vec<XmlNode>),
}

/// The text an XML node contributes before tidying, by the same rules as
/// [`walk_json`].
pub open spec fn walk_xml(node: XmlNode) -> Seq<char>
    decreases node,
{
    match node {
        XmlNode::Text(s) => s@,
        XmlNode::Element(tag, children) => {
            if tag@ == "hardBreak"@ {
                seq!['\n']
            } else {
                walk_xml_all(children@) + if block_type(tag@) {
                    seq!['\n']
                } else {
                    Seq::empty()
                }
            }
        },
        XmlNode::Fragment(children) => walk_xml_all(children@),
    }
}

pub open spec fn walk_xml_all(items: Seq<XmlNode>) -> Seq<char>
    decreases items,
{
    if items.len() == 0 {
        Seq::empty()
    } else {
        walk_xml_all(items.drop_last()) + walk_xml(items.last())
    }
}

fn walk_xml_children(children: &Vec<XmlNode>, out: &mut Vec<char>)
    ensures
        final(out)@ == old(out)@ + walk_xml_all(children@),
    decreases children, 1nat,
{
    let mut i: usize = 0;
    assert(children@.take(0) == Seq::<XmlNode>::empty());
    while i < children.len()
        invariant
            i <= children.len(),
            out@ == old(out)@ + walk_xml_all(children@.take(i as int)),
        decreases children.len() - i,
    {
        assert(children@.take(i + 1).drop_last() == children@.take(i as int));
        assert(children@.take(i + 1).last() == children@[i as int]);
        proof {
            assert(decreases_to!(*children => children@));
            assert(decreases_to!(children@ => children@[i as int]));
        }
        walk_xml_node(&children[i], out);
        i += 1;
    }
    assert(children@.take(children.len() as int) == children@);
}

fn walk_xml_node(node: &XmlNode, out: &mut Vec<char>)
    ensures
        final(out)@ == old(out)@ + walk_xml(*node),
    decreases node, 0nat,
{
    match node {
        XmlNode::Text(s) => {
            extend_chars(out, &to_chars(s.as_str()));
        },
        XmlNode::Element(tag, children) => {
            let t = to_chars(tag.as_str());
            if chars_is(&t, "hardBreak") {
                out.push('\n');
                return;
            }
            proof {
                assert((*node)->Element_1 == *children);
                assert(decreases_to!(*node => (*node)->Element_1));
            }
            walk_xml_children(children, out);
            if is_block_chars(&t) {
                out.push('\n');
            }
        },
        XmlNode::Fragment(children) => {
            proof {
                assert((*node)->Fragment_0 == *children);
                assert(decreases_to!(*node => (*node)->Fragment_0));
            }
            walk_xml_children(children, out);
        },
    }
}

/// Newline-separated plain text of a document's root fragment, matching what
/// [`plain_text`] produces for the equivalent JSON document.
pub fn xml_plain_text(root: &Vec<XmlNode>) -> (r: String)
    ensures
        r@ == tidy_text(walk_xml_all(root@)),
{
    let mut out: Vec<char> = Vec::new();
    walk_xml_children(root, &mut out);
    assert(out@ == walk_xml_all(root@));
    from_chars(&tidy_chars(&out))
}

// ---------------------------------------------------------------------------
// The two walks agree
// ---------------------------------------------------------------------------

/// `j` is the TipTap JSON form of the XML node `x`: a text leaf is
/// `{"type": "text", "text": ..}`, an element `{"type": tag, "content": [..]}`
/// and a fragment the array of its children.
pub open spec fn json_form(x: XmlNode, j: Json) -> bool
    decreases x,
{
    match x {
        XmlNode::Text(s) => match j {
            Json::Object(es) => {
                &&& es@.len() == 2
                &&& es@[0].0@ == "type"@
                &&& es@[0].1 matches Json::String(t) && t@ == "text"@
                &&& es@[1].0@ == "text"@
                &&& es@[1].1 matches Json::String(u) && u@ == s@
            },
            _ => false,
        },
        XmlNode::Element(tag, children) => match j {
            Json::Object(es) => {
                &&& es@.len() == 2
                &&& es@[0].0@ == "type"@
                &&& es@[0].1 matches Json::String(t) && t@ == tag@
                &&& es@[1].0@ == "content"@
                &&& match es@[1].1 {
                    Json::Array(items) => json_forms(children@, items@),
                    _ => false,
                }
            },
            _ => false,
        },
        XmlNode::Fragment(children) => match j {
            Json::Array(items) => json_forms(children@, items@),
            _ => false,
        },
    }
}

pub open spec fn json_forms(xs: Seq<XmlNode>, js: Seq<Json>) -> bool
    decreases xs,
{
    if xs.len() == 0 {
        js.len() == 0
    } else {
        &&& js.len() == xs.len()
        &&& json_forms(xs.drop_last(), js.drop_last())
        &&& json_form(xs.last(), js.last())
    }
}

/// `doc` is `{"type": "doc", "content": [..]}` holding the JSON forms of the
/// root fragment's children.
pub open spec fn doc_form(root: Seq<XmlNode>, doc: Json) -> bool {
    match doc {
        Json::Object(es) => {
            &&& es@.len() == 2
            &&& es@[0].0@ == "type"@
            &&& es@[0].1 matches Json::String(t) && t@ == "doc"@
            &&& es@[1].0@ == "content"@
            &&& match es@[1].1 {
                Json::Array(items) => json_forms(root, items@),
                _ => false,
            }
        },
        _ => false,
    }
}

proof fn lemma_literals()
    ensures
        "type"@ != "text"@,
        "type"@ != "content"@,
        "text"@ != "content"@,
        "text"@ != "hardBreak"@,
        "doc"@ != "hardBreak"@,
        !block_type("text"@),
        !block_type("doc"@),
{
    reveal_strlit("type");
    reveal_strlit("text");
    reveal_strlit("content");
    reveal_strlit("hardBreak");
    reveal_strlit("doc");
    reveal_strlit("paragraph");
    reveal_strlit("heading");
    reveal_strlit("blockquote");
    reveal_strlit("codeBlock");
    reveal_strlit("listItem");
    reveal_strlit("bulletList");
    reveal_strlit("orderedList");
    reveal_strlit("taskItem");
    reveal_strlit("horizontalRule");
    assert("type"@[1] != "text"@[1]);
    assert("type"@.len() != "content"@.len());
    assert("text"@.len() != "content"@.len());
    assert("text"@.len() != "hardBreak"@.len());
    assert("doc"@.len() != "hardBreak"@.len());
    assert("text"@.len() != "paragraph"@.len());
    assert("text"@.len() != "heading"@.len());
    assert("text"@.len() != "blockquote"@.len());
    assert("text"@.len() != "codeBlock"@.len());
    assert("text"@.len() != "listItem"@.len());
    assert("text"@.len() != "bulletList"@.len());
    assert("text"@.len() != "orderedList"@.len());
    assert("text"@.len() != "taskItem"@.len());
    assert("text"@.len() != "horizontalRule"@.len());
    assert("doc"@.len() != "paragraph"@.len());
    assert("doc"@.len() != "heading"@.len());
    assert("doc"@.len() != "blockquote"@.len());
    assert("doc"@.len() != "codeBlock"@.len());
    assert("doc"@.len() != "listItem"@.len());
    assert("doc"@.len() != "bulletList"@.len());
    assert("doc"@.len() != "orderedList"@.len());
    assert("doc"@.len() != "taskItem"@.len());
    assert("doc"@.len() != "horizontalRule"@.len());
}

/// Member lookups in a two-member object.
proof fn lemma_two_members(es: Seq<(String, Json)>, k: Seq<char>)
    requires
        es.len() == 2,
    ensures
        es[0].0@ == k ==> key_index(es, k) == 0,
        es[0].0@ != k && es[1].0@ == k ==> key_index(es, k) == 1,
        es[0].0@ != k && es[1].0@ != k ==> key_index(es, k) == -1,
{
    let rest = es.drop_first();
    assert(rest[0] == es[1]);
    assert(rest.drop_first().len() == 0);
    assert(key_index(rest.drop_first(), k) == -1);
    assert(key_index(rest, k) == if rest[0].0@ == k { 0int } else { -1int });
}

proof fn lemma_walks_agree(x: XmlNode, j: Json)
    requires
        json_form(x, j),
    ensures
        walk_json(j) == walk_xml(x),
    decreases x,
{
    lemma_literals();
    match x {
        XmlNode::Text(s) => {
            let es = j->Object_0@;
            lemma_two_members(es, "type"@);
            lemma_two_members(es, "text"@);
            lemma_two_members(es, "content"@);
            assert(walk_json(j) == s@ + Seq::<char>::empty() + Seq::<char>::empty());
        },
        XmlNode::Element(tag, children) => {
            let es = j->Object_0@;
            lemma_two_members(es, "type"@);
            lemma_two_members(es, "text"@);
            lemma_two_members(es, "content"@);
            let items = es[1].1->Array_0;
            assert(decreases_to!(x => x->Element_1));
            lemma_walks_agree_all(children@, items@);
            if tag@ != "hardBreak"@ {
                assert(walk_json(es[1].1) == walk_json_all(items@));
                assert(walk_json(j) == Seq::<char>::empty() + walk_json_all(items@) + if block_type(tag@) {
                    seq!['\n']
                } else {
                    Seq::<char>::empty()
                });
            }
        },
        XmlNode::Fragment(children) => {
            assert(decreases_to!(x => x->Fragment_0));
            lemma_walks_agree_all(children@, j->Array_0@);
        },
    }
}

proof fn lemma_walks_agree_all(xs: Seq<XmlNode>, js: Seq<Json>)
    requires
        json_forms(xs, js),
    ensures
        walk_json_all(js) == walk_xml_all(xs),
    decreases xs,
{
    if xs.len() > 0 {
        lemma_walks_agree_all(xs.drop_last(), js.drop_last());
        lemma_walks_agree(xs.last(), js.last());
    }
}

/// A document flattens to the same text from its TipTap JSON as from the
/// Yjs XML tree the server keeps: the two walks cannot disagree about where
/// lines end.
pub proof fn json_and_xml_agree(root: Seq<XmlNode>, doc: Json)
    requires
        doc_form(root, doc),
    ensures
        tidy_text(walk_json(doc)) == tidy_text(walk_xml_all(root)),
{
    lemma_literals();
    let es = doc->Object_0@;
    lemma_two_members(es, "type"@);
    lemma_two_members(es, "text"@);
    lemma_two_members(es, "content"@);
    let items = es[1].1->Array_0;
    lemma_walks_agree_all(root, items@);
    assert(walk_json(es[1].1) == walk_json_all(items@));
    assert(walk_json(doc) == Seq::<char>::empty() + walk_json_all(items@) + Seq::<char>::empty());
}

// ---------------------------------------------------------------------------
// Titles and previews
// ---------------------------------------------------------------------------

/// `s` cut to `max` characters, with an ellipsis when anything was cut.
pub open spec fn truncated(s: Seq<char>, max: nat) -> Seq<char> {
    if s.len() <= max {
        s
    } else {
        s.take(max as int).push('…')
    }
}

/// The first line, trimmed, that has anything left in it.
pub open spec fn first_filled(ls: Seq<Seq<char>>) -> Option<Seq<char>>
    decreases ls.len(),
{
    if ls.len() == 0 {
        None
    } else if trim(ls[0]).len() > 0 {
        Some(trim(ls[0]))
    } else {
        first_filled(ls.drop_first())
    }
}

/// The title a note gets from its text: its first non-blank line, trimmed and
/// cut to 80 characters; nothing for a blank text.
pub open spec fn title_of(text: Seq<char>) -> Seq<char> {
    match first_filled(split_nl(text)) {
        Some(line) => truncated(line, 80),
        None => Seq::empty(),
    }
}

/// The preview a note gets from its text: newlines made spaces, trimmed, cut
/// to `max` characters.
pub open spec fn preview_of(text: Seq<char>, max: nat) -> Seq<char> {
    truncated(trim(text.map_values(|c: char| if c == '\n' { ' ' } else { c })), max)
}

/// The first filled line is one of the lines, trimmed.
proof fn lemma_first_filled_has_no_newline(ls: Seq<Seq<char>>)
    requires
        forall|i: int, j: int| 0 <= i < ls.len() && 0 <= j < ls[i].len() ==> #[trigger] ls[i][j] != '\n',
    ensures
        first_filled(ls) matches Some(l) ==> forall|j: int| 0 <= j < l.len() ==> #[trigger] l[j] != '\n',
    decreases ls.len(),
{
    if ls.len() > 0 {
        if trim(ls[0]).len() > 0 {
            let k = crate::chars::lemma_trim_offset(ls[0]);
            assert forall|j: int| 0 <= j < trim(ls[0]).len() implies #[trigger] trim(ls[0])[j] != '\n' by {
                assert(trim(ls[0])[j] == ls[0][k + j]);
            }
        } else {
            let rest = ls.drop_first();
            assert forall|i: int, j: int| 0 <= i < rest.len() && 0 <= j < rest[i].len() implies #[trigger] rest[i][j]
                != '\n' by {
                assert(rest[i] == ls[i + 1]);
            }
            lemma_first_filled_has_no_newline(rest);
        }
    }
}

/// What `truncated` keeps of a text with no newline has none either, and it
/// is at most `max` characters and an ellipsis.
proof fn lemma_truncated_has_no_newline(s: Seq<char>, max: nat)
    requires
        forall|j: int| 0 <= j < s.len() ==> #[trigger] s[j] != '\n',
    ensures
        forall|j: int| 0 <= j < truncated(s, max).len() ==> #[trigger] truncated(s, max)[j] != '\n',
        truncated(s, max).len() <= max + 1,
        s.len() <= max ==> truncated(s, max) == s,
{
    assert forall|j: int| 0 <= j < truncated(s, max).len() implies #[trigger] truncated(s, max)[j] != '\n' by {
        if s.len() > max && j < max {
            assert(truncated(s, max)[j] == s[j]);
        }
    }
}

/// A note's preview is a single line, whatever its text.
pub proof fn preview_is_single_line(text: Seq<char>, max: nat)
    ensures
        forall|i: int| 0 <= i < preview_of(text, max).len() ==> #[trigger] preview_of(text, max)[i] != '\n',
        preview_of(text, max).len() <= max + 1,
{
    let m = text.map_values(|c: char| if c == '\n' { ' ' } else { c });
    let k = crate::chars::lemma_trim_offset(m);
    let t = trim(m);
    assert forall|j: int| 0 <= j < t.len() implies #[trigger] t[j] != '\n' by {
        assert(t[j] == m[k + j]);
    }
    lemma_truncated_has_no_newline(t, max);
}

/// A note's title is its first non-blank line: a single line of at most 80
/// characters and an ellipsis.
pub proof fn title_is_single_line(text: Seq<char>)
    ensures
        forall|i: int| 0 <= i < title_of(text).len() ==> #[trigger] title_of(text)[i] != '\n',
        title_of(text).len() <= 81,
{
    crate::chars::lemma_split_on_pieces(text, '\n');
    lemma_first_filled_has_no_newline(split_nl(text));
    if let Some(line) = first_filled(split_nl(text)) {
        lemma_truncated_has_no_newline(line, 80);
    }
}

/// Truncates on a character boundary, never mid-codepoint; the notes are
/// mostly Chinese, where every character is multi-byte.
pub fn truncate_chars(s: &str, max_chars: usize) -> (r: String)
    ensures
        r@ == truncated(s@, max_chars as nat),
{
    let v = to_chars(s);
    if v.len() <= max_chars {
        return from_chars(&v);
    }
    let mut out = slice_chars(&v, 0, max_chars);
    out.push('…');
    assert(v@.subrange(0, max_chars as int) == v@.take(max_chars as int));
    from_chars(&out)
}

/// First non-empty line, for notes the user never titled.
pub fn derive_title(text: &str) -> (r: String)
    ensures
        r@ == title_of(text@),
{
    let v = to_chars(text);
    let lines = split_lines(&v);
    let ghost ls = split_nl(v@);
    let mut j: usize = 0;
    assert(ls.skip(0) == ls);
    while j < lines.len()
        invariant
            j <= lines@.len() == ls.len(),
            forall|i: int| 0 <= i < lines@.len() ==> #[trigger] lines@[i]@ == ls[i],
            ls == split_nl(text@),
            first_filled(ls) == first_filled(ls.skip(j as int)),
        decreases lines@.len() - j,
    {
        let t = trim_chars(&lines[j]);
        assert(ls.skip(j as int)[0] == ls[j as int]);
        if t.len() > 0 {
            assert(ls.skip(j as int).len() > 0);
            assert(first_filled(ls.skip(j as int)) == Some(t@));
            assert(title_of(text@) == truncated(t@, 80));
            let line = from_chars(&t);
            let r = truncate_chars(line.as_str(), 80);
            return r;
        }
        assert(ls.skip(j as int).drop_first() == ls.skip(j + 1));
        j += 1;
    }
    assert(ls.skip(j as int).len() == 0);
    String::new()
}

/// Leading text for the note list. Newlines become spaces so the preview stays
/// on one line in the UI.
pub fn preview(text: &str, max_chars: usize) -> (r: String)
    ensures
        r@ == preview_of(text@, max_chars as nat),
{
    let v = to_chars(text);
    let mut flat: Vec<char> = Vec::new();
    let mut i: usize = 0;
    let ghost mapped = v@.map_values(|c: char| if c == '\n' { ' ' } else { c });
    while i < v.len()
        invariant
            i <= v.len(),
            mapped == v@.map_values(|c: char| if c == '\n' { ' ' } else { c }),
            flat@ == mapped.take(i as int),
        decreases v.len() - i,
    {
        let c = v[i];
        flat.push(if c == '\n' { ' ' } else { c });
        assert(mapped.take(i + 1) == mapped.take(i as int).push(mapped[i as int]));
        i += 1;
    }
    assert(mapped.take(v.len() as int) == mapped);
    truncate_chars(from_chars(&trim_chars(&flat)).as_str(), max_chars)
}

} // verus!
