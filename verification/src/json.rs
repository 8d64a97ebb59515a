//! A JSON document as the text rules read it.
//!
//! TipTap hands the server ProseMirror documents as JSON. This is that tree,
//! holding what the text rules look at: strings, arrays and objects. A number
//! is kept as the text it was written with, since no rule reads one.

use vstd::prelude::*;
use crate::chars::{to_chars, chars_eq};

verus! {

pub enum Json {
    Null,
    Bool(bool),
    Number(String),
    String(String),
    Array(Vec<Json>),
    /// Members in document order. Keys are unique, as in any JSON object a
    /// parser hands over.
    Object(Vec<(String, Json)>),
}

/// Position of the first member named `key`, or -1 when there is none.
pub open spec fn key_index(entries: Seq<(String, Json)>, key: Seq<char>) -> int
    decreases entries.len(),
{
    if entries.len() == 0 {
        -1
    } else if entries[0].0@ == key {
        0
    } else {
        let r = key_index(entries.drop_first(), key);
        if r < 0 {
            -1
        } else {
            r + 1
        }
    }
}

pub proof fn lemma_key_index_bounds(entries: Seq<(String, Json)>, key: Seq<char>)
    ensures
        -1 <= key_index(entries, key) < entries.len(),
        key_index(entries, key) >= 0 ==> entries[key_index(entries, key)].0@ == key,
        key_index(entries, key) < 0 ==> forall|j: int|
            0 <= j < entries.len() ==> #[trigger] entries[j].0@ != key,
    decreases entries.len(),
{
    if entries.len() > 0 && entries[0].0@ != key {
        lemma_key_index_bounds(entries.drop_first(), key);
        if key_index(entries, key) < 0 {
            assert forall|j: int| 0 <= j < entries.len() implies #[trigger] entries[j].0@ != key by {
                if j > 0 {
                    assert(entries.drop_first()[j - 1] == entries[j]);
                }
            }
        }
    }
}

/// The first member found going left to right is the one `key_index` names.
pub proof fn lemma_key_index_found(entries: Seq<(String, Json)>, key: Seq<char>, i: int)
    requires
        0 <= i < entries.len(),
        entries[i].0@ == key,
        forall|j: int| 0 <= j < i ==> #[trigger] entries[j].0@ != key,
    ensures
        key_index(entries, key) == i,
    decreases i,
{
    if i > 0 {
        assert forall|j: int| 0 <= j < i - 1 implies #[trigger] entries.drop_first()[j].0@ != key by {
            assert(entries.drop_first()[j] == entries[j + 1]);
        }
        lemma_key_index_found(entries.drop_first(), key, i - 1);
    }
}

/// Looks up the first member named `key`.
pub fn find_key(entries: &Vec<(String, Json)>, key: &str) -> (r: Option<usize>)
    ensures
        match r {
            Some(i) => i == key_index(entries@, key@),
            None => key_index(entries@, key@) == -1,
        },
{
    let k = to_chars(key);
    let mut i: usize = 0;
    while i < entries.len()
        invariant
            i <= entries.len(),
            k@ == key@,
            forall|j: int| 0 <= j < i ==> #[trigger] entries@[j].0@ != key@,
        decreases entries.len() - i,
    {
        let name = to_chars(entries[i].0.as_str());
        if chars_eq(&name, &k) {
            proof {
                lemma_key_index_found(entries@, key@, i as int);
            }
            return Some(i);
        }
        i += 1;
    }
    proof {
        lemma_key_index_bounds(entries@, key@);
        if key_index(entries@, key@) >= 0 {
            let w = key_index(entries@, key@);
            assert(entries@[w].0@ != key@);
        }
    }
    None
}

} // verus!
