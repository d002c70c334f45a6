//! The document tree: the self-describing textual format, already split into
//! tags, keys and plain values.  The host turns document text into this tree;
//! the decoder walks it, driven by the registries.

use vstd::prelude::*;

verus! {

/// One key/value entry of a document table.
#[derive(Debug, PartialEq)]
pub struct DocEntry {
    pub key: String,
    pub value: DocValue,
}

/// A value of the document tree.
#[derive(Debug, PartialEq)]
pub enum DocValue {
    Unit,
    Bool(bool),
    Int(i64),
    Text(String),
    /// An explicit optional: `Some(v)` or `None`.
    Opt(Option<Box<DocValue>>),
    /// A sequence of values: `(a, b, c)` or `[a, b, c]`.
    List(Vec<DocValue>),
    /// A table of named values: `(key: value, ...)`.
    Dict(Vec<DocEntry>),
    /// A tagged value: `Name(payload)`.
    Tagged(String, Box<DocValue>),
}

impl DocValue {
    /// Whether the dictionary entries hold the given key.
    pub open spec fn dict_has_key(entries: Seq<DocEntry>, key: Seq<char>) -> bool {
        exists|i: int| 0 <= i < entries.len() && #[trigger] entries[i].key@ == key
    }

    /// The index of the first entry with the given key.
    pub open spec fn dict_key_index(entries: Seq<DocEntry>, key: Seq<char>) -> int
        decreases entries.len(),
    {
        if entries.len() == 0 {
            0
        } else if entries[0].key@ == key {
            0
        } else {
            1 + DocValue::dict_key_index(entries.drop_first(), key)
        }
    }

    /// The value of the first entry with the given key.
    pub open spec fn dict_value(entries: Seq<DocEntry>, key: Seq<char>) -> DocValue {
        entries[DocValue::dict_key_index(entries, key)].value
    }

    /// Whether two entries share a key.
    pub open spec fn dict_has_dup_key(entries: Seq<DocEntry>) -> bool {
        exists|i: int, j: int|
            0 <= i < j < entries.len() && #[trigger] entries[i].key@ == #[trigger] entries[j].key@
    }
}

/// Finds the first entry with the given key.
pub fn dict_find<'a>(entries: &'a Vec<DocEntry>, key: &String) -> (r: Option<&'a DocValue>)
    ensures
        match r {
            Some(v) => DocValue::dict_has_key(entries@, key@) && *v == DocValue::dict_value(
                entries@,
                key@,
            ),
            None => !DocValue::dict_has_key(entries@, key@),
        },
{
    let n = entries.len();
    let mut i: usize = 0;
    while i < n
        invariant
            n == entries@.len(),
            i <= n,
            forall|j: int| 0 <= j < i as int ==> #[trigger] entries@[j].key@ != key@,
        decreases n - i,
    {
        if entries[i].key == *key {
            proof {
                lemma_dict_key_index_first(entries@, key@, i as int);
            }
            return Some(&entries[i].value);
        }
        i = i + 1;
    }
    None
}

/// If entry `i` holds the key and no earlier entry does, `i` is the index the
/// lookup denotes.
pub proof fn lemma_dict_key_index_first(entries: Seq<DocEntry>, key: Seq<char>, i: int)
    requires
        0 <= i < entries.len(),
        entries[i].key@ == key,
        forall|j: int| 0 <= j < i ==> #[trigger] entries[j].key@ != key,
    ensures
        DocValue::dict_key_index(entries, key) == i,
    decreases i,
{
    if i > 0 {
        lemma_dict_key_index_first(entries.drop_first(), key, i - 1);
    }
}

/// The index the lookup denotes carries the key, whenever some entry does.
pub proof fn lemma_dict_key_index_holds(entries: Seq<DocEntry>, key: Seq<char>)
    requires
        DocValue::dict_has_key(entries, key),
    ensures
        0 <= DocValue::dict_key_index(entries, key) < entries.len(),
        entries[DocValue::dict_key_index(entries, key)].key@ == key,
    decreases entries.len(),
{
    if entries.len() > 0 && entries[0].key@ != key {
        assert(DocValue::dict_has_key(entries.drop_first(), key)) by {
            let w = choose|i: int| 0 <= i < entries.len() && #[trigger] entries[i].key@ == key;
            assert(entries.drop_first()[w - 1].key@ == key);
        }
        lemma_dict_key_index_holds(entries.drop_first(), key);
    }
}

} // verus!
