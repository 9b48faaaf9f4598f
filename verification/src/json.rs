//! The JSON document model handed to the decoder: a tree of plain values.
//! A JSON number is carried as its decimal token; callers that need machine
//! floats convert outside the decoder.

use vstd::prelude::*;

use crate::strutil::str_eq;

verus! {

/// A JSON document: a tree of null, boolean, number, string, array and
/// object nodes. Object entries keep the order in which the document listed
/// them; a key is looked up by its first occurrence.
#[derive(Debug)]
pub enum JsonValue {
    /// A `null` node.
    Null,
    /// A boolean node.
    Bool(bool),
    /// A number node, carried as its decimal token.
    Number(String),
    /// A string node.
    Str(String),
    /// An array node.
    Array(Vec<JsonValue>),
    /// An object node: key/value entries in document order.
    Object(Vec<(String, JsonValue)>),
}

/// The mathematical shape of a JSON document.
pub ghost enum JsonV {
    Null,
    Bool(bool),
    Number(Seq<char>),
    Str(Seq<char>),
    Array(Seq<JsonV>),
    Object(Seq<(Seq<char>, JsonV)>),
}

impl JsonValue {
    /// The mathematical value of this node.
    pub open spec fn deep(&self) -> JsonV
        decreases self,
    {
        match self {
            JsonValue::Null => JsonV::Null,
            JsonValue::Bool(b) => JsonV::Bool(*b),
            JsonValue::Number(s) => JsonV::Number(s@),
            JsonValue::Str(s) => JsonV::Str(s@),
            JsonValue::Array(v) => JsonV::Array(deep_elems(v@)),
            JsonValue::Object(v) => JsonV::Object(deep_entries(v@)),
        }
    }
}

/// The mathematical values of an array's elements.
pub open spec fn deep_elems(s: Seq<JsonValue>) -> Seq<JsonV>
    decreases s,
{
    if s.len() == 0 {
        Seq::empty()
    } else {
        deep_elems(s.drop_last()).push(s.last().deep())
    }
}

/// The mathematical values of an object's entries.
pub open spec fn deep_entries(s: Seq<(String, JsonValue)>) -> Seq<(Seq<char>, JsonV)>
    decreases s,
{
    if s.len() == 0 {
        Seq::empty()
    } else {
        deep_entries(s.drop_last()).push((s.last().0@, s.last().1.deep()))
    }
}

/// An array's deep view has one entry per element.
pub broadcast proof fn lemma_deep_elems_len(s: Seq<JsonValue>)
    ensures
        (#[trigger] deep_elems(s)).len() == s.len(),
    decreases s,
{
    if s.len() > 0 {
        lemma_deep_elems_len(s.drop_last());
    }
}

/// Indexing an array's deep view reaches the element's deep view.
pub broadcast proof fn lemma_deep_elems_index(s: Seq<JsonValue>, i: int)
    requires
        0 <= i < s.len(),
    ensures
        (#[trigger] deep_elems(s)[i]) == s[i].deep(),
    decreases s,
{
    lemma_deep_elems_len(s);
    if s.len() > 0 {
        lemma_deep_elems_len(s.drop_last());
        if i < s.len() - 1 {
            lemma_deep_elems_index(s.drop_last(), i);
        }
    }
}

/// An object's deep view has one entry per entry.
pub broadcast proof fn lemma_deep_entries_len(s: Seq<(String, JsonValue)>)
    ensures
        (#[trigger] deep_entries(s)).len() == s.len(),
    decreases s,
{
    if s.len() > 0 {
        lemma_deep_entries_len(s.drop_last());
    }
}

/// Indexing an object's deep view reaches the entry's key and value views.
pub broadcast proof fn lemma_deep_entries_index(s: Seq<(String, JsonValue)>, i: int)
    requires
        0 <= i < s.len(),
    ensures
        (#[trigger] deep_entries(s)[i]) == (s[i].0@, s[i].1.deep()),
    decreases s,
{
    lemma_deep_entries_len(s);
    if s.len() > 0 {
        lemma_deep_entries_len(s.drop_last());
        if i < s.len() - 1 {
            lemma_deep_entries_index(s.drop_last(), i);
        }
    }
}

// ---------------------------------------------------------------------------
// Lookup
// ---------------------------------------------------------------------------

/// The value under the first occurrence of key `k` among object entries.
pub open spec fn spec_entries_get(es: Seq<(Seq<char>, JsonV)>, k: Seq<char>) -> Option<JsonV>
    decreases es.len(),
{
    if es.len() == 0 {
        None
    } else if es[0].0 == k {
        Some(es[0].1)
    } else {
        spec_entries_get(es.drop_first(), k)
    }
}

/// The value under key `k`: `None` where the node is no object or has no
/// such key.
pub open spec fn spec_get(j: JsonV, k: Seq<char>) -> Option<JsonV> {
    match j {
        JsonV::Object(es) => spec_entries_get(es, k),
        _ => None,
    }
}

/// The value under key `k`, with `null` standing in where the node is no
/// object or has no such key — how the decoder consumes optional fields.
pub open spec fn spec_take(j: JsonV, k: Seq<char>) -> JsonV {
    match spec_get(j, k) {
        Some(v) => v,
        None => JsonV::Null,
    }
}

/// The characters of a string node, `None` for every other node.
pub open spec fn spec_as_str_v(j: JsonV) -> Option<Seq<char>> {
    match j {
        JsonV::Str(s) => Some(s),
        _ => None,
    }
}

/// The elements of an array node, `None` for every other node.
pub open spec fn spec_as_array_v(j: JsonV) -> Option<Seq<JsonV>> {
    match j {
        JsonV::Array(es) => Some(es),
        _ => None,
    }
}

/// The entries of an object node, `None` for every other node.
pub open spec fn spec_as_object_v(j: JsonV) -> Option<Seq<(Seq<char>, JsonV)>> {
    match j {
        JsonV::Object(es) => Some(es),
        _ => None,
    }
}

impl JsonValue {
    /// Look up `key` on an object node.
    pub fn obj_get<'a>(&'a self, key: &str) -> (r: Option<&'a JsonValue>)
        ensures
            match r {
                Some(v) => spec_get(self.deep(), key@) == Some(v.deep()),
                None => spec_get(self.deep(), key@) is None,
            },
    {
        broadcast use lemma_deep_entries_len, lemma_deep_entries_index;

        match self {
            JsonValue::Object(entries) => {
                let ghost all = deep_entries(entries@);
                let mut i: usize = 0;
                proof {
                    assert(all.skip(0) =~= all);
                }
                while i < entries.len()
                    invariant
                        i <= entries@.len(),
                        all == deep_entries(entries@),
                        all.len() == entries@.len(),
                        self.deep() == JsonV::Object(all),
                        spec_entries_get(all, key@) == spec_entries_get(
                            all.skip(i as int),
                            key@,
                        ),
                    decreases entries@.len() - i,
                {
                    proof {
                        lemma_deep_entries_index(entries@, i as int);
                        assert(all.skip(i as int)[0] == all[i as int]);
                    }
                    if str_eq(entries[i].0.as_str(), key) {
                        proof {
                            assert(all.skip(i as int).len() > 0);
                            assert(all.skip(i as int)[0].0 == key@);
                            assert(spec_entries_get(all.skip(i as int), key@) == Some(
                                all[i as int].1,
                            ));
                            assert(self.deep() == JsonV::Object(all));
                            assert(spec_get(self.deep(), key@) == Some(entries@[i as int].1.deep()));
                        }
                        return Some(&entries[i].1);
                    }
                    proof {
                        assert(all.skip(i as int).drop_first() =~= all.skip(i as int + 1));
                    }
                    i = i + 1;
                }
                proof {
                    assert(all.skip(entries@.len() as int) =~= Seq::<(Seq<char>, JsonV)>::empty());
                }
                None
            },
            _ => None,
        }
    }

    /// The characters of a string node.
    pub fn as_str<'a>(&'a self) -> (r: Option<&'a String>)
        ensures
            match r {
                Some(s) => self.deep() == JsonV::Str(s@),
                None => !(self.deep() is Str),
            },
    {
        match self {
            JsonValue::Str(s) => Some(s),
            _ => None,
        }
    }

    /// The elements of an array node.
    pub fn as_array<'a>(&'a self) -> (r: Option<&'a Vec<JsonValue>>)
        ensures
            match r {
                Some(v) => self.deep() == JsonV::Array(deep_elems(v@)),
                None => !(self.deep() is Array),
            },
    {
        match self {
            JsonValue::Array(v) => Some(v),
            _ => None,
        }
    }

    /// The entries of an object node.
    pub fn as_object<'a>(&'a self) -> (r: Option<&'a Vec<(String, JsonValue)>>)
        ensures
            match r {
                Some(v) => self.deep() == JsonV::Object(deep_entries(v@)),
                None => !(self.deep() is Object),
            },
    {
        match self {
            JsonValue::Object(v) => Some(v),
            _ => None,
        }
    }
}

} // verus!
