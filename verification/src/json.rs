//! JSON documents, as the Watchman protocol uses them.

use crate::text::same_text;
use vstd::prelude::*;

verus! {

/// A JSON document.
#[derive(Debug, PartialEq, Eq)]
pub enum Json {
    Null,
    Bool(bool),
    /// A number that a `u64` can hold.
    Number(u64),
    /// Any other number. No message of the protocol is read for one, so its
    /// value is not kept.
    OtherNumber,
    Text(String),
    Array(Vec<Json>),
    /// Names and values.
    Object(Vec<(String, Json)>),
}

/// What a JSON document says.
pub enum JsonTree {
    Null,
    Bool(bool),
    Number(nat),
    OtherNumber,
    Text(Seq<char>),
    Array(Seq<JsonTree>),
    Object(Seq<(Seq<char>, JsonTree)>),
}

impl Json {
    /// What the document says.
    pub open spec fn tree(self) -> JsonTree
        decreases self,
    {
        match self {
            Json::Null => JsonTree::Null,
            Json::Bool(b) => JsonTree::Bool(b),
            Json::Number(n) => JsonTree::Number(n as nat),
            Json::OtherNumber => JsonTree::OtherNumber,
            Json::Text(s) => JsonTree::Text(s@),
            Json::Array(items) => JsonTree::Array(
                Seq::new(
                    items@.len(),
                    |i: int|
                        if 0 <= i < items@.len() {
                            items@[i].tree()
                        } else {
                            JsonTree::Null
                        },
                ),
            ),
            Json::Object(entries) => JsonTree::Object(
                Seq::new(
                    entries@.len(),
                    |i: int|
                        if 0 <= i < entries@.len() {
                            (entries@[i].0@, entries@[i].1.tree())
                        } else {
                            (Seq::empty(), JsonTree::Null)
                        },
                ),
            ),
        }
    }
}

impl DeepView for Json {
    type V = JsonTree;

    open spec fn deep_view(&self) -> JsonTree {
        self.tree()
    }
}

/// What the documents of a row say.
pub open spec fn trees(items: Seq<Json>) -> Seq<JsonTree> {
    items.map_values(|json: Json| json.tree())
}

/// An array of documents.
pub fn json_array(items: Vec<Json>) -> (json: Json)
    ensures
        json.tree() == JsonTree::Array(trees(items@)),
{
    let json = Json::Array(items);
    assert(json.tree()->Array_0 =~= trees(items@));
    json
}

/// What the entries of an object say.
pub open spec fn entries_of(entries: Seq<(String, Json)>) -> Seq<(Seq<char>, JsonTree)> {
    entries.map_values(|entry: (String, Json)| (entry.0@, entry.1.tree()))
}

/// An object with these entries.
pub fn json_object(entries: Vec<(String, Json)>) -> (json: Json)
    ensures
        json.tree() == JsonTree::Object(entries_of(entries@)),
{
    let json = Json::Object(entries);
    assert(json.tree()->Object_0 =~= entries_of(entries@));
    json
}

/// The value of the first entry with this name.
pub open spec fn entry_of(entries: Seq<(Seq<char>, JsonTree)>, name: Seq<char>) -> Option<JsonTree>
    decreases entries.len(),
{
    if entries.len() == 0 {
        None
    } else if entries[0].0 == name {
        Some(entries[0].1)
    } else {
        entry_of(entries.drop_first(), name)
    }
}

impl JsonTree {
    /// The member of an object with this name.
    pub open spec fn member(self, name: Seq<char>) -> Option<JsonTree> {
        match self {
            JsonTree::Object(entries) => entry_of(entries, name),
            _ => None,
        }
    }

    /// The member with this name, where it is text.
    pub open spec fn text_member(self, name: Seq<char>) -> Option<Seq<char>> {
        match self.member(name) {
            Some(JsonTree::Text(s)) => Some(s),
            _ => None,
        }
    }

    /// The elements of the member with this name; none where it is no array.
    pub open spec fn array_member(self, name: Seq<char>) -> Seq<JsonTree> {
        match self.member(name) {
            Some(JsonTree::Array(items)) => items,
            _ => Seq::empty(),
        }
    }
}

impl Json {
    /// The member of an object with this name.
    pub fn get(&self, name: &str) -> (value: Option<&Json>)
        ensures
            value is Some <==> self.tree().member(name@) is Some,
            value matches Some(v) ==> self.tree().member(name@) == Some(v.tree()),
    {
        match self {
            Json::Object(entries) => {
                let ghost all = self.tree()->Object_0;
                let mut i: usize = 0;
                assert(all.skip(0) =~= all);
                while i < entries.len()
                    invariant
                        i <= entries@.len(),
                        all.len() == entries@.len(),
                        forall|j: int|
                            0 <= j < all.len() ==> #[trigger] all[j] == (
                                entries@[j].0@,
                                entries@[j].1.tree(),
                            ),
                        entry_of(all, name@) == entry_of(all.skip(i as int), name@),
                        self.tree().member(name@) == entry_of(all, name@),
                    decreases entries@.len() - i,
                {
                    assert(all.skip(i as int)[0] == all[i as int]);
                    if same_text(entries[i].0.as_str(), name) {
                        return Some(&entries[i].1);
                    }
                    assert(all.skip(i as int).drop_first() =~= all.skip(i + 1));
                    i = i + 1;
                }
                None
            },
            _ => None,
        }
    }

    /// The member with this name, where it is text.
    pub fn get_text(&self, name: &str) -> (value: Option<String>)
        ensures
            value.deep_view() == self.tree().text_member(name@),
    {
        match self.get(name) {
            Some(Json::Text(s)) => Some(s.clone()),
            _ => None,
        }
    }
}

/// A text as a document.
pub fn json_text(s: &str) -> (json: Json)
    ensures
        json.tree() == JsonTree::Text(s@),
{
    Json::Text(s.to_owned())
}

/// The texts of a list, as an array.
pub open spec fn text_array(list: Seq<Seq<char>>) -> JsonTree {
    JsonTree::Array(list.map_values(|s: Seq<char>| JsonTree::Text(s)))
}

/// The texts of a list, as an array.
pub fn json_texts(list: &Vec<String>) -> (json: Json)
    ensures
        json.tree() == text_array(list.deep_view()),
{
    let mut items: Vec<Json> = Vec::new();
    let mut i: usize = 0;
    while i < list.len()
        invariant
            i <= list@.len(),
            items@.len() == i,
            forall|j: int| 0 <= j < i ==> (#[trigger] items@[j]).tree() == JsonTree::Text(list@[j]@),
        decreases list@.len() - i,
    {
        items.push(json_text(list[i].as_str()));
        i = i + 1;
    }
    let json = Json::Array(items);
    assert(json.tree()->Array_0 =~= text_array(list.deep_view())->Array_0);
    json
}

} // verus!
