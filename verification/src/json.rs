//! Structured documents.
//!
//! Enrichment data and sighting context are self-describing documents. A
//! document is a tree of null, boolean, integer, decimal, text, list and
//! object nodes; a decimal number is kept as the text of its notation.

use crate::text::{str_eq, strs};
use vstd::prelude::*;

verus! {

/// A document node.
#[derive(Debug)]
pub enum JsonValue {
    Null,
    Bool(bool),
    Int(i64),
    /// A number that is not an integer, in decimal notation.
    Decimal(String),
    Text(String),
    List(Vec<JsonValue>),
    /// The members of an object, in the order in which they were set; no
    /// name occurs twice where the object was built with `set`.
    Object(Vec<(String, JsonValue)>),
}

/// What a document node holds.
pub enum JsonModel {
    Null,
    Bool(bool),
    Int(int),
    Decimal(Seq<char>),
    Text(Seq<char>),
    List(Seq<JsonModel>),
    Object(Seq<(Seq<char>, JsonModel)>),
}

impl View for JsonValue {
    type V = JsonModel;

    open spec fn view(&self) -> JsonModel
        decreases self,
    {
        match self {
            JsonValue::Null => JsonModel::Null,
            JsonValue::Bool(b) => JsonModel::Bool(*b),
            JsonValue::Int(i) => JsonModel::Int(*i as int),
            JsonValue::Decimal(s) => JsonModel::Decimal(s@),
            JsonValue::Text(s) => JsonModel::Text(s@),
            JsonValue::List(items) => JsonModel::List(
                items@.map_values(
                    |item: JsonValue|
                        if decreases_to!(self => item) {
                            item@
                        } else {
                            JsonModel::Null
                        },
                ),
            ),
            JsonValue::Object(members) => JsonModel::Object(
                members@.map_values(
                    |m: (String, JsonValue)|
                        (
                            m.0@,
                            if decreases_to!(self => m.1) {
                                m.1@
                            } else {
                                JsonModel::Null
                            },
                        ),
                ),
            ),
        }
    }
}

/// The items of a list as the model has them.
pub open spec fn items_view(items: Seq<JsonValue>) -> Seq<JsonModel> {
    Seq::new(items.len(), |i: int| items[i]@)
}

/// The view of a list holds the views of its items, and the view of an
/// object the names and the views of its members.
pub proof fn lemma_view(v: JsonValue)
    ensures
        v matches JsonValue::List(items) ==> v@ == JsonModel::List(items_view(items@)),
        v matches JsonValue::Object(members) ==> v@ == JsonModel::Object(members_view(members@)),
{
    match v {
        JsonValue::List(items) => {
            assert forall|k: int| 0 <= k < items@.len() implies decreases_to!(v => #[trigger] items@[k]) by {}
            assert(v@->List_0 =~= items_view(items@));
        },
        JsonValue::Object(members) => {
            assert forall|k: int| 0 <= k < members@.len() implies decreases_to!(v => (#[trigger] members@[k]).1) by {}
            assert(v@->Object_0 =~= members_view(members@));
        },
        _ => {},
    }
}

/// The members of an object as the model has them.
pub open spec fn members_view(members: Seq<(String, JsonValue)>) -> Seq<(Seq<char>, JsonModel)> {
    Seq::new(members.len(), |i: int| (members[i].0@, members[i].1@))
}

/// The first index at or after `from` whose member is named `key`;
/// `members.len()` if there is none.
pub open spec fn member_index(members: Seq<(Seq<char>, JsonModel)>, key: Seq<char>, from: int) -> int
    decreases members.len() - from,
{
    if from < 0 || from >= members.len() {
        members.len() as int
    } else if members[from].0 == key {
        from
    } else {
        member_index(members, key, from + 1)
    }
}

/// The value of the first member named `key`.
pub open spec fn member(members: Seq<(Seq<char>, JsonModel)>, key: Seq<char>) -> Option<JsonModel> {
    let i = member_index(members, key, 0);
    if i < members.len() {
        Some(members[i].1)
    } else {
        None
    }
}

/// The members after `key` is set to `value`: the first member of that name
/// is replaced, or a new member is added at the end.
pub open spec fn with_member(
    members: Seq<(Seq<char>, JsonModel)>,
    key: Seq<char>,
    value: JsonModel,
) -> Seq<(Seq<char>, JsonModel)> {
    let i = member_index(members, key, 0);
    if i < members.len() {
        members.update(i, (key, value))
    } else {
        members.push((key, value))
    }
}

impl JsonModel {
    /// The value of the member named `key`, where `self` is an object that
    /// has one.
    pub open spec fn get(self, key: Seq<char>) -> Option<JsonModel> {
        match self {
            JsonModel::Object(members) => member(members, key),
            _ => None,
        }
    }

    /// The text, or null where there is none.
    pub open spec fn opt_text(s: Option<Seq<char>>) -> JsonModel {
        match s {
            Some(t) => JsonModel::Text(t),
            None => JsonModel::Null,
        }
    }

    /// The integer, or null where there is none.
    pub open spec fn opt_int(n: Option<int>) -> JsonModel {
        match n {
            Some(i) => JsonModel::Int(i),
            None => JsonModel::Null,
        }
    }

    /// The boolean, or null where there is none.
    pub open spec fn opt_bool(b: Option<bool>) -> JsonModel {
        match b {
            Some(x) => JsonModel::Bool(x),
            None => JsonModel::Null,
        }
    }

    /// The decimal, or null where there is none.
    pub open spec fn opt_decimal(s: Option<Seq<char>>) -> JsonModel {
        match s {
            Some(t) => JsonModel::Decimal(t),
            None => JsonModel::Null,
        }
    }

    /// A list of texts.
    pub open spec fn texts(items: Seq<Seq<char>>) -> JsonModel {
        JsonModel::List(Seq::new(items.len(), |i: int| JsonModel::Text(items[i])))
    }
}

impl Clone for JsonValue {
    fn clone(&self) -> (r: Self)
        ensures
            r@ == self@,
        decreases self,
    {
        match self {
            JsonValue::Null => JsonValue::Null,
            JsonValue::Bool(b) => JsonValue::Bool(*b),
            JsonValue::Int(i) => JsonValue::Int(*i),
            JsonValue::Decimal(s) => JsonValue::Decimal(s.clone()),
            JsonValue::Text(s) => JsonValue::Text(s.clone()),
            JsonValue::List(items) => {
                assert(*self == JsonValue::List(*items));
                assert(forall|k: int|
                    0 <= k < items@.len() ==> decreases_to!(self => #[trigger] items@[k]));
                let mut out: Vec<JsonValue> = Vec::new();
                let mut i: usize = 0;
                while i < items.len()
                    invariant
                        i <= items.len(),
                        out@.len() == i,
                        forall|k: int|
                            0 <= k < items@.len() ==> decreases_to!(self => #[trigger] items@[k]),
                        forall|k: int| 0 <= k < i ==> (#[trigger] out@[k])@ == items@[k]@,
                    decreases items.len() - i,
                {
                    let item = items[i].clone();
                    out.push(item);
                    i = i + 1;
                }
                let r = JsonValue::List(out);
                proof {
                    lemma_view(r);
                    lemma_view(*self);
                    assert(items_view(out@) =~= items_view(items@));
                }
                r
            },
            JsonValue::Object(members) => {
                assert(*self == JsonValue::Object(*members));
                assert(forall|k: int|
                    0 <= k < members@.len() ==> decreases_to!(self => (#[trigger] members@[k]).1));
                let mut out: Vec<(String, JsonValue)> = Vec::new();
                let mut i: usize = 0;
                while i < members.len()
                    invariant
                        i <= members.len(),
                        out@.len() == i,
                        forall|k: int|
                            0 <= k < members@.len() ==> decreases_to!(self => (#[trigger] members@[k]).1),
                        forall|k: int|
                            0 <= k < i ==> (#[trigger] out@[k]).0@ == members@[k].0@ && out@[k].1@
                                == members@[k].1@,
                    decreases members.len() - i,
                {
                    let name = members[i].0.clone();
                    let value = members[i].1.clone();
                    out.push((name, value));
                    i = i + 1;
                }
                let r = JsonValue::Object(out);
                proof {
                    lemma_view(r);
                    lemma_view(*self);
                    assert(members_view(out@) =~= members_view(members@));
                }
                r
            },
        }
    }
}

impl JsonValue {
    /// An object without members.
    pub fn object() -> (r: JsonValue)
        ensures
            r@ == JsonModel::Object(Seq::empty()),
    {
        let r = JsonValue::Object(Vec::new());
        proof {
            lemma_view(r);
            assert(members_view(r->Object_0@) =~= Seq::empty());
        }
        r
    }

    /// The object with these members.
    pub fn from_members(members: Vec<(String, JsonValue)>) -> (r: JsonValue)
        ensures
            r@ == JsonModel::Object(members_view(members@)),
    {
        let r = JsonValue::Object(members);
        proof {
            lemma_view(r);
        }
        r
    }

    /// A member of an object that is being built.
    pub fn member(name: &str, value: JsonValue) -> (r: (String, JsonValue))
        ensures
            r.0@ == name@,
            r.1@ == value@,
    {
        (name.to_owned(), value)
    }

    pub fn text(s: &str) -> (r: JsonValue)
        ensures
            r@ == JsonModel::Text(s@),
    {
        JsonValue::Text(s.to_owned())
    }

    pub fn opt_text(s: &Option<String>) -> (r: JsonValue)
        ensures
            r@ == JsonModel::opt_text(
                match s {
                    Some(t) => Some(t@),
                    None => None,
                },
            ),
    {
        match s {
            Some(t) => JsonValue::Text(t.clone()),
            None => JsonValue::Null,
        }
    }

    pub fn opt_decimal(s: &Option<String>) -> (r: JsonValue)
        ensures
            r@ == JsonModel::opt_decimal(
                match s {
                    Some(t) => Some(t@),
                    None => None,
                },
            ),
    {
        match s {
            Some(t) => JsonValue::Decimal(t.clone()),
            None => JsonValue::Null,
        }
    }

    pub fn opt_int(n: Option<i64>) -> (r: JsonValue)
        ensures
            r@ == JsonModel::opt_int(
                match n {
                    Some(i) => Some(i as int),
                    None => None,
                },
            ),
    {
        match n {
            Some(i) => JsonValue::Int(i),
            None => JsonValue::Null,
        }
    }

    pub fn opt_bool(b: Option<bool>) -> (r: JsonValue)
        ensures
            r@ == JsonModel::opt_bool(b),
    {
        match b {
            Some(x) => JsonValue::Bool(x),
            None => JsonValue::Null,
        }
    }

    /// A list of texts.
    pub fn texts(items: &Vec<String>) -> (r: JsonValue)
        ensures
            r@ == JsonModel::texts(strs(items@)),
    {
        let mut out: Vec<JsonValue> = Vec::new();
        let mut i: usize = 0;
        while i < items.len()
            invariant
                i <= items.len(),
                out@.len() == i,
                forall|k: int| 0 <= k < i ==> (#[trigger] out@[k])@ == JsonModel::Text(items@[k]@),
            decreases items.len() - i,
        {
            out.push(JsonValue::Text(items[i].clone()));
            i = i + 1;
        }
        let r = JsonValue::List(out);
        proof {
            lemma_view(r);
            assert(items_view(out@) =~= JsonModel::texts(strs(items@))->List_0);
        }
        r
    }

    /// The value of the first member named `key`, where `self` is an object
    /// that has one.
    pub fn get(&self, key: &str) -> (r: Option<&JsonValue>)
        ensures
            match r {
                Some(v) => self@.get(key@) == Some(v@),
                None => self@.get(key@) is None,
            },
    {
        match self {
            JsonValue::Object(members) => {
                let ghost model = members_view(members@);
                proof {
                    assert(*self == JsonValue::Object(*members));
                    lemma_view(*self);
                    assert(self@ == JsonModel::Object(model));
                }
                let mut i: usize = 0;
                while i < members.len()
                    invariant
                        i <= members.len(),
                        model == members_view(members@),
                        self@ == JsonModel::Object(model),
                        member_index(model, key@, 0) == member_index(model, key@, i as int),
                    decreases members.len() - i,
                {
                    assert(model[i as int] == (members@[i as int].0@, members@[i as int].1@));
                    if str_eq(members[i].0.as_str(), key) {
                        assert(member_index(model, key@, i as int) == i);
                        return Some(&members[i].1);
                    }
                    i = i + 1;
                }
                None
            },
            _ => None,
        }
    }

    /// Sets the member `key` of an object to `value`: the first member of
    /// that name is replaced, or a new member is added at the end. Anything
    /// but an object is left as it is.
    pub fn set(&mut self, key: &str, value: JsonValue)
        ensures
            match old(self)@ {
                JsonModel::Object(members) => final(self)@ == JsonModel::Object(
                    with_member(members, key@, value@),
                ),
                _ => final(self)@ == old(self)@,
            },
    {
        let mut taken = JsonValue::Null;
        core::mem::swap(self, &mut taken);
        match taken {
            JsonValue::Object(mut members) => {
                let ghost model = members_view(members@);
                proof {
                    lemma_view(*old(self));
                }
                let mut i: usize = 0;
                let mut found = false;
                while i < members.len() && !found
                    invariant
                        i <= members.len(),
                        model == members_view(members@),
                        member_index(model, key@, 0) == member_index(model, key@, i as int),
                        found ==> i < members.len() && model[i as int].0 == key@,
                    decreases members.len() - i + (if found { 0int } else { 1int }),
                {
                    assert(model[i as int].0 == members@[i as int].0@);
                    if str_eq(members[i].0.as_str(), key) {
                        found = true;
                    } else {
                        i = i + 1;
                    }
                }
                assert(member_index(model, key@, 0) == i);
                if i < members.len() {
                    members.set(i, (key.to_owned(), value));
                } else {
                    members.push((key.to_owned(), value));
                }
                proof {
                    assert(members_view(members@) =~= with_member(model, key@, value@));
                    lemma_view(JsonValue::Object(members));
                }
                *self = JsonValue::Object(members);
            },
            other => {
                *self = other;
            },
        }
    }
}

} // verus!
