//! Reading and building JSON values.

use vstd::prelude::*;

use crate::deep::{deep, group_deep};
pub use crate::json_model::{
    group_json, lemma_member_index, lemma_member_index_is, member_index, Json, JsonModel, Number,
    NumberModel,
};
use crate::text::same;

verus! {

broadcast use {group_deep, group_json};

impl Clone for Json {
    fn clone(&self) -> (r: Json)
        ensures
            r.deep_view() == self.deep_view(),
        decreases self,
    {
        match self {
            Json::Null => Json::Null,
            Json::Bool(b) => Json::Bool(*b),
            Json::Number(Number::Unsigned(n)) => Json::Number(Number::Unsigned(*n)),
            Json::Number(Number::Negative(n)) => Json::Number(Number::Negative(*n)),
            Json::Number(Number::Decimal(text)) => Json::Number(Number::Decimal(text.clone())),
            Json::Str(text) => Json::Str(text.clone()),
            Json::Array(items) => {
                let mut copy: Vec<Json> = Vec::new();
                let mut i: usize = 0;
                while i < items.len()
                    invariant
                        *self == Json::Array(*items),
                        i <= items@.len(),
                        deep(copy@) == deep(items@).take(i as int),
                    decreases items@.len() - i,
                {
                    proof {
                        assert(decreases_to!(*items => items[i as int]));
                        assert(decreases_to!(*self => self->Array_0));
                    }
                    let item = items[i].clone();
                    copy.push(item);
                    i += 1;
                    proof {
                        assert(deep(items@).take(i as int) =~= deep(items@).take(i - 1).push(
                            deep(items@)[i - 1],
                        ));
                    }
                }
                proof {
                    assert(deep(items@).take(items@.len() as int) =~= deep(items@));
                }
                Json::Array(copy)
            },
            Json::Object(members) => {
                let mut copy: Vec<(String, Json)> = Vec::new();
                let mut i: usize = 0;
                while i < members.len()
                    invariant
                        *self == Json::Object(*members),
                        i <= members@.len(),
                        deep(copy@) == deep(members@).take(i as int),
                    decreases members@.len() - i,
                {
                    proof {
                        assert(decreases_to!(*members => members[i as int]));
                        assert(decreases_to!(*self => self->Object_0));
                    }
                    let key = members[i].0.clone();
                    let value = members[i].1.clone();
                    copy.push((key, value));
                    i += 1;
                    proof {
                        assert(deep(members@).take(i as int) =~= deep(members@).take(i - 1).push(
                            deep(members@)[i - 1],
                        ));
                    }
                }
                proof {
                    assert(deep(members@).take(members@.len() as int) =~= deep(members@));
                }
                Json::Object(copy)
            },
        }
    }
}

/// The place of the member `key`; the number of members where there is none.
fn find_member(members: &Vec<(String, Json)>, key: &str) -> (r: usize)
    ensures
        r == member_index(deep(members@), key@),
        r <= members@.len(),
{
    let mut i: usize = 0;
    while i < members.len() && !same(&members[i].0, key)
        invariant
            i <= members@.len(),
            forall|j: int| 0 <= j < i ==> (#[trigger] deep(members@)[j]).0 != key@,
        decreases members@.len() - i,
    {
        i += 1;
    }
    proof {
        lemma_member_index_is(deep(members@), key@, i as int);
    }
    i
}

/// A string, or null where there is none.
pub open spec fn optional(text: Option<Seq<char>>) -> JsonModel {
    match text {
        Some(text) => JsonModel::Str(text),
        None => JsonModel::Null,
    }
}

/// A number from 0 on.
pub open spec fn num(n: nat) -> JsonModel {
    JsonModel::Number(NumberModel::Unsigned(n as u64))
}

/// An integer with a sign as a JSON number.
pub open spec fn signed_num(n: int) -> JsonModel {
    if n < 0 {
        JsonModel::Number(NumberModel::Negative(n as i64))
    } else {
        num(n as nat)
    }
}

/// The members of an object that is being built.
pub struct Members {
    pub list: Vec<(String, Json)>,
}

impl Members {
    /// What the members are.
    pub open spec fn model(&self) -> Seq<(Seq<char>, JsonModel)> {
        deep(self.list@)
    }

    pub fn new() -> (r: Self)
        ensures
            r.model() == Seq::<(Seq<char>, JsonModel)>::empty(),
    {
        Members { list: Vec::new() }
    }

    /// The members and one more.
    pub fn with(self, key: &str, value: Json) -> (r: Self)
        ensures
            r.model() == self.model().push((key@, value.deep_view())),
    {
        let mut list = self.list;
        let member = (key.to_owned(), value);
        list.push(member);
        proof {
            assert(deep(list@) == deep(self.list@).push(member.deep_view()));
        }
        Members { list }
    }

    /// The object with these members.
    pub fn object(self) -> (r: Json)
        ensures
            r.deep_view() == JsonModel::Object(self.model()),
    {
        Json::Object(self.list)
    }
}

impl Json {
    /// The string `text`.
    pub fn string(text: &str) -> (r: Json)
        ensures
            r.deep_view() == JsonModel::Str(text@),
    {
        Json::Str(text.to_owned())
    }

    /// An object with one member.
    pub fn object1(key: &str, value: Json) -> (r: Json)
        ensures
            r.deep_view() == JsonModel::Object(seq![(key@, value.deep_view())]),
    {
        let mut members: Vec<(String, Json)> = Vec::new();
        members.push((key.to_owned(), value));
        proof {
            assert(deep(members@) =~= seq![(key@, value.deep_view())]);
        }
        Json::Object(members)
    }

    /// A number from 0 on.
    pub fn number(n: u64) -> (r: Json)
        ensures
            r.deep_view() == JsonModel::Number(NumberModel::Unsigned(n)),
    {
        Json::Number(Number::Unsigned(n))
    }

    /// An integer with a sign.
    pub fn signed(n: i64) -> (r: Json)
        ensures
            r.deep_view() == signed_num(n as int),
    {
        if n < 0 {
            Json::Number(Number::Negative(n))
        } else {
            Json::Number(Number::Unsigned(n as u64))
        }
    }

    /// The string `text`, or null where there is none.
    pub fn string_or_null(text: &Option<String>) -> (r: Json)
        ensures
            r.deep_view() == optional(text.deep_view()),
    {
        match text {
            Some(text) => Json::Str(text.clone()),
            None => Json::Null,
        }
    }

    /// The member `key` of an object.
    pub fn get(&self, key: &str) -> (r: Option<&Json>)
        ensures
            match r {
                Some(value) => self.deep_view().get(key@) == Some(value.deep_view()),
                None => self.deep_view().get(key@) is None,
            },
    {
        match self {
            Json::Object(members) => {
                let i = find_member(members, key);
                if i < members.len() {
                    proof {
                        assert(deep(members@)[i as int].1 == members@[i as int].1.deep_view());
                    }
                    Some(&members[i].1)
                } else {
                    None
                }
            },
            _ => None,
        }
    }

    /// The text of a string.
    pub fn as_str(&self) -> (r: Option<&String>)
        ensures
            match r {
                Some(text) => self.deep_view().as_str() == Some(text@),
                None => self.deep_view().as_str() is None,
            },
    {
        match self {
            Json::Str(text) => Some(text),
            _ => None,
        }
    }

    /// The items of an array.
    pub fn as_array(&self) -> (r: Option<&Vec<Json>>)
        ensures
            match r {
                Some(items) => self.deep_view().as_array() == Some(deep(items@)),
                None => self.deep_view().as_array() is None,
            },
    {
        match self {
            Json::Array(items) => Some(items),
            _ => None,
        }
    }

    /// The value of a number that is an integer from 0 on.
    pub fn as_u64(&self) -> (r: Option<u64>)
        ensures
            r == self.deep_view().as_u64(),
    {
        match self {
            Json::Number(Number::Unsigned(n)) => Some(*n),
            _ => None,
        }
    }

    /// The value of a number that is an integer of 64 bits with a sign.
    pub fn as_i64(&self) -> (r: Option<i64>)
        ensures
            r == self.deep_view().as_i64(),
    {
        match self {
            Json::Number(Number::Unsigned(n)) => if *n <= i64::MAX as u64 {
                Some(*n as i64)
            } else {
                None
            },
            Json::Number(Number::Negative(n)) => Some(*n),
            _ => None,
        }
    }

    pub fn as_bool(&self) -> (r: Option<bool>)
        ensures
            r == self.deep_view().as_bool(),
    {
        match self {
            Json::Bool(b) => Some(*b),
            _ => None,
        }
    }

    /// The text of the member `key`, where it is a string.
    pub fn text(&self, key: &str) -> (r: Option<&String>)
        ensures
            match r {
                Some(text) => self.deep_view().text(key@) == Some(text@),
                None => self.deep_view().text(key@) is None,
            },
    {
        match self.get(key) {
            Some(value) => value.as_str(),
            None => None,
        }
    }

    /// A copy of the text of the member `key`, or `default`.
    pub fn text_or(&self, key: &str, default: &str) -> (r: String)
        ensures
            r@ == self.deep_view().text_or(key@, default@),
    {
        match self.text(key) {
            Some(text) => text.clone(),
            None => default.to_owned(),
        }
    }

    /// The items of the member `key`, where it is an array.
    pub fn items(&self, key: &str) -> (r: Option<&Vec<Json>>)
        ensures
            match r {
                Some(items) => self.deep_view().items(key@) == Some(deep(items@)),
                None => self.deep_view().items(key@) is None,
            },
    {
        match self.get(key) {
            Some(value) => value.as_array(),
            None => None,
        }
    }

    /// Takes the member `key` out of an object.
    pub fn remove(&mut self, key: &str)
        ensures
            final(self).deep_view() == old(self).deep_view().without(key@),
    {
        match self {
            Json::Object(members) => {
                let i = find_member(members, key);
                let ghost before = deep(members@);
                if i < members.len() {
                    members.remove(i);
                    proof {
                        assert(deep(members@) =~= before.remove(i as int));
                    }
                }
            },
            _ => {},
        }
    }

    /// Sets the member `key` of an object.
    pub fn set(&mut self, key: &str, value: Json)
        ensures
            final(self).deep_view() == old(self).deep_view().with(key@, value.deep_view()),
    {
        match self {
            Json::Object(members) => {
                let i = find_member(members, key);
                let ghost before = deep(members@);
                let member = (key.to_owned(), value);
                if i < members.len() {
                    members.set(i, member);
                    proof {
                        assert(deep(members@) =~= before.update(i as int, member.deep_view()));
                    }
                } else {
                    members.push(member);
                    proof {
                        assert(deep(members@) =~= before.push(member.deep_view()));
                    }
                }
            },
            _ => {},
        }
    }
}

} // verus!
