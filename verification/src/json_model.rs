//! JSON values.
//!
//! The library holds a JSON value as plain data, so that the code that reads and builds such
//! values can be specified.

use vstd::prelude::*;

use crate::deep::deep;

verus! {

/// A JSON number. A number that is not an integer of 64 bits is kept in its written form.
#[derive(Debug, PartialEq, Eq)]
pub enum Number {
    Unsigned(u64),
    Negative(i64),
    Decimal(String),
}

/// A JSON value. An object is the list of its members.
#[derive(Debug, PartialEq, Eq)]
pub enum Json {
    Null,
    Bool(bool),
    Number(Number),
    Str(String),
    Array(Vec<Json>),
    Object(Vec<(String, Json)>),
}

/// What a JSON number is.
pub enum NumberModel {
    Unsigned(u64),
    Negative(i64),
    Decimal(Seq<char>),
}

/// What a JSON value is.
pub enum JsonModel {
    Null,
    Bool(bool),
    Number(NumberModel),
    Str(Seq<char>),
    Array(Seq<JsonModel>),
    Object(Seq<(Seq<char>, JsonModel)>),
}

impl DeepView for Number {
    type V = NumberModel;

    open spec fn deep_view(&self) -> NumberModel {
        match self {
            Number::Unsigned(n) => NumberModel::Unsigned(*n),
            Number::Negative(n) => NumberModel::Negative(*n),
            Number::Decimal(text) => NumberModel::Decimal(text@),
        }
    }
}

/// The model of a JSON value.
pub open spec fn model_of(json: Json) -> JsonModel
    decreases json,
{
    match json {
        Json::Null => JsonModel::Null,
        Json::Bool(b) => JsonModel::Bool(b),
        Json::Number(n) => JsonModel::Number(n.deep_view()),
        Json::Str(text) => JsonModel::Str(text@),
        Json::Array(items) => JsonModel::Array(
            Seq::new(
                items@.len(),
                |i: int|
                    if 0 <= i < items@.len() {
                        model_of(items@[i])
                    } else {
                        JsonModel::Null
                    },
            ),
        ),
        Json::Object(members) => JsonModel::Object(
            Seq::new(
                members@.len(),
                |i: int|
                    if 0 <= i < members@.len() {
                        (members@[i].0@, model_of(members@[i].1))
                    } else {
                        (Seq::empty(), JsonModel::Null)
                    },
            ),
        ),
    }
}

impl DeepView for Json {
    type V = JsonModel;

    open spec fn deep_view(&self) -> JsonModel {
        model_of(*self)
    }
}

/// The model of an array is made of the models of its items.
pub broadcast proof fn lemma_array_model(items: Vec<Json>)
    ensures
        #[trigger] Json::Array(items).deep_view() == JsonModel::Array(deep(items@)),
{
    let model = Json::Array(items).deep_view()->Array_0;
    assert forall|i: int| 0 <= i < items@.len() implies model[i] == #[trigger] deep(items@)[i] by {
        assert(deep(items@)[i] == items@[i].deep_view());
    }
    assert(model =~= deep(items@));
}

/// The model of an object is made of the models of its members.
pub broadcast proof fn lemma_object_model(members: Vec<(String, Json)>)
    ensures
        #[trigger] Json::Object(members).deep_view() == JsonModel::Object(deep(members@)),
{
    let model = Json::Object(members).deep_view()->Object_0;
    assert forall|i: int| 0 <= i < members@.len() implies model[i] == #[trigger] deep(
        members@,
    )[i] by {
        assert(deep(members@)[i] == members@[i].deep_view());
    }
    assert(model =~= deep(members@));
}

pub broadcast group group_json {
    lemma_array_model,
    lemma_object_model,
}

/// The place of the member `key`; the number of members where there is none.
pub open spec fn member_index(members: Seq<(Seq<char>, JsonModel)>, key: Seq<char>) -> int
    decreases members.len(),
{
    if members.len() == 0 {
        0
    } else if members.first().0 == key {
        0
    } else {
        1 + member_index(members.drop_first(), key)
    }
}

impl JsonModel {
    /// The member `key` of an object.
    pub open spec fn get(self, key: Seq<char>) -> Option<JsonModel> {
        match self {
            JsonModel::Object(members) => {
                let i = member_index(members, key);
                if i < members.len() {
                    Some(members[i].1)
                } else {
                    None
                }
            },
            _ => None,
        }
    }

    /// The text of a string.
    pub open spec fn as_str(self) -> Option<Seq<char>> {
        match self {
            JsonModel::Str(text) => Some(text),
            _ => None,
        }
    }

    /// The items of an array.
    pub open spec fn as_array(self) -> Option<Seq<JsonModel>> {
        match self {
            JsonModel::Array(items) => Some(items),
            _ => None,
        }
    }

    /// The value of a number that is an integer from 0 on.
    pub open spec fn as_u64(self) -> Option<u64> {
        match self {
            JsonModel::Number(NumberModel::Unsigned(n)) => Some(n),
            _ => None,
        }
    }

    /// The value of a number that is an integer of 64 bits with a sign.
    pub open spec fn as_i64(self) -> Option<i64> {
        match self {
            JsonModel::Number(NumberModel::Unsigned(n)) => if n <= i64::MAX {
                Some(n as i64)
            } else {
                None
            },
            JsonModel::Number(NumberModel::Negative(n)) => Some(n),
            _ => None,
        }
    }

    pub open spec fn as_bool(self) -> Option<bool> {
        match self {
            JsonModel::Bool(b) => Some(b),
            _ => None,
        }
    }

    /// The text of the member `key`, where it is a string.
    pub open spec fn text(self, key: Seq<char>) -> Option<Seq<char>> {
        match self.get(key) {
            Some(value) => value.as_str(),
            None => None,
        }
    }

    /// The text of the member `key`, or `default`.
    pub open spec fn text_or(self, key: Seq<char>, default: Seq<char>) -> Seq<char> {
        match self.text(key) {
            Some(text) => text,
            None => default,
        }
    }

    /// The items of the member `key`, where it is an array.
    pub open spec fn items(self, key: Seq<char>) -> Option<Seq<JsonModel>> {
        match self.get(key) {
            Some(value) => value.as_array(),
            None => None,
        }
    }

    /// The member `key2` of the member `key1`.
    pub open spec fn get2(self, key1: Seq<char>, key2: Seq<char>) -> Option<JsonModel> {
        match self.get(key1) {
            Some(value) => value.get(key2),
            None => None,
        }
    }

    /// An object with the member `key` set to `value`, at its place or, where there was none,
    /// behind the others. Any other value is left as it is.
    pub open spec fn with(self, key: Seq<char>, value: JsonModel) -> JsonModel {
        match self {
            JsonModel::Object(members) => {
                let i = member_index(members, key);
                if i < members.len() {
                    JsonModel::Object(members.update(i, (key, value)))
                } else {
                    JsonModel::Object(members.push((key, value)))
                }
            },
            _ => self,
        }
    }

    /// An object without the member `key`.
    pub open spec fn without(self, key: Seq<char>) -> JsonModel {
        match self {
            JsonModel::Object(members) => {
                let i = member_index(members, key);
                if i < members.len() {
                    JsonModel::Object(members.remove(i))
                } else {
                    self
                }
            },
            _ => self,
        }
    }
}

pub proof fn lemma_member_index(members: Seq<(Seq<char>, JsonModel)>, key: Seq<char>)
    ensures
        0 <= member_index(members, key) <= members.len(),
        member_index(members, key) < members.len() ==> members[member_index(members, key)].0 == key,
        forall|j: int| 0 <= j < member_index(members, key) ==> (#[trigger] members[j]).0 != key,
    decreases members.len(),
{
    if members.len() > 0 && members.first().0 != key {
        lemma_member_index(members.drop_first(), key);
        let k = member_index(members.drop_first(), key);
        assert forall|j: int| 0 <= j < k + 1 implies (#[trigger] members[j]).0 != key by {
            if j > 0 {
                assert(members.drop_first()[j - 1] == members[j]);
            }
        }
    }
}

/// The first member that has the key is the one found.
pub proof fn lemma_member_index_is(members: Seq<(Seq<char>, JsonModel)>, key: Seq<char>, i: int)
    requires
        0 <= i <= members.len(),
        i < members.len() ==> members[i].0 == key,
        forall|j: int| 0 <= j < i ==> (#[trigger] members[j]).0 != key,
    ensures
        member_index(members, key) == i,
{
    lemma_member_index(members, key);
    let k = member_index(members, key);
    if k < i {
        assert(members[k].0 != key);
    } else if i < k {
        assert(members[i].0 != key);
    }
}

/// Reading back a member that was set gives its value.
pub proof fn lemma_with_get(json: JsonModel, key: Seq<char>, value: JsonModel)
    requires
        json is Object,
    ensures
        json.with(key, value).get(key) == Some(value),
{
    let members = json->Object_0;
    lemma_member_index(members, key);
    let i = member_index(members, key);
    let new = json.with(key, value)->Object_0;
    assert forall|j: int| 0 <= j < i implies (#[trigger] new[j]).0 != key by {
        assert(new[j] == members[j]);
    }
    lemma_member_index_is(new, key, i);
}

/// Setting a member leaves every other member as it was.
pub proof fn lemma_with_get_other(
    json: JsonModel,
    key: Seq<char>,
    value: JsonModel,
    other: Seq<char>,
)
    requires
        json is Object,
        other != key,
    ensures
        json.with(key, value).get(other) == json.get(other),
{
    let members = json->Object_0;
    lemma_member_index(members, key);
    lemma_member_index(members, other);
    let k = member_index(members, other);
    let new = json.with(key, value)->Object_0;
    assert forall|j: int| 0 <= j < k implies (#[trigger] new[j]).0 != other by {
        if j < members.len() && j != member_index(members, key) {
            assert(new[j] == members[j]);
        }
    }
    if k < members.len() {
        lemma_member_index_is(new, other, k);
    } else {
        assert forall|j: int| 0 <= j < new.len() implies (#[trigger] new[j]).0 != other by {
            if j < members.len() && j != member_index(members, key) {
                assert(new[j] == members[j]);
            }
        }
        lemma_member_index_is(new, other, new.len() as int);
    }
}

/// Taking a member out leaves every other member as it was.
pub proof fn lemma_without_get_other(json: JsonModel, key: Seq<char>, other: Seq<char>)
    requires
        json is Object,
        other != key,
    ensures
        json.without(key) is Object,
        json.without(key).get(other) == json.get(other),
{
    let members = json->Object_0;
    lemma_member_index(members, key);
    lemma_member_index(members, other);
    let i = member_index(members, key);
    let k = member_index(members, other);
    if i < members.len() {
        let new = members.remove(i);
        let place = if k < i {
            k
        } else {
            k - 1
        };
        assert forall|j: int| 0 <= j < place implies (#[trigger] new[j]).0 != other by {
            if j < i {
                assert(new[j] == members[j]);
            } else {
                assert(new[j] == members[j + 1]);
            }
        }
        if k < members.len() {
            assert(k != i);
            assert(new[place] == members[k]);
        }
        lemma_member_index_is(new, other, place);
    }
}

} // verus!
