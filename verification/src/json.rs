//! JSON values.

use vstd::prelude::*;

use serde_json::Value;

use crate::text;

verus! {

/// A JSON value. Numbers that are no 64-bit signed integers are not told apart.
#[derive(Debug)]
pub enum Json {
    Null,
    Bool(bool),
    Int(i64),
    OtherNumber,
    Str(String),
    Array(Vec<Json>),
    Object(Vec<(String, Json)>),
}

/// The model of a [`Json`] value.
#[verifier::ext_equal]
pub enum JsonV {
    Null,
    Bool(bool),
    Int(i64),
    OtherNumber,
    Str(Seq<char>),
    Array(Seq<JsonV>),
    Object(Seq<(Seq<char>, JsonV)>),
}

/// The model of a value.
pub open spec fn json_view(j: Json) -> JsonV
    decreases j,
{
    match j {
        Json::Null => JsonV::Null,
        Json::Bool(b) => JsonV::Bool(b),
        Json::Int(n) => JsonV::Int(n),
        Json::OtherNumber => JsonV::OtherNumber,
        Json::Str(s) => JsonV::Str(s@),
        Json::Array(items) => JsonV::Array(items_view(items@)),
        Json::Object(members) => JsonV::Object(members_view(members@)),
    }
}

/// The models of the items of an array.
pub open spec fn items_view(items: Seq<Json>) -> Seq<JsonV>
    decreases items,
{
    if items.len() == 0 {
        Seq::empty()
    } else {
        items_view(items.drop_last()).push(json_view(items.last()))
    }
}

/// The models of the members of an object.
pub open spec fn members_view(members: Seq<(String, Json)>) -> Seq<(Seq<char>, JsonV)>
    decreases members,
{
    if members.len() == 0 {
        Seq::empty()
    } else {
        members_view(members.drop_last()).push(
            (members.last().0@, json_view(members.last().1)),
        )
    }
}

impl DeepView for Json {
    type V = JsonV;

    open spec fn deep_view(&self) -> JsonV {
        json_view(*self)
    }
}

/// The items of an array have the models of the array's items.
pub proof fn lemma_items_view(items: Seq<Json>)
    ensures
        items_view(items).len() == items.len(),
        forall|i: int| 0 <= i < items.len() ==> #[trigger] items_view(items)[i] == json_view(items[i]),
    decreases items.len(),
{
    if items.len() > 0 {
        lemma_items_view(items.drop_last());
        assert forall|i: int| 0 <= i < items.len() implies #[trigger] items_view(items)[i] == json_view(
            items[i],
        ) by {
            if i < items.len() - 1 {
                assert(items.drop_last()[i] == items[i]);
                assert(items_view(items.drop_last())[i] == json_view(items.drop_last()[i]));
            }
        }
    }
}

/// The members of an object have the models of the object's members.
pub proof fn lemma_members_view(members: Seq<(String, Json)>)
    ensures
        members_view(members).len() == members.len(),
        forall|i: int|
            0 <= i < members.len() ==> #[trigger] members_view(members)[i] == (
                members[i].0@,
                json_view(members[i].1),
            ),
    decreases members.len(),
{
    if members.len() > 0 {
        lemma_members_view(members.drop_last());
        assert forall|i: int| 0 <= i < members.len() implies #[trigger] members_view(members)[i] == (
            members[i].0@,
            json_view(members[i].1),
        ) by {
            if i < members.len() - 1 {
                assert(members.drop_last()[i] == members[i]);
                assert(members_view(members.drop_last())[i] == (
                    members.drop_last()[i].0@,
                    json_view(members.drop_last()[i].1),
                ));
            }
        }
    }
}

// ---------------------------------------------------------------------
// Reading members
// ---------------------------------------------------------------------

/// The first member of a key.
pub open spec fn first_member(members: Seq<(Seq<char>, JsonV)>, key: Seq<char>) -> Option<JsonV>
    decreases members.len(),
{
    if members.len() == 0 {
        None
    } else if members[0].0 == key {
        Some(members[0].1)
    } else {
        first_member(members.drop_first(), key)
    }
}

impl JsonV {
    /// The member of a key, where the value is an object that has one.
    pub open spec fn member(self, key: Seq<char>) -> Option<JsonV> {
        match self {
            JsonV::Object(members) => first_member(members, key),
            _ => None,
        }
    }

    /// The text of a string.
    pub open spec fn text(self) -> Option<Seq<char>> {
        match self {
            JsonV::Str(s) => Some(s),
            _ => None,
        }
    }

    /// The truth value of a boolean.
    pub open spec fn truth(self) -> Option<bool> {
        match self {
            JsonV::Bool(b) => Some(b),
            _ => None,
        }
    }

    /// The number of an integer.
    pub open spec fn integer(self) -> Option<i64> {
        match self {
            JsonV::Int(n) => Some(n),
            _ => None,
        }
    }

    /// The items of an array.
    pub open spec fn items(self) -> Option<Seq<JsonV>> {
        match self {
            JsonV::Array(items) => Some(items),
            _ => None,
        }
    }

    /// The text of a member.
    pub open spec fn text_at(self, key: Seq<char>) -> Option<Seq<char>> {
        match self.member(key) {
            Some(v) => v.text(),
            None => None,
        }
    }

    /// The truth value of a member.
    pub open spec fn truth_at(self, key: Seq<char>) -> Option<bool> {
        match self.member(key) {
            Some(v) => v.truth(),
            None => None,
        }
    }

    /// The number of a member.
    pub open spec fn integer_at(self, key: Seq<char>) -> Option<i64> {
        match self.member(key) {
            Some(v) => v.integer(),
            None => None,
        }
    }

    /// The items of a member; none where it is no array.
    pub open spec fn items_at(self, key: Seq<char>) -> Seq<JsonV> {
        match self.member(key) {
            Some(v) => match v.items() {
                Some(items) => items,
                None => Seq::empty(),
            },
            None => Seq::empty(),
        }
    }

    /// The text of a member, trimmed, where anything is left of it.
    pub open spec fn non_blank_at(self, key: Seq<char>) -> Option<Seq<char>> {
        match self.text_at(key) {
            Some(s) => text::non_blank(s),
            None => None,
        }
    }
}

impl Json {
    /// The member of a key, where the value is an object that has one.
    pub fn get(&self, key: &str) -> (r: Option<&Json>)
        ensures
            r.deep_view() == self.deep_view().member(key@),
    {
        match self {
            Json::Object(members) => {
                let ghost all = members_view(members@);
                proof {
                    lemma_members_view(members@);
                }
                let mut i: usize = 0;
                assert(all.skip(0) == all);
                while i < members.len()
                    invariant
                        i <= members@.len(),
                        all == members_view(members@),
                        self.deep_view().member(key@) == first_member(all, key@),
                        all.len() == members@.len(),
                        forall|i: int|
                            0 <= i < members@.len() ==> #[trigger] all[i] == (
                                members@[i].0@,
                                json_view(members@[i].1),
                            ),
                        first_member(all, key@) == first_member(all.skip(i as int), key@),
                    decreases members.len() - i,
                {
                    assert(all.skip(i as int)[0] == all[i as int]);
                    assert(all.skip(i as int).drop_first() == all.skip(i + 1));
                    if text::same(members[i].0.as_str(), key) {
                        return Some(&members[i].1);
                    }
                    i += 1;
                }
                None
            },
            _ => None,
        }
    }

    /// The text of a string.
    pub fn as_str(&self) -> (r: Option<&str>)
        ensures
            r.deep_view() == self.deep_view().text(),
    {
        match self {
            Json::Str(s) => Some(s.as_str()),
            _ => None,
        }
    }

    /// The truth value of a boolean.
    pub fn as_bool(&self) -> (r: Option<bool>)
        ensures
            r == self.deep_view().truth(),
    {
        match self {
            Json::Bool(b) => Some(*b),
            _ => None,
        }
    }

    /// The number of an integer.
    pub fn as_i64(&self) -> (r: Option<i64>)
        ensures
            r == self.deep_view().integer(),
    {
        match self {
            Json::Int(n) => Some(*n),
            _ => None,
        }
    }

    /// The text of a member.
    pub fn str_at(&self, key: &str) -> (r: Option<&str>)
        ensures
            r.deep_view() == self.deep_view().text_at(key@),
    {
        match self.get(key) {
            Some(v) => v.as_str(),
            None => None,
        }
    }

    /// The text of a member, or another text where it has none.
    pub fn str_or(&self, key: &str, other: &str) -> (r: String)
        ensures
            r@ == match self.deep_view().text_at(key@) {
                Some(s) => s,
                None => other@,
            },
    {
        match self.str_at(key) {
            Some(s) => s.to_owned(),
            None => other.to_owned(),
        }
    }

    /// Whether a member is the text `t`.
    pub fn is_at(&self, key: &str, t: &str) -> (r: bool)
        ensures
            r == (self.deep_view().text_at(key@) == Some(t@)),
    {
        text::is_text(self.str_at(key), t)
    }

    /// The truth value of a member.
    pub fn bool_at(&self, key: &str) -> (r: Option<bool>)
        ensures
            r == self.deep_view().truth_at(key@),
    {
        match self.get(key) {
            Some(v) => v.as_bool(),
            None => None,
        }
    }

    /// The number of a member.
    pub fn i64_at(&self, key: &str) -> (r: Option<i64>)
        ensures
            r == self.deep_view().integer_at(key@),
    {
        match self.get(key) {
            Some(v) => v.as_i64(),
            None => None,
        }
    }

    /// The items of a member that is an array.
    pub fn array_at(&self, key: &str) -> (r: Option<&Vec<Json>>)
        ensures
            match r {
                Some(items) => items_view(items@) == self.deep_view().items_at(key@),
                None => self.deep_view().items_at(key@).len() == 0,
            },
    {
        match self.get(key) {
            Some(v) => match v {
                Json::Array(items) => Some(items),
                _ => None,
            },
            None => None,
        }
    }

    /// The text of a member, trimmed, where anything is left of it.
    pub fn non_blank_at(&self, key: &str) -> (r: Option<String>)
        ensures
            r.deep_view() == self.deep_view().non_blank_at(key@),
    {
        match self.str_at(key) {
            Some(s) => text::non_blank_text(s),
            None => None,
        }
    }
}

// ---------------------------------------------------------------------
// Reading and writing text
// ---------------------------------------------------------------------

/// serde_json's own value type.
#[verifier::external_type_specification]
#[verifier::external_body]
pub struct ExValue(serde_json::Value);

/// The tree that a serde_json value holds, its object members in the order in
/// which the map walks them, which is that of the keys.
pub uninterp spec fn value_tree(v: Value) -> JsonV;

/// What `serde_json::from_str` makes of a text: a value, or the error's message.
pub uninterp spec fn json_reading(text: Seq<char>) -> Result<JsonV, Seq<char>>;

/// What `Value::to_string` writes for a tree.
pub uninterp spec fn json_text(tree: JsonV) -> Seq<char>;

/// Whether the keys of members ascend strictly.
pub open spec fn keys_ascend(members: Seq<(Seq<char>, JsonV)>) -> bool {
    forall|i: int, j: int|
        0 <= i < j < members.len() ==> text::text_lt(#[trigger] members[i].0, #[trigger] members[j].0)
}

/// Whether a value has no number beside integers and every object has its
/// members once each, in the order of their keys.
pub open spec fn canonical(v: JsonV) -> bool
    decreases v,
{
    match v {
        JsonV::OtherNumber => false,
        JsonV::Array(items) => forall|i: int| 0 <= i < items.len() ==> canonical(#[trigger] items[i]),
        JsonV::Object(members) => keys_ascend(members) && forall|i: int|
            0 <= i < members.len() ==> canonical((#[trigger] members[i]).1),
        _ => true,
    }
}

/// `serde_json::from_str::<Value>`: a value or the message of the error.
#[verifier::external_body]
pub(crate) fn parse_value(text: &str) -> (r: Result<Value, String>)
    ensures
        (match r {
            Ok(v) => Ok(value_tree(v)),
            Err(e) => Err(e@),
        }) == json_reading(text@),
{
    serde_json::from_str(text).map_err(|e| e.to_string())
}

/// Takes a serde_json value over, one variant for one; a number goes through
/// `Number::as_i64`.
#[verifier::external_body]
pub(crate) fn json_of(v: &Value) -> (r: Json)
    ensures
        r.deep_view() == value_tree(*v),
{
    match v {
        Value::Null => Json::Null,
        Value::Bool(b) => Json::Bool(*b),
        Value::Number(n) => n.as_i64().map_or(Json::OtherNumber, Json::Int),
        Value::String(s) => Json::Str(s.clone()),
        Value::Array(a) => Json::Array(a.iter().map(json_of).collect()),
        Value::Object(o) => Json::Object(o.iter().map(|(k, x)| (k.clone(), json_of(x))).collect()),
    }
}

/// Hands a value to serde_json, one variant for one. An object goes into
/// `serde_json::Map`, which keeps one member for each key in the order of the
/// keys, so a canonical value comes out as the same tree.
#[verifier::external_body]
pub(crate) fn value_of(j: &Json) -> (r: Value)
    requires
        canonical(j.deep_view()),
    ensures
        value_tree(r) == j.deep_view(),
{
    match j {
        Json::Null | Json::OtherNumber => Value::Null,
        Json::Bool(b) => Value::Bool(*b),
        Json::Int(n) => Value::Number((*n).into()),
        Json::Str(s) => Value::String(s.clone()),
        Json::Array(a) => Value::Array(a.iter().map(value_of).collect()),
        Json::Object(o) => Value::Object(o.iter().map(|(k, x)| (k.clone(), value_of(x))).collect()),
    }
}

/// `Value::to_string`: the compact text of a value. It is a function of the
/// tree where no number is left out of the tree.
#[verifier::external_body]
pub(crate) fn value_text(v: &Value) -> (r: String)
    requires
        canonical(value_tree(*v)),
    ensures
        r@ == json_text(value_tree(*v)),
{
    v.to_string()
}

/// Reads a JSON text; the message of the error where it is none.
pub fn read_json(text: &str) -> (r: Result<Json, String>)
    ensures
        (match r {
            Ok(j) => Ok(j.deep_view()),
            Err(e) => Err(e@),
        }) == json_reading(text@),
{
    match parse_value(text) {
        Ok(v) => Ok(json_of(&v)),
        Err(e) => Err(e),
    }
}

/// Writes a JSON text.
pub fn write_json(j: &Json) -> (r: String)
    requires
        canonical(j.deep_view()),
    ensures
        r@ == json_text(j.deep_view()),
{
    value_text(&value_of(j))
}

} // verus!
