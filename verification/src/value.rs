//! JSON values, as the plain data the rest of the library reads.

use vstd::prelude::*;

verus! {

/// A JSON value.
///
/// A number is kept as the text `serde_json` writes it with, and an object as
/// its members in the order `serde_json` walks them.
#[derive(Debug)]
pub enum Json {
    Null,
    Bool(bool),
    Number(String),
    Text(String),
    List(Vec<Json>),
    Object(Vec<(String, Json)>),
}

/// What a [`Json`] stands for.
pub enum JsonV {
    Null,
    Bool(bool),
    Number(Seq<char>),
    Text(Seq<char>),
    List(Seq<JsonV>),
    Object(Seq<(Seq<char>, JsonV)>),
}

impl View for Json {
    type V = JsonV;

    open spec fn view(&self) -> JsonV {
        meaning(*self)
    }
}

/// What a value stands for.
pub open spec fn meaning(j: Json) -> JsonV
    decreases j,
{
    match j {
        Json::Null => JsonV::Null,
        Json::Bool(b) => JsonV::Bool(b),
        Json::Number(s) => JsonV::Number(s@),
        Json::Text(s) => JsonV::Text(s@),
        Json::List(v) => JsonV::List(meanings(v@)),
        Json::Object(m) => JsonV::Object(member_meanings(m@)),
    }
}

/// What the items of a list stand for.
pub open spec fn meanings(v: Seq<Json>) -> Seq<JsonV>
    decreases v,
{
    if v.len() == 0 {
        Seq::empty()
    } else {
        meanings(v.drop_last()).push(meaning(v.last()))
    }
}

/// What the members of an object stand for.
pub open spec fn member_meanings(m: Seq<(String, Json)>) -> Seq<(Seq<char>, JsonV)>
    decreases m,
{
    if m.len() == 0 {
        Seq::empty()
    } else {
        member_meanings(m.drop_last()).push((m.last().0@, meaning(m.last().1)))
    }
}

/// The values behind a list.
pub open spec fn items(v: Seq<Json>) -> Seq<JsonV> {
    v.map_values(|j: Json| j@)
}

/// The members behind an object.
pub open spec fn members(v: Seq<(String, Json)>) -> Seq<(Seq<char>, JsonV)> {
    v.map_values(|p: (String, Json)| (p.0@, p.1@))
}

proof fn lemma_meanings(v: Seq<Json>)
    ensures
        meanings(v) == items(v),
    decreases v,
{
    if v.len() > 0 {
        lemma_meanings(v.drop_last());
        assert(items(v) =~= items(v.drop_last()).push(v.last()@));
    } else {
        assert(items(v) =~= Seq::empty());
    }
}

proof fn lemma_member_meanings(m: Seq<(String, Json)>)
    ensures
        member_meanings(m) == members(m),
    decreases m,
{
    if m.len() > 0 {
        lemma_member_meanings(m.drop_last());
        assert(members(m) =~= members(m.drop_last()).push((m.last().0@, m.last().1@)));
    } else {
        assert(members(m) =~= Seq::empty());
    }
}

pub broadcast proof fn lemma_list_view(v: Vec<Json>)
    ensures
        #[trigger] Json::List(v)@ == JsonV::List(items(v@)),
{
    lemma_meanings(v@);
}

pub broadcast proof fn lemma_object_view(v: Vec<(String, Json)>)
    ensures
        #[trigger] Json::Object(v)@ == JsonV::Object(members(v@)),
{
    lemma_member_meanings(v@);
}

pub broadcast group group_json_views {
    lemma_list_view,
    lemma_object_view,
}

/// A value means what it holds: null, a truth value, a number as it is written, a
/// text, a list item by item, and an object member by member, in order.
pub proof fn law_a_value_means_what_it_holds(
    b: bool,
    s: String,
    v: Vec<Json>,
    m: Vec<(String, Json)>,
    i: int,
)
    ensures
        Json::Null@ == JsonV::Null,
        Json::Bool(b)@ == JsonV::Bool(b),
        Json::Number(s)@ == JsonV::Number(s@),
        Json::Text(s)@ == JsonV::Text(s@),
        Json::List(v)@ is List,
        Json::List(v)@->List_0.len() == v@.len(),
        0 <= i < v@.len() ==> Json::List(v)@->List_0[i] == v@[i]@,
        Json::Object(m)@ is Object,
        Json::Object(m)@->Object_0.len() == m@.len(),
        0 <= i < m@.len() ==> Json::Object(m)@->Object_0[i] == (m@[i].0@, m@[i].1@),
{
    lemma_list_view(v);
    lemma_object_view(m);
}

} // verus!
