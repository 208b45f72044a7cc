//! JSON values that answers are made of.

use vstd::prelude::*;

use crate::text::{opt_text, texts};

verus! {

/// A JSON value.
#[derive(Debug, PartialEq, Eq)]
pub enum Json {
    Null,
    Bool(bool),
    Number(u64),
    /// A single-precision number by its bit pattern.
    Single(u32),
    Text(String),
    Array(Vec<Json>),
    Object(Vec<(String, Json)>),
    /// JSON text that is passed on as it is.
    Raw(String),
}

/// The model of a JSON value.
pub enum JsonModel {
    Null,
    Bool(bool),
    Number(u64),
    Single(u32),
    Text(Seq<char>),
    Array(Seq<JsonModel>),
    Object(Seq<(Seq<char>, JsonModel)>),
    Raw(Seq<char>),
}

impl Json {
    pub open spec fn model(self) -> JsonModel
        decreases self,
    {
        match self {
            Json::Null => JsonModel::Null,
            Json::Bool(b) => JsonModel::Bool(b),
            Json::Number(n) => JsonModel::Number(n),
            Json::Single(bits) => JsonModel::Single(bits),
            Json::Text(s) => JsonModel::Text(s@),
            Json::Array(items) => JsonModel::Array(
                Seq::new(
                    items@.len(),
                    |i: int|
                        if 0 <= i < items@.len() {
                            items@[i].model()
                        } else {
                            JsonModel::Null
                        },
                ),
            ),
            Json::Object(members) => JsonModel::Object(
                Seq::new(
                    members@.len(),
                    |i: int|
                        if 0 <= i < members@.len() {
                            (members@[i].0@, members@[i].1.model())
                        } else {
                            (seq![], JsonModel::Null)
                        },
                ),
            ),
            Json::Raw(s) => JsonModel::Raw(s@),
        }
    }
}

/// The members of an object, to which others are pushed.
pub open spec fn no_members() -> Seq<(Seq<char>, JsonModel)> {
    Seq::empty()
}

/// The models of a list of values.
pub open spec fn models(items: Seq<Json>) -> Seq<JsonModel> {
    items.map_values(|j: Json| j.model())
}

/// No value.
pub fn null() -> (j: Json)
    ensures
        j.model() == JsonModel::Null,
{
    Json::Null
}

/// A truth value.
pub fn boolean(b: bool) -> (j: Json)
    ensures
        j.model() == JsonModel::Bool(b),
{
    Json::Bool(b)
}

/// A number.
pub fn number(n: u64) -> (j: Json)
    ensures
        j.model() == JsonModel::Number(n),
{
    Json::Number(n)
}

/// A single-precision number by its bit pattern.
pub fn single(bits: u32) -> (j: Json)
    ensures
        j.model() == JsonModel::Single(bits),
{
    Json::Single(bits)
}

/// A text as a value.
pub fn owned(s: String) -> (j: Json)
    ensures
        j.model() == JsonModel::Text(s@),
{
    Json::Text(s)
}

/// JSON text that is passed on as it is.
pub fn raw(s: String) -> (j: Json)
    ensures
        j.model() == JsonModel::Raw(s@),
{
    Json::Raw(s)
}

/// A text as a value.
pub fn text(s: &str) -> (j: Json)
    ensures
        j.model() == JsonModel::Text(s@),
{
    Json::Text(s.to_owned())
}

/// A value for a text that may be missing.
pub open spec fn opt_value(o: Option<Seq<char>>) -> JsonModel {
    match o {
        Some(s) => JsonModel::Text(s),
        None => JsonModel::Null,
    }
}

/// A text that may be missing as a value.
pub fn opt(o: &Option<String>) -> (j: Json)
    ensures
        j.model() == opt_value(opt_text(*o)),
{
    match o {
        Some(s) => Json::Text(s.clone()),
        None => Json::Null,
    }
}

/// A list of texts as a value.
pub open spec fn text_array(v: Seq<Seq<char>>) -> JsonModel {
    JsonModel::Array(v.map_values(|s: Seq<char>| JsonModel::Text(s)))
}

/// A list of texts as a value.
pub fn strings(v: &Vec<String>) -> (j: Json)
    ensures
        j.model() == text_array(texts(v@)),
{
    let ghost all = texts(v@).map_values(|s: Seq<char>| JsonModel::Text(s));
    let mut items = Items::new();
    let mut i: usize = 0;
    while i < v.len()
        invariant
            i <= v.len(),
            all == texts(v@).map_values(|s: Seq<char>| JsonModel::Text(s)),
            items@ == all.take(i as int),
        decreases v.len() - i,
    {
        items.put(Json::Text(v[i].clone()));
        proof {
            assert(all.take(i + 1) =~= all.take(i as int).push(all[i as int]));
        }
        i += 1;
    }
    proof {
        assert(all.take(all.len() as int) =~= all);
    }
    items.done()
}

/// The members of an object, in the making.
pub struct Fields {
    members: Vec<(String, Json)>,
}

impl View for Fields {
    type V = Seq<(Seq<char>, JsonModel)>;

    closed spec fn view(&self) -> Seq<(Seq<char>, JsonModel)> {
        self.members@.map_values(|m: (String, Json)| (m.0@, m.1.model()))
    }
}

impl Fields {
    pub fn new() -> (f: Fields)
        ensures
            f@ == no_members(),
    {
        let f = Fields { members: Vec::new() };
        proof {
            assert(f@ =~= no_members());
        }
        f
    }

    /// Adds a member.
    pub fn put(&mut self, key: &str, value: Json)
        ensures
            final(self)@ == old(self)@.push((key@, value.model())),
    {
        let ghost m = value.model();
        self.members.push((key.to_owned(), value));
        proof {
            assert(self@ =~= old(self)@.push((key@, m)));
        }
    }

    /// The object.
    pub fn done(self) -> (j: Json)
        ensures
            j.model() == JsonModel::Object(self@),
    {
        let j = Json::Object(self.members);
        proof {
            assert(j.model()->Object_0 =~= self@);
        }
        j
    }
}

/// The items of an array, in the making.
pub struct Items {
    items: Vec<Json>,
}

impl View for Items {
    type V = Seq<JsonModel>;

    closed spec fn view(&self) -> Seq<JsonModel> {
        models(self.items@)
    }
}

impl Items {
    pub fn new() -> (a: Items)
        ensures
            a@ == Seq::<JsonModel>::empty(),
    {
        let a = Items { items: Vec::new() };
        proof {
            assert(a@ =~= Seq::<JsonModel>::empty());
        }
        a
    }

    /// Adds an item.
    pub fn put(&mut self, value: Json)
        ensures
            final(self)@ == old(self)@.push(value.model()),
    {
        let ghost m = value.model();
        self.items.push(value);
        proof {
            assert(self@ =~= old(self)@.push(m));
        }
    }

    /// The array.
    pub fn done(self) -> (j: Json)
        ensures
            j.model() == JsonModel::Array(self@),
    {
        let j = Json::Array(self.items);
        proof {
            assert(j.model()->Array_0 =~= self@);
        }
        j
    }
}

/// Whether an object has a member of that name and value.
pub open spec fn has_member(j: JsonModel, name: Seq<char>, value: JsonModel) -> bool {
    j matches JsonModel::Object(members) && members.contains((name, value))
}

/// A list of texts is shown text by text.
pub proof fn law_texts_are_shown_one_by_one(v: &Vec<String>, j: Json)
    requires
        call_ensures(strings, (v,), j),
    ensures
        j.model() is Array,
        j.model()->Array_0.len() == v@.len(),
        forall|i: int|
            0 <= i < v@.len() ==> #[trigger] j.model()->Array_0[i] == JsonModel::Text(v@[i]@),
{
}

/// A text that may be missing is shown as the text or as nothing.
pub proof fn law_missing_texts_are_null(o: &Option<String>, j: Json)
    requires
        call_ensures(opt, (o,), j),
    ensures
        o matches Some(s) ==> j.model() == JsonModel::Text(s@),
        o is None ==> j.model() == JsonModel::Null,
{
}

} // verus!
