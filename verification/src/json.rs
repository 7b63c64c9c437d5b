//! JSON values that the library reads and builds. Reading and writing JSON text is `serde_json`'s
//! work; this module only holds the values and walks them.
use vstd::prelude::*;
use vstd::string::*;

use crate::text::{before, ends_in, in_turn, lemma_ends_in, lemma_two, same};

verus! {

/// A JSON value. A number is held as its decimal text.
#[derive(Debug)]
pub enum Json {
    Null,
    Bool(bool),
    Number(String),
    Text(String),
    Array(Vec<Json>),
    Object(Vec<(String, Json)>),
}

/// What a [`Json`] stands for.
#[verifier::ext_equal]
pub enum JsonView {
    Null,
    Bool(bool),
    Number(Seq<char>),
    Text(Seq<char>),
    Array(Seq<JsonView>),
    Object(Seq<(Seq<char>, JsonView)>),
}

pub open spec fn json_view(json: Json) -> JsonView
    decreases json,
{
    match json {
        Json::Null => JsonView::Null,
        Json::Bool(b) => JsonView::Bool(b),
        Json::Number(text) => JsonView::Number(text@),
        Json::Text(text) => JsonView::Text(text@),
        Json::Array(items) => JsonView::Array(
            Seq::new(
                items@.len(),
                |i: int|
                    if 0 <= i < items@.len() {
                        json_view(items@[i])
                    } else {
                        JsonView::Null
                    },
            ),
        ),
        Json::Object(fields) => JsonView::Object(
            Seq::new(
                fields@.len(),
                |i: int|
                    if 0 <= i < fields@.len() {
                        (fields@[i].0@, json_view(fields@[i].1))
                    } else {
                        (Seq::empty(), JsonView::Null)
                    },
            ),
        ),
    }
}

impl View for Json {
    type V = JsonView;

    open spec fn view(&self) -> JsonView {
        json_view(*self)
    }
}

impl JsonView {
    /// An object without fields.
    pub open spec fn object() -> JsonView {
        JsonView::Object(seq![])
    }

    /// An array without items.
    pub open spec fn array() -> JsonView {
        JsonView::Array(seq![])
    }

    /// The object with one more field.
    pub open spec fn with(self, key: Seq<char>, value: JsonView) -> JsonView {
        match self {
            JsonView::Object(fields) => JsonView::Object(fields.push((key, value))),
            _ => self,
        }
    }

    /// The array with one more item.
    pub open spec fn item(self, value: JsonView) -> JsonView {
        match self {
            JsonView::Array(items) => JsonView::Array(items.push(value)),
            _ => self,
        }
    }

    /// The value of the first field called `key`.
    pub open spec fn field(self, key: Seq<char>) -> Option<JsonView> {
        match self {
            JsonView::Object(fields) => first_field(fields, key),
            _ => None,
        }
    }

    /// The text, where the value is one.
    pub open spec fn as_text(self) -> Option<Seq<char>> {
        match self {
            JsonView::Text(text) => Some(text),
            _ => None,
        }
    }

    /// The items, where the value is an array.
    pub open spec fn as_items(self) -> Option<Seq<JsonView>> {
        match self {
            JsonView::Array(items) => Some(items),
            _ => None,
        }
    }

    /// The text of the field called `key`, where there is one and it is a text.
    pub open spec fn text_field(self, key: Seq<char>) -> Option<Seq<char>> {
        match self.field(key) {
            Some(value) => value.as_text(),
            None => None,
        }
    }

    /// Whether writing the value as text and reading it back gives the value: it holds no numbers,
    /// its objects' keys ascend, and it is nested less deeply than `depth`.
    pub open spec fn storable(self, depth: nat) -> bool
        decreases depth,
    {
        match self {
            JsonView::Null | JsonView::Bool(_) | JsonView::Text(_) => true,
            JsonView::Number(_) => false,
            JsonView::Array(items) => depth > 0 && forall|i: int|
                0 <= i < items.len() ==> (#[trigger] items[i]).storable((depth - 1) as nat),
            JsonView::Object(fields) => depth > 0 && (forall|i: int|
                0 <= i < fields.len() ==> (#[trigger] fields[i]).1.storable((depth - 1) as nat))
                && forall|i: int, j: int|
                0 <= i < j < fields.len() ==> before((#[trigger] fields[i]).0, (
                #[trigger] fields[j]).0),
        }
    }
}

pub open spec fn first_field(fields: Seq<(Seq<char>, JsonView)>, key: Seq<char>) -> Option<JsonView>
    decreases fields.len(),
{
    if fields.len() == 0 {
        None
    } else if fields[0].0 == key {
        Some(fields[0].1)
    } else {
        first_field(fields.skip(1), key)
    }
}

impl Json {
    pub fn object() -> (r: Json)
        ensures
            r@ == JsonView::object(),
    {
        let r = Json::Object(Vec::new());
        assert(r@->Object_0 =~= Seq::<(Seq<char>, JsonView)>::empty());
        r
    }

    pub fn array() -> (r: Json)
        ensures
            r@ == JsonView::array(),
    {
        let r = Json::Array(Vec::new());
        assert(r@->Array_0 =~= Seq::<JsonView>::empty());
        r
    }

    pub fn text(s: &str) -> (r: Json)
        ensures
            r@ == JsonView::Text(s@),
    {
        Json::Text(s.to_owned())
    }

    /// The object with one more field.
    pub fn with(self, key: &str, value: Json) -> (r: Json)
        ensures
            r@ == self@.with(key@, value@),
    {
        match self {
            Json::Object(fields) => {
                let ghost old_view = json_view(Json::Object(fields));
                let mut fields = fields;
                fields.push((key.to_owned(), value));
                let r = Json::Object(fields);
                assert(r@->Object_0 =~= old_view->Object_0.push((key@, value@)));
                r
            },
            other => other,
        }
    }

    /// The array with one more item.
    pub fn item(self, value: Json) -> (r: Json)
        ensures
            r@ == self@.item(value@),
    {
        match self {
            Json::Array(items) => {
                let ghost old_view = json_view(Json::Array(items));
                let mut items = items;
                items.push(value);
                let r = Json::Array(items);
                assert(r@->Array_0 =~= old_view->Array_0.push(value@));
                r
            },
            other => other,
        }
    }

    /// The value of the first field called `key`.
    pub fn field(&self, key: &str) -> (r: Option<&Json>)
        ensures
            match r {
                Some(value) => self@.field(key@) == Some(value@),
                None => self@.field(key@) is None,
            },
    {
        match self {
            Json::Object(fields) => {
                let ghost all = self@->Object_0;
                let mut i: usize = 0;
                assert(all.skip(0) =~= all);
                while i < fields.len()
                    invariant
                        i <= fields@.len(),
                        self@.field(key@) == first_field(all, key@),
                        all == json_view(Json::Object(*fields))->Object_0,
                        first_field(all, key@) == first_field(all.skip(i as int), key@),
                    decreases fields@.len() - i,
                {
                    let ghost rest = all.skip(i as int);
                    assert(rest[0] == (fields@[i as int].0@, json_view(fields@[i as int].1)));
                    if same(fields[i].0.as_str(), key) {
                        return Some(&fields[i].1);
                    }
                    assert(rest.skip(1) =~= all.skip(i + 1));
                    i = i + 1;
                }
                None
            },
            _ => None,
        }
    }

    /// The text, where the value is one.
    pub fn as_text(&self) -> (r: Option<&String>)
        ensures
            match r {
                Some(text) => self@.as_text() == Some(text@),
                None => self@.as_text() is None,
            },
    {
        match self {
            Json::Text(text) => Some(text),
            _ => None,
        }
    }

    /// The items, where the value is an array.
    pub fn as_items(&self) -> (r: Option<&Vec<Json>>)
        ensures
            match r {
                Some(items) => self@.as_items() == Some(views(items@)),
                None => self@.as_items() is None,
            },
    {
        match self {
            Json::Array(items) => {
                assert(self@->Array_0 =~= views(items@));
                Some(items)
            },
            _ => None,
        }
    }

    /// The text of the field called `key`, where there is one and it is a text.
    pub fn text_field(&self, key: &str) -> (r: Option<&String>)
        ensures
            match r {
                Some(text) => self@.text_field(key@) == Some(text@),
                None => self@.text_field(key@) is None,
            },
    {
        match self.field(key) {
            Some(value) => value.as_text(),
            None => None,
        }
    }

    /// Another copy of the value.
    pub fn duplicate(&self) -> (r: Json)
        ensures
            r@ == self@,
        decreases *self,
    {
        match self {
            Json::Null => Json::Null,
            Json::Bool(b) => Json::Bool(*b),
            Json::Number(text) => Json::Number(text.clone()),
            Json::Text(text) => Json::Text(text.clone()),
            Json::Array(items) => {
                let mut copies: Vec<Json> = Vec::new();
                let mut i: usize = 0;
                while i < items.len()
                    invariant
                        *self == Json::Array(*items),
                        i <= items@.len(),
                        copies@.len() == i,
                        forall|k: int| 0 <= k < i ==> json_view(#[trigger] copies@[k]) == json_view(
                            items@[k],
                        ),
                    decreases items@.len() - i,
                {
                    assert(decreases_to!(*self => self->Array_0));
                    assert(decreases_to!(*items => items[i as int]));
                    copies.push(items[i].duplicate());
                    i = i + 1;
                }
                let r = Json::Array(copies);
                assert(r@->Array_0 =~= self@->Array_0);
                r
            },
            Json::Object(fields) => {
                let mut copies: Vec<(String, Json)> = Vec::new();
                let mut i: usize = 0;
                while i < fields.len()
                    invariant
                        *self == Json::Object(*fields),
                        i <= fields@.len(),
                        copies@.len() == i,
                        forall|k: int|
                            0 <= k < i ==> (#[trigger] copies@[k]).0@ == fields@[k].0@ && json_view(
                                copies@[k].1,
                            ) == json_view(fields@[k].1),
                    decreases fields@.len() - i,
                {
                    assert(decreases_to!(*self => self->Object_0));
                    assert(decreases_to!(*fields => fields[i as int]));
                    assert(decreases_to!(fields[i as int] => fields[i as int].1));
                    copies.push((fields[i].0.clone(), fields[i].1.duplicate()));
                    i = i + 1;
                }
                let r = Json::Object(copies);
                assert(r@->Object_0 =~= self@->Object_0);
                r
            },
        }
    }
}

/// What a sequence of JSON values stands for.
pub open spec fn views(items: Seq<Json>) -> Seq<JsonView> {
    Seq::new(items.len(), |i: int| json_view(items[i]))
}

/// `serde_json::Value`, of which nothing is known here.
#[verifier::external_type_specification]
#[verifier::external_body]
pub struct ExValue(serde_json::Value);

/// Moves a `serde_json::Value` into a [`Json`], variant by variant.
#[verifier::external_body]
fn from_value(value: serde_json::Value) -> (json: Json) {
    match value {
        serde_json::Value::Null => Json::Null,
        serde_json::Value::Bool(b) => Json::Bool(b),
        serde_json::Value::Number(n) => Json::Number(n.to_string()),
        serde_json::Value::String(s) => Json::Text(s),
        serde_json::Value::Array(items) => Json::Array(items.into_iter().map(from_value).collect()),
        serde_json::Value::Object(map) => Json::Object(
            map.into_iter().map(|(key, value)| (key, from_value(value))).collect(),
        ),
    }
}

/// Moves a [`Json`] into a `serde_json::Value`, variant by variant. A number whose text is not one
/// of JSON's becomes `null`.
#[verifier::external_body]
fn to_value(json: &Json) -> (value: serde_json::Value) {
    match json {
        Json::Null => serde_json::Value::Null,
        Json::Bool(b) => serde_json::Value::Bool(*b),
        Json::Number(n) => n.parse().map(serde_json::Value::Number).unwrap_or_default(),
        Json::Text(s) => serde_json::Value::String(s.clone()),
        Json::Array(items) => serde_json::Value::Array(items.iter().map(to_value).collect()),
        Json::Object(fields) => serde_json::Value::Object(
            fields.iter().map(|(key, value)| (key.clone(), to_value(value))).collect(),
        ),
    }
}

/// The value that a text denotes in JSON, or why it denotes none.
pub uninterp spec fn json_read(text: Seq<char>) -> Result<JsonView, Seq<char>>;

/// The value that a JSON text denotes, if it is one.
pub open spec fn json_value(text: Seq<char>) -> Option<JsonView> {
    match json_read(text) {
        Ok(value) => Some(value),
        Err(_) => None,
    }
}

/// What reading a text gave.
pub open spec fn read_view(read: Result<Json, String>) -> Result<JsonView, Seq<char>> {
    match read {
        Ok(json) => Ok(json@),
        Err(reason) => Err(reason@),
    }
}

/// The compact JSON text of a value.
pub uninterp spec fn json_text(value: JsonView) -> Seq<char>;

/// `serde_json::from_str`, reading any JSON value. The grammar of JSON and the wording of errors are
/// not written out here: the result is only given a name.
#[verifier::external_body]
fn read_text(text: &str) -> (r: Result<Json, String>)
    ensures
        read_view(r) == json_read(text@),
{
    match serde_json::from_str::<serde_json::Value>(text) {
        Ok(value) => Ok(from_value(value)),
        Err(error) => Err(error.to_string()),
    }
}

/// `Value::to_string`: a value's compact text. What the text looks like is only given a name, and
/// reading it back gives the value (where it is nested at most a hundred levels deep, the keys of
/// its objects ascend and it holds no numbers).
#[verifier::external_body]
fn write_text(json: &Json) -> (text: String)
    ensures
        text@ == json_text(json@),
        json@.storable(100) ==> json_value(text@) == Some(json@),
{
    to_value(json).to_string()
}

/// Reads a JSON text; `None` if it is not one.
pub fn parse(text: &str) -> (r: Option<Json>)
    ensures
        match r {
            Some(json) => json_value(text@) == Some(json@),
            None => json_value(text@) is None,
        },
{
    match read_text(text) {
        Ok(json) => Some(json),
        Err(_) => None,
    }
}

/// Reads a JSON text; if it is not one, says why.
pub fn read(text: &str) -> (r: Result<Json, String>)
    ensures
        read_view(r) == json_read(text@),
{
    read_text(text)
}

/// Writes a value as compact JSON text.
pub fn print(json: &Json) -> (text: String)
    ensures
        text@ == json_text(json@),
        json@.storable(100) ==> json_value(text@) == Some(json@),
{
    write_text(json)
}

/// A complaint about a text, with the reason where the text was no JSON at all.
pub open spec fn with_reason(complaint: Seq<char>, value: Result<JsonView, Seq<char>>) -> Seq<char> {
    match value {
        Ok(_) => complaint,
        Err(reason) => complaint + ": "@ + reason,
    }
}

/// A complaint about a text, with the reason where the text was no JSON at all.
pub fn complain(complaint: &str, value: &Result<Json, String>) -> (r: String)
    ensures
        r@ == with_reason(complaint@, read_view(*value)),
{
    let mut r = complaint.to_owned();
    if let Err(reason) = value {
        r.push_str(": ");
        r.push_str(reason.as_str());
    }
    r
}

/// What a key names in an object that got one more field: what it named before, and the new value
/// where the key is new.
pub proof fn lemma_field_with(value: JsonView, key: Seq<char>, added: JsonView, asked: Seq<char>)
    requires
        value is Object,
    ensures
        value.with(key, added) is Object,
        value.with(key, added).field(asked) == (if value.field(asked) is Some {
            value.field(asked)
        } else if asked == key {
            Some(added)
        } else {
            None
        }),
{
    lemma_first_field_push(value->Object_0, key, added, asked);
}

proof fn lemma_first_field_push(
    fields: Seq<(Seq<char>, JsonView)>,
    key: Seq<char>,
    added: JsonView,
    asked: Seq<char>,
)
    ensures
        first_field(fields.push((key, added)), asked) == (if first_field(fields, asked) is Some {
            first_field(fields, asked)
        } else if asked == key {
            Some(added)
        } else {
            None
        }),
    decreases fields.len(),
{
    let all = fields.push((key, added));
    reveal_with_fuel(first_field, 2);
    if fields.len() == 0 {
        assert(all.skip(1).len() == 0);
    } else if fields[0].0 != asked {
        lemma_first_field_push(fields.skip(1), key, added, asked);
        assert(all.skip(1) =~= fields.skip(1).push((key, added)));
    }
}

/// An object without fields names nothing.
pub proof fn lemma_no_field(asked: Seq<char>)
    ensures
        JsonView::object() is Object,
        JsonView::object().field(asked) is None,
{
    reveal_with_fuel(first_field, 1);
}

/// What the keys of an object of two fields name.
pub proof fn lemma_two_fields(a: Seq<char>, x: JsonView, b: Seq<char>, y: JsonView)
    requires
        a != b,
    ensures
        ({
            let value = JsonView::object().with(a, x).with(b, y);
            &&& value is Object
            &&& value.field(a) == Some(x)
            &&& value.field(b) == Some(y)
            &&& forall|key: Seq<char>|
                key != a && key != b ==> (#[trigger] value.field(key)) is None
        }),
{
    let none = JsonView::object();
    let one = none.with(a, x);
    assert forall|key: Seq<char>| true implies {
        &&& one is Object
        &&& #[trigger] one.with(b, y).field(key) == (if key == a {
            Some(x)
        } else if key == b {
            Some(y)
        } else {
            None
        })
    } by {
        lemma_no_field(key);
        lemma_field_with(none, a, x, key);
        lemma_field_with(one, b, y, key);
    }
    assert(one.with(b, y).field(a) == Some(x));
}

/// What the keys of an object of three fields name.
pub proof fn lemma_three_fields(
    a: Seq<char>,
    x: JsonView,
    b: Seq<char>,
    y: JsonView,
    c: Seq<char>,
    z: JsonView,
)
    requires
        a != b,
        a != c,
        b != c,
    ensures
        ({
            let value = JsonView::object().with(a, x).with(b, y).with(c, z);
            &&& value is Object
            &&& value.field(a) == Some(x)
            &&& value.field(b) == Some(y)
            &&& value.field(c) == Some(z)
            &&& forall|key: Seq<char>|
                key != a && key != b && key != c ==> (#[trigger] value.field(key)) is None
        }),
{
    let two = JsonView::object().with(a, x).with(b, y);
    lemma_two_fields(a, x, b, y);
    assert forall|key: Seq<char>| true implies #[trigger] two.with(c, z).field(key) == (if key
        == a {
        Some(x)
    } else if key == b {
        Some(y)
    } else if key == c {
        Some(z)
    } else {
        None
    }) by {
        lemma_field_with(two, c, z, key);
        assert(key != a && key != b ==> two.field(key) is None);
    }
    assert(two.with(c, z).field(a) == Some(x));
}

/// A complaint about a text that could not be read ends with the reason; about one that could it stands
/// alone.
pub proof fn law_complaints_end_with_their_reason(
    complaint: Seq<char>,
    value: JsonView,
    reason: Seq<char>,
)
    ensures
        with_reason(complaint, Ok(value)) == complaint,
        in_turn(with_reason(complaint, Err(reason)), seq![complaint, reason]),
        ends_in(with_reason(complaint, Err(reason)), reason),
{
    let empty: Seq<char> = seq![];
    lemma_two(empty, complaint, ": "@, reason, empty);
    assert(with_reason(complaint, Err(reason)) =~= empty + complaint + ": "@ + reason + empty);
    lemma_ends_in(complaint + ": "@, reason);
}

/// The first field of a key counts, and a field that is added is found where its key is new.
pub proof fn law_fields_are_found(value: JsonView, key: Seq<char>, added: JsonView, other: Seq<char>)
    requires
        value is Object,
    ensures
        value.field(key) is None ==> value.with(key, added).field(key) == Some(added),
        value.field(key) is Some ==> value.with(key, added).field(key) == value.field(key),
        other != key ==> value.with(key, added).field(other) == value.field(other),
{
    lemma_field_with(value, key, added, key);
    lemma_field_with(value, key, added, other);
}

} // verus!
