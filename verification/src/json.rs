//! JSON values.
use crate::number::Number;
use vstd::prelude::*;

verus! {

/// A number of a JSON text.
#[derive(Clone, Copy, Debug, PartialEq, Eq, Structural)]
pub struct JsonNumber {
    pub value: Number,
    /// The number as an integer, where it is one of sixty-four bits with a sign.
    pub integer: Option<i64>,
}

/// A JSON value. The members of an object are in the order of their names.
#[derive(Debug)]
pub enum Json {
    Null,
    Bool(bool),
    Number(JsonNumber),
    Text(String),
    List(Vec<Json>),
    Object(Vec<(String, Json)>),
}

#[verifier::ext_equal]
pub enum JsonView {
    Null,
    Bool(bool),
    Number(JsonNumber),
    Text(Seq<char>),
    List(Seq<JsonView>),
    Object(Seq<(Seq<char>, JsonView)>),
}

impl View for Json {
    type V = JsonView;

    open spec fn view(&self) -> JsonView {
        json_view(*self)
    }
}

pub open spec fn json_view(json: Json) -> JsonView
    decreases json,
{
    match json {
        Json::Null => JsonView::Null,
        Json::Bool(b) => JsonView::Bool(b),
        Json::Number(n) => JsonView::Number(n),
        Json::Text(s) => JsonView::Text(s@),
        Json::List(items) => JsonView::List(
            Seq::new(
                items@.len(),
                |i: int|
                    if 0 <= i < items@.len() {
                        json_view(items@[i])
                    } else {
                        JsonView::Null
                    },
            ),
        ),
        Json::Object(members) => JsonView::Object(
            Seq::new(
                members@.len(),
                |i: int|
                    if 0 <= i < members@.len() {
                        (members@[i].0@, json_view(members@[i].1))
                    } else {
                        (Seq::empty(), JsonView::Null)
                    },
            ),
        ),
    }
}

/// A value of `serde_json`, which Verus does not look into.
#[verifier::external_type_specification]
#[verifier::external_body]
pub struct ExValue(serde_json::Value);

/// Turns a `serde_json::Value` into a `Json`, variant for variant. The number is that of
/// `Number::as_f64` and of `Number::as_i64`.
#[verifier::external_body]
fn json_from(value: serde_json::Value) -> (r: Json) {
    match value {
        serde_json::Value::Null => Json::Null,
        serde_json::Value::Bool(b) => Json::Bool(b),
        serde_json::Value::Number(n) => Json::Number(
            JsonNumber {
                value: Number { bits: n.as_f64().unwrap_or_default().to_bits() },
                integer: n.as_i64(),
            },
        ),
        serde_json::Value::String(s) => Json::Text(s),
        serde_json::Value::Array(items) => Json::List(items.into_iter().map(json_from).collect()),
        serde_json::Value::Object(members) => Json::Object(
            members.into_iter().map(|(name, value)| (name, json_from(value))).collect(),
        ),
    }
}

/// The value that a text writes in JSON, if it is one.
pub uninterp spec fn json_of_text(text: Seq<char>) -> Option<JsonView>;

/// The value that the bytes of a text write in JSON, or what is said of them where they write none.
pub uninterp spec fn parsed_bytes(bytes: Seq<u8>) -> Result<JsonView, Seq<char>>;

/// The value that the bytes of a text write in JSON, if they are one.
pub open spec fn json_of_bytes(bytes: Seq<u8>) -> Option<JsonView> {
    match parsed_bytes(bytes) {
        Ok(v) => Some(v),
        Err(_) => None,
    }
}

pub open spec fn json_result(value: Result<Json, String>) -> Result<JsonView, Seq<char>> {
    match value {
        Ok(v) => Ok(v@),
        Err(error) => Err(error@),
    }
}

pub open spec fn json_option(value: Option<Json>) -> Option<JsonView> {
    match value {
        Some(v) => Some(v@),
        None => None,
    }
}

/// `serde_json::from_str` into a `serde_json::Value`: what it gives, or that it fails, depends on
/// the text alone.
#[verifier::external_body]
pub(crate) fn parse_text(text: &str) -> (r: Option<Json>)
    ensures
        json_option(r) == json_of_text(text@),
{
    serde_json::from_str(text).ok().map(json_from)
}

/// `serde_json::from_slice` into a `serde_json::Value`: what it gives, or the message of its
/// error, depends on the bytes alone.
#[verifier::external_body]
pub(crate) fn read_bytes(bytes: &[u8]) -> (r: Result<Json, String>)
    ensures
        json_result(r) == parsed_bytes(bytes@),
{
    match serde_json::from_slice(bytes) {
        Ok(value) => Ok(json_from(value)),
        Err(error) => Err(error.to_string()),
    }
}

/// The value that some bytes write in JSON.
pub fn parse_bytes(bytes: &[u8]) -> (r: Option<Json>)
    ensures
        json_option(r) == json_of_bytes(bytes@),
{
    match read_bytes(bytes) {
        Ok(v) => Some(v),
        Err(_) => None,
    }
}

impl JsonView {
    /// The member `name` of an object.
    pub open spec fn member(self, name: Seq<char>) -> Option<JsonView> {
        match self {
            JsonView::Object(members) => member_of(members, name),
            _ => None,
        }
    }

    pub open spec fn text(self) -> Option<Seq<char>> {
        match self {
            JsonView::Text(s) => Some(s),
            _ => None,
        }
    }

    pub open spec fn number(self) -> Option<Number> {
        match self {
            JsonView::Number(n) => Some(n.value),
            _ => None,
        }
    }

    pub open spec fn integer(self) -> Option<i64> {
        match self {
            JsonView::Number(n) => n.integer,
            _ => None,
        }
    }

    pub open spec fn flag(self) -> Option<bool> {
        match self {
            JsonView::Bool(b) => Some(b),
            _ => None,
        }
    }

    /// The text of the member `name`.
    pub open spec fn member_text(self, name: Seq<char>) -> Option<Seq<char>> {
        match self.member(name) {
            Some(v) => v.text(),
            None => None,
        }
    }

    /// The number of the member `name`.
    pub open spec fn member_number(self, name: Seq<char>) -> Option<Number> {
        match self.member(name) {
            Some(v) => v.number(),
            None => None,
        }
    }

    /// The integer of the member `name`.
    pub open spec fn member_integer(self, name: Seq<char>) -> Option<i64> {
        match self.member(name) {
            Some(v) => v.integer(),
            None => None,
        }
    }

    /// The truth value of the member `name`.
    pub open spec fn member_flag(self, name: Seq<char>) -> Option<bool> {
        match self.member(name) {
            Some(v) => v.flag(),
            None => None,
        }
    }
}

/// The value of the first member with this name.
pub open spec fn member_of(members: Seq<(Seq<char>, JsonView)>, name: Seq<char>) -> Option<JsonView>
    decreases members.len(),
{
    if members.len() == 0 {
        None
    } else if members[0].0 == name {
        Some(members[0].1)
    } else {
        member_of(members.skip(1), name)
    }
}

/// The values behind the members of an object.
pub open spec fn member_views(members: Seq<(String, Json)>) -> Seq<(Seq<char>, JsonView)> {
    Seq::new(
        members.len(),
        |i: int|
            if 0 <= i < members.len() {
                (members[i].0@, members[i].1@)
            } else {
                (Seq::empty(), JsonView::Null)
            },
    )
}

/// The values behind the items of a list.
pub open spec fn item_views(items: Seq<Json>) -> Seq<JsonView> {
    Seq::new(
        items.len(),
        |i: int|
            if 0 <= i < items.len() {
                items[i]@
            } else {
                JsonView::Null
            },
    )
}

pub open spec fn str_option(v: Option<&str>) -> Option<Seq<char>> {
    match v {
        Some(s) => Some(s@),
        None => None,
    }
}

impl Json {
    /// The view of an object or a list is that of its parts.
    pub proof fn parts(self)
        ensures
            self matches Json::Object(members) ==> self@ == JsonView::Object(
                member_views(members@),
            ),
            self matches Json::List(items) ==> self@ == JsonView::List(item_views(items@)),
    {
        reveal_with_fuel(json_view, 2);
        match self {
            Json::Object(members) => {
                assert(self@->Object_0 == member_views(members@));
            },
            Json::List(items) => {
                assert(self@->List_0 == item_views(items@));
            },
            _ => {},
        }
    }

    pub fn get(&self, name: &str) -> (r: Option<&Json>)
        ensures
            match r {
                Some(v) => self@.member(name@) == Some(v@),
                None => self@.member(name@) is None,
            },
    {
        proof {
            self.parts();
        }
        match self {
            Json::Object(members) => {
                let ghost all = member_views(members@);
                let mut i: usize = 0;
                assert(all.skip(0) == all);
                while i < members.len()
                    invariant
                        i <= members@.len(),
                        all == member_views(members@),
                        self@.member(name@) == member_of(all, name@),
                        member_of(all, name@) == member_of(all.skip(i as int), name@),
                    decreases members.len() - i,
                {
                    assert(all.skip(i as int)[0] == (members@[i as int].0@, members@[i as int].1@));
                    if crate::text::same(members[i].0.as_str(), name) {
                        return Some(&members[i].1);
                    }
                    assert(all.skip(i as int).skip(1) == all.skip(i + 1));
                    i += 1;
                }
                None
            },
            _ => None,
        }
    }

    pub fn as_str(&self) -> (r: Option<&str>)
        ensures
            str_option(r) == self@.text(),
    {
        match self {
            Json::Text(s) => Some(s.as_str()),
            _ => None,
        }
    }

    pub fn as_number(&self) -> (r: Option<Number>)
        ensures
            r == self@.number(),
    {
        match self {
            Json::Number(n) => Some(n.value),
            _ => None,
        }
    }

    pub fn get_str(&self, name: &str) -> (r: Option<&str>)
        ensures
            str_option(r) == self@.member_text(name@),
    {
        match self.get(name) {
            Some(v) => v.as_str(),
            None => None,
        }
    }

    pub fn get_number(&self, name: &str) -> (r: Option<Number>)
        ensures
            r == self@.member_number(name@),
    {
        match self.get(name) {
            Some(v) => v.as_number(),
            None => None,
        }
    }

    pub fn get_integer(&self, name: &str) -> (r: Option<i64>)
        ensures
            r == self@.member_integer(name@),
    {
        match self.get(name) {
            Some(Json::Number(n)) => n.integer,
            _ => None,
        }
    }

    pub fn get_flag(&self, name: &str) -> (r: Option<bool>)
        ensures
            r == self@.member_flag(name@),
    {
        match self.get(name) {
            Some(Json::Bool(b)) => Some(*b),
            _ => None,
        }
    }
}

/// The digit of a number below sixteen.
pub open spec fn hex_digit(n: int) -> char {
    if n < 10 {
        (('0' as u32) + n) as char
    } else {
        (('a' as u32) + n - 10) as char
    }
}

/// A character inside a string of JSON: quotes, backslashes and control characters are escaped, by
/// a letter where they have one.
pub open spec fn quoted_char(c: char) -> Seq<char> {
    if c == '"' || c == '\\' {
        seq!['\\', c]
    } else if c == '\u{8}' {
        seq!['\\', 'b']
    } else if c == '\t' {
        seq!['\\', 't']
    } else if c == '\n' {
        seq!['\\', 'n']
    } else if c == '\u{c}' {
        seq!['\\', 'f']
    } else if c == '\r' {
        seq!['\\', 'r']
    } else if c as int <= 31 {
        seq!['\\', 'u', '0', '0', hex_digit(c as int / 16), hex_digit(c as int % 16)]
    } else {
        seq![c]
    }
}

pub open spec fn quoted_chars(text: Seq<char>) -> Seq<char>
    decreases text.len(),
{
    if text.len() == 0 {
        Seq::empty()
    } else {
        quoted_chars(text.drop_last()) + quoted_char(text.last())
    }
}

/// A text as a string of JSON.
pub open spec fn quoted_text(text: Seq<char>) -> Seq<char> {
    seq!['"'] + quoted_chars(text) + seq!['"']
}

/// `serde_json::to_string` of a text, which can always be written: in double quotes, with its
/// quotes, backslashes and characters below a blank escaped, and every other character as it is.
#[verifier::external_body]
pub(crate) fn quote(text: &str) -> (r: String)
    ensures
        r@ == quoted_text(text@),
{
    serde_json::to_string(text).unwrap_or_default()
}

} // verus!
