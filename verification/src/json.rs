//! JSON values as the library reads them.
//!
//! Parsing is left to `serde_json`; what comes back is copied into [`Json`], a plain
//! tree. Each node keeps its compact text, so that it can be quoted in a message
//! without being written out again, and the value it was read from, so that it can be
//! sent on as it came.

use vstd::prelude::*;
use vstd::string::*;
use serde_json::Value;
use crate::number;
use crate::text::same;

verus! {

/// A JSON value with its compact text and the value it was read from.
#[derive(Debug)]
pub struct Json {
    node: JsonNode,
    text: String,
    value: Value,
}

#[derive(Debug)]
enum JsonNode {
    Null,
    Bool(bool),
    /// A number: its value as a signed and as an unsigned 64-bit integer, where it is one.
    Number { signed: Option<i64>, unsigned: Option<u64> },
    Str(String),
    Array(Vec<Json>),
    /// The members, in the order of the object.
    Object(Vec<(String, Json)>),
}

/// What a JSON value holds.
pub enum JsonView {
    Null,
    Bool(bool),
    Number { signed: Option<i64>, unsigned: Option<u64>, text: Seq<char> },
    Str(Seq<char>),
    Array(Seq<JsonView>),
    Object(Seq<(Seq<char>, JsonView)>),
}

impl Json {
    /// The kept text and the kept value are the node's own.
    #[verifier::type_invariant]
    spec fn keeps_value(self) -> bool {
        self.text@ == json_text(self.view()) && value_view(self.value) == self.view()
    }

    pub closed spec fn view(self) -> JsonView
        decreases self,
    {
        match self.node {
            JsonNode::Null => JsonView::Null,
            JsonNode::Bool(b) => JsonView::Bool(b),
            JsonNode::Number { signed, unsigned } => JsonView::Number {
                signed,
                unsigned,
                text: self.text@,
            },
            JsonNode::Str(s) => JsonView::Str(s@),
            JsonNode::Array(a) => JsonView::Array(
                Seq::new(
                    a@.len(),
                    |i: int|
                        if 0 <= i < a@.len() {
                            a@[i].view()
                        } else {
                            JsonView::Null
                        },
                ),
            ),
            JsonNode::Object(o) => JsonView::Object(
                Seq::new(
                    o@.len(),
                    |i: int|
                        if 0 <= i < o@.len() {
                            (o@[i].0@, o@[i].1.view())
                        } else {
                            (Seq::<char>::empty(), JsonView::Null)
                        },
                ),
            ),
        }
    }
}

// ---------- reading a value ----------

/// The first member with the given name.
pub open spec fn member_from(o: Seq<(Seq<char>, JsonView)>, key: Seq<char>, i: int) -> Option<
    JsonView,
>
    decreases o.len() - i,
{
    if i < 0 || i >= o.len() {
        None
    } else if o[i].0 == key {
        Some(o[i].1)
    } else {
        member_from(o, key, i + 1)
    }
}

/// The member of an object, where the value is one and has it.
pub open spec fn member(v: JsonView, key: Seq<char>) -> Option<JsonView> {
    match v {
        JsonView::Object(o) => member_from(o, key, 0),
        _ => None,
    }
}

/// The member of an object, null where there is none.
pub open spec fn field(v: JsonView, key: Seq<char>) -> JsonView {
    match member(v, key) {
        Some(x) => x,
        None => JsonView::Null,
    }
}

/// An element of an array, null where there is none.
pub open spec fn element(v: JsonView, i: int) -> JsonView {
    match v {
        JsonView::Array(a) => if 0 <= i < a.len() {
            a[i]
        } else {
            JsonView::Null
        },
        _ => JsonView::Null,
    }
}

pub open spec fn str_of(v: JsonView) -> Option<Seq<char>> {
    match v {
        JsonView::Str(s) => Some(s),
        _ => None,
    }
}

pub open spec fn i64_of(v: JsonView) -> Option<i64> {
    match v {
        JsonView::Number { signed, .. } => signed,
        _ => None,
    }
}

pub open spec fn u64_of(v: JsonView) -> Option<u64> {
    match v {
        JsonView::Number { unsigned, .. } => unsigned,
        _ => None,
    }
}

pub open spec fn bool_of(v: JsonView) -> Option<bool> {
    match v {
        JsonView::Bool(b) => Some(b),
        _ => None,
    }
}

/// The text of a string member, or `default`.
pub open spec fn str_field_or(v: JsonView, key: Seq<char>, default: Seq<char>) -> Seq<char> {
    match str_of(field(v, key)) {
        Some(s) => s,
        None => default,
    }
}

/// The texts among the elements.
pub open spec fn texts_of(a: Seq<JsonView>) -> Seq<Seq<char>>
    decreases a.len(),
{
    if a.len() == 0 {
        Seq::<Seq<char>>::empty()
    } else {
        match str_of(a.last()) {
            Some(s) => texts_of(a.drop_last()).push(s),
            None => texts_of(a.drop_last()),
        }
    }
}

/// The elements of an array; none of another value.
pub open spec fn elements(v: JsonView) -> Seq<JsonView> {
    match v {
        JsonView::Array(a) => a,
        _ => Seq::<JsonView>::empty(),
    }
}

impl Json {
    /// The texts among the elements of an array.
    pub fn texts(&self) -> (r: Vec<String>)
        ensures
            crate::text::views(r@) == texts_of(elements(self@)),
    {
        let mut r: Vec<String> = Vec::new();
        let n: usize = match self.array_len() {
            Some(n) => n,
            None => {
                assert(crate::text::views(r@) =~= Seq::<Seq<char>>::empty());
                return r;
            },
        };
        let ghost a = elements(self@);
        let mut i: usize = 0;
        assert(crate::text::views(r@) =~= texts_of(a.take(0)));
        while i < n
            invariant
                i <= n,
                self@ is Array,
                a == elements(self@),
                a.len() == n,
                crate::text::views(r@) == texts_of(a.take(i as int)),
            decreases n - i,
        {
            proof {
                assert(a.take(i + 1).drop_last() == a.take(i as int));
                assert(a.take(i + 1).last() == a[i as int]);
            }
            if let Some(j) = self.at(i) {
                if let Some(s) = j.as_str() {
                    let ghost before = r@;
                    r.push(s.to_owned());
                    assert(crate::text::views(r@) =~= crate::text::views(before).push(s@));
                }
            }
            i += 1;
        }
        assert(a.take(n as int) == a);
        r
    }

    /// The member with the given name.
    pub fn get(&self, key: &str) -> (r: Option<&Json>)
        ensures
            match r {
                Some(j) => member(self@, key@) == Some(j@),
                None => member(self@, key@) is None,
            },
    {
        match &self.node {
            JsonNode::Object(o) => {
                let ghost ov = self@->Object_0;
                let mut i: usize = 0;
                while i < o.len()
                    invariant
                        i <= o@.len(),
                        ov.len() == o@.len(),
                        self@ == JsonView::Object(ov),
                        forall|k: int|
                            0 <= k < o@.len() ==> #[trigger] ov[k] == (o@[k].0@, o@[k].1.view()),
                        member_from(ov, key@, 0) == member_from(ov, key@, i as int),
                    decreases o@.len() - i,
                {
                    assert(ov[i as int] == (o@[i as int].0@, o@[i as int].1.view()));
                    if same(o[i].0.as_str(), key) {
                        return Some(&o[i].1);
                    }
                    i += 1;
                }
                None
            },
            _ => None,
        }
    }

    pub fn as_str(&self) -> (r: Option<&str>)
        ensures
            match r {
                Some(s) => str_of(self@) == Some(s@),
                None => str_of(self@) is None,
            },
    {
        match &self.node {
            JsonNode::Str(s) => Some(s.as_str()),
            _ => None,
        }
    }

    pub fn as_i64(&self) -> (r: Option<i64>)
        ensures
            r == i64_of(self@),
    {
        match &self.node {
            JsonNode::Number { signed, .. } => *signed,
            _ => None,
        }
    }

    pub fn as_u64(&self) -> (r: Option<u64>)
        ensures
            r == u64_of(self@),
    {
        match &self.node {
            JsonNode::Number { unsigned, .. } => *unsigned,
            _ => None,
        }
    }

    pub fn as_bool(&self) -> (r: Option<bool>)
        ensures
            r == bool_of(self@),
    {
        match &self.node {
            JsonNode::Bool(b) => Some(*b),
            _ => None,
        }
    }

    /// The text of a string member.
    pub fn str_field(&self, key: &str) -> (r: Option<&str>)
        ensures
            match r {
                Some(s) => str_of(field(self@, key@)) == Some(s@),
                None => str_of(field(self@, key@)) is None,
            },
    {
        match self.get(key) {
            Some(j) => j.as_str(),
            None => None,
        }
    }

    /// The text of a string member, or `default`.
    pub fn str_field_or<'a>(&'a self, key: &str, default: &'a str) -> (r: &'a str)
        ensures
            r@ == str_field_or(self@, key@, default@),
    {
        match self.str_field(key) {
            Some(s) => s,
            None => default,
        }
    }

    pub fn i64_field(&self, key: &str) -> (r: Option<i64>)
        ensures
            r == i64_of(field(self@, key@)),
    {
        match self.get(key) {
            Some(j) => j.as_i64(),
            None => None,
        }
    }

    pub fn u64_field(&self, key: &str) -> (r: Option<u64>)
        ensures
            r == u64_of(field(self@, key@)),
    {
        match self.get(key) {
            Some(j) => j.as_u64(),
            None => None,
        }
    }

    pub fn bool_field(&self, key: &str) -> (r: Option<bool>)
        ensures
            r == bool_of(field(self@, key@)),
    {
        match self.get(key) {
            Some(j) => j.as_bool(),
            None => None,
        }
    }

    /// The value in compact notation.
    pub fn text(&self) -> (r: &str)
        ensures
            r@ == json_text(self@),
    {
        proof {
            use_type_invariant(self);
        }
        self.text.as_str()
    }

    /// The number of elements of an array; none for another value.
    pub fn array_len(&self) -> (r: Option<usize>)
        ensures
            match r {
                Some(n) => self@ is Array && self@->Array_0.len() == n,
                None => !(self@ is Array),
            },
    {
        match &self.node {
            JsonNode::Array(a) => Some(a.len()),
            _ => None,
        }
    }

    pub fn is_object(&self) -> (r: bool)
        ensures
            r == (self@ is Object),
    {
        matches!(self.node, JsonNode::Object(_))
    }

    pub fn is_null(&self) -> (r: bool)
        ensures
            r == (self@ is Null),
    {
        matches!(self.node, JsonNode::Null)
    }

    /// An element of an array.
    pub fn at(&self, i: usize) -> (r: Option<&Json>)
        ensures
            match r {
                Some(j) => self@ is Array && i < self@->Array_0.len() && self@->Array_0[i as int]
                    == j@,
                None => !(self@ is Array && i < self@->Array_0.len()),
            },
    {
        match &self.node {
            JsonNode::Array(a) => if i < a.len() {
                Some(&a[i])
            } else {
                None
            },
            _ => None,
        }
    }
}

// ---------- parsing ----------

/// `serde_json::Value`: a parsed JSON document.
#[verifier::external_type_specification]
#[verifier::external_body]
pub struct ExValue(serde_json::Value);

/// `serde_json::Error`: why a text is not a JSON document.
#[verifier::external_type_specification]
#[verifier::external_body]
pub struct ExError(serde_json::Error);

/// What a `serde_json::Value` holds.
pub uninterp spec fn value_view(v: serde_json::Value) -> JsonView;

/// What `serde_json::from_str` reads in a text; none where it reports an error.
pub uninterp spec fn json_parse(text: Seq<char>) -> Option<JsonView>;

/// The compact notation that `serde_json` writes for a value.
pub uninterp spec fn json_text(v: JsonView) -> Seq<char>;

/// What a `serde_json::Error` says.
pub uninterp spec fn error_view(e: serde_json::Error) -> Seq<char>;

/// What `serde_json::from_str` says is wrong with a text that it does not read.
pub uninterp spec fn json_error(text: Seq<char>) -> Seq<char>;

/// `serde_json::from_str`: reads the text as a JSON document, or says why it is none.
#[verifier::external_body]
fn value_from_str(text: &str) -> (r: Result<Value, serde_json::Error>)
    ensures
        match r {
            Ok(v) => json_parse(text@) == Some(value_view(v)),
            Err(e) => json_parse(text@) is None && error_view(e) == json_error(text@),
        },
{
    serde_json::from_str(text)
}

/// `serde_json::Error::to_string` (its `Display`): the error in words.
#[verifier::external_body]
fn error_to_string(e: &serde_json::Error) -> (r: String)
    ensures
        r@ == error_view(*e),
{
    e.to_string()
}

/// `Value::to_string` (its `Display`): writes the value in compact notation.
#[verifier::external_body]
fn value_to_string(v: &Value) -> (r: String)
    ensures
        r@ == json_text(value_view(*v)),
{
    v.to_string()
}

/// One level of a `serde_json::Value`.
enum Layer<'a> {
    Null,
    Bool(bool),
    Number { signed: Option<i64>, unsigned: Option<u64>, text: String },
    Str(String),
    Array(&'a Vec<Value>),
    Object(Vec<(String, &'a Value)>),
}

/// The variants of `serde_json::Value`, with `Number::as_i64`, `Number::as_u64` and the
/// number's text: the outermost level of a value, its parts left as they are.
#[verifier::external_body]
fn peel(v: &Value) -> (r: Layer<'_>)
    ensures
        match r {
            Layer::Null => value_view(*v) == JsonView::Null,
            Layer::Bool(b) => value_view(*v) == JsonView::Bool(b),
            Layer::Number { signed, unsigned, text } => value_view(*v) == (JsonView::Number {
                signed,
                unsigned,
                text: text@,
            }) && text@ == json_text(value_view(*v)),
            Layer::Str(s) => value_view(*v) == JsonView::Str(s@),
            Layer::Array(a) => value_view(*v) == JsonView::Array(
                a@.map_values(|x: Value| value_view(x)),
            ),
            Layer::Object(o) => value_view(*v) == JsonView::Object(
                o@.map_values(|x: (String, &Value)| (x.0@, value_view(*x.1))),
            ),
        },
{
    match v {
        Value::Null => Layer::Null,
        Value::Bool(b) => Layer::Bool(*b),
        Value::Number(n) => Layer::Number { signed: n.as_i64(), unsigned: n.as_u64(), text: n.to_string() },
        Value::String(s) => Layer::Str(s.clone()),
        Value::Array(a) => Layer::Array(a),
        Value::Object(o) => Layer::Object(o.iter().map(|(k, x)| (k.clone(), x)).collect()),
    }
}

/// `Value::clone`: another value that holds the same.
#[verifier::external_body]
fn copy_value(v: &Value) -> (r: Value)
    ensures
        value_view(r) == value_view(*v),
{
    v.clone()
}

/// Copies a value into a plain tree.
fn from_value(v: &Value) -> (r: Json)
    ensures
        r@ == value_view(*v),
    decreases value_view(*v),
{
    let text = value_to_string(v);
    let value = copy_value(v);
    match peel(v) {
        Layer::Null => Json { node: JsonNode::Null, text, value },
        Layer::Bool(b) => Json { node: JsonNode::Bool(b), text, value },
        Layer::Number { signed, unsigned, text: _ } => Json {
            node: JsonNode::Number { signed, unsigned },
            text,
            value,
        },
        Layer::Str(s) => Json { node: JsonNode::Str(s), text, value },
        Layer::Array(a) => {
            let ghost av = value_view(*v)->Array_0;
            let mut items: Vec<Json> = Vec::new();
            let mut i: usize = 0;
            while i < a.len()
                invariant
                    i <= a@.len(),
                    items@.len() == i,
                    value_view(*v) == JsonView::Array(av),
                    av == a@.map_values(|x: Value| value_view(x)),
                    forall|k: int| 0 <= k < i ==> #[trigger] items@[k].view() == av[k],
                decreases a@.len() - i,
            {
                assert(av[i as int] == value_view(a@[i as int]));
                assert(decreases_to!(value_view(*v) => value_view(*v)->Array_0[i as int]));
                let j = from_value(&a[i]);
                items.push(j);
                i += 1;
            }
            proof {
                let whole = Json { node: JsonNode::Array(items), text, value };
                assert forall|k: int| 0 <= k < av.len() implies whole@->Array_0[k] == av[k] by {
                    assert(whole.node->Array_0@[k].view() == av[k]);
                }
                assert(whole@->Array_0 =~= av);
            }
            Json { node: JsonNode::Array(items), text, value }
        },
        Layer::Object(o) => {
            let ghost ov = value_view(*v)->Object_0;
            let mut items: Vec<(String, Json)> = Vec::new();
            let mut i: usize = 0;
            while i < o.len()
                invariant
                    i <= o@.len(),
                    items@.len() == i,
                    value_view(*v) == JsonView::Object(ov),
                    ov == o@.map_values(|x: (String, &Value)| (x.0@, value_view(*x.1))),
                    forall|k: int|
                        0 <= k < i ==> (#[trigger] items@[k].0@, items@[k].1.view()) == ov[k],
                decreases o@.len() - i,
            {
                assert(ov[i as int] == (o@[i as int].0@, value_view(*o@[i as int].1)));
                assert(decreases_to!(value_view(*v) => value_view(*v)->Object_0[i as int]));
                assert(decreases_to!(ov[i as int] => ov[i as int].1));
                let j = from_value(o[i].1);
                items.push((o[i].0.clone(), j));
                i += 1;
            }
            proof {
                let whole = Json { node: JsonNode::Object(items), text, value };
                assert(whole@->Object_0 =~= ov);
            }
            Json { node: JsonNode::Object(items), text, value }
        },
    }
}

/// `serde_json::Value::Null`.
#[verifier::external_body]
fn null_value() -> (r: Value)
    ensures
        value_view(r) == JsonView::Null,
{
    Value::Null
}

/// `Value::from` on an integer.
#[verifier::external_body]
fn int_value(i: i64) -> (r: Value)
    ensures
        value_view(r) == (JsonView::Number {
            signed: Some(i),
            unsigned: if i >= 0 {
                Some(i as u64)
            } else {
                None
            },
            text: number::dec(i as int),
        }),
{
    Value::from(i)
}

/// `Value::from` on a truth value.
#[verifier::external_body]
fn bool_value(b: bool) -> (r: Value)
    ensures
        value_view(r) == JsonView::Bool(b),
{
    Value::from(b)
}

/// `Value::from` on a text.
#[verifier::external_body]
fn str_value(s: &str) -> (r: Value)
    ensures
        value_view(r) == JsonView::Str(s@),
{
    Value::from(s)
}

/// `serde_json::Map::new` in `Value::Object`: an object without members.
#[verifier::external_body]
fn new_object() -> (r: Value)
    ensures
        value_view(r) == JsonView::Object(Seq::<(Seq<char>, JsonView)>::empty()),
{
    Value::Object(serde_json::Map::new())
}

/// Assignment to a member of a `Value` by its name (`IndexMut`): the member has the new
/// value, whether it was there before or not, and the others have theirs. Nothing is
/// said of the order in which an object keeps its members.
#[verifier::external_body]
fn put_member(o: &mut Value, key: &str, v: Value)
    requires
        value_view(*old(o)) is Object,
    ensures
        value_view(*final(o)) is Object,
        forall|k: Seq<char>| #[trigger]
            member(value_view(*final(o)), k) == if k == key@ {
                Some(value_view(v))
            } else {
                member(value_view(*old(o)), k)
            },
{
    o[key] = v;
}

/// What a part of a message to be sent holds.
#[derive(Debug, Clone)]
pub enum Part {
    Int(i64),
    Bool(bool),
    Text(String),
    /// A value as it was received.
    Value(Json),
}

pub enum PartView {
    Int(i64),
    Bool(bool),
    Text(Seq<char>),
    Value(JsonView),
}

impl View for Part {
    type V = PartView;

    open spec fn view(&self) -> PartView {
        match self {
            Part::Int(i) => PartView::Int(*i),
            Part::Bool(b) => PartView::Bool(*b),
            Part::Text(s) => PartView::Text(s@),
            Part::Value(j) => PartView::Value(j@),
        }
    }
}

/// The JSON value that stands for a part.
pub open spec fn part_json(p: PartView) -> JsonView {
    match p {
        PartView::Int(i) => JsonView::Number {
            signed: Some(i),
            unsigned: if i >= 0 {
                Some(i as u64)
            } else {
                None
            },
            text: number::dec(i as int),
        },
        PartView::Bool(b) => JsonView::Bool(b),
        PartView::Text(s) => JsonView::Str(s),
        PartView::Value(v) => v,
    }
}

fn part_value(p: &Part) -> (r: Value)
    ensures
        value_view(r) == part_json(p@),
{
    match p {
        Part::Int(i) => int_value(*i),
        Part::Bool(b) => bool_value(*b),
        Part::Text(s) => str_value(s.as_str()),
        Part::Value(j) => j.to_value(),
    }
}

/// Named parts, as the members of an object.
pub open spec fn parts_view(parts: Seq<(String, Part)>) -> Seq<(Seq<char>, PartView)> {
    parts.map_values(|p: (String, Part)| (p.0@, p.1@))
}

/// The last of the given parts with a name, as a JSON value.
pub open spec fn last_part(parts: Seq<(Seq<char>, PartView)>, key: Seq<char>) -> Option<JsonView>
    decreases parts.len(),
{
    if parts.len() == 0 {
        None
    } else if parts.last().0 == key {
        Some(part_json(parts.last().1))
    } else {
        last_part(parts.drop_last(), key)
    }
}

/// An object whose members are the given parts, and nothing else.
pub open spec fn holds_parts(v: JsonView, parts: Seq<(Seq<char>, PartView)>) -> bool {
    v is Object && forall|k: Seq<char>| #[trigger] member(v, k) == last_part(parts, k)
}

fn parts_value(parts: &Vec<(String, Part)>) -> (r: Value)
    ensures
        holds_parts(value_view(r), parts_view(parts@)),
{
    let ghost all = parts_view(parts@);
    let mut o = new_object();
    let mut i: usize = 0;
    while i < parts.len()
        invariant
            i <= parts@.len(),
            all == parts_view(parts@),
            holds_parts(value_view(o), all.take(i as int)),
        decreases parts@.len() - i,
    {
        proof {
            assert(all.take(i + 1).drop_last() =~= all.take(i as int));
            assert(all.take(i + 1).last() == (parts@[i as int].0@, parts@[i as int].1@));
        }
        put_member(&mut o, parts[i].0.as_str(), part_value(&parts[i].1));
        i += 1;
    }
    assert(all.take(all.len() as int) =~= all);
    o
}

/// An object that calls an action: its name, its parameters and the mark of the reply.
pub open spec fn calls_action(
    v: JsonView,
    action: Seq<char>,
    params: Seq<(Seq<char>, PartView)>,
    echo: Seq<char>,
) -> bool {
    &&& v is Object
    &&& member(v, "action"@) == Some(JsonView::Str(action))
    &&& member(v, "echo"@) == Some(JsonView::Str(echo))
    &&& member(v, "params"@) matches Some(p) && holds_parts(p, params)
    &&& forall|k: Seq<char>|
        k != "action"@ && k != "echo"@ && k != "params"@ ==> #[trigger] member(v, k) is None
}

/// The text of an action to be sent.
pub fn action_text(action: &str, params: &Vec<(String, Part)>, echo: &str) -> (r: String)
    ensures
        exists|v: JsonView|
            r@ == #[trigger] json_text(v) && calls_action(v, action@, parts_view(params@), echo@),
{
    let p = parts_value(params);
    let mut v = new_object();
    put_member(&mut v, "action", str_value(action));
    put_member(&mut v, "params", p);
    put_member(&mut v, "echo", str_value(echo));
    proof {
        reveal_strlit("action");
        reveal_strlit("params");
        reveal_strlit("echo");
        assert("action"@[0] == 'a' && "params"@[0] == 'p' && "echo"@[0] == 'e');
        assert(calls_action(value_view(v), action@, parts_view(params@), echo@));
    }
    value_to_string(&v)
}

impl Json {
    pub fn null() -> (r: Json)
        ensures
            r@ == JsonView::Null,
    {
        from_value(&null_value())
    }

    /// An object without members.
    pub fn empty_object() -> (r: Json)
        ensures
            r@ == JsonView::Object(Seq::<(Seq<char>, JsonView)>::empty()),
    {
        from_value(&new_object())
    }

    fn to_value(&self) -> (r: Value)
        ensures
            value_view(r) == self@,
    {
        proof {
            use_type_invariant(self);
        }
        copy_value(&self.value)
    }

    /// A copy of the member with the given name, null where there is none.
    pub fn field(&self, key: &str) -> (r: Json)
        ensures
            r@ == field(self@, key@),
    {
        match self.get(key) {
            Some(j) => j.clone(),
            None => Json::null(),
        }
    }
}

impl Clone for Json {
    fn clone(&self) -> (r: Json)
        ensures
            r@ == self@,
        decreases self@,
    {
        proof {
            use_type_invariant(self);
        }
        let text = self.text.clone();
        let value = copy_value(&self.value);
        match &self.node {
            JsonNode::Null => Json { node: JsonNode::Null, text, value },
            JsonNode::Bool(b) => Json { node: JsonNode::Bool(*b), text, value },
            JsonNode::Number { signed, unsigned } => Json {
                node: JsonNode::Number { signed: *signed, unsigned: *unsigned },
                text,
                value,
            },
            JsonNode::Str(s) => Json { node: JsonNode::Str(s.clone()), text, value },
            JsonNode::Array(a) => {
                let mut items: Vec<Json> = Vec::new();
                let mut i: usize = 0;
                while i < a.len()
                    invariant
                        i <= a@.len(),
                        items@.len() == i,
                        self.node == JsonNode::Array(*a),
                        forall|k: int| 0 <= k < i ==> #[trigger] items@[k].view() == a@[k].view(),
                    decreases a@.len() - i,
                {
                    assert(self@->Array_0[i as int] == a@[i as int].view());
                    assert(decreases_to!(self@ => self@->Array_0[i as int]));
                    let j = a[i].clone();
                    items.push(j);
                    i += 1;
                }
                proof {
                    let whole = Json { node: JsonNode::Array(items), text, value };
                    assert forall|k: int| 0 <= k < a@.len() implies whole@->Array_0[k]
                        == self@->Array_0[k] by {
                        assert(items@[k].view() == a@[k].view());
                    }
                    assert(whole@->Array_0 =~= self@->Array_0);
                }
                Json { node: JsonNode::Array(items), text, value }
            },
            JsonNode::Object(o) => {
                let mut items: Vec<(String, Json)> = Vec::new();
                let mut i: usize = 0;
                while i < o.len()
                    invariant
                        i <= o@.len(),
                        items@.len() == i,
                        self.node == JsonNode::Object(*o),
                        forall|k: int|
                            0 <= k < i ==> (#[trigger] items@[k].0@, items@[k].1.view()) == (
                                o@[k].0@,
                                o@[k].1.view(),
                            ),
                    decreases o@.len() - i,
                {
                    assert(self@->Object_0[i as int] == (o@[i as int].0@, o@[i as int].1.view()));
                    assert(decreases_to!(self@ => self@->Object_0[i as int]));
                    assert(decreases_to!(self@->Object_0[i as int] => self@->Object_0[i as int].1));
                    let j = o[i].1.clone();
                    items.push((o[i].0.clone(), j));
                    i += 1;
                }
                proof {
                    let whole = Json { node: JsonNode::Object(items), text, value };
                    assert(whole@->Object_0 =~= self@->Object_0);
                }
                Json { node: JsonNode::Object(items), text, value }
            },
        }
    }
}

/// Reads a text as a JSON document.
pub fn parse_json(text: &str) -> (r: Option<Json>)
    ensures
        match r {
            Some(j) => json_parse(text@) == Some(j@),
            None => json_parse(text@) is None,
        },
{
    match value_from_str(text) {
        Ok(v) => Some(from_value(&v)),
        Err(_) => None,
    }
}

/// Reads a text as a JSON document, or says what is wrong with it.
pub fn read_json(text: &str) -> (r: Result<Json, String>)
    ensures
        match r {
            Ok(j) => json_parse(text@) == Some(j@),
            Err(e) => json_parse(text@) is None && e@ == json_error(text@),
        },
{
    match value_from_str(text) {
        Ok(v) => Ok(from_value(&v)),
        Err(e) => Err(error_to_string(&e)),
    }
}

// ---------- laws ----------

/// A member is found by its name: the value is that of the first member so called, and
/// there is none exactly where no member is called so.
pub proof fn law_member_is_found_by_name(o: Seq<(Seq<char>, JsonView)>, key: Seq<char>)
    ensures
        match member(JsonView::Object(o), key) {
            Some(x) => exists|i: int|
                0 <= i < o.len() && #[trigger] o[i] == (key, x) && forall|k: int|
                    0 <= k < i ==> (#[trigger] o[k]).0 != key,
            None => forall|i: int| 0 <= i < o.len() ==> (#[trigger] o[i]).0 != key,
        },
        field(JsonView::Object(o), key) is Null || member(JsonView::Object(o), key) == Some(
            field(JsonView::Object(o), key),
        ),
        forall|i: int|
            0 <= i < o.len() && (#[trigger] o[i]).0 == key && (forall|k: int|
                0 <= k < i ==> (#[trigger] o[k]).0 != key) ==> field(JsonView::Object(o), key) == o[i].1,
        (forall|i: int| 0 <= i < o.len() ==> (#[trigger] o[i]).0 != key) ==> field(
            JsonView::Object(o),
            key,
        ) is Null,
{
    lemma_member_from(o, key, 0);
    if let Some(x) = member(JsonView::Object(o), key) {
        let i = choose|i: int|
            0 <= i < o.len() && #[trigger] o[i] == (key, x) && forall|k: int|
                0 <= k < i ==> (#[trigger] o[k]).0 != key;
        assert forall|j: int|
            0 <= j < o.len() && (#[trigger] o[j]).0 == key && (forall|k: int|
                0 <= k < j ==> (#[trigger] o[k]).0 != key) implies field(JsonView::Object(o), key)
            == o[j].1 by {
            assert(o[i].0 == key);
            assert(i == j);
        }
    }
}

proof fn lemma_member_from(o: Seq<(Seq<char>, JsonView)>, key: Seq<char>, from: int)
    requires
        0 <= from <= o.len(),
    ensures
        match member_from(o, key, from) {
            Some(x) => exists|i: int|
                from <= i < o.len() && #[trigger] o[i] == (key, x) && forall|k: int|
                    from <= k < i ==> (#[trigger] o[k]).0 != key,
            None => forall|i: int| from <= i < o.len() ==> (#[trigger] o[i]).0 != key,
        },
    decreases o.len() - from,
{
    if from < o.len() {
        if o[from].0 == key {
            assert(o[from] == (key, o[from].1));
        } else {
            lemma_member_from(o, key, from + 1);
        }
    }
}

/// A value is read as what it is: a text as that text, a truth value as that, a number as
/// its own integer, and nothing as what it is not.
pub proof fn law_values_are_read_as_they_are(v: JsonView)
    ensures
        match v {
            JsonView::Str(s) => str_of(v) == Some(s) && bool_of(v) is None && i64_of(v) is None && u64_of(
                v,
            ) is None,
            JsonView::Bool(b) => bool_of(v) == Some(b) && str_of(v) is None && i64_of(v) is None && u64_of(
                v,
            ) is None,
            JsonView::Number { signed, unsigned, text } => i64_of(v) == signed && u64_of(v) == unsigned
                && str_of(v) is None && bool_of(v) is None,
            _ => str_of(v) is None && bool_of(v) is None && i64_of(v) is None && u64_of(v) is None,
        },
        v matches JsonView::Array(a) ==> elements(v) == a,
        !(v is Array) ==> elements(v).len() == 0,
        forall|i: int| (#[trigger] element(v, i)) == (if 0 <= i < elements(v).len() {
            elements(v)[i]
        } else {
            JsonView::Null
        }),
        forall|key: Seq<char>| !(v is Object) ==> #[trigger] field(v, key) is Null,
{
}

/// The texts among some elements are all of them, in their order and nothing else: each
/// element that is a text adds itself, any other adds nothing.
pub proof fn law_texts_are_picked_out(a: Seq<JsonView>, v: JsonView)
    ensures
        texts_of(Seq::<JsonView>::empty()) == Seq::<Seq<char>>::empty(),
        v matches JsonView::Str(s) ==> texts_of(a.push(v)) == texts_of(a).push(s),
        !(v is Str) ==> texts_of(a.push(v)) == texts_of(a),
{
    assert(a.push(v).drop_last() =~= a);
}

/// What is sent as the parts of an object is read back from it: each part under its name,
/// a number as that number, a truth value as that, a text as that text, and a value as it
/// was received; and no other name is there.
pub proof fn law_parts_read_back(v: JsonView, parts: Seq<(Seq<char>, PartView)>)
    requires
        holds_parts(v, parts),
        forall|i: int, j: int|
            0 <= i < j < parts.len() ==> (#[trigger] parts[i]).0 != (#[trigger] parts[j]).0,
    ensures
        forall|i: int|
            0 <= i < parts.len() ==> {
                let x = field(v, (#[trigger] parts[i]).0);
                match parts[i].1 {
                    PartView::Int(n) => i64_of(x) == Some(n),
                    PartView::Bool(b) => bool_of(x) == Some(b),
                    PartView::Text(s) => str_of(x) == Some(s),
                    PartView::Value(j) => x == j,
                }
            },
        forall|key: Seq<char>|
            (forall|i: int| 0 <= i < parts.len() ==> (#[trigger] parts[i]).0 != key) ==> #[trigger] member(
                v,
                key,
            ) is None,
{
    assert forall|i: int| 0 <= i < parts.len() implies {
        let x = field(v, (#[trigger] parts[i]).0);
        match parts[i].1 {
            PartView::Int(n) => i64_of(x) == Some(n),
            PartView::Bool(b) => bool_of(x) == Some(b),
            PartView::Text(s) => str_of(x) == Some(s),
            PartView::Value(j) => x == j,
        }
    } by {
        lemma_last_part(parts, i);
        assert(member(v, parts[i].0) == last_part(parts, parts[i].0));
    }
    assert forall|key: Seq<char>|
        (forall|i: int| 0 <= i < parts.len() ==> (#[trigger] parts[i]).0 != key) implies #[trigger] member(
        v,
        key,
    ) is None by {
        lemma_no_part(parts, key);
    }
}

proof fn lemma_last_part(parts: Seq<(Seq<char>, PartView)>, i: int)
    requires
        0 <= i < parts.len(),
        forall|i: int, j: int|
            0 <= i < j < parts.len() ==> (#[trigger] parts[i]).0 != (#[trigger] parts[j]).0,
    ensures
        last_part(parts, parts[i].0) == Some(part_json(parts[i].1)),
    decreases parts.len(),
{
    if i < parts.len() - 1 {
        assert(parts.drop_last()[i] == parts[i]);
        assert(parts[i].0 != parts[parts.len() - 1].0);
        lemma_last_part(parts.drop_last(), i);
    }
}

proof fn lemma_no_part(parts: Seq<(Seq<char>, PartView)>, key: Seq<char>)
    requires
        forall|i: int| 0 <= i < parts.len() ==> (#[trigger] parts[i]).0 != key,
    ensures
        last_part(parts, key) is None,
    decreases parts.len(),
{
    if parts.len() > 0 {
        assert(parts[parts.len() - 1].0 != key);
        assert forall|i: int| 0 <= i < parts.drop_last().len() implies (#[trigger] parts.drop_last()[i]).0
            != key by {
            assert(parts[i].0 != key);
        }
        lemma_no_part(parts.drop_last(), key);
    }
}

/// The call of an action names the action and the mark of the reply as given.
pub proof fn law_call_says_what_it_calls(
    v: JsonView,
    action: Seq<char>,
    params: Seq<(Seq<char>, PartView)>,
    echo: Seq<char>,
)
    requires
        calls_action(v, action, params, echo),
    ensures
        str_of(field(v, "action"@)) == Some(action),
        str_of(field(v, "echo"@)) == Some(echo),
        holds_parts(field(v, "params"@), params),
{
}

/// A text is read from the member of its name, and the default stands where there is none.
pub proof fn law_text_is_read_or_the_default(v: JsonView, key: Seq<char>, default: Seq<char>)
    ensures
        field(v, key) matches JsonView::Str(s) ==> str_field_or(v, key, default) == s,
        !(field(v, key) is Str) ==> str_field_or(v, key, default) == default,
{
}

/// A number that is written can be read as signed, and as unsigned where it has no sign.
pub proof fn law_written_number_is_read(i: i64)
    ensures
        i64_of(part_json(PartView::Int(i))) == Some(i),
        i >= 0 ==> (u64_of(part_json(PartView::Int(i))) matches Some(u) && u == i),
        i < 0 ==> u64_of(part_json(PartView::Int(i))) is None,
{
}

} // verus!
