//! A JSON value as plain data, read from text by serde_json.
use vstd::prelude::*;

verus! {

#[verifier::external_type_specification]
#[verifier::external_body]
pub struct ExValue(serde_json::Value);

#[verifier::external_type_specification]
#[verifier::external_body]
pub struct ExNumber(serde_json::Number);

#[verifier::external_type_specification]
#[verifier::external_body]
#[verifier::reject_recursive_types(K)]
#[verifier::reject_recursive_types(V)]
pub struct ExMap<K, V>(serde_json::Map<K, V>);

/// A JSON value. A number is kept as the `i64` that it holds, or as `None`
/// when it is a fraction or too large for an `i64`. Object members keep the
/// order in which serde_json hands them over.
#[derive(Debug, PartialEq, Eq)]
pub enum Json {
    Null,
    Bool(bool),
    Number(Option<i64>),
    String(String),
    Array(Vec<Json>),
    Object(Vec<(String, Json)>),
}

/// A JSON value as mathematics: strings as character sequences, arrays and
/// object members as sequences.
pub enum JsonModel {
    Null,
    Bool(bool),
    Number(Option<i64>),
    String(Seq<char>),
    Array(Seq<JsonModel>),
    Object(Seq<(Seq<char>, JsonModel)>),
}

impl View for Json {
    type V = JsonModel;

    open spec fn view(&self) -> JsonModel {
        model_of(*self)
    }
}

/// The model of a JSON value.
pub open spec fn model_of(j: Json) -> JsonModel
    decreases j,
{
    match j {
        Json::Null => JsonModel::Null,
        Json::Bool(b) => JsonModel::Bool(b),
        Json::Number(n) => JsonModel::Number(n),
        Json::String(s) => JsonModel::String(s@),
        Json::Array(items) => JsonModel::Array(
            Seq::new(items@.len(), |i: int| if 0 <= i < items@.len() { model_of(items@[i]) } else { JsonModel::Null }),
        ),
        Json::Object(members) => JsonModel::Object(
            Seq::new(
                members@.len(),
                |i: int|
                    if 0 <= i < members@.len() {
                        (members@[i].0@, model_of(members@[i].1))
                    } else {
                        (Seq::empty(), JsonModel::Null)
                    },
            ),
        ),
    }
}

/// One level of a `serde_json::Value`, its members not yet converted.
enum Node {
    Null,
    Bool(bool),
    Number(serde_json::Number),
    String(String),
    Array(Vec<serde_json::Value>),
    Object(serde_json::Map<String, serde_json::Value>),
}

/// What serde_json reads from a JSON text: the value, or nothing when the text
/// is not JSON.
pub uninterp spec fn json_of_text(text: Seq<char>) -> Option<JsonModel>;

/// The JSON value that a `serde_json::Value` holds.
pub uninterp spec fn json_of_value(v: serde_json::Value) -> JsonModel;

/// The integer that a `serde_json::Number` holds, when it is an integer that
/// fits an `i64`.
pub uninterp spec fn i64_of_number(n: serde_json::Number) -> Option<i64>;

/// The members of a `serde_json::Map`, in the order in which it yields them.
pub uninterp spec fn map_model(m: serde_json::Map<String, serde_json::Value>) -> Seq<(Seq<char>, JsonModel)>;

/// The models of a sequence of serde_json values.
pub open spec fn values_model(v: Seq<serde_json::Value>) -> Seq<JsonModel> {
    v.map_values(|x: serde_json::Value| json_of_value(x))
}

/// The models of a sequence of serde_json members.
pub open spec fn pairs_model(v: Seq<(String, serde_json::Value)>) -> Seq<(Seq<char>, JsonModel)> {
    v.map_values(|p: (String, serde_json::Value)| (p.0@, json_of_value(p.1)))
}

/// Whether a value nests at most `depth` arrays and objects deep.
pub open spec fn fits(m: JsonModel, depth: nat) -> bool
    decreases m,
{
    match m {
        JsonModel::Array(items) => depth > 0 && forall|i: int|
            0 <= i < items.len() ==> fits(#[trigger] items[i], (depth - 1) as nat),
        JsonModel::Object(members) => depth > 0 && forall|i: int|
            0 <= i < members.len() ==> fits(#[trigger] members[i].1, (depth - 1) as nat),
        _ => true,
    }
}

/// Relies on `serde_json::from_str`: reads a JSON text into a value, or fails
/// with a syntax error.
#[verifier::external_body]
fn parse_value(text: &str) -> (r: Result<serde_json::Value, serde_json::Error>)
    ensures
        r matches Ok(v) ==> json_of_text(text@) == Some(json_of_value(v)),
        r is Err ==> json_of_text(text@) is None,
{
    serde_json::from_str(text)
}

/// Relies on the variants of `serde_json::Value`: takes one level of a value apart.
#[verifier::external_body]
fn unpack(v: serde_json::Value) -> (r: Node)
    ensures
        r is Null ==> json_of_value(v) == JsonModel::Null,
        r matches Node::Bool(b) ==> json_of_value(v) == JsonModel::Bool(b),
        r matches Node::Number(n) ==> json_of_value(v) == JsonModel::Number(i64_of_number(n)),
        r matches Node::String(s) ==> json_of_value(v) == JsonModel::String(s@),
        r matches Node::Array(a) ==> json_of_value(v) == JsonModel::Array(values_model(a@)),
        r matches Node::Object(m) ==> json_of_value(v) == JsonModel::Object(map_model(m)),
{
    match v {
        serde_json::Value::Null => Node::Null,
        serde_json::Value::Bool(b) => Node::Bool(b),
        serde_json::Value::Number(n) => Node::Number(n),
        serde_json::Value::String(s) => Node::String(s),
        serde_json::Value::Array(a) => Node::Array(a),
        serde_json::Value::Object(m) => Node::Object(m),
    }
}

/// Relies on `serde_json::Number::as_i64`: the integer that a number holds,
/// when it is an integer that fits an `i64`.
#[verifier::external_body]
fn number_as_i64(n: &serde_json::Number) -> (r: Option<i64>)
    ensures
        r == i64_of_number(*n),
{
    n.as_i64()
}

/// Relies on `serde_json::Map::into_iter`: the members of an object, as pairs.
#[verifier::external_body]
fn members_of(m: serde_json::Map<String, serde_json::Value>) -> (r: Vec<(String, serde_json::Value)>)
    ensures
        pairs_model(r@) == map_model(m),
{
    m.into_iter().collect()
}

/// Converts a value that nests at most `depth` levels deep; `None` for a deeper one.
fn from_value(v: serde_json::Value, depth: usize) -> (r: Option<Json>)
    ensures
        r matches Some(j) ==> j@ == json_of_value(v),
        r is None <==> !fits(json_of_value(v), depth as nat),
    decreases depth,
{
    let ghost model = json_of_value(v);
    match unpack(v) {
        Node::Null => Some(Json::Null),
        Node::Bool(b) => Some(Json::Bool(b)),
        Node::Number(n) => Some(Json::Number(number_as_i64(&n))),
        Node::String(s) => Some(Json::String(s)),
        Node::Array(items) => {
            if depth == 0 {
                return None;
            }
            let ghost orig = items@;
            let mut src = items;
            let mut out: Vec<Json> = Vec::new();
            while src.len() > 0
                invariant
                    depth > 0,
                    model == json_of_value(v),
                    model == JsonModel::Array(values_model(orig)),
                    out@.len() + src@.len() == orig.len(),
                    src@ == orig.subrange(out@.len() as int, orig.len() as int),
                    forall|i: int| 0 <= i < out@.len() ==> #[trigger] out@[i]@ == json_of_value(orig[i]),
                    forall|i: int| 0 <= i < out@.len() ==> fits(json_of_value(#[trigger] orig[i]), (depth - 1) as nat),
                decreases src@.len(),
            {
                let ghost k = out@.len() as int;
                assert(src@[0] == orig[k]);
                let item = src.remove(0);
                match from_value(item, depth - 1) {
                    Some(j) => out.push(j),
                    None => {
                        assert(values_model(orig)[k] == json_of_value(orig[k]));
                        assert(model matches JsonModel::Array(m) && m[k] == values_model(orig)[k]);
                        assert(!fits(model, depth as nat));
                        return None;
                    },
                }
                assert(src@ =~= orig.subrange(k + 1, orig.len() as int));
            }
            assert(out@.len() == orig.len());
            let r = Json::Array(out);
            assert(r@->Array_0.len() == orig.len());
            assert forall|i: int| 0 <= i < orig.len() implies r@->Array_0[i] == values_model(orig)[i] by {
                assert(r->Array_0@[i]@ == json_of_value(orig[i]));
            }
            assert(r@->Array_0 =~= values_model(orig));
            assert forall|i: int| 0 <= i < values_model(orig).len() implies fits(
                #[trigger] values_model(orig)[i],
                (depth - 1) as nat,
            ) by {
                assert(values_model(orig)[i] == json_of_value(orig[i]));
            }
            Some(r)
        },
        Node::Object(members) => {
            if depth == 0 {
                return None;
            }
            let mut src = members_of(members);
            let ghost orig = src@;
            let mut out: Vec<(String, Json)> = Vec::new();
            while src.len() > 0
                invariant
                    depth > 0,
                    model == json_of_value(v),
                    model == JsonModel::Object(pairs_model(orig)),
                    out@.len() + src@.len() == orig.len(),
                    src@ == orig.subrange(out@.len() as int, orig.len() as int),
                    forall|i: int|
                        0 <= i < out@.len() ==> (#[trigger] out@[i]).0@ == orig[i].0@ && out@[i].1@ == json_of_value(orig[i].1),
                    forall|i: int| 0 <= i < out@.len() ==> fits(json_of_value(#[trigger] orig[i].1), (depth - 1) as nat),
                decreases src@.len(),
            {
                let ghost k = out@.len() as int;
                assert(src@[0] == orig[k]);
                let (key, item) = src.remove(0);
                match from_value(item, depth - 1) {
                    Some(j) => out.push((key, j)),
                    None => {
                        assert(pairs_model(orig)[k].1 == json_of_value(orig[k].1));
                        assert(model matches JsonModel::Object(m) && m[k].1 == pairs_model(orig)[k].1);
                        assert(!fits(model, depth as nat));
                        return None;
                    },
                }
                assert(src@ =~= orig.subrange(k + 1, orig.len() as int));
            }
            assert(out@.len() == orig.len());
            let r = Json::Object(out);
            assert(r@->Object_0.len() == orig.len());
            assert forall|i: int| 0 <= i < orig.len() implies r@->Object_0[i] == pairs_model(orig)[i] by {
                assert(r->Object_0@[i].0@ == orig[i].0@ && r->Object_0@[i].1@ == json_of_value(orig[i].1));
            }
            assert(r@->Object_0 =~= pairs_model(orig));
            assert forall|i: int| 0 <= i < pairs_model(orig).len() implies fits(
                #[trigger] pairs_model(orig)[i].1,
                (depth - 1) as nat,
            ) by {
                assert(pairs_model(orig)[i].1 == json_of_value(orig[i].1));
            }
            Some(r)
        },
    }
}

/// The deepest nesting that serde_json reads before it gives up.
pub const MAX_DEPTH: usize = 128;

/// Why a text is no JSON value.
#[derive(Debug)]
pub enum JsonError {
    /// serde_json refused the text.
    Syntax(serde_json::Error),
    /// The value nests deeper than `MAX_DEPTH`.
    TooDeep,
}

/// Reads a JSON text: the value that serde_json reads from it, as a `Json`.
/// Fails with `Syntax` exactly when serde_json refuses the text, and with
/// `TooDeep` exactly when the value nests deeper than `MAX_DEPTH`.
pub fn parse_json(text: &str) -> (r: Result<Json, JsonError>)
    ensures
        r matches Ok(j) ==> json_of_text(text@) == Some(j@) && fits(j@, MAX_DEPTH as nat),
        r matches Err(e) ==> (e is Syntax <==> json_of_text(text@) is None),
        r matches Err(e) ==> (e is TooDeep <==> (json_of_text(text@) matches Some(m) && !fits(m, MAX_DEPTH as nat))),
        (json_of_text(text@) matches Some(m) && fits(m, MAX_DEPTH as nat)) ==> r is Ok,
{
    match parse_value(text) {
        Ok(v) => match from_value(v, MAX_DEPTH) {
            Some(j) => Ok(j),
            None => Err(JsonError::TooDeep),
        },
        Err(e) => Err(JsonError::Syntax(e)),
    }
}

} // verus!
