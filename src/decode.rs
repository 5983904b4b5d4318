//! Reads the structured output of `ichiran-cli -f` into the raw types.
//!
//! Several fields of that output take more than one shape. Each is read by
//! trying its shapes in a fixed order. In strict mode every object also
//! rejects members that the schema does not name; in lenient mode they are
//! ignored.
use vstd::prelude::*;

use crate::json::Json;
use crate::raw;
use crate::rusty;

verus! {

/// A step into a JSON value: an object member or an array element.
#[derive(Debug, Clone, PartialEq, Eq)]
pub enum PathSegment {
    Key(String),
    Index(usize),
}

/// The structured output does not match the schema at `path`, counted from
/// the top of the document.
#[derive(Debug, Clone, PartialEq, Eq)]
pub struct SchemaError {
    pub path: Vec<PathSegment>,
}

/// Whether `path` leads from `j` through existing members and elements; only
/// a last step may name a member that the object lacks.
pub open spec fn leads_to(j: Json, path: Seq<PathSegment>) -> bool
    decreases path.len(),
{
    if path.len() == 0 {
        true
    } else {
        match path[0] {
            PathSegment::Key(k) => match j {
                Json::Object(m) => path.len() == 1 || (lookup(m@, k@) matches Some(c) && leads_to(c, path.drop_first())),
                _ => false,
            },
            PathSegment::Index(i) => match j {
                Json::Array(a) => i < a@.len() && leads_to(a@[i as int], path.drop_first()),
                _ => false,
            },
        }
    }
}

/// Whether `path` leads into one of `items` and on as `leads_to` says.
pub open spec fn leads_into(items: Seq<Json>, path: Seq<PathSegment>) -> bool {
    path.len() > 0 && match path[0] {
        PathSegment::Index(i) => i < items.len() && leads_to(items[i as int], path.drop_first()),
        _ => false,
    }
}

/// A path of one step, into a member of the object at hand.
pub open spec fn one_key(e: SchemaError) -> bool {
    e.path@.len() == 1 && e.path@[0] is Key
}

/// A path that starts at a member of an object, and leads on from that
/// member's value (directly, or into the elements of an array value).
proof fn lemma_member_path(j: Json, key: Seq<char>, path: Seq<PathSegment>)
    requires
        j is Object,
        path.len() >= 1,
        path[0] matches PathSegment::Key(k) && k@ == key,
        lookup(j->Object_0@, key) matches Some(c) && (leads_to(c, path.drop_first()) || (c is Array && leads_into(
            c->Array_0@,
            path.drop_first(),
        ))),
    ensures
        leads_to(j, path),
{
    let c = lookup(j->Object_0@, key)->Some_0;
    let rest = path.drop_first();
    if c is Array && leads_into(c->Array_0@, rest) {
        assert(leads_to(c, rest));
    }
}

/// A path that starts at an element of an array, and leads on from that
/// element (directly, or into the elements of an array element).
proof fn lemma_element_path(j: Json, path: Seq<PathSegment>)
    requires
        j is Array,
        path.len() >= 1,
        path[0] matches PathSegment::Index(i) && i < j->Array_0@.len() && (leads_to(
            j->Array_0@[i as int],
            path.drop_first(),
        ) || (j->Array_0@[i as int] is Array && leads_into(j->Array_0@[i as int]->Array_0@, path.drop_first()))),
    ensures
        leads_to(j, path),
{
    let i = path[0]->Index_0;
    let c = j->Array_0@[i as int];
    let rest = path.drop_first();
    if c is Array && leads_into(c->Array_0@, rest) {
        assert(leads_to(c, rest));
    }
}

fn mismatch() -> (r: SchemaError)
    ensures
        r.path@.len() == 0,
{
    SchemaError { path: Vec::new() }
}

fn under(e: SchemaError, step: PathSegment) -> (r: SchemaError)
    ensures
        r.path@.len() == e.path@.len() + 1,
        r.path@[0] == step,
        r.path@.drop_first() == e.path@,
{
    let ghost old_path = e.path@;
    let mut path = e.path;
    path.insert(0, step);
    assert(path@.drop_first() =~= old_path);
    SchemaError { path }
}

fn under_key(e: SchemaError, key: &str) -> (r: SchemaError)
    ensures
        r.path@.len() == e.path@.len() + 1,
        r.path@[0] matches PathSegment::Key(k) && k@ == key@,
        r.path@.drop_first() == e.path@,
{
    under(e, PathSegment::Key(key.to_owned()))
}

fn key_is(k: &String, name: &str) -> (r: bool)
    ensures
        r == (k@ == name@),
{
    let owned = name.to_owned();
    *k == owned
}

/// The value of the first member named `key`.
pub open spec fn lookup(members: Seq<(String, Json)>, key: Seq<char>) -> Option<Json>
    decreases members.len(),
{
    if members.len() == 0 {
        None
    } else if members[0].0@ == key {
        Some(members[0].1)
    } else {
        lookup(members.drop_first(), key)
    }
}

fn get<'a>(members: &'a Vec<(String, Json)>, key: &str) -> (r: Option<&'a Json>)
    ensures
        r matches Some(j) ==> lookup(members@, key@) == Some(*j),
        r is None ==> lookup(members@, key@) is None,
{
    let mut i: usize = 0;
    assert(members@.subrange(0, members@.len() as int) =~= members@);
    while i < members.len()
        invariant
            i <= members@.len(),
            lookup(members@, key@) == lookup(members@.subrange(i as int, members@.len() as int), key@),
        decreases members@.len() - i,
    {
        let ghost rest = members@.subrange(i as int, members@.len() as int);
        assert(rest.drop_first() =~= members@.subrange(i + 1, members@.len() as int));
        assert(rest[0] == members@[i as int]);
        if key_is(&members[i].0, key) {
            return Some(&members[i].1);
        }
        i = i + 1;
    }
    None
}

/// The kinds of object in the schema, each with the members it names.
#[derive(Clone, Copy)]
pub enum Shape {
    Wrapped,
    WordInfo,
    CompoundWordInfo,
    Counter,
    Gloss,
    Conj,
    ConjProp,
    Via,
}

/// Whether an object of the given kind names a member `k`.
pub open spec fn known_key(shape: Shape, k: Seq<char>) -> bool {
    match shape {
        Shape::Wrapped => k == "alternative"@,
        Shape::WordInfo => k == "reading"@ || k == "text"@ || k == "kana"@ || k == "score"@
            || k == "counter"@ || k == "seq"@ || k == "gloss"@ || k == "suffix"@ || k == "conj"@,
        Shape::CompoundWordInfo => k == "reading"@ || k == "text"@ || k == "kana"@ || k == "score"@
            || k == "compound"@ || k == "components"@,
        Shape::Counter => k == "value"@ || k == "ordinal"@,
        Shape::Gloss => k == "pos"@ || k == "gloss"@ || k == "field"@ || k == "info"@,
        Shape::Conj => k == "prop"@ || k == "via"@ || k == "reading"@ || k == "gloss"@ || k == "readok"@,
        Shape::ConjProp => k == "pos"@ || k == "type"@ || k == "fml"@ || k == "neg"@,
        Shape::Via => k == "prop"@ || k == "reading"@ || k == "gloss"@ || k == "readok"@,
    }
}

fn is_known_key(shape: Shape, k: &String) -> (r: bool)
    ensures
        r == known_key(shape, k@),
{
    match shape {
        Shape::Wrapped => key_is(k, "alternative"),
        Shape::WordInfo => key_is(k, "reading") || key_is(k, "text") || key_is(k, "kana") || key_is(k, "score")
            || key_is(k, "counter") || key_is(k, "seq") || key_is(k, "gloss") || key_is(k, "suffix")
            || key_is(k, "conj"),
        Shape::CompoundWordInfo => key_is(k, "reading") || key_is(k, "text") || key_is(k, "kana")
            || key_is(k, "score") || key_is(k, "compound") || key_is(k, "components"),
        Shape::Counter => key_is(k, "value") || key_is(k, "ordinal"),
        Shape::Gloss => key_is(k, "pos") || key_is(k, "gloss") || key_is(k, "field") || key_is(k, "info"),
        Shape::Conj => key_is(k, "prop") || key_is(k, "via") || key_is(k, "reading") || key_is(k, "gloss")
            || key_is(k, "readok"),
        Shape::ConjProp => key_is(k, "pos") || key_is(k, "type") || key_is(k, "fml") || key_is(k, "neg"),
        Shape::Via => key_is(k, "prop") || key_is(k, "reading") || key_is(k, "gloss") || key_is(k, "readok"),
    }
}

/// In strict mode, every member of the object is one that its kind names.
pub open spec fn keys_ok(members: Seq<(String, Json)>, strict: bool, shape: Shape) -> bool {
    strict ==> forall|i: int| 0 <= i < members.len() ==> known_key(shape, #[trigger] members[i].0@)
}

fn check_keys(members: &Vec<(String, Json)>, strict: bool, shape: Shape) -> (r: Result<(), SchemaError>)
    ensures
        r is Ok <==> keys_ok(members@, strict, shape),
        r matches Err(e) ==> one_key(e),
{
    if !strict {
        return Ok(());
    }
    let mut i: usize = 0;
    while i < members.len()
        invariant
            i <= members@.len(),
            strict,
            forall|j: int| 0 <= j < i ==> known_key(shape, #[trigger] members@[j].0@),
        decreases members@.len() - i,
    {
        if !is_known_key(shape, &members[i].0) {
            return Err(under(mismatch(), PathSegment::Key(members[i].0.clone())));
        }
        i = i + 1;
    }
    Ok(())
}

/// A string member.
pub open spec fn str_is(f: Option<Json>, s: String) -> bool {
    f matches Some(Json::String(t)) && t@ == s@
}

/// An optional string member: absent or null is none.
pub open spec fn opt_str_ok(f: Option<Json>) -> bool {
    match f {
        None => true,
        Some(Json::Null) => true,
        Some(Json::String(_)) => true,
        _ => false,
    }
}

pub open spec fn opt_str_is(f: Option<Json>, o: Option<String>) -> bool {
    match f {
        Some(Json::String(t)) => o matches Some(s) && s@ == t@,
        _ => o is None,
    }
}

/// An integer member that fits an `i32`.
pub open spec fn int_ok(f: Option<Json>) -> bool {
    f matches Some(Json::Number(Some(n))) && i32::MIN <= n <= i32::MAX
}

pub open spec fn int_is(f: Option<Json>, x: i32) -> bool {
    f matches Some(Json::Number(Some(n))) && n == x
}

/// An optional integer member: absent or null is none.
pub open spec fn opt_int_ok(f: Option<Json>) -> bool {
    match f {
        None => true,
        Some(Json::Null) => true,
        _ => int_ok(f),
    }
}

pub open spec fn opt_int_is(f: Option<Json>, o: Option<i32>) -> bool {
    match f {
        Some(Json::Number(Some(n))) => o == Some(n as i32),
        _ => o is None,
    }
}

/// A boolean member that is `false` when absent.
pub open spec fn bool_ok(f: Option<Json>) -> bool {
    f is None || f matches Some(Json::Bool(_))
}

pub open spec fn bool_is(f: Option<Json>, b: bool) -> bool {
    match f {
        Some(Json::Bool(c)) => b == c,
        _ => !b,
    }
}

fn str_field(members: &Vec<(String, Json)>, key: &str) -> (r: Result<String, SchemaError>)
    ensures
        r is Ok <==> lookup(members@, key@) matches Some(Json::String(_)),
        r matches Ok(s) ==> str_is(lookup(members@, key@), s),
        r matches Err(e) ==> one_key(e),
{
    match get(members, key) {
        Some(Json::String(s)) => Ok(s.clone()),
        _ => Err(under_key(mismatch(), key)),
    }
}

fn opt_str_field(members: &Vec<(String, Json)>, key: &str) -> (r: Result<Option<String>, SchemaError>)
    ensures
        r is Ok <==> opt_str_ok(lookup(members@, key@)),
        r matches Ok(o) ==> opt_str_is(lookup(members@, key@), o),
        r matches Err(e) ==> one_key(e),
{
    match get(members, key) {
        None => Ok(None),
        Some(Json::Null) => Ok(None),
        Some(Json::String(s)) => Ok(Some(s.clone())),
        _ => Err(under_key(mismatch(), key)),
    }
}

fn int_value(j: Option<&Json>) -> (r: Option<i32>)
    ensures
        r is Some <==> int_ok(match j { Some(v) => Some(*v), None => None }),
        r matches Some(x) ==> int_is(match j { Some(v) => Some(*v), None => None }, x),
{
    match j {
        Some(Json::Number(Some(n))) => {
            if i32::MIN as i64 <= *n && *n <= i32::MAX as i64 {
                Some(*n as i32)
            } else {
                None
            }
        },
        _ => None,
    }
}

fn int_field(members: &Vec<(String, Json)>, key: &str) -> (r: Result<i32, SchemaError>)
    ensures
        r is Ok <==> int_ok(lookup(members@, key@)),
        r matches Ok(x) ==> int_is(lookup(members@, key@), x),
        r matches Err(e) ==> one_key(e),
{
    match int_value(get(members, key)) {
        Some(x) => Ok(x),
        None => Err(under_key(mismatch(), key)),
    }
}

fn opt_int_field(members: &Vec<(String, Json)>, key: &str) -> (r: Result<Option<i32>, SchemaError>)
    ensures
        r is Ok <==> opt_int_ok(lookup(members@, key@)),
        r matches Ok(o) ==> opt_int_is(lookup(members@, key@), o),
        r matches Err(e) ==> one_key(e),
{
    let f = get(members, key);
    match f {
        None => Ok(None),
        Some(Json::Null) => Ok(None),
        _ => match int_value(f) {
            Some(x) => Ok(Some(x)),
            None => Err(under_key(mismatch(), key)),
        },
    }
}

fn bool_field(members: &Vec<(String, Json)>, key: &str) -> (r: Result<bool, SchemaError>)
    ensures
        r is Ok <==> bool_ok(lookup(members@, key@)),
        r matches Ok(b) ==> bool_is(lookup(members@, key@), b),
        r matches Err(e) ==> one_key(e),
{
    match get(members, key) {
        None => Ok(false),
        Some(Json::Bool(b)) => Ok(*b),
        _ => Err(under_key(mismatch(), key)),
    }
}

/// The elements of a list member; an absent one is empty unless `required`.
pub open spec fn list_of(f: Option<Json>, required: bool) -> Option<Seq<Json>> {
    match f {
        None => if required { None } else { Some(seq![]) },
        Some(Json::Array(items)) => Some(items@),
        _ => None,
    }
}

/// The elements of a list member, or `None` for an absent one that may be absent.
fn list_field<'a>(members: &'a Vec<(String, Json)>, key: &str, required: bool) -> (r: Result<
    Option<&'a Vec<Json>>,
    SchemaError,
>)
    ensures
        r is Ok <==> list_of(lookup(members@, key@), required) is Some,
        r matches Ok(Some(items)) ==> list_of(lookup(members@, key@), required) == Some(items@),
        r matches Ok(None) ==> lookup(members@, key@) is None && !required,
        r matches Err(e) ==> one_key(e),
{
    match get(members, key) {
        None => if required {
            Err(under_key(mismatch(), key))
        } else {
            Ok(None)
        },
        Some(Json::Array(items)) => Ok(Some(items)),
        _ => Err(under_key(mismatch(), key)),
    }
}

/// A flag: a boolean, or the empty array.
pub open spec fn flag_ok(f: Option<Json>) -> bool {
    match f {
        Some(Json::Bool(_)) => true,
        Some(Json::Array(a)) => a@.len() == 0,
        _ => false,
    }
}

pub open spec fn ordinal_is(f: Option<Json>, o: raw::Ordinal) -> bool {
    match f {
        Some(Json::Bool(b)) => o == raw::Ordinal::Bool(b),
        _ => o matches raw::Ordinal::Vec(v) && v@.len() == 0,
    }
}

pub open spec fn readok_is(f: Option<Json>, o: raw::Readok) -> bool {
    match f {
        Some(Json::Bool(b)) => o == raw::Readok::Bool(b),
        _ => o matches raw::Readok::Vec(v) && v@.len() == 0,
    }
}

/// A property type: a string, or the empty array.
pub open spec fn prop_type_ok(f: Option<Json>) -> bool {
    match f {
        Some(Json::String(_)) => true,
        Some(Json::Array(a)) => a@.len() == 0,
        _ => false,
    }
}

pub open spec fn prop_type_is(f: Option<Json>, p: raw::PropType) -> bool {
    match f {
        Some(Json::String(t)) => p matches raw::PropType::String(s) && s@ == t@,
        _ => p matches raw::PropType::Vec(v) && v@.len() == 0,
    }
}

fn ordinal_field(members: &Vec<(String, Json)>, key: &str) -> (r: Result<raw::Ordinal, SchemaError>)
    ensures
        r is Ok <==> flag_ok(lookup(members@, key@)),
        r matches Ok(o) ==> ordinal_is(lookup(members@, key@), o),
        r matches Err(e) ==> one_key(e),
{
    match get(members, key) {
        Some(Json::Bool(b)) => Ok(raw::Ordinal::Bool(*b)),
        Some(Json::Array(a)) => if a.len() == 0 {
            Ok(raw::Ordinal::Vec(Vec::new()))
        } else {
            Err(under_key(mismatch(), key))
        },
        _ => Err(under_key(mismatch(), key)),
    }
}

fn readok_field(members: &Vec<(String, Json)>, key: &str) -> (r: Result<raw::Readok, SchemaError>)
    ensures
        r is Ok <==> flag_ok(lookup(members@, key@)),
        r matches Ok(o) ==> readok_is(lookup(members@, key@), o),
        r matches Err(e) ==> one_key(e),
{
    match get(members, key) {
        Some(Json::Bool(b)) => Ok(raw::Readok::Bool(*b)),
        Some(Json::Array(a)) => if a.len() == 0 {
            Ok(raw::Readok::Vec(Vec::new()))
        } else {
            Err(under_key(mismatch(), key))
        },
        _ => Err(under_key(mismatch(), key)),
    }
}

fn prop_type_field(members: &Vec<(String, Json)>, key: &str) -> (r: Result<raw::PropType, SchemaError>)
    ensures
        r is Ok <==> prop_type_ok(lookup(members@, key@)),
        r matches Ok(p) ==> prop_type_is(lookup(members@, key@), p),
        r matches Err(e) ==> one_key(e),
{
    match get(members, key) {
        Some(Json::String(s)) => Ok(raw::PropType::String(s.clone())),
        Some(Json::Array(a)) => if a.len() == 0 {
            Ok(raw::PropType::Vec(Vec::new()))
        } else {
            Err(under_key(mismatch(), key))
        },
        _ => Err(under_key(mismatch(), key)),
    }
}

pub open spec fn str_ok(f: Option<Json>) -> bool {
    f matches Some(Json::String(_))
}

/// A gloss: an object with its part of speech, meaning, field and note.
pub open spec fn gloss_ok(j: Json, strict: bool) -> bool {
    match j {
        Json::Object(m) => keys_ok(m@, strict, Shape::Gloss) && str_ok(lookup(m@, "pos"@)) && str_ok(
            lookup(m@, "gloss"@),
        ) && opt_str_ok(lookup(m@, "field"@)) && opt_str_ok(lookup(m@, "info"@)),
        _ => false,
    }
}

pub open spec fn gloss_is(j: Json, strict: bool, g: raw::Gloss) -> bool {
    match j {
        Json::Object(m) => str_is(lookup(m@, "pos"@), g.pos) && str_is(lookup(m@, "gloss"@), g.gloss)
            && opt_str_is(lookup(m@, "field"@), g.field) && opt_str_is(lookup(m@, "info"@), g.info),
        _ => false,
    }
}

fn gloss(j: &Json, strict: bool) -> (r: Result<raw::Gloss, SchemaError>)
    ensures
        r is Ok <==> gloss_ok(*j, strict),
        r matches Ok(x) ==> gloss_is(*j, strict, x),
        r matches Err(e) ==> leads_to(*j, e.path@),
{
    match j {
        Json::Object(m) => {
            match check_keys(m, strict, Shape::Gloss) {
                Ok(_) => {},
                Err(e) => return Err(e),
            }
            let pos = match str_field(m, "pos") {
                Ok(v) => v,
                Err(e) => return Err(e),
            };
            let gloss = match str_field(m, "gloss") {
                Ok(v) => v,
                Err(e) => return Err(e),
            };
            let field = match opt_str_field(m, "field") {
                Ok(v) => v,
                Err(e) => return Err(e),
            };
            let info = match opt_str_field(m, "info") {
                Ok(v) => v,
                Err(e) => return Err(e),
            };
            Ok(raw::Gloss { pos, gloss, field, info })
        },
        _ => Err(mismatch()),
    }
}

pub open spec fn glosses_ok(items: Seq<Json>, strict: bool) -> bool {
    forall|k: int| 0 <= k < items.len() ==> #[trigger] gloss_ok(items[k], strict)
}

pub open spec fn glosses_are(items: Seq<Json>, strict: bool, xs: Seq<raw::Gloss>) -> bool {
    items.len() == xs.len() && forall|k: int| 0 <= k < items.len() ==> #[trigger] gloss_is(items[k], strict, xs[k])
}

fn glosses(items: &Vec<Json>, strict: bool) -> (r: Result<Vec<raw::Gloss>, SchemaError>)
    ensures
        r is Ok <==> glosses_ok(items@, strict),
        r matches Ok(xs) ==> glosses_are(items@, strict, xs@),
        r matches Err(e) ==> leads_into(items@, e.path@),
{
    let mut out: Vec<raw::Gloss> = Vec::new();
    let mut i: usize = 0;
    while i < items.len()
        invariant
            i <= items@.len(),
            out@.len() == i,
            forall|k: int| 0 <= k < i ==> gloss_ok(items@[k], strict),
            forall|k: int| 0 <= k < i ==> #[trigger] gloss_is(items@[k], strict, out@[k]),
        decreases items@.len() - i,
    {
        match gloss(&items[i], strict) {
            Ok(x) => out.push(x),
            Err(e) => return Err(under(e, PathSegment::Index(i))),
        }
        i = i + 1;
    }
    Ok(out)
}

pub open spec fn counter_ok(j: Json, strict: bool) -> bool {
    match j {
        Json::Object(m) => keys_ok(m@, strict, Shape::Counter) && str_ok(lookup(m@, "value"@)) && flag_ok(
            lookup(m@, "ordinal"@),
        ),
        _ => false,
    }
}

pub open spec fn counter_is(j: Json, strict: bool, c: raw::Counter) -> bool {
    match j {
        Json::Object(m) => str_is(lookup(m@, "value"@), c.value) && ordinal_is(lookup(m@, "ordinal"@), c.ordinal),
        _ => false,
    }
}

fn counter(j: &Json, strict: bool) -> (r: Result<raw::Counter, SchemaError>)
    ensures
        r is Ok <==> counter_ok(*j, strict),
        r matches Ok(x) ==> counter_is(*j, strict, x),
        r matches Err(e) ==> leads_to(*j, e.path@),
{
    match j {
        Json::Object(m) => {
            match check_keys(m, strict, Shape::Counter) {
                Ok(_) => {},
                Err(e) => return Err(e),
            }
            let value = match str_field(m, "value") {
                Ok(v) => v,
                Err(e) => return Err(e),
            };
            let ordinal = match ordinal_field(m, "ordinal") {
                Ok(v) => v,
                Err(e) => return Err(e),
            };
            Ok(raw::Counter { value, ordinal })
        },
        _ => Err(mismatch()),
    }
}

pub open spec fn conj_prop_ok(j: Json, strict: bool) -> bool {
    match j {
        Json::Object(m) => keys_ok(m@, strict, Shape::ConjProp) && str_ok(lookup(m@, "pos"@)) && prop_type_ok(
            lookup(m@, "type"@),
        ) && bool_ok(lookup(m@, "fml"@)) && bool_ok(lookup(m@, "neg"@)),
        _ => false,
    }
}

pub open spec fn conj_prop_is(j: Json, strict: bool, p: raw::ConjProp) -> bool {
    match j {
        Json::Object(m) => str_is(lookup(m@, "pos"@), p.pos) && prop_type_is(lookup(m@, "type"@), p.prop_type)
            && bool_is(lookup(m@, "fml"@), p.fml) && bool_is(lookup(m@, "neg"@), p.neg),
        _ => false,
    }
}

fn conj_prop(j: &Json, strict: bool) -> (r: Result<raw::ConjProp, SchemaError>)
    ensures
        r is Ok <==> conj_prop_ok(*j, strict),
        r matches Ok(x) ==> conj_prop_is(*j, strict, x),
        r matches Err(e) ==> leads_to(*j, e.path@),
{
    match j {
        Json::Object(m) => {
            match check_keys(m, strict, Shape::ConjProp) {
                Ok(_) => {},
                Err(e) => return Err(e),
            }
            let pos = match str_field(m, "pos") {
                Ok(v) => v,
                Err(e) => return Err(e),
            };
            let prop_type = match prop_type_field(m, "type") {
                Ok(v) => v,
                Err(e) => return Err(e),
            };
            let fml = match bool_field(m, "fml") {
                Ok(v) => v,
                Err(e) => return Err(e),
            };
            let neg = match bool_field(m, "neg") {
                Ok(v) => v,
                Err(e) => return Err(e),
            };
            Ok(raw::ConjProp { pos, prop_type, fml, neg })
        },
        _ => Err(mismatch()),
    }
}

pub open spec fn conj_props_ok(items: Seq<Json>, strict: bool) -> bool {
    forall|k: int| 0 <= k < items.len() ==> #[trigger] conj_prop_ok(items[k], strict)
}

pub open spec fn conj_props_are(items: Seq<Json>, strict: bool, xs: Seq<raw::ConjProp>) -> bool {
    items.len() == xs.len() && forall|k: int| 0 <= k < items.len() ==> #[trigger] conj_prop_is(items[k], strict, xs[k])
}

fn conj_props(items: &Vec<Json>, strict: bool) -> (r: Result<Vec<raw::ConjProp>, SchemaError>)
    ensures
        r is Ok <==> conj_props_ok(items@, strict),
        r matches Ok(xs) ==> conj_props_are(items@, strict, xs@),
        r matches Err(e) ==> leads_into(items@, e.path@),
{
    let mut out: Vec<raw::ConjProp> = Vec::new();
    let mut i: usize = 0;
    while i < items.len()
        invariant
            i <= items@.len(),
            out@.len() == i,
            forall|k: int| 0 <= k < i ==> conj_prop_ok(items@[k], strict),
            forall|k: int| 0 <= k < i ==> #[trigger] conj_prop_is(items@[k], strict, out@[k]),
        decreases items@.len() - i,
    {
        match conj_prop(&items[i], strict) {
            Ok(x) => out.push(x),
            Err(e) => return Err(under(e, PathSegment::Index(i))),
        }
        i = i + 1;
    }
    Ok(out)
}

pub open spec fn via_ok(j: Json, strict: bool) -> bool {
    match j {
        Json::Object(m) => keys_ok(m@, strict, Shape::Via) && (list_of(lookup(m@, "prop"@), true) matches Some(
            p,
        ) && conj_props_ok(p, strict)) && opt_str_ok(lookup(m@, "reading"@)) && (list_of(
            lookup(m@, "gloss"@),
            false,
        ) matches Some(g) && glosses_ok(g, strict)) && flag_ok(lookup(m@, "readok"@)),
        _ => false,
    }
}

pub open spec fn via_is(j: Json, strict: bool, v: raw::Via) -> bool {
    match j {
        Json::Object(m) => (list_of(lookup(m@, "prop"@), true) matches Some(p) && conj_props_are(
            p,
            strict,
            v.prop@,
        )) && opt_str_is(lookup(m@, "reading"@), v.reading) && (list_of(lookup(m@, "gloss"@), false) matches Some(
            g,
        ) && glosses_are(g, strict, v.gloss@)) && readok_is(lookup(m@, "readok"@), v.readok),
        _ => false,
    }
}

fn via(j: &Json, strict: bool) -> (r: Result<raw::Via, SchemaError>)
    ensures
        r is Ok <==> via_ok(*j, strict),
        r matches Ok(x) ==> via_is(*j, strict, x),
        r matches Err(e) ==> leads_to(*j, e.path@),
{
    match j {
        Json::Object(m) => {
            match check_keys(m, strict, Shape::Via) {
                Ok(_) => {},
                Err(e) => return Err(e),
            }
            let prop = match (match list_field(m, "prop", true) {
                Ok(v) => v,
                Err(e) => return Err(e),
            }) {
                Some(items) => match conj_props(items, strict) {
                    Ok(v) => v,
                    Err(e) => {
                        let r = under_key(e, "prop");
                        proof {
                            lemma_member_path(*j, "prop"@, r.path@);
                        }
                        return Err(r);
                    },
                },
                None => Vec::new(),
            };
            let reading = match opt_str_field(m, "reading") {
                Ok(v) => v,
                Err(e) => return Err(e),
            };
            let gloss = match (match list_field(m, "gloss", false) {
                Ok(v) => v,
                Err(e) => return Err(e),
            }) {
                Some(items) => match glosses(items, strict) {
                    Ok(v) => v,
                    Err(e) => {
                        let r = under_key(e, "gloss");
                        proof {
                            lemma_member_path(*j, "gloss"@, r.path@);
                        }
                        return Err(r);
                    },
                },
                None => Vec::new(),
            };
            let readok = match readok_field(m, "readok") {
                Ok(v) => v,
                Err(e) => return Err(e),
            };
            Ok(raw::Via { prop, reading, gloss, readok })
        },
        _ => Err(mismatch()),
    }
}

pub open spec fn vias_ok(items: Seq<Json>, strict: bool) -> bool {
    forall|k: int| 0 <= k < items.len() ==> #[trigger] via_ok(items[k], strict)
}

pub open spec fn vias_are(items: Seq<Json>, strict: bool, xs: Seq<raw::Via>) -> bool {
    items.len() == xs.len() && forall|k: int| 0 <= k < items.len() ==> #[trigger] via_is(items[k], strict, xs[k])
}

fn vias(items: &Vec<Json>, strict: bool) -> (r: Result<Vec<raw::Via>, SchemaError>)
    ensures
        r is Ok <==> vias_ok(items@, strict),
        r matches Ok(xs) ==> vias_are(items@, strict, xs@),
        r matches Err(e) ==> leads_into(items@, e.path@),
{
    let mut out: Vec<raw::Via> = Vec::new();
    let mut i: usize = 0;
    while i < items.len()
        invariant
            i <= items@.len(),
            out@.len() == i,
            forall|k: int| 0 <= k < i ==> via_ok(items@[k], strict),
            forall|k: int| 0 <= k < i ==> #[trigger] via_is(items@[k], strict, out@[k]),
        decreases items@.len() - i,
    {
        match via(&items[i], strict) {
            Ok(x) => out.push(x),
            Err(e) => return Err(under(e, PathSegment::Index(i))),
        }
        i = i + 1;
    }
    Ok(out)
}

pub open spec fn conj_ok(j: Json, strict: bool) -> bool {
    match j {
        Json::Object(m) => keys_ok(m@, strict, Shape::Conj) && (list_of(lookup(m@, "prop"@), true) matches Some(
            p,
        ) && conj_props_ok(p, strict)) && (list_of(lookup(m@, "via"@), false) matches Some(v) && vias_ok(
            v,
            strict,
        )) && opt_str_ok(lookup(m@, "reading"@)) && (list_of(lookup(m@, "gloss"@), false) matches Some(g)
            && glosses_ok(g, strict)) && flag_ok(lookup(m@, "readok"@)),
        _ => false,
    }
}

pub open spec fn conj_is(j: Json, strict: bool, c: raw::Conj) -> bool {
    match j {
        Json::Object(m) => (list_of(lookup(m@, "prop"@), true) matches Some(p) && conj_props_are(
            p,
            strict,
            c.prop@,
        )) && (list_of(lookup(m@, "via"@), false) matches Some(v) && vias_are(v, strict, c.via@))
            && opt_str_is(lookup(m@, "reading"@), c.reading) && (list_of(lookup(m@, "gloss"@), false) matches Some(
            g,
        ) && glosses_are(g, strict, c.gloss@)) && readok_is(lookup(m@, "readok"@), c.readok),
        _ => false,
    }
}

fn conj(j: &Json, strict: bool) -> (r: Result<raw::Conj, SchemaError>)
    ensures
        r is Ok <==> conj_ok(*j, strict),
        r matches Ok(x) ==> conj_is(*j, strict, x),
        r matches Err(e) ==> leads_to(*j, e.path@),
{
    match j {
        Json::Object(m) => {
            match check_keys(m, strict, Shape::Conj) {
                Ok(_) => {},
                Err(e) => return Err(e),
            }
            let prop = match (match list_field(m, "prop", true) {
                Ok(v) => v,
                Err(e) => return Err(e),
            }) {
                Some(items) => match conj_props(items, strict) {
                    Ok(v) => v,
                    Err(e) => {
                        let r = under_key(e, "prop");
                        proof {
                            lemma_member_path(*j, "prop"@, r.path@);
                        }
                        return Err(r);
                    },
                },
                None => Vec::new(),
            };
            let via = match (match list_field(m, "via", false) {
                Ok(v) => v,
                Err(e) => return Err(e),
            }) {
                Some(items) => match vias(items, strict) {
                    Ok(v) => v,
                    Err(e) => {
                        let r = under_key(e, "via");
                        proof {
                            lemma_member_path(*j, "via"@, r.path@);
                        }
                        return Err(r);
                    },
                },
                None => Vec::new(),
            };
            let reading = match opt_str_field(m, "reading") {
                Ok(v) => v,
                Err(e) => return Err(e),
            };
            let gloss = match (match list_field(m, "gloss", false) {
                Ok(v) => v,
                Err(e) => return Err(e),
            }) {
                Some(items) => match glosses(items, strict) {
                    Ok(v) => v,
                    Err(e) => {
                        let r = under_key(e, "gloss");
                        proof {
                            lemma_member_path(*j, "gloss"@, r.path@);
                        }
                        return Err(r);
                    },
                },
                None => Vec::new(),
            };
            let readok = match readok_field(m, "readok") {
                Ok(v) => v,
                Err(e) => return Err(e),
            };
            Ok(raw::Conj { prop, via, reading, gloss, readok })
        },
        _ => Err(mismatch()),
    }
}

pub open spec fn conjs_ok(items: Seq<Json>, strict: bool) -> bool {
    forall|k: int| 0 <= k < items.len() ==> #[trigger] conj_ok(items[k], strict)
}

pub open spec fn conjs_are(items: Seq<Json>, strict: bool, xs: Seq<raw::Conj>) -> bool {
    items.len() == xs.len() && forall|k: int| 0 <= k < items.len() ==> #[trigger] conj_is(items[k], strict, xs[k])
}

fn conjs(items: &Vec<Json>, strict: bool) -> (r: Result<Vec<raw::Conj>, SchemaError>)
    ensures
        r is Ok <==> conjs_ok(items@, strict),
        r matches Ok(xs) ==> conjs_are(items@, strict, xs@),
        r matches Err(e) ==> leads_into(items@, e.path@),
{
    let mut out: Vec<raw::Conj> = Vec::new();
    let mut i: usize = 0;
    while i < items.len()
        invariant
            i <= items@.len(),
            out@.len() == i,
            forall|k: int| 0 <= k < i ==> conj_ok(items@[k], strict),
            forall|k: int| 0 <= k < i ==> #[trigger] conj_is(items@[k], strict, out@[k]),
        decreases items@.len() - i,
    {
        match conj(&items[i], strict) {
            Ok(x) => out.push(x),
            Err(e) => return Err(under(e, PathSegment::Index(i))),
        }
        i = i + 1;
    }
    Ok(out)
}

/// An optional counter member: absent or null is none.
pub open spec fn counter_field_ok(f: Option<Json>, strict: bool) -> bool {
    match f {
        None => true,
        Some(Json::Null) => true,
        Some(c) => counter_ok(c, strict),
    }
}

pub open spec fn counter_field_is(f: Option<Json>, strict: bool, o: Option<raw::Counter>) -> bool {
    match f {
        None => o is None,
        Some(Json::Null) => o is None,
        Some(c) => o matches Some(x) && counter_is(c, strict, x),
    }
}

pub open spec fn word_info_ok(j: Json, strict: bool) -> bool {
    match j {
        Json::Object(m) => keys_ok(m@, strict, Shape::WordInfo) && str_ok(lookup(m@, "reading"@)) && str_ok(
            lookup(m@, "text"@),
        ) && str_ok(lookup(m@, "kana"@)) && int_ok(lookup(m@, "score"@)) && counter_field_ok(
            lookup(m@, "counter"@),
            strict,
        ) && opt_int_ok(lookup(m@, "seq"@)) && (list_of(lookup(m@, "gloss"@), false) matches Some(g)
            && glosses_ok(g, strict)) && opt_str_ok(lookup(m@, "suffix"@)) && (list_of(
            lookup(m@, "conj"@),
            false,
        ) matches Some(c) && conjs_ok(c, strict)),
        _ => false,
    }
}

pub open spec fn word_info_is(j: Json, strict: bool, w: raw::WordInfo) -> bool {
    match j {
        Json::Object(m) => str_is(lookup(m@, "reading"@), w.reading) && str_is(lookup(m@, "text"@), w.text)
            && str_is(lookup(m@, "kana"@), w.kana) && int_is(lookup(m@, "score"@), w.score)
            && counter_field_is(lookup(m@, "counter"@), strict, w.counter) && opt_int_is(
            lookup(m@, "seq"@),
            w.seq,
        ) && (list_of(lookup(m@, "gloss"@), false) matches Some(g) && glosses_are(g, strict, w.gloss@))
            && opt_str_is(lookup(m@, "suffix"@), w.suffix) && (list_of(lookup(m@, "conj"@), false) matches Some(
            c,
        ) && conjs_are(c, strict, w.conj@)),
        _ => false,
    }
}

fn word_info(j: &Json, strict: bool) -> (r: Result<raw::WordInfo, SchemaError>)
    ensures
        r is Ok <==> word_info_ok(*j, strict),
        r matches Ok(x) ==> word_info_is(*j, strict, x),
        r matches Err(e) ==> leads_to(*j, e.path@),
{
    match j {
        Json::Object(m) => {
            match check_keys(m, strict, Shape::WordInfo) {
                Ok(_) => {},
                Err(e) => return Err(e),
            }
            let reading = match str_field(m, "reading") {
                Ok(v) => v,
                Err(e) => return Err(e),
            };
            let text = match str_field(m, "text") {
                Ok(v) => v,
                Err(e) => return Err(e),
            };
            let kana = match str_field(m, "kana") {
                Ok(v) => v,
                Err(e) => return Err(e),
            };
            let score = match int_field(m, "score") {
                Ok(v) => v,
                Err(e) => return Err(e),
            };
            let counter = match get(m, "counter") {
                None => None,
                Some(Json::Null) => None,
                Some(c) => match counter(c, strict) {
                    Ok(x) => Some(x),
                    Err(e) => {
                        let r = under_key(e, "counter");
                        proof {
                            lemma_member_path(*j, "counter"@, r.path@);
                        }
                        return Err(r);
                    },
                },
            };
            let seq = match opt_int_field(m, "seq") {
                Ok(v) => v,
                Err(e) => return Err(e),
            };
            let gloss = match (match list_field(m, "gloss", false) {
                Ok(v) => v,
                Err(e) => return Err(e),
            }) {
                Some(items) => match glosses(items, strict) {
                    Ok(v) => v,
                    Err(e) => {
                        let r = under_key(e, "gloss");
                        proof {
                            lemma_member_path(*j, "gloss"@, r.path@);
                        }
                        return Err(r);
                    },
                },
                None => Vec::new(),
            };
            let suffix = match opt_str_field(m, "suffix") {
                Ok(v) => v,
                Err(e) => return Err(e),
            };
            let conj = match (match list_field(m, "conj", false) {
                Ok(v) => v,
                Err(e) => return Err(e),
            }) {
                Some(items) => match conjs(items, strict) {
                    Ok(v) => v,
                    Err(e) => {
                        let r = under_key(e, "conj");
                        proof {
                            lemma_member_path(*j, "conj"@, r.path@);
                        }
                        return Err(r);
                    },
                },
                None => Vec::new(),
            };
            Ok(raw::WordInfo { reading, text, kana, score, counter, seq, gloss, suffix, conj })
        },
        _ => Err(mismatch()),
    }
}

pub open spec fn word_infos_ok(items: Seq<Json>, strict: bool) -> bool {
    forall|k: int| 0 <= k < items.len() ==> #[trigger] word_info_ok(items[k], strict)
}

pub open spec fn word_infos_are(items: Seq<Json>, strict: bool, xs: Seq<raw::WordInfo>) -> bool {
    items.len() == xs.len() && forall|k: int| 0 <= k < items.len() ==> #[trigger] word_info_is(items[k], strict, xs[k])
}

fn word_infos(items: &Vec<Json>, strict: bool) -> (r: Result<Vec<raw::WordInfo>, SchemaError>)
    ensures
        r is Ok <==> word_infos_ok(items@, strict),
        r matches Ok(xs) ==> word_infos_are(items@, strict, xs@),
        r matches Err(e) ==> leads_into(items@, e.path@),
{
    let mut out: Vec<raw::WordInfo> = Vec::new();
    let mut i: usize = 0;
    while i < items.len()
        invariant
            i <= items@.len(),
            out@.len() == i,
            forall|k: int| 0 <= k < i ==> word_info_ok(items@[k], strict),
            forall|k: int| 0 <= k < i ==> #[trigger] word_info_is(items@[k], strict, out@[k]),
        decreases items@.len() - i,
    {
        match word_info(&items[i], strict) {
            Ok(x) => out.push(x),
            Err(e) => return Err(under(e, PathSegment::Index(i))),
        }
        i = i + 1;
    }
    Ok(out)
}

pub open spec fn string_ok(j: Json, strict: bool) -> bool {
    j is String
}

pub open spec fn string_is(j: Json, strict: bool, s: String) -> bool {
    str_is(Some(j), s)
}

fn string(j: &Json, strict: bool) -> (r: Result<String, SchemaError>)
    ensures
        r is Ok <==> string_ok(*j, strict),
        r matches Ok(x) ==> string_is(*j, strict, x),
        r matches Err(e) ==> leads_to(*j, e.path@),
{
    match j {
        Json::String(s) => Ok(s.clone()),
        _ => Err(mismatch()),
    }
}

pub open spec fn strings_ok(items: Seq<Json>, strict: bool) -> bool {
    forall|k: int| 0 <= k < items.len() ==> #[trigger] string_ok(items[k], strict)
}

pub open spec fn strings_are(items: Seq<Json>, strict: bool, xs: Seq<String>) -> bool {
    items.len() == xs.len() && forall|k: int| 0 <= k < items.len() ==> #[trigger] string_is(items[k], strict, xs[k])
}

fn strings(items: &Vec<Json>, strict: bool) -> (r: Result<Vec<String>, SchemaError>)
    ensures
        r is Ok <==> strings_ok(items@, strict),
        r matches Ok(xs) ==> strings_are(items@, strict, xs@),
        r matches Err(e) ==> leads_into(items@, e.path@),
{
    let mut out: Vec<String> = Vec::new();
    let mut i: usize = 0;
    while i < items.len()
        invariant
            i <= items@.len(),
            out@.len() == i,
            forall|k: int| 0 <= k < i ==> string_ok(items@[k], strict),
            forall|k: int| 0 <= k < i ==> #[trigger] string_is(items@[k], strict, out@[k]),
        decreases items@.len() - i,
    {
        match string(&items[i], strict) {
            Ok(x) => out.push(x),
            Err(e) => return Err(under(e, PathSegment::Index(i))),
        }
        i = i + 1;
    }
    Ok(out)
}

pub open spec fn compound_ok(j: Json, strict: bool) -> bool {
    match j {
        Json::Object(m) => keys_ok(m@, strict, Shape::CompoundWordInfo) && str_ok(lookup(m@, "reading"@))
            && str_ok(lookup(m@, "text"@)) && str_ok(lookup(m@, "kana"@)) && int_ok(lookup(m@, "score"@))
            && (list_of(lookup(m@, "compound"@), true) matches Some(c) && strings_ok(c, strict)) && (list_of(
            lookup(m@, "components"@),
            true,
        ) matches Some(w) && word_infos_ok(w, strict)),
        _ => false,
    }
}

pub open spec fn compound_is(j: Json, strict: bool, c: raw::CompoundWordInfo) -> bool {
    match j {
        Json::Object(m) => str_is(lookup(m@, "reading"@), c.reading) && str_is(lookup(m@, "text"@), c.text)
            && str_is(lookup(m@, "kana"@), c.kana) && int_is(lookup(m@, "score"@), c.score) && (list_of(
            lookup(m@, "compound"@),
            true,
        ) matches Some(s) && strings_are(s, strict, c.compound@)) && (list_of(
            lookup(m@, "components"@),
            true,
        ) matches Some(w) && word_infos_are(w, strict, c.components@)),
        _ => false,
    }
}

fn compound(j: &Json, strict: bool) -> (r: Result<raw::CompoundWordInfo, SchemaError>)
    ensures
        r is Ok <==> compound_ok(*j, strict),
        r matches Ok(x) ==> compound_is(*j, strict, x),
        r matches Err(e) ==> leads_to(*j, e.path@),
{
    match j {
        Json::Object(m) => {
            match check_keys(m, strict, Shape::CompoundWordInfo) {
                Ok(_) => {},
                Err(e) => return Err(e),
            }
            let reading = match str_field(m, "reading") {
                Ok(v) => v,
                Err(e) => return Err(e),
            };
            let text = match str_field(m, "text") {
                Ok(v) => v,
                Err(e) => return Err(e),
            };
            let kana = match str_field(m, "kana") {
                Ok(v) => v,
                Err(e) => return Err(e),
            };
            let score = match int_field(m, "score") {
                Ok(v) => v,
                Err(e) => return Err(e),
            };
            let compound = match (match list_field(m, "compound", true) {
                Ok(v) => v,
                Err(e) => return Err(e),
            }) {
                Some(items) => match strings(items, strict) {
                    Ok(v) => v,
                    Err(e) => {
                        let r = under_key(e, "compound");
                        proof {
                            lemma_member_path(*j, "compound"@, r.path@);
                        }
                        return Err(r);
                    },
                },
                None => Vec::new(),
            };
            let components = match (match list_field(m, "components", true) {
                Ok(v) => v,
                Err(e) => return Err(e),
            }) {
                Some(items) => match word_infos(items, strict) {
                    Ok(v) => v,
                    Err(e) => {
                        let r = under_key(e, "components");
                        proof {
                            lemma_member_path(*j, "components"@, r.path@);
                        }
                        return Err(r);
                    },
                },
                None => Vec::new(),
            };
            Ok(raw::CompoundWordInfo { reading, text, kana, score, compound, components })
        },
        _ => Err(mismatch()),
    }
}

/// An object with a `compound` member is a compound word; any other is a
/// simple one.
pub open spec fn has_compound(j: Json) -> bool {
    j matches Json::Object(m) && lookup(m@, "compound"@) is Some
}

pub open spec fn alternative_ok(j: Json, strict: bool) -> bool {
    if has_compound(j) {
        compound_ok(j, strict)
    } else {
        word_info_ok(j, strict)
    }
}

pub open spec fn alternative_is(j: Json, strict: bool, a: raw::Alternative) -> bool {
    if has_compound(j) {
        a matches raw::Alternative::CompoundWordInfo(c) && compound_is(j, strict, c)
    } else {
        a matches raw::Alternative::WordInfo(w) && word_info_is(j, strict, w)
    }
}

fn alternative(j: &Json, strict: bool) -> (r: Result<raw::Alternative, SchemaError>)
    ensures
        r is Ok <==> alternative_ok(*j, strict),
        r matches Ok(x) ==> alternative_is(*j, strict, x),
        r matches Err(e) ==> leads_to(*j, e.path@),
{
    let compound_member = match j {
        Json::Object(m) => get(m, "compound").is_some(),
        _ => false,
    };
    if compound_member {
        match compound(j, strict) {
            Ok(v) => Ok(raw::Alternative::CompoundWordInfo(v)),
            Err(e) => Err(e),
        }
    } else {
        match word_info(j, strict) {
            Ok(v) => Ok(raw::Alternative::WordInfo(v)),
            Err(e) => Err(e),
        }
    }
}

pub open spec fn alternative_list_ok(items: Seq<Json>, strict: bool) -> bool {
    forall|k: int| 0 <= k < items.len() ==> #[trigger] alternative_ok(items[k], strict)
}

pub open spec fn alternative_list_are(items: Seq<Json>, strict: bool, xs: Seq<raw::Alternative>) -> bool {
    items.len() == xs.len() && forall|k: int| 0 <= k < items.len() ==> #[trigger] alternative_is(items[k], strict, xs[k])
}

fn alternative_list(items: &Vec<Json>, strict: bool) -> (r: Result<Vec<raw::Alternative>, SchemaError>)
    ensures
        r is Ok <==> alternative_list_ok(items@, strict),
        r matches Ok(xs) ==> alternative_list_are(items@, strict, xs@),
        r matches Err(e) ==> leads_into(items@, e.path@),
{
    let mut out: Vec<raw::Alternative> = Vec::new();
    let mut i: usize = 0;
    while i < items.len()
        invariant
            i <= items@.len(),
            out@.len() == i,
            forall|k: int| 0 <= k < i ==> alternative_ok(items@[k], strict),
            forall|k: int| 0 <= k < i ==> #[trigger] alternative_is(items@[k], strict, out@[k]),
        decreases items@.len() - i,
    {
        match alternative(&items[i], strict) {
            Ok(x) => out.push(x),
            Err(e) => return Err(under(e, PathSegment::Index(i))),
        }
        i = i + 1;
    }
    Ok(out)
}

/// The wrapped shape: an object whose `alternative` member lists the interpretations.
pub open spec fn wrapped_ok(j: Json, strict: bool) -> bool {
    match j {
        Json::Object(m) => keys_ok(m@, strict, Shape::Wrapped) && (list_of(lookup(m@, "alternative"@), true) matches Some(
            a,
        ) && alternative_list_ok(a, strict)),
        _ => false,
    }
}

/// A word's interpretations: a single one if the value reads as one, else the
/// wrapped shape.
pub open spec fn alternatives_ok(j: Json, strict: bool) -> bool {
    alternative_ok(j, strict) || wrapped_ok(j, strict)
}

pub open spec fn alternatives_is(j: Json, strict: bool, a: raw::Alternatives) -> bool {
    if alternative_ok(j, strict) {
        a matches raw::Alternatives::WordInfo(x) && alternative_is(j, strict, x)
    } else {
        match j {
            Json::Object(m) => (list_of(lookup(m@, "alternative"@), true) matches Some(items) && (
            a matches raw::Alternatives::Alternatives { alternative } && alternative_list_are(
                items,
                strict,
                alternative@,
            ))),
            _ => false,
        }
    }
}

/// Tries the single shape first, then the wrapped one. When neither reads, the
/// error is that of the single shape, unless the value has an `alternative`
/// member.
fn alternatives(j: &Json, strict: bool) -> (r: Result<raw::Alternatives, SchemaError>)
    ensures
        r is Ok <==> alternatives_ok(*j, strict),
        r matches Ok(x) ==> alternatives_is(*j, strict, x),
        r matches Err(e) ==> leads_to(*j, e.path@),
{
    let single = match alternative(j, strict) {
        Ok(x) => return Ok(raw::Alternatives::WordInfo(x)),
        Err(e) => e,
    };
    match j {
        Json::Object(m) => {
            if get(m, "alternative").is_none() {
                return Err(single);
            }
            match check_keys(m, strict, Shape::Wrapped) {
                Ok(_) => {},
                Err(e) => return Err(e),
            }
            match (match list_field(m, "alternative", true) {
                Ok(v) => v,
                Err(e) => return Err(e),
            }) {
                Some(items) => match alternative_list(items, strict) {
                    Ok(v) => Ok(raw::Alternatives::Alternatives { alternative: v }),
                    Err(e) => {
                        let r = under_key(e, "alternative");
                        proof {
                            lemma_member_path(*j, "alternative"@, r.path@);
                        }
                        Err(r)
                    },
                },
                None => Err(mismatch()),
            }
        },
        _ => Err(mismatch()),
    }
}

/// A word: an array of its romanization, its interpretations, and a list that
/// is kept as it is.
pub open spec fn word_ok(j: Json, strict: bool) -> bool {
    match j {
        Json::Array(a) => a@.len() == 3 && a@[0] is String && alternatives_ok(a@[1], strict) && a@[2] is Array,
        _ => false,
    }
}

pub open spec fn word_is(j: Json, strict: bool, w: raw::Word) -> bool {
    match j {
        Json::Array(a) => a@.len() == 3 && str_is(Some(a@[0]), w.0) && alternatives_is(a@[1], strict, w.1)
            && a@[2]@ == Json::Array(w.2)@,
        _ => false,
    }
}

fn word(j: Json, strict: bool) -> (r: Result<raw::Word, SchemaError>)
    ensures
        r is Ok <==> word_ok(j, strict),
        r matches Ok(x) ==> word_is(j, strict, x),
        r matches Err(e) ==> leads_to(j, e.path@),
{
    match j {
        Json::Array(items) => {
            if items.len() != 3 {
                return Err(mismatch());
            }
            let mut items = items;
            let third = items.pop();
            let second = items.pop();
            let first = items.pop();
            let romanized = match first {
                Some(Json::String(s)) => s,
                _ => {
                    let r = under(mismatch(), PathSegment::Index(0));
                    proof {
                        assert(leads_to(j->Array_0@[0], r.path@.drop_first()) || (j->Array_0@[0] is Array && leads_into(j->Array_0@[0]->Array_0@, r.path@.drop_first())));
                        lemma_element_path(j, r.path@);
                    }
                    return Err(r);
                },
            };
            let alternatives = match second {
                Some(x) => match alternatives(&x, strict) {
                    Ok(v) => v,
                    Err(e) => return Err(under(e, PathSegment::Index(1))),
                },
                None => return Err(mismatch()),
            };
            let trailing = match third {
                Some(Json::Array(t)) => t,
                _ => {
                    let r = under(mismatch(), PathSegment::Index(2));
                    proof {
                        assert(leads_to(j->Array_0@[2], r.path@.drop_first()) || (j->Array_0@[2] is Array && leads_into(j->Array_0@[2]->Array_0@, r.path@.drop_first())));
                        lemma_element_path(j, r.path@);
                    }
                    return Err(r);
                },
            };
            Ok(raw::Word(romanized, alternatives, trailing))
        },
        _ => Err(mismatch()),
    }
}

pub open spec fn words_ok(items: Seq<Json>, strict: bool) -> bool {
    forall|k: int| 0 <= k < items.len() ==> #[trigger] word_ok(items[k], strict)
}

pub open spec fn words_are(items: Seq<Json>, strict: bool, xs: Seq<raw::Word>) -> bool {
    items.len() == xs.len() && forall|k: int| 0 <= k < items.len() ==> #[trigger] word_is(items[k], strict, xs[k])
}

fn words(items: Vec<Json>, strict: bool) -> (r: Result<Vec<raw::Word>, SchemaError>)
    ensures
        r is Ok <==> words_ok(items@, strict),
        r matches Ok(xs) ==> words_are(items@, strict, xs@),
        r matches Err(e) ==> leads_into(items@, e.path@),
{
    let ghost orig = items@;
    let total: usize = items.len();
    let mut src = items;
    let mut out: Vec<raw::Word> = Vec::new();
    let mut i: usize = 0;
    while src.len() > 0
        invariant
            out@.len() == i,
            orig == items@,
            orig.len() == total,
            i + src@.len() == orig.len(),
            src@ == orig.subrange(i as int, orig.len() as int),
            forall|k: int| 0 <= k < i ==> word_ok(orig[k], strict),
            forall|k: int| 0 <= k < i ==> #[trigger] word_is(orig[k], strict, out@[k]),
        decreases src@.len(),
    {
        assert(src@[0] == orig[i as int]);
        let item = src.remove(0);
        match word(item, strict) {
            Ok(x) => out.push(x),
            Err(e) => return Err(under(e, PathSegment::Index(i))),
        }
        i = i + 1;
        assert(src@ =~= orig.subrange(i as int, orig.len() as int));
    }
    Ok(out)
}

/// A segmentation: an array of its words and its score.
pub open spec fn segmentation_ok(j: Json, strict: bool) -> bool {
    match j {
        Json::Array(a) => a@.len() == 2 && (a@[0] matches Json::Array(w) && words_ok(w@, strict)) && int_ok(
            Some(a@[1]),
        ),
        _ => false,
    }
}

pub open spec fn segmentation_is(j: Json, strict: bool, s: raw::Segmentation) -> bool {
    match j {
        Json::Array(a) => a@.len() == 2 && (a@[0] matches Json::Array(w) && words_are(w@, strict, s.0@))
            && int_is(Some(a@[1]), s.1),
        _ => false,
    }
}

fn segmentation(j: Json, strict: bool) -> (r: Result<raw::Segmentation, SchemaError>)
    ensures
        r is Ok <==> segmentation_ok(j, strict),
        r matches Ok(x) ==> segmentation_is(j, strict, x),
        r matches Err(e) ==> leads_to(j, e.path@),
{
    match j {
        Json::Array(items) => {
            if items.len() != 2 {
                return Err(mismatch());
            }
            let mut items = items;
            let second = items.pop();
            let first = items.pop();
            let score = match int_value(second.as_ref()) {
                Some(x) => x,
                None => {
                    let r = under(mismatch(), PathSegment::Index(1));
                    proof {
                        assert(leads_to(j->Array_0@[1], r.path@.drop_first()) || (j->Array_0@[1] is Array && leads_into(j->Array_0@[1]->Array_0@, r.path@.drop_first())));
                        lemma_element_path(j, r.path@);
                    }
                    return Err(r);
                },
            };
            let words = match first {
                Some(Json::Array(w)) => match words(w, strict) {
                    Ok(v) => v,
                    Err(e) => {
                    let r = under(e, PathSegment::Index(0));
                    proof {
                        assert(leads_to(j->Array_0@[0], r.path@.drop_first()) || (j->Array_0@[0] is Array && leads_into(j->Array_0@[0]->Array_0@, r.path@.drop_first())));
                        lemma_element_path(j, r.path@);
                    }
                    return Err(r);
                },
                },
                _ => {
                    let r = under(mismatch(), PathSegment::Index(0));
                    proof {
                        assert(leads_to(j->Array_0@[0], r.path@.drop_first()) || (j->Array_0@[0] is Array && leads_into(j->Array_0@[0]->Array_0@, r.path@.drop_first())));
                        lemma_element_path(j, r.path@);
                    }
                    return Err(r);
                },
            };
            Ok(raw::Segmentation(words, score))
        },
        _ => Err(mismatch()),
    }
}

pub open spec fn segmentations_ok(items: Seq<Json>, strict: bool) -> bool {
    forall|k: int| 0 <= k < items.len() ==> #[trigger] segmentation_ok(items[k], strict)
}

pub open spec fn segmentations_are(items: Seq<Json>, strict: bool, xs: Seq<raw::Segmentation>) -> bool {
    items.len() == xs.len() && forall|k: int| 0 <= k < items.len() ==> #[trigger] segmentation_is(items[k], strict, xs[k])
}

fn segmentations(items: Vec<Json>, strict: bool) -> (r: Result<Vec<raw::Segmentation>, SchemaError>)
    ensures
        r is Ok <==> segmentations_ok(items@, strict),
        r matches Ok(xs) ==> segmentations_are(items@, strict, xs@),
        r matches Err(e) ==> leads_into(items@, e.path@),
{
    let ghost orig = items@;
    let total: usize = items.len();
    let mut src = items;
    let mut out: Vec<raw::Segmentation> = Vec::new();
    let mut i: usize = 0;
    while src.len() > 0
        invariant
            out@.len() == i,
            orig == items@,
            orig.len() == total,
            i + src@.len() == orig.len(),
            src@ == orig.subrange(i as int, orig.len() as int),
            forall|k: int| 0 <= k < i ==> segmentation_ok(orig[k], strict),
            forall|k: int| 0 <= k < i ==> #[trigger] segmentation_is(orig[k], strict, out@[k]),
        decreases src@.len(),
    {
        assert(src@[0] == orig[i as int]);
        let item = src.remove(0);
        match segmentation(item, strict) {
            Ok(x) => out.push(x),
            Err(e) => return Err(under(e, PathSegment::Index(i))),
        }
        i = i + 1;
        assert(src@ =~= orig.subrange(i as int, orig.len() as int));
    }
    Ok(out)
}

/// A segment: a string is text that passes through; otherwise it is a list of
/// candidate segmentations.
pub open spec fn segment_ok(j: Json, strict: bool) -> bool {
    match j {
        Json::String(_) => true,
        Json::Array(items) => segmentations_ok(items@, strict),
        _ => false,
    }
}

pub open spec fn segment_is(j: Json, strict: bool, s: raw::Segment) -> bool {
    match j {
        Json::String(t) => s matches raw::Segment::Other(u) && u@ == t@,
        Json::Array(items) => s matches raw::Segment::Segmentations(v) && segmentations_are(items@, strict, v@),
        _ => false,
    }
}

fn segment(j: Json, strict: bool) -> (r: Result<raw::Segment, SchemaError>)
    ensures
        r is Ok <==> segment_ok(j, strict),
        r matches Ok(x) ==> segment_is(j, strict, x),
        r matches Err(e) ==> leads_to(j, e.path@),
{
    match j {
        Json::String(t) => Ok(raw::Segment::Other(t)),
        Json::Array(items) => match segmentations(items, strict) {
            Ok(v) => Ok(raw::Segment::Segmentations(v)),
            Err(e) => Err(e),
        },
        _ => Err(mismatch()),
    }
}

pub open spec fn segments_ok(items: Seq<Json>, strict: bool) -> bool {
    forall|k: int| 0 <= k < items.len() ==> #[trigger] segment_ok(items[k], strict)
}

pub open spec fn segments_are(items: Seq<Json>, strict: bool, xs: Seq<raw::Segment>) -> bool {
    items.len() == xs.len() && forall|k: int| 0 <= k < items.len() ==> #[trigger] segment_is(items[k], strict, xs[k])
}

fn segments(items: Vec<Json>, strict: bool) -> (r: Result<Vec<raw::Segment>, SchemaError>)
    ensures
        r is Ok <==> segments_ok(items@, strict),
        r matches Ok(xs) ==> segments_are(items@, strict, xs@),
        r matches Err(e) ==> leads_into(items@, e.path@),
{
    let ghost orig = items@;
    let total: usize = items.len();
    let mut src = items;
    let mut out: Vec<raw::Segment> = Vec::new();
    let mut i: usize = 0;
    while src.len() > 0
        invariant
            out@.len() == i,
            orig == items@,
            orig.len() == total,
            i + src@.len() == orig.len(),
            src@ == orig.subrange(i as int, orig.len() as int),
            forall|k: int| 0 <= k < i ==> segment_ok(orig[k], strict),
            forall|k: int| 0 <= k < i ==> #[trigger] segment_is(orig[k], strict, out@[k]),
        decreases src@.len(),
    {
        assert(src@[0] == orig[i as int]);
        let item = src.remove(0);
        match segment(item, strict) {
            Ok(x) => out.push(x),
            Err(e) => return Err(under(e, PathSegment::Index(i))),
        }
        i = i + 1;
        assert(src@ =~= orig.subrange(i as int, orig.len() as int));
    }
    Ok(out)
}

/// A document: an array of segments.
pub open spec fn document_ok(j: Json, strict: bool) -> bool {
    j matches Json::Array(items) && segments_ok(items@, strict)
}

pub open spec fn document_is(j: Json, strict: bool, d: raw::FullSplitInfo) -> bool {
    j matches Json::Array(items) && segments_are(items@, strict, d.0@)
}

/// Reads a document from its JSON value. It fails exactly when the value does
/// not match the schema; in strict mode an object member that the schema does
/// not name is such a mismatch.
pub fn decode_document(j: Json, strict: bool) -> (r: Result<raw::FullSplitInfo, SchemaError>)
    ensures
        r is Ok <==> document_ok(j, strict),
        r matches Ok(d) ==> document_is(j, strict, d),
        r matches Err(e) ==> leads_to(j, e.path@),
{
    match j {
        Json::Array(items) => match segments(items, strict) {
            Ok(v) => Ok(raw::FullSplitInfo(v)),
            Err(e) => Err(e),
        },
        _ => Err(mismatch()),
    }
}

proof fn lemma_lookup_push(m: Seq<(String, Json)>, extra: (String, Json), key: Seq<char>)
    requires
        extra.0@ != key,
    ensures
        lookup(m.push(extra), key) == lookup(m, key),
    decreases m.len(),
{
    if m.len() > 0 {
        assert(m.push(extra)[0] == m[0]);
        assert(m.push(extra).drop_first() =~= m.drop_first().push(extra));
        lemma_lookup_push(m.drop_first(), extra, key);
    } else {
        assert(m.push(extra)[0] == extra);
        assert(m.push(extra).drop_first() =~= Seq::<(String, Json)>::empty());
        assert(lookup(Seq::<(String, Json)>::empty(), key) is None);
    }
}

/// An object of any kind with a member that its kind does not name fails the
/// strict check; the lenient check passes every object.
pub proof fn lemma_unknown_member_keys(members: Seq<(String, Json)>, extra: (String, Json), shape: Shape)
    requires
        !known_key(shape, extra.0@),
    ensures
        !keys_ok(members.push(extra), true, shape),
        keys_ok(members.push(extra), false, shape),
{
    assert(members.push(extra)[members.len() as int] == extra);
}

/// A word object with a member that the schema does not name is refused in
/// strict mode, and in lenient mode reads exactly as the object without it.
pub proof fn lemma_strict_refuses_unknown_member(
    members: Vec<(String, Json)>,
    extended: Vec<(String, Json)>,
    extra: (String, Json),
)
    requires
        extended@ == members@.push(extra),
        !known_key(Shape::WordInfo, extra.0@),
    ensures
        !word_info_ok(Json::Object(extended), true),
        word_info_ok(Json::Object(extended), false) == word_info_ok(Json::Object(members), false),
        forall|w: raw::WordInfo|
            word_info_is(Json::Object(extended), false, w) == word_info_is(Json::Object(members), false, w),
{
    lemma_unknown_member_keys(members@, extra, Shape::WordInfo);
    lemma_lookup_push(members@, extra, "reading"@);
    lemma_lookup_push(members@, extra, "text"@);
    lemma_lookup_push(members@, extra, "kana"@);
    lemma_lookup_push(members@, extra, "score"@);
    lemma_lookup_push(members@, extra, "counter"@);
    lemma_lookup_push(members@, extra, "seq"@);
    lemma_lookup_push(members@, extra, "gloss"@);
    lemma_lookup_push(members@, extra, "suffix"@);
    lemma_lookup_push(members@, extra, "conj"@);
}

/// The string that an object holds under `key`, if any.
pub open spec fn string_member(j: Json, key: Seq<char>) -> Option<Seq<char>> {
    match j {
        Json::Object(m) => match lookup(m@, key) {
            Some(Json::String(t)) => Some(t@),
            _ => None,
        },
        _ => None,
    }
}

/// The integer that an object holds under `key`, if any.
pub open spec fn int_member(j: Json, key: Seq<char>) -> Option<int> {
    match j {
        Json::Object(m) => match lookup(m@, key) {
            Some(Json::Number(Some(n))) => Some(n as int),
            _ => None,
        },
        _ => None,
    }
}

/// Reading a word object and normalizing the result gives back the strings
/// and the score written in the object, and each of its glosses' part of
/// speech and meaning, in order.
pub proof fn lemma_word_info_round_trip(j: Json, strict: bool, w: raw::WordInfo)
    requires
        word_info_is(j, strict, w),
    ensures
        string_member(j, "reading"@) == Some(crate::rusty::word_info_of(w).reading),
        string_member(j, "text"@) == Some(crate::rusty::word_info_of(w).text),
        string_member(j, "kana"@) == Some(crate::rusty::word_info_of(w).kana),
        int_member(j, "score"@) == Some(crate::rusty::word_info_of(w).score as int),
        j matches Json::Object(m) && (list_of(lookup(m@, "gloss"@), false) matches Some(g) && g.len()
            == crate::rusty::word_info_of(w).gloss.len() && forall|k: int|
            0 <= k < g.len() ==> string_member(#[trigger] g[k], "pos"@) == Some(
                crate::rusty::word_info_of(w).gloss[k].pos,
            ) && string_member(g[k], "gloss"@) == Some(crate::rusty::word_info_of(w).gloss[k].gloss)),
{
    let m = j->Object_0;
    let g = list_of(lookup(m@, "gloss"@), false)->Some_0;
    assert forall|k: int| 0 <= k < g.len() implies string_member(#[trigger] g[k], "pos"@) == Some(
        crate::rusty::word_info_of(w).gloss[k].pos,
    ) && string_member(g[k], "gloss"@) == Some(crate::rusty::word_info_of(w).gloss[k].gloss) by {
        assert(gloss_is(g[k], strict, w.gloss@[k]));
    }
}

proof fn lemma_gloss_agrees(j: Json, strict: bool, x: raw::Gloss, y: raw::Gloss)
    requires
        gloss_is(j, strict, x),
        gloss_is(j, strict, y),
    ensures
        rusty::gloss_of(x) == rusty::gloss_of(y),
{
}

proof fn lemma_glosses_agree(items: Seq<Json>, strict: bool, xs: Seq<raw::Gloss>, ys: Seq<raw::Gloss>)
    requires
        glosses_are(items, strict, xs),
        glosses_are(items, strict, ys),
    ensures
        rusty::glosses_of(xs) == rusty::glosses_of(ys),
{
    assert forall|k: int| 0 <= k < xs.len() implies rusty::glosses_of(xs)[k] == rusty::glosses_of(ys)[k] by {
        assert(gloss_is(items[k], strict, xs[k]));
        assert(gloss_is(items[k], strict, ys[k]));
        lemma_gloss_agrees(items[k], strict, xs[k], ys[k]);
    }
    assert(rusty::glosses_of(xs) =~= rusty::glosses_of(ys));
}

proof fn lemma_conj_prop_agrees(j: Json, strict: bool, x: raw::ConjProp, y: raw::ConjProp)
    requires
        conj_prop_is(j, strict, x),
        conj_prop_is(j, strict, y),
    ensures
        rusty::conj_prop_of(x) == rusty::conj_prop_of(y),
{
}

proof fn lemma_conj_props_agree(items: Seq<Json>, strict: bool, xs: Seq<raw::ConjProp>, ys: Seq<raw::ConjProp>)
    requires
        conj_props_are(items, strict, xs),
        conj_props_are(items, strict, ys),
    ensures
        rusty::props_of(xs) == rusty::props_of(ys),
{
    assert forall|k: int| 0 <= k < xs.len() implies rusty::props_of(xs)[k] == rusty::props_of(ys)[k] by {
        assert(conj_prop_is(items[k], strict, xs[k]));
        assert(conj_prop_is(items[k], strict, ys[k]));
        lemma_conj_prop_agrees(items[k], strict, xs[k], ys[k]);
    }
    assert(rusty::props_of(xs) =~= rusty::props_of(ys));
}

proof fn lemma_via_agrees(j: Json, strict: bool, x: raw::Via, y: raw::Via)
    requires
        via_is(j, strict, x),
        via_is(j, strict, y),
    ensures
        rusty::via_of(x) == rusty::via_of(y),
{
    let m = j->Object_0;
    lemma_conj_props_agree(list_of(lookup(m@, "prop"@), true)->Some_0, strict, x.prop@, y.prop@);
    lemma_glosses_agree(list_of(lookup(m@, "gloss"@), false)->Some_0, strict, x.gloss@, y.gloss@);
}

proof fn lemma_vias_agree(items: Seq<Json>, strict: bool, xs: Seq<raw::Via>, ys: Seq<raw::Via>)
    requires
        vias_are(items, strict, xs),
        vias_are(items, strict, ys),
    ensures
        rusty::vias_of(xs) == rusty::vias_of(ys),
{
    assert forall|k: int| 0 <= k < xs.len() implies rusty::vias_of(xs)[k] == rusty::vias_of(ys)[k] by {
        assert(via_is(items[k], strict, xs[k]));
        assert(via_is(items[k], strict, ys[k]));
        lemma_via_agrees(items[k], strict, xs[k], ys[k]);
    }
    assert(rusty::vias_of(xs) =~= rusty::vias_of(ys));
}

proof fn lemma_conj_agrees(j: Json, strict: bool, x: raw::Conj, y: raw::Conj)
    requires
        conj_is(j, strict, x),
        conj_is(j, strict, y),
    ensures
        rusty::conj_of(x) == rusty::conj_of(y),
{
    let m = j->Object_0;
    lemma_conj_props_agree(list_of(lookup(m@, "prop"@), true)->Some_0, strict, x.prop@, y.prop@);
    lemma_vias_agree(list_of(lookup(m@, "via"@), false)->Some_0, strict, x.via@, y.via@);
    lemma_glosses_agree(list_of(lookup(m@, "gloss"@), false)->Some_0, strict, x.gloss@, y.gloss@);
}

proof fn lemma_conjs_agree(items: Seq<Json>, strict: bool, xs: Seq<raw::Conj>, ys: Seq<raw::Conj>)
    requires
        conjs_are(items, strict, xs),
        conjs_are(items, strict, ys),
    ensures
        rusty::conjs_of(xs) == rusty::conjs_of(ys),
{
    assert forall|k: int| 0 <= k < xs.len() implies rusty::conjs_of(xs)[k] == rusty::conjs_of(ys)[k] by {
        assert(conj_is(items[k], strict, xs[k]));
        assert(conj_is(items[k], strict, ys[k]));
        lemma_conj_agrees(items[k], strict, xs[k], ys[k]);
    }
    assert(rusty::conjs_of(xs) =~= rusty::conjs_of(ys));
}

proof fn lemma_word_info_agrees(j: Json, strict: bool, x: raw::WordInfo, y: raw::WordInfo)
    requires
        word_info_is(j, strict, x),
        word_info_is(j, strict, y),
    ensures
        rusty::word_info_of(x) == rusty::word_info_of(y),
{
    let m = j->Object_0;
    lemma_glosses_agree(list_of(lookup(m@, "gloss"@), false)->Some_0, strict, x.gloss@, y.gloss@);
    lemma_conjs_agree(list_of(lookup(m@, "conj"@), false)->Some_0, strict, x.conj@, y.conj@);
}

proof fn lemma_word_infos_agree(items: Seq<Json>, strict: bool, xs: Seq<raw::WordInfo>, ys: Seq<raw::WordInfo>)
    requires
        word_infos_are(items, strict, xs),
        word_infos_are(items, strict, ys),
    ensures
        rusty::word_infos_of(xs) == rusty::word_infos_of(ys),
{
    assert forall|k: int| 0 <= k < xs.len() implies rusty::word_infos_of(xs)[k] == rusty::word_infos_of(ys)[k] by {
        assert(word_info_is(items[k], strict, xs[k]));
        assert(word_info_is(items[k], strict, ys[k]));
        lemma_word_info_agrees(items[k], strict, xs[k], ys[k]);
    }
    assert(rusty::word_infos_of(xs) =~= rusty::word_infos_of(ys));
}

proof fn lemma_string_agrees(j: Json, strict: bool, x: String, y: String)
    requires
        string_is(j, strict, x),
        string_is(j, strict, y),
    ensures
        x@ == y@,
{
}

proof fn lemma_strings_agree(items: Seq<Json>, strict: bool, xs: Seq<String>, ys: Seq<String>)
    requires
        strings_are(items, strict, xs),
        strings_are(items, strict, ys),
    ensures
        crate::views_of(xs) == crate::views_of(ys),
{
    assert forall|k: int| 0 <= k < xs.len() implies crate::views_of(xs)[k] == crate::views_of(ys)[k] by {
        assert(string_is(items[k], strict, xs[k]));
        assert(string_is(items[k], strict, ys[k]));
    }
    assert(crate::views_of(xs) =~= crate::views_of(ys));
}

proof fn lemma_alternative_agrees(j: Json, strict: bool, x: raw::Alternative, y: raw::Alternative)
    requires
        alternative_is(j, strict, x),
        alternative_is(j, strict, y),
    ensures
        rusty::alternative_of(x) == rusty::alternative_of(y),
{
    if has_compound(j) {
        let m = j->Object_0;
        let (cx, cy) = (x->CompoundWordInfo_0, y->CompoundWordInfo_0);
        lemma_strings_agree(list_of(lookup(m@, "compound"@), true)->Some_0, strict, cx.compound@, cy.compound@);
        lemma_word_infos_agree(
            list_of(lookup(m@, "components"@), true)->Some_0,
            strict,
            cx.components@,
            cy.components@,
        );
    } else {
        lemma_word_info_agrees(j, strict, x->WordInfo_0, y->WordInfo_0);
    }
}

proof fn lemma_alternative_list_agree(items: Seq<Json>, strict: bool, xs: Seq<raw::Alternative>, ys: Seq<raw::Alternative>)
    requires
        alternative_list_are(items, strict, xs),
        alternative_list_are(items, strict, ys),
    ensures
        rusty::alternative_list_of(xs) == rusty::alternative_list_of(ys),
{
    assert forall|k: int| 0 <= k < xs.len() implies rusty::alternative_list_of(xs)[k] == rusty::alternative_list_of(ys)[k] by {
        assert(alternative_is(items[k], strict, xs[k]));
        assert(alternative_is(items[k], strict, ys[k]));
        lemma_alternative_agrees(items[k], strict, xs[k], ys[k]);
    }
    assert(rusty::alternative_list_of(xs) =~= rusty::alternative_list_of(ys));
}

/// Two readings of the same interpretations value normalize alike.
pub proof fn lemma_alternatives_agree(j: Json, strict: bool, x: raw::Alternatives, y: raw::Alternatives)
    requires
        alternatives_is(j, strict, x),
        alternatives_is(j, strict, y),
    ensures
        rusty::alternatives_of(x) == rusty::alternatives_of(y),
{
    if alternative_ok(j, strict) {
        lemma_alternative_agrees(j, strict, x->WordInfo_0, y->WordInfo_0);
    } else {
        let m = j->Object_0;
        lemma_alternative_list_agree(
            list_of(lookup(m@, "alternative"@), true)->Some_0,
            strict,
            (x->alternative)@,
            (y->alternative)@,
        );
    }
}

/// A word's interpretation given alone, and the same interpretation given as
/// the only element of the `alternative` member of an object that has no other
/// member, read and normalize to the same one-element list.
pub proof fn lemma_wrapped_alternative_agrees(
    j: Json,
    wrapped: Json,
    strict: bool,
    x: raw::Alternatives,
    y: raw::Alternatives,
)
    requires
        alternative_ok(j, strict),
        wrapped matches Json::Object(m) && m@.len() == 1 && m@[0].0@ == "alternative"@ && (m@[0].1 matches Json::Array(
            items,
        ) && items@ == seq![j]),
        alternatives_is(j, strict, x),
        alternatives_is(wrapped, strict, y),
    ensures
        rusty::alternatives_of(x) == rusty::alternatives_of(y),
        rusty::alternatives_of(x).len() == 1,
{
    reveal_strlit("alternative");
    reveal_strlit("compound");
    reveal_strlit("reading");
    let m = wrapped->Object_0;
    assert(m@.drop_first() =~= Seq::<(String, Json)>::empty());
    assert("alternative"@.len() == 11 && "compound"@.len() == 8 && "reading"@.len() == 7);
    assert(lookup(Seq::<(String, Json)>::empty(), "compound"@) is None);
    assert(lookup(Seq::<(String, Json)>::empty(), "reading"@) is None);
    assert(lookup(m@, "compound"@) is None);
    assert(lookup(m@, "reading"@) is None);
    assert(!alternative_ok(wrapped, strict));
    let items = m@[0].1->Array_0;
    assert(lookup(m@, "alternative"@) == Some(m@[0].1));
    let ys = (y->alternative)@;
    assert(alternative_is(items@[0], strict, ys[0]));
    lemma_alternative_agrees(j, strict, x->WordInfo_0, ys[0]);
    assert(rusty::alternative_list_of(ys) =~= seq![rusty::alternative_of(ys[0])]);
}

} // verus!

verus! {

/// Two sequences of values with equal models, element by element.
pub open spec fn same_items(a: Seq<Json>, b: Seq<Json>) -> bool {
    a.len() == b.len() && forall|i: int| 0 <= i < a.len() ==> (#[trigger] a[i])@ == b[i]@
}

/// Two sequences of members with equal names and models, member by member.
pub open spec fn same_members(a: Seq<(String, Json)>, b: Seq<(String, Json)>) -> bool {
    a.len() == b.len() && forall|i: int| 0 <= i < a.len() ==> (#[trigger] a[i]).0@ == b[i].0@ && a[i].1@ == b[i].1@
}

/// Two optional members with equal models.
pub open spec fn same_field(f: Option<Json>, g: Option<Json>) -> bool {
    match (f, g) {
        (None, None) => true,
        (Some(x), Some(y)) => x@ == y@,
        _ => false,
    }
}

proof fn lemma_same_json(a: Json, b: Json)
    requires
        a@ == b@,
    ensures
        a is Null ==> b is Null,
        a matches Json::Bool(x) ==> b == Json::Bool(x),
        a matches Json::Number(x) ==> b == Json::Number(x),
        a matches Json::String(s) ==> (b matches Json::String(t) && t@ == s@),
        a matches Json::Array(x) ==> (b matches Json::Array(y) && same_items(x@, y@)),
        a matches Json::Object(x) ==> (b matches Json::Object(y) && same_members(x@, y@)),
{
    match (a, b) {
        (Json::Array(x), Json::Array(y)) => {
            assert(a == Json::Array(x) && b == Json::Array(y));
            assert(x@.len() == y@.len()) by {
                assert(a@ == crate::json::model_of(a));
                assert(crate::json::model_of(a)->Array_0.len() == x@.len());
                assert(crate::json::model_of(b)->Array_0.len() == y@.len());
            }
            assert forall|i: int| 0 <= i < x@.len() implies (#[trigger] x@[i])@ == y@[i]@ by {
                assert(a@->Array_0[i] == x@[i]@);
                assert(b@->Array_0[i] == y@[i]@);
            }
        },
        (Json::Object(x), Json::Object(y)) => {
            assert(a == Json::Object(x) && b == Json::Object(y));
            assert(x@.len() == y@.len()) by {
                assert(a@ == crate::json::model_of(a));
                assert(crate::json::model_of(a)->Object_0.len() == x@.len());
                assert(crate::json::model_of(b)->Object_0.len() == y@.len());
            }
            assert forall|i: int| 0 <= i < x@.len() implies (#[trigger] x@[i]).0@ == y@[i].0@ && x@[i].1@ == y@[i].1@ by {
                assert(a@->Object_0[i] == (x@[i].0@, x@[i].1@));
                assert(b@->Object_0[i] == (y@[i].0@, y@[i].1@));
            }
        },
        _ => {},
    }
}

proof fn lemma_same_lookup(a: Seq<(String, Json)>, b: Seq<(String, Json)>, key: Seq<char>)
    requires
        same_members(a, b),
    ensures
        same_field(lookup(a, key), lookup(b, key)),
    decreases a.len(),
{
    if a.len() > 0 {
        assert(a[0].0@ == b[0].0@ && a[0].1@ == b[0].1@);
        assert(same_members(a.drop_first(), b.drop_first())) by {
            assert forall|i: int| 0 <= i < a.drop_first().len() implies (#[trigger] a.drop_first()[i]).0@ == b.drop_first()[i].0@
                && a.drop_first()[i].1@ == b.drop_first()[i].1@ by {
                assert(a[i + 1].0@ == b[i + 1].0@ && a[i + 1].1@ == b[i + 1].1@);
            }
        }
        lemma_same_lookup(a.drop_first(), b.drop_first(), key);
    }
}

proof fn lemma_same_field(f: Option<Json>, g: Option<Json>)
    requires
        same_field(f, g),
    ensures
        str_ok(f) == str_ok(g),
        forall|s: String| #[trigger] str_is(f, s) == str_is(g, s),
        opt_str_ok(f) == opt_str_ok(g),
        forall|o: Option<String>| #[trigger] opt_str_is(f, o) == opt_str_is(g, o),
        int_ok(f) == int_ok(g),
        forall|x: i32| #[trigger] int_is(f, x) == int_is(g, x),
        opt_int_ok(f) == opt_int_ok(g),
        forall|o: Option<i32>| #[trigger] opt_int_is(f, o) == opt_int_is(g, o),
        bool_ok(f) == bool_ok(g),
        forall|b: bool| #[trigger] bool_is(f, b) == bool_is(g, b),
        flag_ok(f) == flag_ok(g),
        forall|o: raw::Ordinal| #[trigger] ordinal_is(f, o) == ordinal_is(g, o),
        forall|o: raw::Readok| #[trigger] readok_is(f, o) == readok_is(g, o),
        prop_type_ok(f) == prop_type_ok(g),
        forall|p: raw::PropType| #[trigger] prop_type_is(f, p) == prop_type_is(g, p),
        forall|req: bool| (#[trigger] list_of(f, req) is Some) == (list_of(g, req) is Some),
        forall|req: bool|
            #[trigger] list_of(f, req) is Some ==> same_items(list_of(f, req)->Some_0, list_of(g, req)->Some_0),
        f is None == g is None,
        f == Some(Json::Null) <==> g == Some(Json::Null),
{
    if f is Some {
        lemma_same_json(f->Some_0, g->Some_0);
        lemma_same_json(g->Some_0, f->Some_0);
    }
}

proof fn lemma_same_keys(m: Seq<(String, Json)>, n: Seq<(String, Json)>, strict: bool, shape: Shape)
    requires
        same_members(m, n),
    ensures
        keys_ok(m, strict, shape) == keys_ok(n, strict, shape),
{
    if strict {
        if keys_ok(m, strict, shape) {
            assert forall|i: int| 0 <= i < n.len() implies known_key(shape, #[trigger] n[i].0@) by {
                assert(m[i].0@ == n[i].0@);
            }
        }
        if keys_ok(n, strict, shape) {
            assert forall|i: int| 0 <= i < m.len() implies known_key(shape, #[trigger] m[i].0@) by {
                assert(m[i].0@ == n[i].0@);
            }
        }
    }
}

proof fn lemma_same_gloss(a: Json, b: Json, strict: bool)
    requires
        a@ == b@,
    ensures
        gloss_ok(a, strict) == gloss_ok(b, strict),
        forall|x: raw::Gloss| #[trigger] gloss_is(a, strict, x) == gloss_is(b, strict, x),
{
    lemma_same_json(a, b);
    lemma_same_json(b, a);
    if a is Object {
        let m = a->Object_0;
        let n = b->Object_0;
        lemma_same_keys(m@, n@, strict, Shape::Gloss);
        lemma_same_lookup(m@, n@, "pos"@);
        lemma_same_field(lookup(m@, "pos"@), lookup(n@, "pos"@));
        lemma_same_lookup(m@, n@, "gloss"@);
        lemma_same_field(lookup(m@, "gloss"@), lookup(n@, "gloss"@));
        lemma_same_lookup(m@, n@, "field"@);
        lemma_same_field(lookup(m@, "field"@), lookup(n@, "field"@));
        lemma_same_lookup(m@, n@, "info"@);
        lemma_same_field(lookup(m@, "info"@), lookup(n@, "info"@));


    }
}

proof fn lemma_same_glosses(a: Seq<Json>, b: Seq<Json>, strict: bool)
    requires
        same_items(a, b),
    ensures
        glosses_ok(a, strict) == glosses_ok(b, strict),
        forall|xs: Seq<raw::Gloss>| #[trigger] glosses_are(a, strict, xs) == glosses_are(b, strict, xs),
{
    assert forall|i: int| 0 <= i < a.len() implies (gloss_ok(#[trigger] a[i], strict) == gloss_ok(b[i], strict)
        && forall|x: raw::Gloss| #[trigger] gloss_is(a[i], strict, x) == gloss_is(b[i], strict, x)) by {
        lemma_same_gloss(a[i], b[i], strict);
    }
    if glosses_ok(a, strict) {
        assert forall|i: int| 0 <= i < b.len() implies #[trigger] gloss_ok(b[i], strict) by {
            assert(gloss_ok(a[i], strict));
        }
    }
    if glosses_ok(b, strict) {
        assert forall|i: int| 0 <= i < a.len() implies #[trigger] gloss_ok(a[i], strict) by {
            assert(gloss_ok(b[i], strict));
        }
    }
    assert forall|xs: Seq<raw::Gloss>| #[trigger] glosses_are(a, strict, xs) == glosses_are(b, strict, xs) by {
        if glosses_are(a, strict, xs) {
            assert forall|i: int| 0 <= i < b.len() implies #[trigger] gloss_is(b[i], strict, xs[i]) by {
                assert(gloss_is(a[i], strict, xs[i]));
            }
        }
        if glosses_are(b, strict, xs) {
            assert forall|i: int| 0 <= i < a.len() implies #[trigger] gloss_is(a[i], strict, xs[i]) by {
                assert(gloss_is(b[i], strict, xs[i]));
            }
        }
    }
}

proof fn lemma_same_counter(a: Json, b: Json, strict: bool)
    requires
        a@ == b@,
    ensures
        counter_ok(a, strict) == counter_ok(b, strict),
        forall|x: raw::Counter| #[trigger] counter_is(a, strict, x) == counter_is(b, strict, x),
{
    lemma_same_json(a, b);
    lemma_same_json(b, a);
    if a is Object {
        let m = a->Object_0;
        let n = b->Object_0;
        lemma_same_keys(m@, n@, strict, Shape::Counter);
        lemma_same_lookup(m@, n@, "value"@);
        lemma_same_field(lookup(m@, "value"@), lookup(n@, "value"@));
        lemma_same_lookup(m@, n@, "ordinal"@);
        lemma_same_field(lookup(m@, "ordinal"@), lookup(n@, "ordinal"@));


    }
}

proof fn lemma_same_conj_prop(a: Json, b: Json, strict: bool)
    requires
        a@ == b@,
    ensures
        conj_prop_ok(a, strict) == conj_prop_ok(b, strict),
        forall|x: raw::ConjProp| #[trigger] conj_prop_is(a, strict, x) == conj_prop_is(b, strict, x),
{
    lemma_same_json(a, b);
    lemma_same_json(b, a);
    if a is Object {
        let m = a->Object_0;
        let n = b->Object_0;
        lemma_same_keys(m@, n@, strict, Shape::ConjProp);
        lemma_same_lookup(m@, n@, "pos"@);
        lemma_same_field(lookup(m@, "pos"@), lookup(n@, "pos"@));
        lemma_same_lookup(m@, n@, "type"@);
        lemma_same_field(lookup(m@, "type"@), lookup(n@, "type"@));
        lemma_same_lookup(m@, n@, "fml"@);
        lemma_same_field(lookup(m@, "fml"@), lookup(n@, "fml"@));
        lemma_same_lookup(m@, n@, "neg"@);
        lemma_same_field(lookup(m@, "neg"@), lookup(n@, "neg"@));


    }
}

proof fn lemma_same_conj_props(a: Seq<Json>, b: Seq<Json>, strict: bool)
    requires
        same_items(a, b),
    ensures
        conj_props_ok(a, strict) == conj_props_ok(b, strict),
        forall|xs: Seq<raw::ConjProp>| #[trigger] conj_props_are(a, strict, xs) == conj_props_are(b, strict, xs),
{
    assert forall|i: int| 0 <= i < a.len() implies (conj_prop_ok(#[trigger] a[i], strict) == conj_prop_ok(b[i], strict)
        && forall|x: raw::ConjProp| #[trigger] conj_prop_is(a[i], strict, x) == conj_prop_is(b[i], strict, x)) by {
        lemma_same_conj_prop(a[i], b[i], strict);
    }
    if conj_props_ok(a, strict) {
        assert forall|i: int| 0 <= i < b.len() implies #[trigger] conj_prop_ok(b[i], strict) by {
            assert(conj_prop_ok(a[i], strict));
        }
    }
    if conj_props_ok(b, strict) {
        assert forall|i: int| 0 <= i < a.len() implies #[trigger] conj_prop_ok(a[i], strict) by {
            assert(conj_prop_ok(b[i], strict));
        }
    }
    assert forall|xs: Seq<raw::ConjProp>| #[trigger] conj_props_are(a, strict, xs) == conj_props_are(b, strict, xs) by {
        if conj_props_are(a, strict, xs) {
            assert forall|i: int| 0 <= i < b.len() implies #[trigger] conj_prop_is(b[i], strict, xs[i]) by {
                assert(conj_prop_is(a[i], strict, xs[i]));
            }
        }
        if conj_props_are(b, strict, xs) {
            assert forall|i: int| 0 <= i < a.len() implies #[trigger] conj_prop_is(a[i], strict, xs[i]) by {
                assert(conj_prop_is(b[i], strict, xs[i]));
            }
        }
    }
}

proof fn lemma_same_via(a: Json, b: Json, strict: bool)
    requires
        a@ == b@,
    ensures
        via_ok(a, strict) == via_ok(b, strict),
        forall|x: raw::Via| #[trigger] via_is(a, strict, x) == via_is(b, strict, x),
{
    lemma_same_json(a, b);
    lemma_same_json(b, a);
    if a is Object {
        let m = a->Object_0;
        let n = b->Object_0;
        lemma_same_keys(m@, n@, strict, Shape::Via);
        lemma_same_lookup(m@, n@, "prop"@);
        lemma_same_field(lookup(m@, "prop"@), lookup(n@, "prop"@));
        lemma_same_lookup(m@, n@, "reading"@);
        lemma_same_field(lookup(m@, "reading"@), lookup(n@, "reading"@));
        lemma_same_lookup(m@, n@, "gloss"@);
        lemma_same_field(lookup(m@, "gloss"@), lookup(n@, "gloss"@));
        lemma_same_lookup(m@, n@, "readok"@);
        lemma_same_field(lookup(m@, "readok"@), lookup(n@, "readok"@));
        if list_of(lookup(m@, "prop"@), true) is Some {
            lemma_same_conj_props(list_of(lookup(m@, "prop"@), true)->Some_0, list_of(lookup(n@, "prop"@), true)->Some_0, strict);
        }
        if list_of(lookup(m@, "gloss"@), false) is Some {
            lemma_same_glosses(list_of(lookup(m@, "gloss"@), false)->Some_0, list_of(lookup(n@, "gloss"@), false)->Some_0, strict);
        }

    }
}

proof fn lemma_same_vias(a: Seq<Json>, b: Seq<Json>, strict: bool)
    requires
        same_items(a, b),
    ensures
        vias_ok(a, strict) == vias_ok(b, strict),
        forall|xs: Seq<raw::Via>| #[trigger] vias_are(a, strict, xs) == vias_are(b, strict, xs),
{
    assert forall|i: int| 0 <= i < a.len() implies (via_ok(#[trigger] a[i], strict) == via_ok(b[i], strict)
        && forall|x: raw::Via| #[trigger] via_is(a[i], strict, x) == via_is(b[i], strict, x)) by {
        lemma_same_via(a[i], b[i], strict);
    }
    if vias_ok(a, strict) {
        assert forall|i: int| 0 <= i < b.len() implies #[trigger] via_ok(b[i], strict) by {
            assert(via_ok(a[i], strict));
        }
    }
    if vias_ok(b, strict) {
        assert forall|i: int| 0 <= i < a.len() implies #[trigger] via_ok(a[i], strict) by {
            assert(via_ok(b[i], strict));
        }
    }
    assert forall|xs: Seq<raw::Via>| #[trigger] vias_are(a, strict, xs) == vias_are(b, strict, xs) by {
        if vias_are(a, strict, xs) {
            assert forall|i: int| 0 <= i < b.len() implies #[trigger] via_is(b[i], strict, xs[i]) by {
                assert(via_is(a[i], strict, xs[i]));
            }
        }
        if vias_are(b, strict, xs) {
            assert forall|i: int| 0 <= i < a.len() implies #[trigger] via_is(a[i], strict, xs[i]) by {
                assert(via_is(b[i], strict, xs[i]));
            }
        }
    }
}

proof fn lemma_same_conj(a: Json, b: Json, strict: bool)
    requires
        a@ == b@,
    ensures
        conj_ok(a, strict) == conj_ok(b, strict),
        forall|x: raw::Conj| #[trigger] conj_is(a, strict, x) == conj_is(b, strict, x),
{
    lemma_same_json(a, b);
    lemma_same_json(b, a);
    if a is Object {
        let m = a->Object_0;
        let n = b->Object_0;
        lemma_same_keys(m@, n@, strict, Shape::Conj);
        lemma_same_lookup(m@, n@, "prop"@);
        lemma_same_field(lookup(m@, "prop"@), lookup(n@, "prop"@));
        lemma_same_lookup(m@, n@, "via"@);
        lemma_same_field(lookup(m@, "via"@), lookup(n@, "via"@));
        lemma_same_lookup(m@, n@, "reading"@);
        lemma_same_field(lookup(m@, "reading"@), lookup(n@, "reading"@));
        lemma_same_lookup(m@, n@, "gloss"@);
        lemma_same_field(lookup(m@, "gloss"@), lookup(n@, "gloss"@));
        lemma_same_lookup(m@, n@, "readok"@);
        lemma_same_field(lookup(m@, "readok"@), lookup(n@, "readok"@));
        if list_of(lookup(m@, "prop"@), true) is Some {
            lemma_same_conj_props(list_of(lookup(m@, "prop"@), true)->Some_0, list_of(lookup(n@, "prop"@), true)->Some_0, strict);
        }
        if list_of(lookup(m@, "via"@), false) is Some {
            lemma_same_vias(list_of(lookup(m@, "via"@), false)->Some_0, list_of(lookup(n@, "via"@), false)->Some_0, strict);
        }
        if list_of(lookup(m@, "gloss"@), false) is Some {
            lemma_same_glosses(list_of(lookup(m@, "gloss"@), false)->Some_0, list_of(lookup(n@, "gloss"@), false)->Some_0, strict);
        }

    }
}

proof fn lemma_same_conjs(a: Seq<Json>, b: Seq<Json>, strict: bool)
    requires
        same_items(a, b),
    ensures
        conjs_ok(a, strict) == conjs_ok(b, strict),
        forall|xs: Seq<raw::Conj>| #[trigger] conjs_are(a, strict, xs) == conjs_are(b, strict, xs),
{
    assert forall|i: int| 0 <= i < a.len() implies (conj_ok(#[trigger] a[i], strict) == conj_ok(b[i], strict)
        && forall|x: raw::Conj| #[trigger] conj_is(a[i], strict, x) == conj_is(b[i], strict, x)) by {
        lemma_same_conj(a[i], b[i], strict);
    }
    if conjs_ok(a, strict) {
        assert forall|i: int| 0 <= i < b.len() implies #[trigger] conj_ok(b[i], strict) by {
            assert(conj_ok(a[i], strict));
        }
    }
    if conjs_ok(b, strict) {
        assert forall|i: int| 0 <= i < a.len() implies #[trigger] conj_ok(a[i], strict) by {
            assert(conj_ok(b[i], strict));
        }
    }
    assert forall|xs: Seq<raw::Conj>| #[trigger] conjs_are(a, strict, xs) == conjs_are(b, strict, xs) by {
        if conjs_are(a, strict, xs) {
            assert forall|i: int| 0 <= i < b.len() implies #[trigger] conj_is(b[i], strict, xs[i]) by {
                assert(conj_is(a[i], strict, xs[i]));
            }
        }
        if conjs_are(b, strict, xs) {
            assert forall|i: int| 0 <= i < a.len() implies #[trigger] conj_is(a[i], strict, xs[i]) by {
                assert(conj_is(b[i], strict, xs[i]));
            }
        }
    }
}

proof fn lemma_same_word_info(a: Json, b: Json, strict: bool)
    requires
        a@ == b@,
    ensures
        word_info_ok(a, strict) == word_info_ok(b, strict),
        forall|x: raw::WordInfo| #[trigger] word_info_is(a, strict, x) == word_info_is(b, strict, x),
{
    lemma_same_json(a, b);
    lemma_same_json(b, a);
    if a is Object {
        let m = a->Object_0;
        let n = b->Object_0;
        lemma_same_keys(m@, n@, strict, Shape::WordInfo);
        lemma_same_lookup(m@, n@, "reading"@);
        lemma_same_field(lookup(m@, "reading"@), lookup(n@, "reading"@));
        lemma_same_lookup(m@, n@, "text"@);
        lemma_same_field(lookup(m@, "text"@), lookup(n@, "text"@));
        lemma_same_lookup(m@, n@, "kana"@);
        lemma_same_field(lookup(m@, "kana"@), lookup(n@, "kana"@));
        lemma_same_lookup(m@, n@, "score"@);
        lemma_same_field(lookup(m@, "score"@), lookup(n@, "score"@));
        lemma_same_lookup(m@, n@, "counter"@);
        lemma_same_field(lookup(m@, "counter"@), lookup(n@, "counter"@));
        lemma_same_lookup(m@, n@, "seq"@);
        lemma_same_field(lookup(m@, "seq"@), lookup(n@, "seq"@));
        lemma_same_lookup(m@, n@, "gloss"@);
        lemma_same_field(lookup(m@, "gloss"@), lookup(n@, "gloss"@));
        lemma_same_lookup(m@, n@, "suffix"@);
        lemma_same_field(lookup(m@, "suffix"@), lookup(n@, "suffix"@));
        lemma_same_lookup(m@, n@, "conj"@);
        lemma_same_field(lookup(m@, "conj"@), lookup(n@, "conj"@));
        if list_of(lookup(m@, "gloss"@), false) is Some {
            lemma_same_glosses(list_of(lookup(m@, "gloss"@), false)->Some_0, list_of(lookup(n@, "gloss"@), false)->Some_0, strict);
        }
        if list_of(lookup(m@, "conj"@), false) is Some {
            lemma_same_conjs(list_of(lookup(m@, "conj"@), false)->Some_0, list_of(lookup(n@, "conj"@), false)->Some_0, strict);
        }
        if lookup(m@, "counter"@) is Some {
            lemma_same_counter(lookup(m@, "counter"@)->Some_0, lookup(n@, "counter"@)->Some_0, strict);
        }
    }
}

proof fn lemma_same_word_infos(a: Seq<Json>, b: Seq<Json>, strict: bool)
    requires
        same_items(a, b),
    ensures
        word_infos_ok(a, strict) == word_infos_ok(b, strict),
        forall|xs: Seq<raw::WordInfo>| #[trigger] word_infos_are(a, strict, xs) == word_infos_are(b, strict, xs),
{
    assert forall|i: int| 0 <= i < a.len() implies (word_info_ok(#[trigger] a[i], strict) == word_info_ok(b[i], strict)
        && forall|x: raw::WordInfo| #[trigger] word_info_is(a[i], strict, x) == word_info_is(b[i], strict, x)) by {
        lemma_same_word_info(a[i], b[i], strict);
    }
    if word_infos_ok(a, strict) {
        assert forall|i: int| 0 <= i < b.len() implies #[trigger] word_info_ok(b[i], strict) by {
            assert(word_info_ok(a[i], strict));
        }
    }
    if word_infos_ok(b, strict) {
        assert forall|i: int| 0 <= i < a.len() implies #[trigger] word_info_ok(a[i], strict) by {
            assert(word_info_ok(b[i], strict));
        }
    }
    assert forall|xs: Seq<raw::WordInfo>| #[trigger] word_infos_are(a, strict, xs) == word_infos_are(b, strict, xs) by {
        if word_infos_are(a, strict, xs) {
            assert forall|i: int| 0 <= i < b.len() implies #[trigger] word_info_is(b[i], strict, xs[i]) by {
                assert(word_info_is(a[i], strict, xs[i]));
            }
        }
        if word_infos_are(b, strict, xs) {
            assert forall|i: int| 0 <= i < a.len() implies #[trigger] word_info_is(a[i], strict, xs[i]) by {
                assert(word_info_is(b[i], strict, xs[i]));
            }
        }
    }
}

proof fn lemma_same_string(a: Json, b: Json, strict: bool)
    requires
        a@ == b@,
    ensures
        string_ok(a, strict) == string_ok(b, strict),
        forall|x: String| #[trigger] string_is(a, strict, x) == string_is(b, strict, x),
{
    lemma_same_json(a, b);
    lemma_same_json(b, a);
}

proof fn lemma_same_strings(a: Seq<Json>, b: Seq<Json>, strict: bool)
    requires
        same_items(a, b),
    ensures
        strings_ok(a, strict) == strings_ok(b, strict),
        forall|xs: Seq<String>| #[trigger] strings_are(a, strict, xs) == strings_are(b, strict, xs),
{
    assert forall|i: int| 0 <= i < a.len() implies (string_ok(#[trigger] a[i], strict) == string_ok(b[i], strict)
        && forall|x: String| #[trigger] string_is(a[i], strict, x) == string_is(b[i], strict, x)) by {
        lemma_same_string(a[i], b[i], strict);
    }
    if strings_ok(a, strict) {
        assert forall|i: int| 0 <= i < b.len() implies #[trigger] string_ok(b[i], strict) by {
            assert(string_ok(a[i], strict));
        }
    }
    if strings_ok(b, strict) {
        assert forall|i: int| 0 <= i < a.len() implies #[trigger] string_ok(a[i], strict) by {
            assert(string_ok(b[i], strict));
        }
    }
    assert forall|xs: Seq<String>| #[trigger] strings_are(a, strict, xs) == strings_are(b, strict, xs) by {
        if strings_are(a, strict, xs) {
            assert forall|i: int| 0 <= i < b.len() implies #[trigger] string_is(b[i], strict, xs[i]) by {
                assert(string_is(a[i], strict, xs[i]));
            }
        }
        if strings_are(b, strict, xs) {
            assert forall|i: int| 0 <= i < a.len() implies #[trigger] string_is(a[i], strict, xs[i]) by {
                assert(string_is(b[i], strict, xs[i]));
            }
        }
    }
}

proof fn lemma_same_compound(a: Json, b: Json, strict: bool)
    requires
        a@ == b@,
    ensures
        compound_ok(a, strict) == compound_ok(b, strict),
        forall|x: raw::CompoundWordInfo| #[trigger] compound_is(a, strict, x) == compound_is(b, strict, x),
{
    lemma_same_json(a, b);
    lemma_same_json(b, a);
    if a is Object {
        let m = a->Object_0;
        let n = b->Object_0;
        lemma_same_keys(m@, n@, strict, Shape::CompoundWordInfo);
        lemma_same_lookup(m@, n@, "reading"@);
        lemma_same_field(lookup(m@, "reading"@), lookup(n@, "reading"@));
        lemma_same_lookup(m@, n@, "text"@);
        lemma_same_field(lookup(m@, "text"@), lookup(n@, "text"@));
        lemma_same_lookup(m@, n@, "kana"@);
        lemma_same_field(lookup(m@, "kana"@), lookup(n@, "kana"@));
        lemma_same_lookup(m@, n@, "score"@);
        lemma_same_field(lookup(m@, "score"@), lookup(n@, "score"@));
        lemma_same_lookup(m@, n@, "compound"@);
        lemma_same_field(lookup(m@, "compound"@), lookup(n@, "compound"@));
        lemma_same_lookup(m@, n@, "components"@);
        lemma_same_field(lookup(m@, "components"@), lookup(n@, "components"@));
        if list_of(lookup(m@, "compound"@), true) is Some {
            lemma_same_strings(list_of(lookup(m@, "compound"@), true)->Some_0, list_of(lookup(n@, "compound"@), true)->Some_0, strict);
        }
        if list_of(lookup(m@, "components"@), true) is Some {
            lemma_same_word_infos(list_of(lookup(m@, "components"@), true)->Some_0, list_of(lookup(n@, "components"@), true)->Some_0, strict);
        }

    }
}

proof fn lemma_same_alternative(a: Json, b: Json, strict: bool)
    requires
        a@ == b@,
    ensures
        has_compound(a) == has_compound(b),
        alternative_ok(a, strict) == alternative_ok(b, strict),
        forall|x: raw::Alternative| #[trigger] alternative_is(a, strict, x) == alternative_is(b, strict, x),
{
    lemma_same_json(a, b);
    lemma_same_json(b, a);
    lemma_same_word_info(a, b, strict);
    lemma_same_compound(a, b, strict);
    if a is Object {
        lemma_same_lookup(a->Object_0@, b->Object_0@, "compound"@);
    }
}

proof fn lemma_same_alternative_list(a: Seq<Json>, b: Seq<Json>, strict: bool)
    requires
        same_items(a, b),
    ensures
        alternative_list_ok(a, strict) == alternative_list_ok(b, strict),
        forall|xs: Seq<raw::Alternative>| #[trigger] alternative_list_are(a, strict, xs) == alternative_list_are(b, strict, xs),
{
    assert forall|i: int| 0 <= i < a.len() implies (alternative_ok(#[trigger] a[i], strict) == alternative_ok(b[i], strict)
        && forall|x: raw::Alternative| #[trigger] alternative_is(a[i], strict, x) == alternative_is(b[i], strict, x)) by {
        lemma_same_alternative(a[i], b[i], strict);
    }
    if alternative_list_ok(a, strict) {
        assert forall|i: int| 0 <= i < b.len() implies #[trigger] alternative_ok(b[i], strict) by {
            assert(alternative_ok(a[i], strict));
        }
    }
    if alternative_list_ok(b, strict) {
        assert forall|i: int| 0 <= i < a.len() implies #[trigger] alternative_ok(a[i], strict) by {
            assert(alternative_ok(b[i], strict));
        }
    }
    assert forall|xs: Seq<raw::Alternative>| #[trigger] alternative_list_are(a, strict, xs) == alternative_list_are(b, strict, xs) by {
        if alternative_list_are(a, strict, xs) {
            assert forall|i: int| 0 <= i < b.len() implies #[trigger] alternative_is(b[i], strict, xs[i]) by {
                assert(alternative_is(a[i], strict, xs[i]));
            }
        }
        if alternative_list_are(b, strict, xs) {
            assert forall|i: int| 0 <= i < a.len() implies #[trigger] alternative_is(a[i], strict, xs[i]) by {
                assert(alternative_is(b[i], strict, xs[i]));
            }
        }
    }
}

proof fn lemma_same_alternatives(a: Json, b: Json, strict: bool)
    requires
        a@ == b@,
    ensures
        alternatives_ok(a, strict) == alternatives_ok(b, strict),
        forall|x: raw::Alternatives| #[trigger] alternatives_is(a, strict, x) == alternatives_is(b, strict, x),
{
    lemma_same_json(a, b);
    lemma_same_json(b, a);
    lemma_same_alternative(a, b, strict);
    if a is Object {
        let m = a->Object_0;
        let n = b->Object_0;
        lemma_same_keys(m@, n@, strict, Shape::Wrapped);
        lemma_same_lookup(m@, n@, "alternative"@);
        lemma_same_field(lookup(m@, "alternative"@), lookup(n@, "alternative"@));
        if list_of(lookup(m@, "alternative"@), true) is Some {
            lemma_same_alternative_list(
                list_of(lookup(m@, "alternative"@), true)->Some_0,
                list_of(lookup(n@, "alternative"@), true)->Some_0,
                strict,
            );
        }
    }
}

proof fn lemma_same_word(a: Json, b: Json, strict: bool)
    requires
        a@ == b@,
    ensures
        word_ok(a, strict) == word_ok(b, strict),
        forall|x: raw::Word| #[trigger] word_is(a, strict, x) == word_is(b, strict, x),
{
    lemma_same_json(a, b);
    lemma_same_json(b, a);
    if a is Array {
        let x = a->Array_0;
        let y = b->Array_0;
        if x@.len() == 3 {
            assert(x@[0]@ == y@[0]@ && x@[1]@ == y@[1]@ && x@[2]@ == y@[2]@);
            lemma_same_json(x@[0], y@[0]);
            lemma_same_json(y@[0], x@[0]);
            lemma_same_json(x@[2], y@[2]);
            lemma_same_json(y@[2], x@[2]);
            lemma_same_field(Some(x@[0]), Some(y@[0]));
            lemma_same_alternatives(x@[1], y@[1], strict);
        }
    }
}

proof fn lemma_same_words(a: Seq<Json>, b: Seq<Json>, strict: bool)
    requires
        same_items(a, b),
    ensures
        words_ok(a, strict) == words_ok(b, strict),
        forall|xs: Seq<raw::Word>| #[trigger] words_are(a, strict, xs) == words_are(b, strict, xs),
{
    assert forall|i: int| 0 <= i < a.len() implies (word_ok(#[trigger] a[i], strict) == word_ok(b[i], strict)
        && forall|x: raw::Word| #[trigger] word_is(a[i], strict, x) == word_is(b[i], strict, x)) by {
        lemma_same_word(a[i], b[i], strict);
    }
    if words_ok(a, strict) {
        assert forall|i: int| 0 <= i < b.len() implies #[trigger] word_ok(b[i], strict) by {
            assert(word_ok(a[i], strict));
        }
    }
    if words_ok(b, strict) {
        assert forall|i: int| 0 <= i < a.len() implies #[trigger] word_ok(a[i], strict) by {
            assert(word_ok(b[i], strict));
        }
    }
    assert forall|xs: Seq<raw::Word>| #[trigger] words_are(a, strict, xs) == words_are(b, strict, xs) by {
        if words_are(a, strict, xs) {
            assert forall|i: int| 0 <= i < b.len() implies #[trigger] word_is(b[i], strict, xs[i]) by {
                assert(word_is(a[i], strict, xs[i]));
            }
        }
        if words_are(b, strict, xs) {
            assert forall|i: int| 0 <= i < a.len() implies #[trigger] word_is(a[i], strict, xs[i]) by {
                assert(word_is(b[i], strict, xs[i]));
            }
        }
    }
}

proof fn lemma_same_segmentation(a: Json, b: Json, strict: bool)
    requires
        a@ == b@,
    ensures
        segmentation_ok(a, strict) == segmentation_ok(b, strict),
        forall|x: raw::Segmentation| #[trigger] segmentation_is(a, strict, x) == segmentation_is(b, strict, x),
{
    lemma_same_json(a, b);
    lemma_same_json(b, a);
    if a is Array {
        let x = a->Array_0;
        let y = b->Array_0;
        if x@.len() == 2 {
            assert(x@[0]@ == y@[0]@ && x@[1]@ == y@[1]@);
            lemma_same_json(x@[0], y@[0]);
            lemma_same_json(y@[0], x@[0]);
            lemma_same_field(Some(x@[1]), Some(y@[1]));
            if x@[0] is Array {
                lemma_same_words(x@[0]->Array_0@, y@[0]->Array_0@, strict);
            }
        }
    }
}

proof fn lemma_same_segmentations(a: Seq<Json>, b: Seq<Json>, strict: bool)
    requires
        same_items(a, b),
    ensures
        segmentations_ok(a, strict) == segmentations_ok(b, strict),
        forall|xs: Seq<raw::Segmentation>| #[trigger] segmentations_are(a, strict, xs) == segmentations_are(b, strict, xs),
{
    assert forall|i: int| 0 <= i < a.len() implies (segmentation_ok(#[trigger] a[i], strict) == segmentation_ok(b[i], strict)
        && forall|x: raw::Segmentation| #[trigger] segmentation_is(a[i], strict, x) == segmentation_is(b[i], strict, x)) by {
        lemma_same_segmentation(a[i], b[i], strict);
    }
    if segmentations_ok(a, strict) {
        assert forall|i: int| 0 <= i < b.len() implies #[trigger] segmentation_ok(b[i], strict) by {
            assert(segmentation_ok(a[i], strict));
        }
    }
    if segmentations_ok(b, strict) {
        assert forall|i: int| 0 <= i < a.len() implies #[trigger] segmentation_ok(a[i], strict) by {
            assert(segmentation_ok(b[i], strict));
        }
    }
    assert forall|xs: Seq<raw::Segmentation>| #[trigger] segmentations_are(a, strict, xs) == segmentations_are(b, strict, xs) by {
        if segmentations_are(a, strict, xs) {
            assert forall|i: int| 0 <= i < b.len() implies #[trigger] segmentation_is(b[i], strict, xs[i]) by {
                assert(segmentation_is(a[i], strict, xs[i]));
            }
        }
        if segmentations_are(b, strict, xs) {
            assert forall|i: int| 0 <= i < a.len() implies #[trigger] segmentation_is(a[i], strict, xs[i]) by {
                assert(segmentation_is(b[i], strict, xs[i]));
            }
        }
    }
}

proof fn lemma_same_segment(a: Json, b: Json, strict: bool)
    requires
        a@ == b@,
    ensures
        segment_ok(a, strict) == segment_ok(b, strict),
        forall|x: raw::Segment| #[trigger] segment_is(a, strict, x) == segment_is(b, strict, x),
{
    lemma_same_json(a, b);
    lemma_same_json(b, a);
    if a is Array {
        lemma_same_segmentations(a->Array_0@, b->Array_0@, strict);
    }
}

proof fn lemma_same_segments(a: Seq<Json>, b: Seq<Json>, strict: bool)
    requires
        same_items(a, b),
    ensures
        segments_ok(a, strict) == segments_ok(b, strict),
        forall|xs: Seq<raw::Segment>| #[trigger] segments_are(a, strict, xs) == segments_are(b, strict, xs),
{
    assert forall|i: int| 0 <= i < a.len() implies (segment_ok(#[trigger] a[i], strict) == segment_ok(b[i], strict)
        && forall|x: raw::Segment| #[trigger] segment_is(a[i], strict, x) == segment_is(b[i], strict, x)) by {
        lemma_same_segment(a[i], b[i], strict);
    }
    if segments_ok(a, strict) {
        assert forall|i: int| 0 <= i < b.len() implies #[trigger] segment_ok(b[i], strict) by {
            assert(segment_ok(a[i], strict));
        }
    }
    if segments_ok(b, strict) {
        assert forall|i: int| 0 <= i < a.len() implies #[trigger] segment_ok(a[i], strict) by {
            assert(segment_ok(b[i], strict));
        }
    }
    assert forall|xs: Seq<raw::Segment>| #[trigger] segments_are(a, strict, xs) == segments_are(b, strict, xs) by {
        if segments_are(a, strict, xs) {
            assert forall|i: int| 0 <= i < b.len() implies #[trigger] segment_is(b[i], strict, xs[i]) by {
                assert(segment_is(a[i], strict, xs[i]));
            }
        }
        if segments_are(b, strict, xs) {
            assert forall|i: int| 0 <= i < a.len() implies #[trigger] segment_is(a[i], strict, xs[i]) by {
                assert(segment_is(b[i], strict, xs[i]));
            }
        }
    }
}

/// Whether a document reads, and what it reads as, depends on the JSON value
/// alone, not on how it is held.
pub proof fn lemma_same_document(a: Json, b: Json, strict: bool)
    requires
        a@ == b@,
    ensures
        document_ok(a, strict) == document_ok(b, strict),
        forall|d: raw::FullSplitInfo| #[trigger] document_is(a, strict, d) == document_is(b, strict, d),
{
    lemma_same_json(a, b);
    lemma_same_json(b, a);
    if a is Array {
        lemma_same_segments(a->Array_0@, b->Array_0@, strict);
    }
}

/// The string that a value is, if any.
pub open spec fn json_str(j: Json) -> Option<Seq<char>> {
    match j {
        Json::String(t) => Some(t@),
        _ => None,
    }
}

/// The integer that a value is, if any.
pub open spec fn json_int(j: Json) -> Option<int> {
    match j {
        Json::Number(Some(n)) => Some(n as int),
        _ => None,
    }
}

/// The elements of an array value; none for another value.
pub open spec fn json_items(j: Json) -> Seq<Json> {
    match j {
        Json::Array(a) => a@,
        _ => Seq::empty(),
    }
}

/// Reading a document and normalizing it keeps every segment in place: a
/// string segment keeps its text, and each of its segmentations keeps the
/// score and the romanization of each word that the JSON gives, in order.
pub proof fn lemma_document_round_trip(j: Json, strict: bool, d: raw::FullSplitInfo, i: int)
    requires
        document_is(j, strict, d),
        0 <= i < json_items(j).len(),
    ensures
        rusty::segments_of(d.0@).len() == json_items(j).len(),
        json_str(json_items(j)[i]) matches Some(t) ==> rusty::segments_of(d.0@)[i] == rusty::SegmentView::Other(t),
        json_items(j)[i] is Array ==> {
            let segs = json_items(json_items(j)[i]);
            let n = rusty::segments_of(d.0@)[i];
            &&& n is Segmentations
            &&& n->Segmentations_0.len() == segs.len()
            &&& forall|k: int|
                0 <= k < segs.len() ==> {
                    let pair = json_items(#[trigger] segs[k]);
                    let words = json_items(pair[0]);
                    &&& json_int(pair[1]) == Some(n->Segmentations_0[k].score as int)
                    &&& n->Segmentations_0[k].words.len() == words.len()
                    &&& forall|w: int|
                        0 <= w < words.len() ==> json_str(json_items(#[trigger] words[w])[0]) == Some(
                            n->Segmentations_0[k].words[w].romanized,
                        )
                }
        },
{
    let items = json_items(j);
    assert(segments_are(items, strict, d.0@));
    assert(segment_is(items[i], strict, d.0@[i]));
    if items[i] is Array {
        let segs = json_items(items[i]);
        let v = d.0@[i]->Segmentations_0@;
        assert forall|k: int| 0 <= k < segs.len() implies {
            let pair = json_items(#[trigger] segs[k]);
            let words = json_items(pair[0]);
            &&& json_int(pair[1]) == Some(rusty::segments_of(d.0@)[i]->Segmentations_0[k].score as int)
            &&& rusty::segments_of(d.0@)[i]->Segmentations_0[k].words.len() == words.len()
            &&& forall|w: int|
                0 <= w < words.len() ==> json_str(json_items(#[trigger] words[w])[0]) == Some(
                    rusty::segments_of(d.0@)[i]->Segmentations_0[k].words[w].romanized,
                )
        } by {
            assert(segmentation_is(segs[k], strict, v[k]));
            let pair = json_items(segs[k]);
            let words = json_items(pair[0]);
            assert(words_are(words, strict, v[k].0@));
            assert forall|w: int| 0 <= w < words.len() implies json_str(json_items(#[trigger] words[w])[0]) == Some(
                rusty::segments_of(d.0@)[i]->Segmentations_0[k].words[w].romanized,
            ) by {
                assert(word_is(words[w], strict, v[k].0@[w]));
            }
        }
    }
}

/// Every list of glosses reads back, wherever it stands (in a word, a
/// conjugation, one of its steps or a compound's component): each normalized
/// gloss has the part of speech, meaning and note that the JSON gives, in order.
pub proof fn lemma_glosses_round_trip(items: Seq<Json>, strict: bool, xs: Seq<raw::Gloss>)
    requires
        glosses_are(items, strict, xs),
    ensures
        rusty::glosses_of(xs).len() == items.len(),
        forall|k: int|
            0 <= k < items.len() ==> string_member(#[trigger] items[k], "pos"@) == Some(rusty::glosses_of(xs)[k].pos)
                && string_member(items[k], "gloss"@) == Some(rusty::glosses_of(xs)[k].gloss) && string_member(
                items[k],
                "info"@,
            ) == rusty::glosses_of(xs)[k].info,
{
    assert forall|k: int| 0 <= k < items.len() implies string_member(#[trigger] items[k], "pos"@) == Some(
        rusty::glosses_of(xs)[k].pos,
    ) && string_member(items[k], "gloss"@) == Some(rusty::glosses_of(xs)[k].gloss) && string_member(
        items[k],
        "info"@,
    ) == rusty::glosses_of(xs)[k].info by {
        assert(gloss_is(items[k], strict, xs[k]));
    }
}

} // verus!
