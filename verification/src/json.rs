//! The JSON values that a request's query and body, and a response's body,
//! are made of. The values themselves are `serde_json::Value`s; this module
//! gives them a mathematical model, `JsonRep`, and trusted wrappers for the
//! few operations the core needs: making an empty object, setting and
//! removing a field, parsing, and serializing (compact and pretty).

use vstd::prelude::*;

verus! {

/// The mathematical shape of a JSON value. An object is modelled as a map
/// from key to value: `serde_json`'s default object representation is a
/// `BTreeMap`, so everything it does — iteration order included — is a
/// function of that map.
pub enum JsonRep {
    Null,
    Bool(bool),
    /// The number's literal text.
    Num(Seq<char>),
    Str(Seq<char>),
    Arr(Seq<JsonRep>),
    Obj(Map<Seq<char>, JsonRep>),
}

impl JsonRep {
    /// The fields of an object, when the value is one.
    pub open spec fn obj(self) -> Map<Seq<char>, JsonRep>
        recommends
            self is Obj,
    {
        self->Obj_0
    }
}

/// The model of a `serde_json::Value`.
pub uninterp spec fn jmodel(v: serde_json::Value) -> JsonRep;

/// What `serde_json::to_string` returns for a value of the given model.
pub uninterp spec fn compact_of(j: JsonRep) -> Seq<char>;

/// What `serde_json::to_string_pretty` returns for a value of the given model.
pub uninterp spec fn pretty_of(j: JsonRep) -> Seq<char>;

/// What `serde_json::from_str` makes of the given text: the model of the
/// parsed value, or nothing when the text is not valid JSON.
pub uninterp spec fn parsed_json(s: Seq<char>) -> Option<JsonRep>;

/// What `serde_urlencoded::to_string` returns for a value of the given
/// model, where it accepts the value at all.
pub uninterp spec fn form_of(j: JsonRep) -> Seq<char>;

#[verifier::external_type_specification]
#[verifier::external_body]
pub struct ExValue(serde_json::Value);

#[verifier::external_type_specification]
#[verifier::external_body]
pub struct ExJsonError(serde_json::Error);

#[verifier::external_type_specification]
#[verifier::external_body]
pub struct ExFormError(serde_urlencoded::ser::Error);

/// Relies on `serde_json::Value::Object` and `serde_json::Map::new`:
/// builds the empty JSON object.
#[verifier::external_body]
pub fn json_new_object() -> (v: serde_json::Value)
    ensures
        jmodel(v) == JsonRep::Obj(Map::<Seq<char>, JsonRep>::empty()),
{
    serde_json::Value::Object(serde_json::Map::new())
}

/// Relies on `serde_json::Value::is_object`.
#[verifier::external_body]
pub fn json_is_object(v: &serde_json::Value) -> (r: bool)
    ensures
        r == (jmodel(*v) is Obj),
{
    v.is_object()
}

/// Relies on `serde_json::Value::clone`: the copy is the same value.
#[verifier::external_body]
pub fn json_clone(v: &serde_json::Value) -> (r: serde_json::Value)
    ensures
        jmodel(r) == jmodel(*v),
{
    v.clone()
}

/// Relies on `serde_json::Map::insert`: sets field `k` of an object to the
/// JSON string `s`, replacing any earlier value of `k`.
#[verifier::external_body]
pub fn json_set_str(v: &mut serde_json::Value, k: &str, s: &str)
    requires
        jmodel(*old(v)) is Obj,
    ensures
        jmodel(*final(v)) == JsonRep::Obj(
            jmodel(*old(v)).obj().insert(k@, JsonRep::Str(s@)),
        ),
{
    if let serde_json::Value::Object(m) = v {
        m.insert(k.to_owned(), serde_json::Value::String(s.to_owned()));
    }
}

/// Relies on `serde_json::Map::remove`: removes field `k` of an object;
/// removing an absent field changes nothing.
#[verifier::external_body]
pub fn json_remove_key(v: &mut serde_json::Value, k: &str)
    requires
        jmodel(*old(v)) is Obj,
    ensures
        jmodel(*final(v)) == JsonRep::Obj(jmodel(*old(v)).obj().remove(k@)),
{
    if let serde_json::Value::Object(m) = v {
        m.remove(k);
    }
}

/// Relies on `serde_json::to_string`: compact JSON text of the value. On a
/// `serde_json::Value` serialization cannot fail (its keys are strings and
/// its `Serialize` impl never errors).
#[verifier::external_body]
pub fn json_to_string(v: &serde_json::Value) -> (r: String)
    ensures
        r@ == compact_of(jmodel(*v)),
{
    serde_json::to_string(v).unwrap()
}

/// Relies on `serde_json::to_string_pretty`: pretty-printed JSON text of
/// the value; infallible on a `serde_json::Value` for the same reason as
/// `json_to_string`.
#[verifier::external_body]
pub fn json_to_string_pretty(v: &serde_json::Value) -> (r: String)
    ensures
        r@ == pretty_of(jmodel(*v)),
{
    serde_json::to_string_pretty(v).unwrap()
}

/// Relies on `serde_json::from_str`: parses JSON text, failing exactly on
/// text that is not valid JSON.
#[verifier::external_body]
pub fn json_from_str(s: &str) -> (r: Result<serde_json::Value, serde_json::Error>)
    ensures
        match r {
            Ok(v) => parsed_json(s@) == Some(jmodel(v)),
            Err(_) => parsed_json(s@) is None,
        },
{
    serde_json::from_str::<serde_json::Value>(s)
}

/// Relies on `serde_urlencoded::to_string`: URL-encoded form pairs of the
/// value. Its serializer takes a map at the top level and scalars as
/// values, so an object whose fields are all strings is always accepted.
#[verifier::external_body]
pub fn form_encode(v: &serde_json::Value) -> (r: Result<String, serde_urlencoded::ser::Error>)
    ensures
        r matches Ok(s) ==> s@ == form_of(jmodel(*v)),
        (jmodel(*v) matches JsonRep::Obj(m) && forall|k: Seq<char>|
            m.dom().contains(k) ==> m[k] is Str) ==> r is Ok,
{
    serde_urlencoded::to_string(v)
}

} // verus!
