//! Reading claims out of JSON text.
//!
//! Single values are read by `serde_json`. What stands here is the layout around
//! them: which members a claims text must and may have, and where they stand. A
//! fault in single values and in the grammar is told in the words of `serde_json`,
//! one in the layout in the words of this module, without a place in the text.

use vstd::prelude::*;
use crate::error::{Error, ErrorView, Result};
use crate::text;
use crate::text::str_eq;

verus! {

/// What kind of JSON value it is, and what the claims need of it.
#[derive(Debug, Clone, PartialEq, Eq)]
pub enum JsonKind {
    /// `null`.
    Null,
    /// A string, with its content.
    Text(String),
    /// An object: its member names, each with the content of its value where
    /// that is a string.
    Object(Vec<(String, Option<String>)>),
    /// A number, a boolean or an array.
    Other,
}

/// A JSON value.
#[derive(Debug, Clone, PartialEq, Eq)]
pub struct JsonValue {
    /// What the value is.
    pub kind: JsonKind,
    /// The value as compact JSON text.
    pub json: String,
}

/// What a [`JsonKind`] says.
pub enum JsonKindView {
    Null,
    Text(Seq<char>),
    Object(Seq<(Seq<char>, Option<Seq<char>>)>),
    Other,
}

/// What a [`JsonValue`] says.
pub struct JsonView {
    pub kind: JsonKindView,
    pub json: Seq<char>,
}

/// What the members of an object say.
pub open spec fn member_views(members: Seq<(String, Option<String>)>) -> Seq<
    (Seq<char>, Option<Seq<char>>),
> {
    members.map_values(|m: (String, Option<String>)| (m.0@, text::opt_view(m.1)))
}

impl View for JsonValue {
    type V = JsonView;

    open spec fn view(&self) -> JsonView {
        JsonView {
            kind: match self.kind {
                JsonKind::Null => JsonKindView::Null,
                JsonKind::Text(s) => JsonKindView::Text(s@),
                JsonKind::Object(m) => JsonKindView::Object(member_views(m@)),
                JsonKind::Other => JsonKindView::Other,
            },
            json: self.json@,
        }
    }
}

/// Whether the value is an object with nothing but strings in it.
pub open spec fn is_text_object(v: JsonView) -> bool {
    match v.kind {
        JsonKindView::Object(members) => forall|i: int|
            0 <= i < members.len() ==> (#[trigger] members[i]).1 is Some,
        _ => false,
    }
}

/// Whether compact JSON text shows no number with a fraction or an exponent:
/// outside of strings there is no dot, and no `e` behind a digit.
pub open spec fn whole_numbers(json: Seq<char>) -> bool {
    forall|i: int|
        0 <= i < json.len() && !(#[trigger] text::scanned(json.take(i))).0 ==> json[i] != '.' && !(
        json[i] == 'e' && i > 0 && '0' <= json[i - 1] <= '9')
}

/// Whether a value is one that compact text keeps to the last digit: an object of
/// strings, or any value without a number that has a fraction or an exponent.
pub open spec fn is_exact(v: JsonView) -> bool {
    is_text_object(v) || whole_numbers(v.json)
}

/// Whether a value is read back from its own compact text: an exact one always and
/// unchanged, any other with the same content where it is read at all (a number
/// with a fraction may lose its last digit on the way).
pub open spec fn rereads(v: JsonView) -> bool {
    match json_value(vstd::utf8::encode_utf8(v.json)) {
        Ok(w) => w.kind == v.kind && (is_exact(v) ==> w == v),
        Err(_) => !is_exact(v),
    }
}

/// Why `bytes` is no JSON text, in the words of `serde_json`; `None` where it is one.
pub uninterp spec fn json_fault(bytes: Seq<u8>) -> Option<Seq<char>>;

/// How many bytes the first JSON value of `bytes` takes, blanks before it
/// included; `None` where no value stands there.
pub uninterp spec fn json_extent(bytes: Seq<u8>) -> Option<nat>;

/// The JSON value that `bytes` holds, or why it holds none.
pub uninterp spec fn json_value(bytes: Seq<u8>) -> std::result::Result<JsonView, Seq<char>>;

/// `serde_json::from_slice::<IgnoredAny>` accepts a byte string if and only if
/// it is one JSON text with nothing but blanks around it.
#[verifier::external_body]
fn check_json(bytes: &[u8]) -> (r: std::result::Result<(), serde_json::Error>)
    ensures
        match r {
            Ok(()) => json_fault(bytes@) is None,
            Err(e) => json_fault(bytes@) == Some(crate::error::json_error_text(e)),
        },
{
    match serde_json::from_slice::<serde::de::IgnoredAny>(bytes) {
        Ok(_) => Ok(()),
        Err(e) => Err(e),
    }
}

/// `serde_json::StreamDeserializer` over `IgnoredAny`: the first value of the
/// stream, and with `byte_offset` the place right behind it, which lies inside
/// `bytes` or at its end.
#[verifier::external_body]
fn value_extent(bytes: &[u8]) -> (r: Option<usize>)
    ensures
        match r {
            Some(n) => json_extent(bytes@) == Some(n as nat) && n <= bytes@.len(),
            None => json_extent(bytes@) is None,
        },
{
    let reader = serde_json::Deserializer::from_slice(bytes);
    let mut stream = reader.into_iter::<serde::de::IgnoredAny>();
    match stream.next() {
        Some(Ok(_)) => Some(stream.byte_offset()),
        Some(Err(_)) => None,
        None => None,
    }
}

/// `serde_json::from_slice::<Value>` reads one JSON text; `Value`'s `to_string`
/// writes it compactly: a number that is no integer is written with a dot or an
/// exponent. From that text an object of strings, and any value without such a
/// number, is read back unchanged; any other value that is read back has the same
/// content but for the last digit of such a number.
#[verifier::external_body]
pub(crate) fn read_value(bytes: &[u8]) -> (r: std::result::Result<JsonValue, serde_json::Error>)
    ensures
        match r {
            Ok(v) => json_value(bytes@) == Ok::<JsonView, Seq<char>>(v@) && rereads(v@),
            Err(e) => json_value(bytes@) == Err::<JsonView, Seq<char>>(
                crate::error::json_error_text(e),
            ),
        },
{
    match serde_json::from_slice::<serde_json::Value>(bytes) {
        Ok(v) => Ok(JsonValue {
            json: v.to_string(),
            kind: match v {
                serde_json::Value::Null => JsonKind::Null,
                serde_json::Value::String(s) => JsonKind::Text(s),
                serde_json::Value::Object(m) => JsonKind::Object(
                    m.into_iter().map(|(k, x)| (k, x.as_str().map(String::from))).collect(),
                ),
                serde_json::Value::Bool(_) | serde_json::Value::Number(_) => JsonKind::Other,
                serde_json::Value::Array(_) => JsonKind::Other,
            },
        }),
        Err(e) => Err(e),
    }
}

/// What a claim's value may be.
#[derive(Debug, Clone, Copy, PartialEq, Eq, Structural)]
pub enum FieldKind {
    /// A string; the claim must be there.
    Required,
    /// A string or `null`; the claim may be missing.
    Optional,
    /// Any value; the claim may be missing.
    Any,
}

/// A claim that is read.
#[derive(Debug, Clone, Copy)]
pub struct Field {
    /// Name of the member.
    pub name: &'static str,
    /// What its value may be.
    pub kind: FieldKind,
}

/// Whether `v` is a value that a field of this kind takes.
pub open spec fn fits(kind: FieldKind, v: JsonView) -> bool {
    match kind {
        FieldKind::Required => v.kind is Text,
        FieldKind::Optional => v.kind is Text || v.kind is Null,
        FieldKind::Any => true,
    }
}

/// `bytes` without the blanks in front.
pub open spec fn skip_blank(bytes: Seq<u8>) -> Seq<u8>
    decreases bytes.len(),
{
    if bytes.len() > 0 && (bytes[0] == 32 || bytes[0] == 10 || bytes[0] == 9 || bytes[0] == 13) {
        skip_blank(bytes.drop_first())
    } else {
        bytes
    }
}

/// Whether the first byte is `b`.
pub open spec fn starts(bytes: Seq<u8>, b: u8) -> bool {
    bytes.len() > 0 && bytes[0] == b
}

/// The place of the field with the given name, or the number of fields.
pub open spec fn field_index(fields: Seq<Field>, name: Seq<char>) -> int
    decreases fields.len(),
{
    if fields.len() == 0 || fields[0].name@ == name {
        0
    } else {
        1 + field_index(fields.drop_first(), name)
    }
}

/// The claims that have been read, one slot for each field.
pub type ClaimsView = Seq<Option<JsonView>>;

/// The value in `bytes` as the one element of an array.
pub open spec fn nested(bytes: Seq<u8>) -> Seq<u8> {
    seq![91u8] + bytes + seq![93u8]
}

/// The value in `bytes` for a field of the given kind, or why there is none. It
/// stands one level inside the claims, which counts against the depth to which
/// values may nest.
pub open spec fn field_value(kind: FieldKind, bytes: Seq<u8>) -> std::result::Result<
    JsonView,
    Seq<char>,
> {
    match json_value(nested(bytes)) {
        Ok(_) => match json_value(bytes) {
            Ok(v) => if fits(kind, v) {
                Ok(v)
            } else {
                Err("invalid type"@)
            },
            Err(e) => Err(e),
        },
        Err(e) => Err(e),
    }
}

/// The name that the JSON string in front of `bytes` spells, and what is behind
/// it.
pub open spec fn leading_name(bytes: Seq<u8>) -> Option<(Seq<char>, Seq<u8>)> {
    match json_extent(bytes) {
        Some(n) => if n <= bytes.len() {
            match json_value(bytes.take(n as int)) {
                Ok(v) => match v.kind {
                    JsonKindView::Text(name) => Some((name, bytes.skip(n as int))),
                    _ => None,
                },
                Err(_) => None,
            }
        } else {
            None
        },
        None => None,
    }
}

/// The bytes of the JSON value in front of `bytes`, and what is behind it.
pub open spec fn leading_value(bytes: Seq<u8>) -> Option<(Seq<u8>, Seq<u8>)> {
    match json_extent(bytes) {
        Some(n) => if n <= bytes.len() {
            Some((bytes.take(n as int), bytes.skip(n as int)))
        } else {
            None
        },
        None => None,
    }
}

/// A member in front of `bytes`: its name, the bytes of its value, and what is
/// behind it. A comma stands before it unless it is the first.
pub open spec fn leading_member(bytes: Seq<u8>, first: bool) -> Option<
    (Seq<char>, Seq<u8>, Seq<u8>),
> {
    let at = skip_blank(bytes);
    if !first && !starts(at, 44) {
        None
    } else {
        let key = if first {
            at
        } else {
            skip_blank(at.drop_first())
        };
        if !starts(key, 34) {
            None
        } else {
            match leading_name(key) {
                Some((name, rest)) => if !starts(skip_blank(rest), 58) {
                    None
                } else {
                    match leading_value(skip_blank(skip_blank(rest).drop_first())) {
                        Some((value, behind)) => Some((name, value, behind)),
                        None => None,
                    }
                },
                None => None,
            }
        }
    }
}

/// The claims among the members of an object, read from behind its opening
/// brace. Members that are no field are passed over; a field may not occur twice.
pub open spec fn object_claims(
    bytes: Seq<u8>,
    first: bool,
    fields: Seq<Field>,
    claims: ClaimsView,
) -> std::result::Result<ClaimsView, Seq<char>>
    decreases bytes.len(),
{
    if starts(skip_blank(bytes), 125) {
        if skip_blank(skip_blank(bytes).drop_first()).len() == 0 {
            Ok(claims)
        } else {
            Err("trailing characters"@)
        }
    } else {
        match leading_member(bytes, first) {
            Some((name, value, behind)) => {
                proof {
                    lemma_member_consumes(bytes, first);
                }
                let i = field_index(fields, name);
                if i >= fields.len() {
                    object_claims(behind, false, fields, claims)
                } else if claims[i] is Some {
                    Err("duplicate field `"@ + name + "`"@)
                } else {
                    match field_value(fields[i].kind, value) {
                        Ok(v) => object_claims(behind, false, fields, claims.update(i, Some(v))),
                        Err(e) => Err(e),
                    }
                }
            },
            None => Err("malformed object"@),
        }
    }
}

/// The element in front of `bytes` and what is behind it. A comma stands before
/// it unless it is the first.
pub open spec fn leading_element(bytes: Seq<u8>, first: bool) -> Option<(Seq<u8>, Seq<u8>)> {
    let at = skip_blank(bytes);
    if !first && !starts(at, 44) {
        None
    } else {
        leading_value(
            if first {
                at
            } else {
                skip_blank(at.drop_first())
            },
        )
    }
}

/// The claims of an array, read from behind its opening bracket: one element for
/// each field, in the order of the fields.
pub open spec fn array_claims(
    bytes: Seq<u8>,
    fields: Seq<Field>,
    claims: ClaimsView,
) -> std::result::Result<ClaimsView, Seq<char>>
    decreases fields.len() - claims.len(),
{
    if claims.len() >= fields.len() {
        if starts(skip_blank(bytes), 93) && skip_blank(skip_blank(bytes).drop_first()).len() == 0 {
            Ok(claims)
        } else {
            Err("invalid length"@)
        }
    } else {
        match leading_element(bytes, claims.len() == 0) {
            Some((value, behind)) => match field_value(fields[claims.len() as int].kind, value) {
                Ok(v) => array_claims(behind, fields, claims.push(Some(v))),
                Err(e) => Err(e),
            },
            None => Err("invalid length"@),
        }
    }
}

/// The first required field that has no claim, or the number of fields.
pub open spec fn missing_field(fields: Seq<Field>, claims: ClaimsView) -> int
    decreases fields.len(),
{
    if fields.len() == 0 || claims.len() == 0 || (fields[0].kind is Required && claims[0] is None) {
        0
    } else {
        1 + missing_field(fields.drop_first(), claims.drop_first())
    }
}

/// The claims of a JSON text, or why it holds none: an object, or an array with
/// the fields in order.
pub open spec fn claims_of(bytes: Seq<u8>, fields: Seq<Field>) -> std::result::Result<
    ClaimsView,
    Seq<char>,
> {
    let none = Seq::new(fields.len(), |i: int| None::<JsonView>);
    let body = skip_blank(bytes);
    match json_fault(bytes) {
        Some(fault) => Err(fault),
        None => if starts(body, 123) {
            match object_claims(body.drop_first(), true, fields, none) {
                Ok(claims) => {
                    let i = missing_field(fields, claims);
                    if i < fields.len() {
                        Err("missing field `"@ + fields[i].name@ + "`"@)
                    } else {
                        Ok(claims)
                    }
                },
                Err(e) => Err(e),
            }
        } else if starts(body, 91) {
            array_claims(body.drop_first(), fields, Seq::empty())
        } else {
            Err("invalid type"@)
        },
    }
}

/// The content of a string claim.
pub open spec fn claim_text(claim: Option<JsonView>) -> Option<Seq<char>> {
    match claim {
        Some(v) => match v.kind {
            JsonKindView::Text(s) => Some(s),
            _ => None,
        },
        None => None,
    }
}

/// A claim of any kind; `null` stands for no claim.
pub open spec fn claim_value(claim: Option<JsonView>) -> Option<JsonView> {
    match claim {
        Some(v) => if v.kind is Null {
            None
        } else {
            Some(v)
        },
        None => None,
    }
}

/// What the slots hold.
pub open spec fn claim_views(claims: Seq<Option<JsonValue>>) -> ClaimsView {
    claims.map_values(|c: Option<JsonValue>| value_view(c))
}

/// What an optional value says.
pub open spec fn value_view(v: Option<JsonValue>) -> Option<JsonView> {
    match v {
        Some(v) => Some(v@),
        None => None,
    }
}

proof fn lemma_skip_blank_shrinks(bytes: Seq<u8>)
    ensures
        skip_blank(bytes).len() <= bytes.len(),
    decreases bytes.len(),
{
    if bytes.len() > 0 {
        lemma_skip_blank_shrinks(bytes.drop_first());
    }
}

/// A member takes at least one byte.
pub proof fn lemma_member_consumes(bytes: Seq<u8>, first: bool)
    ensures
        match leading_member(bytes, first) {
            Some((_, _, behind)) => behind.len() < bytes.len(),
            None => true,
        },
{
    let at = skip_blank(bytes);
    lemma_skip_blank_shrinks(bytes);
    if at.len() > 0 {
        lemma_skip_blank_shrinks(at.drop_first());
    }
    let key = if first {
        at
    } else {
        skip_blank(at.drop_first())
    };
    if let Some((_, rest)) = leading_name(key) {
        lemma_skip_blank_shrinks(rest);
        lemma_skip_blank_shrinks(skip_blank(rest).drop_first());
    }
}

fn after_blank(bytes: &[u8]) -> (r: &[u8])
    ensures
        r@ == skip_blank(bytes@),
{
    let mut i: usize = 0;
    assert(bytes@.skip(0) == bytes@);
    while i < bytes.len() && (bytes[i] == 32 || bytes[i] == 10 || bytes[i] == 9 || bytes[i] == 13)
        invariant
            i <= bytes@.len(),
            skip_blank(bytes@) == skip_blank(bytes@.skip(i as int)),
        decreases bytes@.len() - i,
    {
        assert(bytes@.skip(i as int).drop_first() == bytes@.skip(i + 1));
        i = i + 1;
    }
    assert(bytes@.skip(i as int) == bytes@.subrange(i as int, bytes@.len() as int));
    vstd::slice::slice_subrange(bytes, i, bytes.len())
}

fn starts_with(bytes: &[u8], b: u8) -> (r: bool)
    ensures
        r == starts(bytes@, b),
{
    bytes.len() > 0 && bytes[0] == b
}

fn behind_first(bytes: &[u8]) -> (r: &[u8])
    requires
        bytes@.len() > 0,
    ensures
        r@ == bytes@.drop_first(),
{
    vstd::slice::slice_subrange(bytes, 1, bytes.len())
}

fn find_field(fields: &[Field], name: &str) -> (r: usize)
    ensures
        r == field_index(fields@, name@),
        r <= fields@.len(),
{
    let mut i: usize = 0;
    assert(fields@.skip(0) == fields@);
    while i < fields.len() && !str_eq(fields[i].name, name)
        invariant
            i <= fields@.len(),
            field_index(fields@, name@) == i + field_index(fields@.skip(i as int), name@),
        decreases fields@.len() - i,
    {
        assert(fields@.skip(i as int).drop_first() == fields@.skip(i + 1));
        i = i + 1;
    }
    i
}

fn first_value(bytes: &[u8]) -> (r: Option<(&[u8], &[u8])>)
    ensures
        match r {
            Some((value, behind)) => leading_value(bytes@) == Some((value@, behind@)),
            None => leading_value(bytes@) is None,
        },
{
    match value_extent(bytes) {
        Some(n) => {
            let value = vstd::slice::slice_subrange(bytes, 0, n);
            let behind = vstd::slice::slice_subrange(bytes, n, bytes.len());
            assert(value@ == bytes@.take(n as int));
            assert(behind@ == bytes@.skip(n as int));
            Some((value, behind))
        },
        None => None,
    }
}

fn first_name(bytes: &[u8]) -> (r: Option<(String, &[u8])>)
    ensures
        match r {
            Some((name, behind)) => leading_name(bytes@) == Some((name@, behind@)),
            None => leading_name(bytes@) is None,
        },
{
    match first_value(bytes) {
        Some((value, behind)) => match read_value(value) {
            Ok(v) => match v.kind {
                JsonKind::Text(name) => Some((name, behind)),
                _ => None,
            },
            Err(_) => None,
        },
        None => None,
    }
}

fn first_member(bytes: &[u8], first: bool) -> (r: Option<(String, &[u8], &[u8])>)
    ensures
        match r {
            Some((name, value, behind)) => leading_member(bytes@, first) == Some(
                (name@, value@, behind@),
            ),
            None => leading_member(bytes@, first) is None,
        },
{
    let at = after_blank(bytes);
    if !first && !starts_with(at, 44) {
        return None;
    }
    let key = if first {
        at
    } else {
        after_blank(behind_first(at))
    };
    if !starts_with(key, 34) {
        return None;
    }
    match first_name(key) {
        Some((name, rest)) => {
            let colon = after_blank(rest);
            if !starts_with(colon, 58) {
                return None;
            }
            match first_value(after_blank(behind_first(colon))) {
                Some((value, behind)) => Some((name, value, behind)),
                None => None,
            }
        },
        None => None,
    }
}

fn in_array(bytes: &[u8]) -> (r: Vec<u8>)
    ensures
        r@ == nested(bytes@),
{
    let mut out: Vec<u8> = Vec::new();
    out.push(91);
    out.extend_from_slice(bytes);
    out.push(93);
    assert(out@ =~= nested(bytes@));
    out
}

fn read_field(kind: FieldKind, bytes: &[u8]) -> (r: Result<JsonValue>)
    ensures
        match r {
            Ok(v) => field_value(kind, bytes@) == Ok::<JsonView, Seq<char>>(v@) && rereads(v@),
            Err(e) => e@ == ErrorView::Json(field_value(kind, bytes@)->Err_0) && field_value(
                kind,
                bytes@,
            ) is Err,
        },
{
    if let Err(e) = read_value(in_array(bytes).as_slice()) {
        return Err(Error::from(e));
    }
    match read_value(bytes) {
        Ok(v) => {
            let fit = match v.kind {
                JsonKind::Text(_) => true,
                JsonKind::Null => kind != FieldKind::Required,
                _ => kind == FieldKind::Any,
            };
            if fit {
                Ok(v)
            } else {
                Err(Error::Json("invalid type".to_owned()))
            }
        },
        Err(e) => Err(Error::from(e)),
    }
}

/// "front" + name + "`".
fn named(front: &str, name: &str) -> (r: Error)
    ensures
        r@ == ErrorView::Json(front@ + name@ + "`"@),
{
    Error::Json(front.to_owned().concat(name).concat("`"))
}

/// Whether an outcome is what the model says: the same claims, or the same fault.
pub open spec fn claims_agree(
    r: Result<Vec<Option<JsonValue>>>,
    model: std::result::Result<ClaimsView, Seq<char>>,
) -> bool {
    match r {
        Ok(claims) => model == Ok::<ClaimsView, Seq<char>>(claim_views(claims@)),
        Err(e) => model is Err && e@ == ErrorView::Json(model->Err_0),
    }
}

/// Whether every claim that is there is read back from its own compact text.
pub open spec fn all_reread(claims: Seq<Option<JsonValue>>) -> bool {
    forall|i: int| 0 <= i < claims.len() ==> claim_rereads(#[trigger] claims[i])
}

/// Whether the claim, if there is one, is read back from its own compact text.
pub open spec fn claim_rereads(claim: Option<JsonValue>) -> bool {
    match claim {
        Some(v) => rereads(v@),
        None => true,
    }
}

fn read_object(bytes: &[u8], fields: &[Field]) -> (r: Result<Vec<Option<JsonValue>>>)
    ensures
        r matches Ok(claims) ==> claims@.len() == fields@.len() && all_reread(claims@),
        claims_agree(
            r,
            object_claims(
                bytes@,
                true,
                fields@,
                Seq::new(fields@.len(), |i: int| None::<JsonView>),
            ),
        ),
{
    let ghost none = Seq::new(fields@.len(), |i: int| None::<JsonView>);
    let ghost model = object_claims(bytes@, true, fields@, none);
    let mut claims: Vec<Option<JsonValue>> = Vec::new();
    let mut k: usize = 0;
    while k < fields.len()
        invariant
            k <= fields@.len(),
            claims@.len() == k,
            forall|i: int| 0 <= i < k ==> #[trigger] claims@[i] is None,
        decreases fields@.len() - k,
    {
        claims.push(None);
        k = k + 1;
    }
    assert(claim_views(claims@) == none);
    let mut rest = bytes;
    let mut first = true;
    loop
        invariant
            claims@.len() == fields@.len(),
            all_reread(claims@),
            model == object_claims(rest@, first, fields@, claim_views(claims@)),
            model == object_claims(
                bytes@,
                true,
                fields@,
                Seq::new(fields@.len(), |i: int| None::<JsonView>),
            ),
        decreases rest@.len(),
    {
        let at = after_blank(rest);
        if starts_with(at, 125) {
            return if after_blank(behind_first(at)).len() == 0 {
                Ok(claims)
            } else {
                Err(Error::Json("trailing characters".to_owned()))
            };
        }
        proof {
            lemma_member_consumes(rest@, first);
        }
        match first_member(rest, first) {
            Some((name, value, behind)) => {
                let i = find_field(fields, name.as_str());
                if i < fields.len() {
                    assert(claim_views(claims@)[i as int] == value_view(claims@[i as int]));
                    if claims[i].is_some() {
                        return Err(named("duplicate field `", name.as_str()));
                    }
                    let ghost before = claims@;
                    match read_field(fields[i].kind, value) {
                        Ok(v) => {
                            let ghost seen = v@;
                            claims.set(i, Some(v));
                            assert(claim_views(claims@) == claim_views(before).update(
                                i as int,
                                Some(seen),
                            ));
                        },
                        Err(e) => {
                            return Err(e);
                        },
                    }
                }
                rest = behind;
                first = false;
            },
            None => {
                return Err(Error::Json("malformed object".to_owned()));
            },
        }
    }
}

fn read_array(bytes: &[u8], fields: &[Field]) -> (r: Result<Vec<Option<JsonValue>>>)
    ensures
        r matches Ok(claims) ==> claims@.len() == fields@.len() && all_reread(claims@),
        claims_agree(r, array_claims(bytes@, fields@, Seq::empty())),
{
    let ghost model = array_claims(bytes@, fields@, Seq::empty());
    let mut claims: Vec<Option<JsonValue>> = Vec::new();
    let mut rest = bytes;
    assert(claim_views(claims@) == Seq::<Option<JsonView>>::empty());
    while claims.len() < fields.len()
        invariant
            claims@.len() <= fields@.len(),
            all_reread(claims@),
            model == array_claims(rest@, fields@, claim_views(claims@)),
            model == array_claims(bytes@, fields@, Seq::empty()),
        decreases fields@.len() - claims@.len(),
    {
        let k = claims.len();
        let at = after_blank(rest);
        if k > 0 && !starts_with(at, 44) {
            return Err(Error::Json("invalid length".to_owned()));
        }
        let element = if k == 0 {
            at
        } else {
            after_blank(behind_first(at))
        };
        match first_value(element) {
            Some((value, behind)) => match read_field(fields[k].kind, value) {
                Ok(v) => {
                    let ghost before = claims@;
                    let ghost seen = v@;
                    claims.push(Some(v));
                    assert(claim_views(claims@) == claim_views(before).push(Some(seen)));
                    rest = behind;
                },
                Err(e) => {
                    return Err(e);
                },
            },
            None => {
                return Err(Error::Json("invalid length".to_owned()));
            },
        }
    }
    let at = after_blank(rest);
    if starts_with(at, 93) && after_blank(behind_first(at)).len() == 0 {
        Ok(claims)
    } else {
        Err(Error::Json("invalid length".to_owned()))
    }
}

fn find_missing(fields: &[Field], claims: &Vec<Option<JsonValue>>) -> (r: usize)
    requires
        fields@.len() == claims@.len(),
    ensures
        r == missing_field(fields@, claim_views(claims@)),
        r <= fields@.len(),
{
    let ghost all = claim_views(claims@);
    let mut i: usize = 0;
    assert(fields@.skip(0) == fields@);
    assert(all.skip(0) == all);
    while i < fields.len()
        invariant
            i <= fields@.len(),
            fields@.len() == claims@.len(),
            all == claim_views(claims@),
            missing_field(fields@, all) == i + missing_field(
                fields@.skip(i as int),
                all.skip(i as int),
            ),
        decreases fields@.len() - i,
    {
        assert(all.skip(i as int)[0] == value_view(claims@[i as int]));
        if fields[i].kind == FieldKind::Required && claims[i].is_none() {
            return i;
        }
        assert(fields@.skip(i as int).drop_first() == fields@.skip(i + 1));
        assert(all.skip(i as int).drop_first() == all.skip(i + 1));
        i = i + 1;
    }
    i
}

/// Read the claims that `fields` lists out of a JSON text.
pub fn read_claims(bytes: &[u8], fields: &[Field]) -> (r: Result<Vec<Option<JsonValue>>>)
    ensures
        claims_agree(r, claims_of(bytes@, fields@)),
        r matches Ok(claims) ==> claims@.len() == fields@.len() && all_reread(claims@),
{
    if let Err(e) = check_json(bytes) {
        return Err(Error::from(e));
    }
    let body = after_blank(bytes);
    if starts_with(body, 123) {
        let claims = read_object(behind_first(body), fields)?;
        let i = find_missing(fields, &claims);
        if i < fields.len() {
            Err(named("missing field `", fields[i].name))
        } else {
            Ok(claims)
        }
    } else if starts_with(body, 91) {
        read_array(behind_first(body), fields)
    } else {
        Err(Error::Json("invalid type".to_owned()))
    }
}

/// Whether every claim that is there is of the kind that its field takes.
pub open spec fn all_fit(fields: Seq<Field>, claims: ClaimsView) -> bool {
    forall|i: int|
        0 <= i < claims.len() && i < fields.len() && (#[trigger] claims[i]) is Some ==> fits(
            fields[i].kind,
            claims[i]->Some_0,
        )
}

proof fn lemma_object_claims_fit(
    bytes: Seq<u8>,
    first: bool,
    fields: Seq<Field>,
    claims: ClaimsView,
)
    requires
        claims.len() == fields.len(),
        all_fit(fields, claims),
    ensures
        match object_claims(bytes, first, fields, claims) {
            Ok(out) => out.len() == fields.len() && all_fit(fields, out),
            Err(_) => true,
        },
    decreases bytes.len(),
{
    if !starts(skip_blank(bytes), 125) {
        lemma_member_consumes(bytes, first);
        if let Some((name, value, behind)) = leading_member(bytes, first) {
            let i = field_index(fields, name);
            lemma_field_index_bound(fields, name);
            if i >= fields.len() {
                lemma_object_claims_fit(behind, false, fields, claims);
            } else if claims[i] is None {
                if let Ok(v) = field_value(fields[i].kind, value) {
                    lemma_object_claims_fit(behind, false, fields, claims.update(i, Some(v)));
                }
            }
        }
    }
}

proof fn lemma_field_index_bound(fields: Seq<Field>, name: Seq<char>)
    ensures
        0 <= field_index(fields, name) <= fields.len(),
    decreases fields.len(),
{
    if fields.len() > 0 {
        lemma_field_index_bound(fields.drop_first(), name);
    }
}

proof fn lemma_array_claims_fit(bytes: Seq<u8>, fields: Seq<Field>, claims: ClaimsView)
    requires
        claims.len() <= fields.len(),
        all_fit(fields, claims),
        forall|i: int| 0 <= i < claims.len() ==> (#[trigger] claims[i]) is Some,
    ensures
        match array_claims(bytes, fields, claims) {
            Ok(out) => out.len() == fields.len() && all_fit(fields, out) && forall|i: int|
                0 <= i < out.len() ==> (#[trigger] out[i]) is Some,
            Err(_) => true,
        },
    decreases fields.len() - claims.len(),
{
    if claims.len() < fields.len() {
        if let Some((value, behind)) = leading_element(bytes, claims.len() == 0) {
            if let Ok(v) = field_value(fields[claims.len() as int].kind, value) {
                lemma_array_claims_fit(behind, fields, claims.push(Some(v)));
            }
        }
    }
}

proof fn lemma_nothing_missing(fields: Seq<Field>, claims: ClaimsView, i: int)
    requires
        fields.len() == claims.len(),
        missing_field(fields, claims) >= fields.len(),
        0 <= i < fields.len(),
        fields[i].kind is Required,
    ensures
        claims[i] is Some,
    decreases fields.len(),
{
    if i > 0 {
        lemma_nothing_missing(fields.drop_first(), claims.drop_first(), i - 1);
    }
}

/// Claims that were read have a slot for each field, each of a kind that the
/// field takes, and a string in the slot of every required field.
pub proof fn lemma_required_claim(bytes: Seq<u8>, fields: Seq<Field>, i: int)
    requires
        0 <= i < fields.len(),
        fields[i].kind is Required,
    ensures
        match claims_of(bytes, fields) {
            Ok(claims) => claims.len() == fields.len() && claim_text(claims[i]) is Some,
            Err(_) => true,
        },
{
    let none = Seq::new(fields.len(), |i: int| None::<JsonView>);
    let body = skip_blank(bytes);
    lemma_object_claims_fit(body.drop_first(), true, fields, none);
    lemma_array_claims_fit(body.drop_first(), fields, Seq::empty());
    if let Ok(claims) = claims_of(bytes, fields) {
        if starts(body, 123) {
            lemma_nothing_missing(fields, claims, i);
        }
        assert(claims[i] is Some);
    }
}

/// Whether a byte is a blank of JSON text.
pub open spec fn is_blank(b: u8) -> bool {
    b == 32 || b == 10 || b == 9 || b == 13
}

/// Whether all bytes are blanks.
pub open spec fn all_blank(bytes: Seq<u8>) -> bool {
    forall|i: int| 0 <= i < bytes.len() ==> is_blank(#[trigger] bytes[i])
}

/// How a member of an object is spelled: the comma before it, unless it is the
/// first, its name, a colon and its value, with blanks anywhere between them.
pub struct MemberText {
    pub before: Seq<u8>,
    pub after_comma: Seq<u8>,
    pub key: Seq<u8>,
    pub name: Seq<char>,
    pub before_colon: Seq<u8>,
    pub after_colon: Seq<u8>,
    pub value: Seq<u8>,
}

/// The text of members and what stands behind them.
pub open spec fn members_text(ms: Seq<MemberText>, first: bool, end: Seq<u8>) -> Seq<u8>
    decreases ms.len(),
{
    if ms.len() == 0 {
        end
    } else {
        let m = ms[0];
        let lead = if first {
            m.before
        } else {
            m.before + seq![44u8] + m.after_comma
        };
        lead + (m.key + (m.before_colon + (seq![58u8] + (m.after_colon + (m.value + members_text(
            ms.drop_first(),
            false,
            end,
        ))))))
    }
}

/// Whether a name and a value of the texts stand where they are said to: the name
/// is a JSON string that spells it, and each of the two ends where what follows it
/// in the text begins.
pub open spec fn well_spelled(ms: Seq<MemberText>, end: Seq<u8>) -> bool
    decreases ms.len(),
{
    ms.len() > 0 ==> {
        let m = ms[0];
        let behind = members_text(ms.drop_first(), false, end);
        let rest = m.before_colon + (seq![58u8] + (m.after_colon + (m.value + behind)));
        &&& all_blank(m.before)
        &&& all_blank(m.after_comma)
        &&& all_blank(m.before_colon)
        &&& all_blank(m.after_colon)
        &&& m.key.len() > 0
        &&& m.key[0] == 34
        &&& json_extent(m.key + rest) == Some(m.key.len())
        &&& json_value(m.key) matches Ok(k) && k.kind == JsonKindView::Text(m.name)
        &&& m.value.len() > 0
        &&& !is_blank(m.value[0])
        &&& json_extent(m.value + behind) == Some(m.value.len())
        &&& well_spelled(ms.drop_first(), end)
    }
}

/// An object: a brace, members, a brace, with blanks around it.
pub open spec fn object_text(
    before: Seq<u8>,
    ms: Seq<MemberText>,
    last: Seq<u8>,
    after: Seq<u8>,
) -> Seq<u8> {
    before + (seq![123u8] + members_text(ms, true, last + (seq![125u8] + after)))
}

proof fn lemma_skip_blank_front(blank: Seq<u8>, rest: Seq<u8>)
    requires
        all_blank(blank),
        rest.len() > 0 ==> !is_blank(rest[0]),
    ensures
        skip_blank(blank + rest) == rest,
    decreases blank.len(),
{
    if blank.len() == 0 {
        assert(blank + rest =~= rest);
    } else {
        assert((blank + rest)[0] == blank[0]);
        assert(is_blank(blank[0]));
        assert((blank + rest).drop_first() =~= blank.drop_first() + rest);
        assert forall|i: int| 0 <= i < blank.drop_first().len() implies is_blank(
            #[trigger] blank.drop_first()[i],
        ) by {
            assert(blank.drop_first()[i] == blank[i + 1]);
        }
        lemma_skip_blank_front(blank.drop_first(), rest);
    }
}

proof fn lemma_leading_member(ms: Seq<MemberText>, first: bool, end: Seq<u8>)
    requires
        ms.len() > 0,
        well_spelled(ms, end),
    ensures
        leading_member(members_text(ms, first, end), first) == Some(
            (ms[0].name, ms[0].value, members_text(ms.drop_first(), false, end)),
        ),
        !starts(skip_blank(members_text(ms, first, end)), 125),
{
    let m = ms[0];
    let behind = members_text(ms.drop_first(), false, end);
    let at_value = m.value + behind;
    let at_colon = seq![58u8] + (m.after_colon + at_value);
    let rest = m.before_colon + at_colon;
    let at_key = m.key + rest;
    let bytes = members_text(ms, first, end);
    if first {
        lemma_skip_blank_front(m.before, at_key);
    } else {
        let at_comma = seq![44u8] + (m.after_comma + at_key);
        assert(bytes =~= m.before + at_comma);
        lemma_skip_blank_front(m.before, at_comma);
        assert(at_comma.drop_first() =~= m.after_comma + at_key);
        lemma_skip_blank_front(m.after_comma, at_key);
    }
    assert(at_key.take(m.key.len() as int) =~= m.key);
    assert(at_key.skip(m.key.len() as int) =~= rest);
    lemma_skip_blank_front(m.before_colon, at_colon);
    assert(at_colon.drop_first() =~= m.after_colon + at_value);
    lemma_skip_blank_front(m.after_colon, at_value);
    assert(at_value.take(m.value.len() as int) =~= m.value);
    assert(at_value.skip(m.value.len() as int) =~= behind);
}

/// Whether some member has the name.
pub open spec fn has_member(ms: Seq<MemberText>, name: Seq<char>) -> bool {
    exists|i: int| 0 <= i < ms.len() && (#[trigger] ms[i]).name == name
}

/// Whether no two fields have the same name.
pub open spec fn distinct_fields(fields: Seq<Field>) -> bool {
    forall|i: int, j: int|
        0 <= i < j < fields.len() ==> (#[trigger] fields[i]).name@ != (#[trigger] fields[j]).name@
}

/// Whether the value of a member is one that the field takes: it is read, nests no
/// deeper inside the object than values may, and is a string, or `null` where the
/// field is optional, or anything where it takes anything.
pub open spec fn takes(field: Field, value: Seq<u8>, v: JsonView) -> bool {
    &&& json_value(value) == Ok::<JsonView, Seq<char>>(v)
    &&& json_value(seq![91u8] + value + seq![93u8]) is Ok
    &&& v.kind is Text || field.kind is Any || (v.kind is Null && field.kind is Optional)
}

/// Whether there is a value that the field takes.
pub open spec fn taken(field: Field, value: Seq<u8>) -> bool {
    exists|v: JsonView| takes(field, value, v)
}

/// Whether `claims` are the values of the members by their names: for each field
/// the value of the member with its name, wherever that stands, and nothing where
/// there is none. What other members there are does not matter.
pub open spec fn claims_by_name(ms: Seq<MemberText>, fields: Seq<Field>, claims: ClaimsView) -> bool {
    &&& claims.len() == fields.len()
    &&& forall|i: int, k: int|
        0 <= i < ms.len() && 0 <= k < fields.len() && (#[trigger] ms[i]).name == (
        #[trigger] fields[k]).name@ ==> claims[k] is Some && takes(
            fields[k],
            ms[i].value,
            claims[k]->Some_0,
        )
    &&& forall|k: int|
        0 <= k < fields.len() && claims[k] is Some ==> has_member(
            ms,
            (#[trigger] fields[k]).name@,
        )
}

/// Whether no field is named by two members.
pub open spec fn each_once(ms: Seq<MemberText>, fields: Seq<Field>) -> bool {
    forall|i: int, j: int, k: int|
        0 <= i < j < ms.len() && 0 <= k < fields.len() && (#[trigger] fields[k]).name@ == (
        #[trigger] ms[i]).name ==> (#[trigger] ms[j]).name != fields[k].name@
}

proof fn lemma_field_index(fields: Seq<Field>, name: Seq<char>)
    ensures
        0 <= field_index(fields, name) <= fields.len(),
        field_index(fields, name) < fields.len() ==> fields[field_index(fields, name)].name@ == name,
        forall|k: int|
            0 <= k < field_index(fields, name) ==> (#[trigger] fields[k]).name@ != name,
    decreases fields.len(),
{
    if fields.len() > 0 && fields[0].name@ != name {
        let rest = fields.drop_first();
        lemma_field_index(rest, name);
        assert forall|k: int| 0 <= k < field_index(fields, name) implies (
        #[trigger] fields[k]).name@ != name by {
            if k > 0 {
                assert(rest[k - 1] == fields[k]);
            }
        }
    }
}

/// Whether `out` is `claims` with the members' values put in.
spec fn filled(
    ms: Seq<MemberText>,
    fields: Seq<Field>,
    claims: ClaimsView,
    out: ClaimsView,
) -> bool {
    &&& out.len() == fields.len()
    &&& forall|k: int|
        0 <= k < fields.len() && claims[k] is Some ==> out[k] == #[trigger] claims[k]
    &&& forall|i: int, k: int|
        0 <= i < ms.len() && 0 <= k < fields.len() && (#[trigger] ms[i]).name == (
        #[trigger] fields[k]).name@ ==> out[k] is Some && takes(
            fields[k],
            ms[i].value,
            out[k]->Some_0,
        )
    &&& forall|k: int|
        0 <= k < fields.len() && out[k] is Some && claims[k] is None ==> has_member(
            ms,
            (#[trigger] fields[k]).name@,
        )
}

/// Whether every member that names a field finds it free and has a value that the
/// field takes.
spec fn fillable(ms: Seq<MemberText>, fields: Seq<Field>, claims: ClaimsView) -> bool {
    &&& each_once(ms, fields)
    &&& forall|i: int, k: int|
        0 <= i < ms.len() && 0 <= k < fields.len() && (#[trigger] ms[i]).name == (
        #[trigger] fields[k]).name@ ==> claims[k] is None && exists|v: JsonView|
            takes(fields[k], ms[i].value, v)
}

#[verifier::spinoff_prover]
#[verifier::rlimit(40)]
proof fn lemma_object_claims(
    ms: Seq<MemberText>,
    first: bool,
    last: Seq<u8>,
    after: Seq<u8>,
    fields: Seq<Field>,
    claims: ClaimsView,
)
    requires
        all_blank(last),
        all_blank(after),
        well_spelled(ms, last + (seq![125u8] + after)),
        distinct_fields(fields),
        claims.len() == fields.len(),
    ensures
        ({
            let got = object_claims(
                members_text(ms, first, last + (seq![125u8] + after)),
                first,
                fields,
                claims,
            );
            &&& got is Ok <==> fillable(ms, fields, claims)
            &&& got is Ok ==> filled(ms, fields, claims, got->Ok_0)
        }),
    decreases ms.len(),
{
    let end = last + (seq![125u8] + after);
    let bytes = members_text(ms, first, end);
    if ms.len() == 0 {
        lemma_skip_blank_front(last, seq![125u8] + after);
        assert((seq![125u8] + after).drop_first() =~= after);
        assert(after + Seq::<u8>::empty() =~= after);
        lemma_skip_blank_front(after, Seq::empty());
        assert(object_claims(bytes, first, fields, claims) == Ok::<ClaimsView, Seq<char>>(claims));
    } else {
        let m = ms[0];
        let rest = ms.drop_first();
        let i = field_index(fields, m.name);
        lemma_leading_member(ms, first, end);
        lemma_field_index(fields, m.name);
        lemma_member_consumes(bytes, first);
        assert forall|k: int| 0 <= k < fields.len() && k != i implies (
        #[trigger] fields[k]).name@ != m.name by {
            if i < fields.len() && k > i {
                assert(fields[i].name@ != fields[k].name@);
            }
        }
        assert forall|j: int| 0 <= j < rest.len() implies rest[j] == ms[j + 1] by {}
        if i >= fields.len() {
            lemma_object_claims(rest, false, last, after, fields, claims);
            lemma_skip_member(ms, fields, claims);
        } else if claims[i] is Some {
            assert(ms[0].name == fields[i].name@);
        } else {
            let got = field_value(fields[i].kind, m.value);
            assert(nested(m.value) == seq![91u8] + m.value + seq![93u8]);
            if got is Ok {
                let v = got->Ok_0;
                assert(takes(fields[i], m.value, v));
                let next = claims.update(i, Some(v));
                lemma_object_claims(rest, false, last, after, fields, next);
                lemma_put_member(ms, fields, claims, i, v);
            } else {
                assert forall|v: JsonView| !takes(fields[i], m.value, v) by {}
                assert(ms[0].name == fields[i].name@);
                assert(!fillable(ms, fields, claims));
            }
        }
    }
}

#[verifier::spinoff_prover]
#[verifier::rlimit(40)]
proof fn lemma_skip_member(ms: Seq<MemberText>, fields: Seq<Field>, claims: ClaimsView)
    requires
        ms.len() > 0,
        forall|k: int| 0 <= k < fields.len() ==> (#[trigger] fields[k]).name@ != ms[0].name,
    ensures
        fillable(ms, fields, claims) <==> fillable(ms.drop_first(), fields, claims),
        forall|out: ClaimsView| #[trigger]
            filled(ms.drop_first(), fields, claims, out) ==> filled(ms, fields, claims, out),
{
    let rest = ms.drop_first();
    assert forall|j: int| 0 <= j < rest.len() implies rest[j] == ms[j + 1] by {}
    assert forall|j: int| 1 <= j < ms.len() implies ms[j] == rest[j - 1] by {}
    if fillable(ms, fields, claims) {
        assert forall|i: int, j: int, k: int|
            0 <= i < j < rest.len() && 0 <= k < fields.len() && (#[trigger] fields[k]).name@ == (
            #[trigger] rest[i]).name implies (#[trigger] rest[j]).name != fields[k].name@ by {
            assert(ms[i + 1].name == fields[k].name@);
            assert(ms[j + 1].name != fields[k].name@);
        }
        assert forall|i: int, k: int|
            0 <= i < rest.len() && 0 <= k < fields.len() && (#[trigger] rest[i]).name == (
            #[trigger] fields[k]).name@ implies claims[k] is None && exists|v: JsonView|
            takes(fields[k], rest[i].value, v) by {
            assert(ms[i + 1].name == fields[k].name@);
        }
    }
    if fillable(rest, fields, claims) {
        assert forall|i: int, j: int, k: int|
            0 <= i < j < ms.len() && 0 <= k < fields.len() && (#[trigger] fields[k]).name@ == (
            #[trigger] ms[i]).name implies (#[trigger] ms[j]).name != fields[k].name@ by {
            assert(rest[i - 1].name == fields[k].name@);
            assert(rest[j - 1].name != fields[k].name@);
        }
        assert forall|i: int, k: int|
            0 <= i < ms.len() && 0 <= k < fields.len() && (#[trigger] ms[i]).name == (
            #[trigger] fields[k]).name@ implies claims[k] is None && exists|v: JsonView|
            takes(fields[k], ms[i].value, v) by {
            assert(rest[i - 1].name == fields[k].name@);
        }
    }
    assert forall|out: ClaimsView| #[trigger] filled(rest, fields, claims, out) implies filled(
        ms,
        fields,
        claims,
        out,
    ) by {
        assert forall|i: int, k: int|
            0 <= i < ms.len() && 0 <= k < fields.len() && (#[trigger] ms[i]).name == (
            #[trigger] fields[k]).name@ implies out[k] is Some && takes(
            fields[k],
            ms[i].value,
            out[k]->Some_0,
        ) by {
            assert(rest[i - 1].name == fields[k].name@);
        }
        assert forall|k: int|
            0 <= k < fields.len() && out[k] is Some && claims[k] is None implies has_member(
            ms,
            (#[trigger] fields[k]).name@,
        ) by {
            assert(has_member(rest, fields[k].name@));
            let i = choose|i: int|
                0 <= i < rest.len() && (#[trigger] rest[i]).name == fields[k].name@;
            assert(ms[i + 1].name == fields[k].name@);
        }
    }
}

#[verifier::spinoff_prover]
#[verifier::rlimit(40)]
proof fn lemma_put_member(
    ms: Seq<MemberText>,
    fields: Seq<Field>,
    claims: ClaimsView,
    at: int,
    v: JsonView,
)
    requires
        ms.len() > 0,
        claims.len() == fields.len(),
        0 <= at < fields.len(),
        claims[at] is None,
        fields[at].name@ == ms[0].name,
        forall|k: int|
            0 <= k < fields.len() && k != at ==> (#[trigger] fields[k]).name@ != ms[0].name,
        takes(fields[at], ms[0].value, v),
    ensures
        fillable(ms, fields, claims) <==> fillable(
            ms.drop_first(),
            fields,
            claims.update(at, Some(v)),
        ),
        forall|out: ClaimsView|
            fillable(ms, fields, claims) && #[trigger] filled(
                ms.drop_first(),
                fields,
                claims.update(at, Some(v)),
                out,
            ) ==> filled(ms, fields, claims, out),
{
    let rest = ms.drop_first();
    let next = claims.update(at, Some(v));
    assert forall|j: int| 0 <= j < rest.len() implies rest[j] == ms[j + 1] by {}
    assert forall|j: int| 1 <= j < ms.len() implies ms[j] == rest[j - 1] by {}
    if fillable(ms, fields, claims) {
        assert forall|i: int, j: int, k: int|
            0 <= i < j < rest.len() && 0 <= k < fields.len() && (#[trigger] fields[k]).name@ == (
            #[trigger] rest[i]).name implies (#[trigger] rest[j]).name != fields[k].name@ by {
            assert(ms[i + 1].name == fields[k].name@);
            assert(ms[j + 1].name != fields[k].name@);
        }
        assert forall|i: int, k: int|
            0 <= i < rest.len() && 0 <= k < fields.len() && (#[trigger] rest[i]).name == (
            #[trigger] fields[k]).name@ implies next[k] is None && exists|v: JsonView|
            takes(fields[k], rest[i].value, v) by {
            assert(ms[i + 1].name == fields[k].name@);
            if k == at {
                assert(ms[0].name == fields[k].name@);
                assert(ms[i + 1].name != fields[k].name@);
            }
        }
    }
    if fillable(rest, fields, next) {
        assert forall|i: int, j: int, k: int|
            0 <= i < j < ms.len() && 0 <= k < fields.len() && (#[trigger] fields[k]).name@ == (
            #[trigger] ms[i]).name implies (#[trigger] ms[j]).name != fields[k].name@ by {
            assert(rest[j - 1] == ms[j]);
            if i == 0 {
                assert(k == at);
                if ms[j].name == fields[k].name@ {
                    assert(rest[j - 1].name == fields[k].name@);
                    assert(next[k] is None);
                }
            } else {
                assert(rest[i - 1].name == fields[k].name@);
                assert(rest[j - 1].name != fields[k].name@);
            }
        }
        assert forall|i: int, k: int|
            0 <= i < ms.len() && 0 <= k < fields.len() && (#[trigger] ms[i]).name == (
            #[trigger] fields[k]).name@ implies claims[k] is None && exists|v: JsonView|
            takes(fields[k], ms[i].value, v) by {
            if i > 0 {
                assert(rest[i - 1].name == fields[k].name@);
                assert(next[k] is None);
            }
        }
    }
    assert forall|out: ClaimsView|
        fillable(ms, fields, claims) && #[trigger] filled(rest, fields, next, out) implies filled(
        ms,
        fields,
        claims,
        out,
    ) by {
        assert(next[at] is Some);
        assert(out[at] == next[at]);
        assert forall|k: int| 0 <= k < fields.len() && claims[k] is Some implies out[k]
            == #[trigger] claims[k] by {
            assert(next[k] == claims[k]);
        }
        assert forall|i: int, k: int|
            0 <= i < ms.len() && 0 <= k < fields.len() && (#[trigger] ms[i]).name == (
            #[trigger] fields[k]).name@ implies out[k] is Some && takes(
            fields[k],
            ms[i].value,
            out[k]->Some_0,
        ) by {
            if i > 0 {
                assert(rest[i - 1].name == fields[k].name@);
            } else {
                assert(k == at);
            }
        }
        assert forall|k: int|
            0 <= k < fields.len() && out[k] is Some && claims[k] is None implies has_member(
            ms,
            (#[trigger] fields[k]).name@,
        ) by {
            if k == at {
                assert(ms[0].name == fields[k].name@);
            } else {
                assert(next[k] is None);
                assert(has_member(rest, fields[k].name@));
                let i = choose|i: int|
                    0 <= i < rest.len() && (#[trigger] rest[i]).name == fields[k].name@;
                assert(ms[i + 1].name == fields[k].name@);
            }
        }
    }
}

/// The claims of an object are the values of its members by their names: each
/// claim is the value of the member with the field's name wherever it stands, and
/// members with other names change nothing. There are claims if and only if no
/// field is named twice, every named field takes its value, and every required
/// field is named.
pub proof fn law_claims_by_name(
    before: Seq<u8>,
    ms: Seq<MemberText>,
    last: Seq<u8>,
    after: Seq<u8>,
    fields: Seq<Field>,
)
    requires
        json_fault(object_text(before, ms, last, after)) is None,
        all_blank(before),
        all_blank(last),
        all_blank(after),
        well_spelled(ms, last + (seq![125u8] + after)),
        distinct_fields(fields),
    ensures
        ({
            let got = claims_of(object_text(before, ms, last, after), fields);
            &&& got is Ok ==> claims_by_name(ms, fields, got->Ok_0)
            &&& got is Ok <==> {
                &&& each_once(ms, fields)
                &&& forall|i: int, k: int|
                    0 <= i < ms.len() && 0 <= k < fields.len() && (#[trigger] ms[i]).name == (
                    #[trigger] fields[k]).name@ ==> exists|v: JsonView|
                        takes(fields[k], ms[i].value, v)
                &&& forall|k: int|
                    0 <= k < fields.len() && (#[trigger] fields[k]).kind is Required ==> has_member(
                        ms,
                        fields[k].name@,
                    )
            }
        }),
{
    let none = Seq::new(fields.len(), |i: int| None::<JsonView>);
    let end = last + (seq![125u8] + after);
    let inner = members_text(ms, true, end);
    lemma_skip_blank_front(before, seq![123u8] + inner);
    assert((seq![123u8] + inner).drop_first() =~= inner);
    lemma_object_claims(ms, true, last, after, fields, none);
    let got = object_claims(inner, true, fields, none);
    if got is Ok {
        let claims = got->Ok_0;
        lemma_missing_field(fields, claims);
        assert(claims_by_name(ms, fields, claims));
        let i = missing_field(fields, claims);
        if i < fields.len() {
            assert(fields[i].kind is Required && claims[i] is None);
            assert(!has_member(ms, fields[i].name@));
        } else {
            assert forall|k: int|
                0 <= k < fields.len() && (#[trigger] fields[k]).kind is Required implies has_member(
                ms,
                fields[k].name@,
            ) by {
                lemma_nothing_missing(fields, claims, k);
            }
        }
    }
}

proof fn lemma_missing_field(fields: Seq<Field>, claims: ClaimsView)
    requires
        fields.len() == claims.len(),
    ensures
        0 <= missing_field(fields, claims) <= fields.len(),
        missing_field(fields, claims) < fields.len() ==> {
            let i = missing_field(fields, claims);
            fields[i].kind is Required && claims[i] is None
        },
    decreases fields.len(),
{
    if fields.len() > 0 && !(fields[0].kind is Required && claims[0] is None) {
        lemma_missing_field(fields.drop_first(), claims.drop_first());
    }
}

/// How an element of an array is spelled: the comma before it, unless it is the
/// first, and its value, with blanks between them.
pub struct ElementText {
    pub before: Seq<u8>,
    pub after_comma: Seq<u8>,
    pub value: Seq<u8>,
}

/// The text of elements and what stands behind them.
pub open spec fn elements_text(es: Seq<ElementText>, first: bool, end: Seq<u8>) -> Seq<u8>
    decreases es.len(),
{
    if es.len() == 0 {
        end
    } else {
        let lead = if first {
            es[0].before
        } else {
            es[0].before + seq![44u8] + es[0].after_comma
        };
        lead + (es[0].value + elements_text(es.drop_first(), false, end))
    }
}

/// Whether each value ends where what follows it in the text begins.
pub open spec fn well_placed(es: Seq<ElementText>, end: Seq<u8>) -> bool
    decreases es.len(),
{
    es.len() > 0 ==> {
        let behind = elements_text(es.drop_first(), false, end);
        &&& all_blank(es[0].before)
        &&& all_blank(es[0].after_comma)
        &&& es[0].value.len() > 0
        &&& !is_blank(es[0].value[0])
        &&& json_extent(es[0].value + behind) == Some(es[0].value.len())
        &&& well_placed(es.drop_first(), end)
    }
}

/// An array: a bracket, elements, a bracket, with blanks around it.
pub open spec fn array_text(
    before: Seq<u8>,
    es: Seq<ElementText>,
    last: Seq<u8>,
    after: Seq<u8>,
) -> Seq<u8> {
    before + (seq![91u8] + elements_text(es, true, last + (seq![93u8] + after)))
}

/// Whether each field from `n` on takes the element in its place.
pub open spec fn all_taken(es: Seq<ElementText>, fields: Seq<Field>, n: int) -> bool {
    forall|k: int| n <= k < fields.len() ==> #[trigger] taken(fields[k], es[k].value)
}

/// Whether the claim is the value of the element, and one that the field takes.
pub open spec fn placed(field: Field, e: ElementText, claim: Option<JsonView>) -> bool {
    claim matches Some(v) && takes(field, e.value, v)
}

/// Whether the claims from `n` on are the elements in their places.
pub open spec fn in_order(
    es: Seq<ElementText>,
    fields: Seq<Field>,
    n: int,
    claims: ClaimsView,
) -> bool {
    forall|k: int| n <= k < fields.len() ==> #[trigger] placed(fields[k], es[k], claims[k])
}

#[verifier::spinoff_prover]
#[verifier::rlimit(40)]
proof fn lemma_array_claims(
    es: Seq<ElementText>,
    last: Seq<u8>,
    after: Seq<u8>,
    fields: Seq<Field>,
    claims: ClaimsView,
)
    requires
        all_blank(last),
        all_blank(after),
        claims.len() <= es.len(),
        well_placed(es.skip(claims.len() as int), last + (seq![93u8] + after)),
        claims.len() <= fields.len(),
        0 < fields.len(),
        es.len() > 0,
    ensures
        ({
            let n = claims.len() as int;
            let end = last + (seq![93u8] + after);
            let got = array_claims(elements_text(es.skip(n), n == 0, end), fields, claims);
            &&& got is Ok <==> es.len() == fields.len() && all_taken(es, fields, n)
            &&& got is Ok ==> got->Ok_0.len() == fields.len() && got->Ok_0.take(n) == claims
                && in_order(es, fields, n, got->Ok_0)
        }),
    decreases es.len() - claims.len(),
{
    let end = last + (seq![93u8] + after);
    let n = claims.len() as int;
    let here = es.skip(n);
    let bytes = elements_text(here, n == 0, end);
    let tail = seq![93u8] + after;
    let got = array_claims(bytes, fields, claims);
    lemma_skip_blank_front(last, tail);
    assert(tail.drop_first() =~= after);
    assert(after + Seq::<u8>::empty() =~= after);
    lemma_skip_blank_front(after, Seq::empty());
    if here.len() == 0 {
        assert(claims.take(n) =~= claims);
        if n < fields.len() {
            assert(got is Err);
        } else {
            assert(got == Ok::<ClaimsView, Seq<char>>(claims));
        }
    } else {
        let e = here[0];
        let behind = elements_text(here.drop_first(), false, end);
        let at_value = e.value + behind;
        assert(e == es[n]);
        assert(here.drop_first() =~= es.skip(n + 1));
        if n == 0 {
            lemma_skip_blank_front(e.before, at_value);
        } else {
            let at_comma = seq![44u8] + (e.after_comma + at_value);
            assert(bytes =~= e.before + at_comma);
            lemma_skip_blank_front(e.before, at_comma);
            assert(at_comma.drop_first() =~= e.after_comma + at_value);
            lemma_skip_blank_front(e.after_comma, at_value);
        }
        if n < fields.len() {
            assert(at_value.take(e.value.len() as int) =~= e.value);
            assert(at_value.skip(e.value.len() as int) =~= behind);
            assert(leading_element(bytes, n == 0) == Some((e.value, behind)));
            assert(nested(e.value) == seq![91u8] + e.value + seq![93u8]);
            let read = field_value(fields[n].kind, e.value);
            if read is Ok {
                let v = read->Ok_0;
                let next = claims.push(Some(v));
                assert(takes(fields[n], es[n].value, v));
                lemma_array_claims(es, last, after, fields, next);
                assert(got == array_claims(behind, fields, next));
                if got is Ok {
                    let out = got->Ok_0;
                    assert(out.take(n) =~= out.take(n + 1).drop_last());
                    assert(next.drop_last() =~= claims);
                    assert(next[n] == Some(v));
                    assert(out.take(n + 1) == next);
                    assert(out[n] == out.take(n + 1)[n]);
                    assert(in_order(es, fields, n + 1, out));
                    assert forall|k: int| n <= k < fields.len() implies #[trigger] placed(
                        fields[k],
                        es[k],
                        out[k],
                    ) by {
                        if k == n {
                            assert(takes(fields[k], es[k].value, v));
                        }
                    }
                    assert forall|k: int| n <= k < fields.len() implies #[trigger] taken(
                        fields[k],
                        es[k].value,
                    ) by {
                        assert(placed(fields[k], es[k], out[k]));
                    }
                    assert(all_taken(es, fields, n));
                }
                if es.len() == fields.len() && all_taken(es, fields, n) {
                    assert(all_taken(es, fields, n + 1));
                }
            } else {
                assert(got is Err);
                assert(!taken(fields[n], es[n].value));
            }
        } else {
            assert(got is Err);
        }
    }
}

/// The claims of an array are its elements in the order of the fields. There are
/// claims if and only if there is one element for each field, and each field takes
/// its value.
pub proof fn law_claims_in_order(
    before: Seq<u8>,
    es: Seq<ElementText>,
    last: Seq<u8>,
    after: Seq<u8>,
    fields: Seq<Field>,
)
    requires
        json_fault(array_text(before, es, last, after)) is None,
        all_blank(before),
        all_blank(last),
        all_blank(after),
        well_placed(es, last + (seq![93u8] + after)),
        es.len() > 0,
        fields.len() > 0,
    ensures
        ({
            let got = claims_of(array_text(before, es, last, after), fields);
            &&& got is Ok <==> es.len() == fields.len() && all_taken(es, fields, 0)
            &&& got is Ok ==> got->Ok_0.len() == fields.len() && in_order(
                es,
                fields,
                0,
                got->Ok_0,
            )
        }),
{
    let inner = elements_text(es, true, last + (seq![93u8] + after));
    lemma_skip_blank_front(before, seq![91u8] + inner);
    assert((seq![91u8] + inner).drop_first() =~= inner);
    assert(es.skip(0) =~= es);
    lemma_array_claims(es, last, after, fields, Seq::empty());
    let got = claims_of(array_text(before, es, last, after), fields);
    assert(got == array_claims(inner, fields, Seq::empty()));
}

/// Whether `v` is the value of the one member with the name, or there is no such
/// member and no value.
pub open spec fn sole_value(ms: Seq<MemberText>, name: Seq<char>, v: Option<JsonView>) -> bool {
    match v {
        None => !has_member(ms, name),
        Some(x) => exists|i: int|
            {
                &&& 0 <= i < ms.len()
                &&& (#[trigger] ms[i]).name == name
                &&& json_value(ms[i].value) == Ok::<JsonView, Seq<char>>(x)
                &&& json_value(seq![91u8] + ms[i].value + seq![93u8]) is Ok
                &&& forall|j: int| 0 <= j < ms.len() && j != i ==> (#[trigger] ms[j]).name != name
            },
    }
}

/// Whether a field takes the value: a required one a string, an optional one a
/// string, `null` or nothing, one that takes anything whatever there is.
pub open spec fn suits(field: Field, v: Option<JsonView>) -> bool {
    match v {
        None => !(field.kind is Required),
        Some(x) => x.kind is Text || field.kind is Any || (x.kind is Null
            && field.kind is Optional),
    }
}

/// An object whose members name each field at most once, with values that the
/// fields take, gives these values as its claims, in whatever order the members
/// stand and whatever other members stand before, between or behind them.
pub proof fn law_claims_are_named_values(
    before: Seq<u8>,
    ms: Seq<MemberText>,
    last: Seq<u8>,
    after: Seq<u8>,
    fields: Seq<Field>,
    values: ClaimsView,
)
    requires
        json_fault(object_text(before, ms, last, after)) is None,
        all_blank(before),
        all_blank(last),
        all_blank(after),
        well_spelled(ms, last + (seq![125u8] + after)),
        distinct_fields(fields),
        values.len() == fields.len(),
        forall|k: int|
            0 <= k < fields.len() ==> sole_value(ms, (#[trigger] fields[k]).name@, values[k])
                && suits(fields[k], values[k]),
    ensures
        claims_of(object_text(before, ms, last, after), fields) == Ok::<ClaimsView, Seq<char>>(
            values,
        ),
{
    law_claims_by_name(before, ms, last, after, fields);
    assert forall|i: int, k: int|
        0 <= i < ms.len() && 0 <= k < fields.len() && (#[trigger] ms[i]).name == (
        #[trigger] fields[k]).name@ implies values[k] is Some && takes(
        fields[k],
        ms[i].value,
        values[k]->Some_0,
    ) && forall|j: int| 0 <= j < ms.len() && j != i ==> (#[trigger] ms[j]).name
        != fields[k].name@ by {
        assert(sole_value(ms, fields[k].name@, values[k]));
        if values[k] is None {
            assert(has_member(ms, fields[k].name@));
        } else {
            let x = values[k]->Some_0;
            let m = choose|m: int|
                {
                    &&& 0 <= m < ms.len()
                    &&& (#[trigger] ms[m]).name == fields[k].name@
                    &&& json_value(ms[m].value) == Ok::<JsonView, Seq<char>>(x)
                    &&& json_value(seq![91u8] + ms[m].value + seq![93u8]) is Ok
                    &&& forall|j: int|
                        0 <= j < ms.len() && j != m ==> (#[trigger] ms[j]).name != fields[k].name@
                };
            assert(i == m);
        }
    }
    let got = claims_of(object_text(before, ms, last, after), fields);
    assert(each_once(ms, fields));
    assert forall|k: int|
        0 <= k < fields.len() && (#[trigger] fields[k]).kind is Required implies has_member(
        ms,
        fields[k].name@,
    ) by {
        assert(sole_value(ms, fields[k].name@, values[k]));
    }
    assert(got is Ok);
    let claims = got->Ok_0;
    assert forall|k: int| 0 <= k < fields.len() implies claims[k] == values[k] by {
        let name = fields[k].name@;
        assert(sole_value(ms, name, values[k]));
        if has_member(ms, name) {
            let i = choose|i: int| 0 <= i < ms.len() && (#[trigger] ms[i]).name == name;
            assert(ms[i].name == fields[k].name@);
            assert(takes(fields[k], ms[i].value, claims[k]->Some_0));
            assert(takes(fields[k], ms[i].value, values[k]->Some_0));
        }
    }
    assert(claims =~= values);
}

/// Text that is no JSON text gives no claims, and the fault is that of the text; and
/// neither does a text that is neither an object nor an array.
pub proof fn law_no_claims(bytes: Seq<u8>, fields: Seq<Field>)
    ensures
        json_fault(bytes) matches Some(fault) ==> claims_of(bytes, fields) == Err::<
            ClaimsView,
            Seq<char>,
        >(fault),
        skip_blank(bytes).len() == 0 || (skip_blank(bytes)[0] != 123 && skip_blank(bytes)[0] != 91)
            ==> claims_of(bytes, fields) is Err,
{
}

proof fn lemma_first_missing(fields: Seq<Field>, claims: ClaimsView, k: int)
    requires
        fields.len() == claims.len(),
        0 <= k < fields.len(),
        fields[k].kind is Required,
        claims[k] is None,
        forall|j: int|
            0 <= j < k && (#[trigger] fields[j]).kind is Required ==> claims[j] is Some,
    ensures
        missing_field(fields, claims) == k,
    decreases k,
{
    if k > 0 {
        let rest = fields.drop_first();
        let behind = claims.drop_first();
        assert(fields[0].kind is Required ==> claims[0] is Some);
        assert forall|j: int|
            0 <= j < k - 1 && (#[trigger] rest[j]).kind is Required implies behind[j] is Some by {
            assert(fields[j + 1].kind is Required);
        }
        lemma_first_missing(rest, behind, k - 1);
    }
}

/// Where nothing but a required field is missing, the fault names the first one that
/// is.
pub proof fn law_missing_field_named(
    before: Seq<u8>,
    ms: Seq<MemberText>,
    last: Seq<u8>,
    after: Seq<u8>,
    fields: Seq<Field>,
    k: int,
)
    requires
        json_fault(object_text(before, ms, last, after)) is None,
        all_blank(before),
        all_blank(last),
        all_blank(after),
        well_spelled(ms, last + (seq![125u8] + after)),
        distinct_fields(fields),
        each_once(ms, fields),
        forall|i: int, j: int|
            0 <= i < ms.len() && 0 <= j < fields.len() && (#[trigger] ms[i]).name == (
            #[trigger] fields[j]).name@ ==> taken(fields[j], ms[i].value),
        0 <= k < fields.len(),
        fields[k].kind is Required,
        !has_member(ms, fields[k].name@),
        forall|j: int|
            0 <= j < k && (#[trigger] fields[j]).kind is Required ==> has_member(
                ms,
                fields[j].name@,
            ),
    ensures
        claims_of(object_text(before, ms, last, after), fields) == Err::<ClaimsView, Seq<char>>(
            "missing field `"@ + fields[k].name@ + "`"@,
        ),
{
    let none = Seq::new(fields.len(), |i: int| None::<JsonView>);
    let end = last + (seq![125u8] + after);
    let inner = members_text(ms, true, end);
    lemma_skip_blank_front(before, seq![123u8] + inner);
    assert((seq![123u8] + inner).drop_first() =~= inner);
    lemma_object_claims(ms, true, last, after, fields, none);
    let got = object_claims(inner, true, fields, none);
    assert forall|i: int, j: int|
        0 <= i < ms.len() && 0 <= j < fields.len() && (#[trigger] ms[i]).name == (
        #[trigger] fields[j]).name@ implies none[j] is None && exists|v: JsonView|
        takes(fields[j], ms[i].value, v) by {
        assert(taken(fields[j], ms[i].value));
    }
    assert(fillable(ms, fields, none));
    let claims = got->Ok_0;
    assert(claims[k] is None) by {
        assert(none[k] is None);
        if claims[k] is Some {
            assert(has_member(ms, fields[k].name@));
        }
    }
    assert forall|j: int|
        0 <= j < k && (#[trigger] fields[j]).kind is Required implies claims[j] is Some by {
        let i = choose|i: int| 0 <= i < ms.len() && (#[trigger] ms[i]).name == fields[j].name@;
        assert(ms[i].name == fields[j].name@);
    }
    lemma_first_missing(fields, claims, k);
}

} // verus!
