//! JSON objects, as `serde_json` keeps, reads and writes them.
use vstd::prelude::*;

use crate::text::{
    decimal, decimal_text, is_digit, is_white_space, law_appended_text_adds_its_lines,
    law_appended_text_extends_an_open_line, lemma_split_whole, lines, split, trim, trim_end_by,
    trim_start,
};
use crate::u256::{law_decimal_reads_back, parsed_u256};

verus! {

/// The type `Map` of `serde_json`, of which nothing is known but what the functions
/// below say.
#[verifier::external_type_specification]
#[verifier::external_body]
#[verifier::reject_recursive_types(K)]
#[verifier::reject_recursive_types(V)]
pub struct ExJsonMap<K, V>(serde_json::Map<K, V>);

/// The type `Value` of `serde_json`, of which nothing is known.
#[verifier::external_type_specification]
#[verifier::external_body]
pub struct ExJsonValue(serde_json::Value);

/// A JSON object.
pub type JsonObject = serde_json::Map<String, serde_json::Value>;

/// The value of a member of a JSON object. A number that is no unsigned 64-bit
/// integer, an array or an object is kept by its JSON text.
pub enum JsonValue {
    Null,
    Bool(bool),
    Unsigned(u64),
    Text(Seq<char>),
    Other(Seq<char>),
}

/// A value that a record can be given.
#[derive(Debug, PartialEq, Eq)]
pub enum JsonScalar {
    Null,
    Bool(bool),
    Unsigned(u64),
    Text(String),
}

/// A value that was read from a record.
#[derive(Debug, PartialEq, Eq)]
pub enum JsonMember {
    Scalar(JsonScalar),
    Other(String),
}

impl View for JsonScalar {
    type V = JsonValue;

    open spec fn view(&self) -> JsonValue {
        match self {
            JsonScalar::Null => JsonValue::Null,
            JsonScalar::Bool(value) => JsonValue::Bool(*value),
            JsonScalar::Unsigned(value) => JsonValue::Unsigned(*value),
            JsonScalar::Text(text) => JsonValue::Text(text@),
        }
    }
}

impl View for JsonMember {
    type V = JsonValue;

    open spec fn view(&self) -> JsonValue {
        match self {
            JsonMember::Scalar(scalar) => scalar@,
            JsonMember::Other(text) => JsonValue::Other(text@),
        }
    }
}

/// The members of a JSON object by their names.
pub type Members = Map<Seq<char>, JsonValue>;

/// The object without members.
pub open spec fn no_members() -> Members {
    Map::empty()
}

/// None of the members is kept by its JSON text.
pub open spec fn all_scalars(members: Members) -> bool {
    forall|name: Seq<char>|
        members.contains_key(name) ==> !(#[trigger] members[name] is Other)
}

/// How far a JSON text was looked through: whether the place is in a string and behind
/// a backslash there, how many brackets are open and how many were at most, and
/// whether a number with a fraction or an exponent was met.
pub struct JsonScan {
    pub in_string: bool,
    pub escaped: bool,
    pub depth: int,
    pub deepest: int,
    pub float: bool,
}

/// What is found in a JSON text. Outside strings a point stands only in a number, and
/// so does an `e` behind a digit.
pub open spec fn scanned(text: Seq<char>) -> JsonScan
    decreases text.len(),
{
    if text.len() == 0 {
        JsonScan { in_string: false, escaped: false, depth: 0, deepest: 0, float: false }
    } else {
        let before = scanned(text.drop_last());
        let c = text.last();
        if before.in_string {
            JsonScan {
                in_string: before.escaped || c != '"',
                escaped: !before.escaped && c == '\\',
                ..before
            }
        } else if c == '"' {
            JsonScan { in_string: true, ..before }
        } else if c == '[' || c == '{' {
            JsonScan {
                depth: before.depth + 1,
                deepest: if before.depth + 1 > before.deepest {
                    before.depth + 1
                } else {
                    before.deepest
                },
                ..before
            }
        } else if c == ']' || c == '}' {
            JsonScan { depth: before.depth - 1, ..before }
        } else if c == '.' || ((c == 'e' || c == 'E') && text.len() > 1 && is_digit(
            text[text.len() - 2],
        )) {
            JsonScan { float: true, ..before }
        } else {
            before
        }
    }
}

/// The JSON text of a member holds no number with a fraction or an exponent, and its
/// arrays and objects stand within each other no deeper than can be read inside a record.
pub open spec fn exact_text(text: Seq<char>) -> bool {
    !scanned(text).float && scanned(text).deepest <= 126
}

/// Every member that is kept by its JSON text is read back from that text as it is.
pub open spec fn all_exact(members: Members) -> bool {
    forall|name: Seq<char>|
        members.contains_key(name) ==> (#[trigger] members[name] matches JsonValue::Other(text)
            ==> exact_text(text))
}

/// A record of scalars holds nothing that is not read back.
pub proof fn law_scalars_are_exact(members: Members)
    requires
        all_scalars(members),
    ensures
        all_exact(members),
{
}

/// A text that was read as an object with these members.
pub open spec fn read(members: Members) -> Result<Option<Members>, Seq<char>> {
    Ok(Some(members))
}

/// A text that was read as something else than an object.
pub open spec fn no_object() -> Result<Option<Members>, Seq<char>> {
    Ok(None)
}

/// A text that was refused with this error.
pub open spec fn refused(error: Seq<char>) -> Result<Option<Members>, Seq<char>> {
    Err(error)
}

/// What a JSON object holds.
pub uninterp spec fn object_members(object: serde_json::Map<String, serde_json::Value>) -> Map<Seq<char>, JsonValue>;

/// `Map::new` of `serde_json`: an object without members.
#[verifier::external_body]
pub(crate) fn empty_object() -> (object: JsonObject)
    ensures
        object_members(object) == no_members(),
{
    serde_json::Map::new()
}

/// `Map::insert` of `serde_json`: the member of that name has the value, and the
/// other members are as before.
#[verifier::external_body]
pub(crate) fn insert_member(object: &mut JsonObject, name: &str, value: JsonScalar)
    ensures
        object_members(*final(object)) == object_members(*old(object)).insert(name@, value@),
{
    let value = match value {
        JsonScalar::Null => serde_json::Value::Null,
        JsonScalar::Bool(value) => serde_json::Value::from(value),
        JsonScalar::Unsigned(value) => serde_json::Value::from(value),
        JsonScalar::Text(text) => serde_json::Value::from(text),
    };
    object.insert(name.to_owned(), value);
}

/// `Map::append` of `serde_json`: every member of `extra` joins the object, in
/// place of a member of the same name.
#[verifier::external_body]
pub(crate) fn append_members(object: &mut JsonObject, extra: JsonObject)
    ensures
        object_members(*final(object)) == object_members(*old(object)).union_prefer_right(object_members(extra)),
{
    let mut extra = extra;
    object.append(&mut extra);
}

/// `Map::get` of `serde_json`: the member of that name, if there is one. A number
/// is unsigned where `Number::as_u64` has it so; what is no scalar comes as its
/// JSON text.
#[verifier::external_body]
pub(crate) fn member(object: &JsonObject, name: &str) -> (found: Option<JsonMember>)
    ensures
        match found {
            Some(value) => object_members(*object).contains_key(name@) && object_members(*object)[name@] == value@,
            None => !object_members(*object).contains_key(name@),
        },
{
    let value = object.get(name)?;
    Some(match (value, value.as_u64()) {
        (serde_json::Value::Null, _) => JsonMember::Scalar(JsonScalar::Null),
        (serde_json::Value::Bool(value), _) => JsonMember::Scalar(JsonScalar::Bool(*value)),
        (serde_json::Value::String(text), _) => JsonMember::Scalar(JsonScalar::Text(text.clone())),
        (_, Some(value)) => JsonMember::Scalar(JsonScalar::Unsigned(value)),
        (other, None) => JsonMember::Other(other.to_string()),
    })
}

/// What `serde_json::from_str` makes of a text: the members of the object, `None`
/// where the value is no object, or the text of the error.
pub uninterp spec fn parsed_members(text: Seq<char>) -> Result<Option<Map<Seq<char>, JsonValue>>, Seq<char>>;

/// `serde_json::from_str`, into any JSON value: an object, `None` for any other value,
/// or an error. The members, and the text of the error, are named by the text.
#[verifier::external_body]
pub(crate) fn parse_object(text: &str) -> (parsed: Result<Option<JsonObject>, String>)
    ensures
        match parsed {
            Ok(Some(object)) => parsed_members(text@) == read(object_members(object)),
            Ok(None) => parsed_members(text@) == no_object(),
            Err(error) => parsed_members(text@) == refused(error@),
        },
{
    match serde_json::from_str::<serde_json::Value>(text) {
        Ok(serde_json::Value::Object(object)) => Ok(Some(object)),
        Ok(_) => Ok(None),
        Err(error) => Err(error.to_string()),
    }
}

/// The compact text that `serde_json::to_string` writes for an object with these members.
pub uninterp spec fn members_text(members: Map<Seq<char>, JsonValue>) -> Seq<char>;

/// `serde_json::to_string`: the compact text of the object, named by the members.
/// The text begins with a brace and holds no line break, and `serde_json::from_str`
/// reads the members back from it where none of them holds a number with a fraction
/// or an exponent and none is nested deeper than the reader goes, which counts to
/// 128 with the record itself and stops there. Of a number with a fraction or an
/// exponent nothing is said: the reader may round it to a neighbour.
#[verifier::external_body]
fn object_text(object: &JsonObject) -> (text: String)
    ensures
        text@ == members_text(object_members(*object)),
        text@.len() > 0 && text@[0] == '{',
        forall|i: int| 0 <= i < text@.len() ==> #[trigger] text@[i] != '\n' && text@[i] != '\r',
        all_exact(object_members(*object)) ==> parsed_members(text@) == read(object_members(*object)),
{
    serde_json::to_string(object).expect("an object with string keys has a JSON text")
}

/// A text as a JSON string, in quotation marks and with its escapes.
pub uninterp spec fn quoted(text: Seq<char>) -> Seq<char>;

/// The `Display` of `serde_json::Value` on a string: the JSON string, named by the text.
#[verifier::external_body]
fn quote(text: &str) -> (json: String)
    ensures
        json@ == quoted(text@),
{
    serde_json::Value::from(text).to_string()
}

/// The line of a log that holds a record. It is one line, and the record is read
/// back from it where its members are scalars or hold no number with a fraction or
/// an exponent.
pub fn jsonl_line(record: &JsonObject) -> (line: String)
    ensures
        line@ == members_text(object_members(*record)).push('\n'),
        lines(line@) == seq![members_text(object_members(*record))],
        trim(members_text(object_members(*record))).len() > 0,
        all_exact(object_members(*record)) ==> parsed_members(
            members_text(object_members(*record)),
        ) == read(object_members(*record)),
{
    let mut line = object_text(record);
    let ghost text = line@;
    line.push('\n');
    proof {
        lemma_one_line(text);
        lemma_trim_keeps(text);
    }
    line
}

/// A text without line breaks, ended by a line feed, is one line.
proof fn lemma_one_line(text: Seq<char>)
    requires
        text.len() > 0,
        forall|i: int| 0 <= i < text.len() ==> #[trigger] text[i] != '\n' && text[i] != '\r',
    ensures
        lines(text.push('\n')) == seq![text],
{
    let ended = text.push('\n');
    let empty = Seq::<char>::empty();
    assert(ended.drop_last() =~= text);
    lemma_split_whole(text, '\n');
    let parts = split(ended, '\n');
    assert(parts =~= seq![text, empty]);
    assert(parts.drop_last() =~= seq![text]);
    assert(lines(ended) =~= seq![text]);
}

/// A record that is appended to a log adds one line, that of the record, and keeps the
/// lines that were there.
pub proof fn law_appending_adds_one_line(before: Seq<char>, record: Seq<char>)
    requires
        before.len() == 0 || before.last() == '\n',
        lines(record.push('\n')) == seq![record],
    ensures
        lines(before + record.push('\n')) == lines(before).push(record),
{
    law_appended_text_adds_its_lines(before, record.push('\n'));
    assert(lines(before) + seq![record] =~= lines(before).push(record));
}

/// A record that is appended to a log whose last line has no end yet stands behind
/// what that line holds, and keeps the other lines: it is then no line of its own.
pub proof fn law_appending_extends_an_open_line(before: Seq<char>, record: Seq<char>)
    requires
        before.len() > 0,
        before.last() != '\n',
        record.len() > 0,
        lines(record.push('\n')) == seq![record],
    ensures
        lines(before + record.push('\n')) == lines(before).drop_last().push(
            lines(before).last() + record,
        ),
{
    law_appended_text_extends_an_open_line(before, record);
}

/// A text that begins with a brace is not blank.
proof fn lemma_trim_keeps(text: Seq<char>)
    requires
        text.len() > 0,
        text[0] == '{',
    ensures
        trim(text).len() > 0,
    decreases text.len(),
{
    let drop = |c: char| is_white_space(c);
    assert(trim_start(text) == text);
    if is_white_space(text.last()) {
        assert(text.len() > 1);
        assert(text.drop_last()[0] == '{');
        lemma_trim_keeps(text.drop_last());
        assert(trim_end_by(text, drop) == trim_end_by(text.drop_last(), drop));
    }
}

/// The indented text that `serde_json::to_string_pretty` writes for an object with
/// these members.
pub uninterp spec fn pretty_members_text(members: Map<Seq<char>, JsonValue>) -> Seq<char>;

/// `serde_json::to_string_pretty`: the indented text of the object, named by the
/// members.
#[verifier::external_body]
fn pretty_object_text(object: &JsonObject) -> (text: String)
    ensures
        text@ == pretty_members_text(object_members(*object)),
{
    serde_json::to_string_pretty(object).expect("an object with string keys has a JSON text")
}

/// A record as it is printed for a reader.
pub fn pretty_text(record: &JsonObject) -> (text: String)
    ensures
        text@ == pretty_members_text(object_members(*record)),
{
    pretty_object_text(record)
}

/// An optional number as a member.
pub open spec fn optional_number(n: Option<u64>) -> JsonValue {
    match n {
        Some(n) => JsonValue::Unsigned(n),
        None => JsonValue::Null,
    }
}

/// Gives a record a text.
pub(crate) fn put_text(record: &mut JsonObject, name: &str, text: String)
    ensures
        object_members(*final(record)) == object_members(*old(record)).insert(
            name@,
            JsonValue::Text(text@),
        ),
{
    insert_member(record, name, JsonScalar::Text(text));
}

/// Gives a record a number.
pub(crate) fn put_number(record: &mut JsonObject, name: &str, n: u64)
    ensures
        object_members(*final(record)) == object_members(*old(record)).insert(
            name@,
            JsonValue::Unsigned(n),
        ),
{
    insert_member(record, name, JsonScalar::Unsigned(n));
}

/// Gives a record a number, or null in its place.
pub(crate) fn put_optional_number(record: &mut JsonObject, name: &str, n: Option<u64>)
    ensures
        object_members(*final(record)) == object_members(*old(record)).insert(
            name@,
            optional_number(n),
        ),
{
    match n {
        Some(n) => insert_member(record, name, JsonScalar::Unsigned(n)),
        None => insert_member(record, name, JsonScalar::Null),
    }
}

/// Gives a record a truth value.
pub(crate) fn put_bool(record: &mut JsonObject, name: &str, value: bool)
    ensures
        object_members(*final(record)) == object_members(*old(record)).insert(
            name@,
            JsonValue::Bool(value),
        ),
{
    insert_member(record, name, JsonScalar::Bool(value));
}

/// The JSON text of a member.
pub open spec fn value_text(value: JsonValue) -> Seq<char> {
    match value {
        JsonValue::Null => "null"@,
        JsonValue::Bool(true) => "true"@,
        JsonValue::Bool(false) => "false"@,
        JsonValue::Unsigned(n) => decimal(n as nat),
        JsonValue::Text(text) => quoted(text),
        JsonValue::Other(text) => text,
    }
}

/// Null, the truth values and numbers have different JSON texts.
pub proof fn law_scalars_have_different_texts(m: u64, n: u64)
    ensures
        value_text(JsonValue::Null) == seq!['n', 'u', 'l', 'l'],
        value_text(JsonValue::Bool(true)) == seq!['t', 'r', 'u', 'e'],
        value_text(JsonValue::Bool(false)) == seq!['f', 'a', 'l', 's', 'e'],
        value_text(JsonValue::Unsigned(m)) == value_text(JsonValue::Unsigned(n)) ==> m == n,
        parsed_u256(value_text(JsonValue::Unsigned(n))) == Some(n as nat),
{
    reveal_strlit("null");
    reveal_strlit("true");
    reveal_strlit("false");
    assert("null"@ =~= seq!['n', 'u', 'l', 'l']);
    assert("true"@ =~= seq!['t', 'r', 'u', 'e']);
    assert("false"@ =~= seq!['f', 'a', 'l', 's', 'e']);
    law_decimal_reads_back(m as nat);
    law_decimal_reads_back(n as nat);
}

/// The JSON text of a member.
pub fn member_text(value: &JsonMember) -> (text: String)
    ensures
        text@ == value_text(value@),
{
    match value {
        JsonMember::Scalar(JsonScalar::Null) => "null".to_owned(),
        JsonMember::Scalar(JsonScalar::Bool(true)) => "true".to_owned(),
        JsonMember::Scalar(JsonScalar::Bool(false)) => "false".to_owned(),
        JsonMember::Scalar(JsonScalar::Unsigned(n)) => decimal_text(*n),
        JsonMember::Scalar(JsonScalar::Text(text)) => quote(text.as_str()),
        JsonMember::Other(text) => text.clone(),
    }
}

/// The text of the member of that name, where it is a string.
pub open spec fn text_member(members: Members, name: Seq<char>) -> Option<Seq<char>> {
    if members.contains_key(name) {
        match members[name] {
            JsonValue::Text(text) => Some(text),
            _ => None,
        }
    } else {
        None
    }
}

/// The text of the member of that name, where it is a string.
pub fn get_text(object: &JsonObject, name: &str) -> (found: Option<String>)
    ensures
        found is Some == text_member(object_members(*object), name@) is Some,
        found matches Some(text) ==> text_member(object_members(*object), name@) == Some(text@),
{
    match member(object, name) {
        Some(JsonMember::Scalar(JsonScalar::Text(text))) => Some(text),
        _ => None,
    }
}

/// The member of that name is a text that reads as the number.
pub open spec fn states(members: Members, name: Seq<char>, n: nat) -> bool {
    text_member(members, name) matches Some(text) && parsed_u256(text) == Some(n)
}

/// The number of the member of that name, where it is an unsigned 64-bit integer.
pub open spec fn unsigned_member(members: Members, name: Seq<char>) -> Option<u64> {
    if members.contains_key(name) {
        match members[name] {
            JsonValue::Unsigned(n) => Some(n),
            _ => None,
        }
    } else {
        None
    }
}

/// The number of the member of that name, where it is an unsigned 64-bit integer.
pub fn get_unsigned(object: &JsonObject, name: &str) -> (found: Option<u64>)
    ensures
        found == unsigned_member(object_members(*object), name@),
{
    match member(object, name) {
        Some(JsonMember::Scalar(JsonScalar::Unsigned(n))) => Some(n),
        _ => None,
    }
}

} // verus!
