//! The JSON that logs are kept in. Strings are quoted and documents are read by `serde_json`.

use crate::text::{lemma_char_code, numeral_of};
use serde_json::Value;
use vstd::prelude::*;

verus! {

/// A hexadecimal digit.
pub open spec fn hex_char(value: int) -> char {
    if value < 10 {
        ('0' as u32 + value) as char
    } else {
        ('a' as u32 + value - 10) as char
    }
}

/// A character as it stands in a JSON string.
pub open spec fn escaped(c: char) -> Seq<char> {
    if c == '"' {
        seq!['\\', '"']
    } else if c == '\\' {
        seq!['\\', '\\']
    } else if c as int == 0x08 {
        seq!['\\', 'b']
    } else if c as int == 0x09 {
        seq!['\\', 't']
    } else if c as int == 0x0a {
        seq!['\\', 'n']
    } else if c as int == 0x0c {
        seq!['\\', 'f']
    } else if c as int == 0x0d {
        seq!['\\', 'r']
    } else if (c as int) < 0x20 {
        seq!['\\', 'u', '0', '0', hex_char(c as int / 16), hex_char(c as int % 16)]
    } else {
        seq![c]
    }
}

pub open spec fn all_escaped(s: Seq<char>) -> Seq<char>
    decreases s.len(),
{
    if s.len() == 0 {
        Seq::empty()
    } else {
        all_escaped(s.drop_last()) + escaped(s.last())
    }
}

/// A text as a JSON string.
pub open spec fn json_text(s: Seq<char>) -> Seq<char> {
    seq!['"'] + all_escaped(s) + seq!['"']
}

/// Calls [`serde_json::to_string`] on a text. It quotes the text, escapes quotes, backslashes
/// and control characters, and leaves all other characters as they are. It does not fail: it
/// writes to memory, and a text always has a JSON form.
#[verifier::external_body]
pub(crate) fn json_string(text: &str) -> (quoted: Result<String, String>)
    ensures
        quoted matches Ok(quoted) && quoted@ == json_text(text@),
{
    serde_json::to_string(text).map_err(|error| error.to_string())
}

/// A member of a JSON object, by its name: the JSON of its value.
pub open spec fn member_text(member: (Seq<char>, Seq<char>)) -> Seq<char> {
    json_text(member.0) + seq![':'] + member.1
}

pub open spec fn members_text(members: Seq<(Seq<char>, Seq<char>)>) -> Seq<char>
    decreases members.len(),
{
    if members.len() == 0 {
        Seq::empty()
    } else if members.len() == 1 {
        member_text(members[0])
    } else {
        members_text(members.drop_last()) + seq![','] + member_text(members.last())
    }
}

/// A JSON object with the given members, in order and without blanks.
pub open spec fn object_text(members: Seq<(Seq<char>, Seq<char>)>) -> Seq<char> {
    seq!['{'] + members_text(members) + seq!['}']
}

/// The value of a member of a JSON object, as far as logs have any use for it.
#[derive(Clone, Debug, PartialEq, Eq)]
pub enum JsonField {
    Null,
    Bool(bool),
    /// A number, if it is a `u64`.
    Number(Option<u64>),
    Text(String),
    Array,
    Object,
}

pub enum JsonFieldView {
    Null,
    Bool(bool),
    Number(Option<u64>),
    Text(Seq<char>),
    Array,
    Object,
}

impl View for JsonField {
    type V = JsonFieldView;

    open spec fn view(&self) -> JsonFieldView {
        match *self {
            JsonField::Null => JsonFieldView::Null,
            JsonField::Bool(value) => JsonFieldView::Bool(value),
            JsonField::Number(number) => JsonFieldView::Number(number),
            JsonField::Text(text) => JsonFieldView::Text(text@),
            JsonField::Array => JsonFieldView::Array,
            JsonField::Object => JsonFieldView::Object,
        }
    }
}

/// A member of a JSON object.
#[derive(Clone, Debug, PartialEq, Eq)]
pub struct JsonMember {
    pub name: String,
    pub value: JsonField,
}

pub type JsonFields = Map<Seq<char>, JsonFieldView>;

/// The values of members by name; where a name is given twice, the last one.
pub open spec fn fields_of(members: Seq<JsonMember>) -> JsonFields
    decreases members.len(),
{
    if members.len() == 0 {
        Map::empty()
    } else {
        fields_of(members.drop_last()).insert(members.last().name@, members.last().value@)
    }
}

/// Whether a value is a text or a number that is a `u64`.
pub open spec fn is_text_or_number(field: JsonFieldView) -> bool {
    field is Text || field matches JsonFieldView::Number(Some(_))
}

/// The JSON of a text or a number.
pub open spec fn field_text(field: JsonFieldView) -> Seq<char>
    recommends
        is_text_or_number(field),
{
    match field {
        JsonFieldView::Text(text) => json_text(text),
        JsonFieldView::Number(Some(number)) => numeral_of(number as nat),
        _ => Seq::empty(),
    }
}

/// A JSON object of texts and numbers.
pub open spec fn flat_object_text(fields: Seq<(Seq<char>, JsonFieldView)>) -> Seq<char> {
    object_text(
        fields.map_values(|field: (Seq<char>, JsonFieldView)| (field.0, field_text(field.1))),
    )
}

/// Whether no two members have one name, and each value is a text or a number.
pub open spec fn is_flat(fields: Seq<(Seq<char>, JsonFieldView)>) -> bool {
    &&& forall|i: int, j: int| 0 <= i < j < fields.len() ==> #[trigger] fields[i].0 != #[trigger]
        fields[j].0
    &&& forall|i: int| 0 <= i < fields.len() ==> is_text_or_number((#[trigger] fields[i]).1)
}

pub open spec fn flat_fields(fields: Seq<(Seq<char>, JsonFieldView)>) -> JsonFields
    decreases fields.len(),
{
    if fields.len() == 0 {
        Map::empty()
    } else {
        flat_fields(fields.drop_last()).insert(fields.last().0, fields.last().1)
    }
}

/// The members of the JSON object that a text is, if it is one.
pub uninterp spec fn json_object(text: Seq<char>) -> Option<JsonFields>;

pub open spec fn found_fields(members: Option<Vec<JsonMember>>) -> Option<JsonFields> {
    match members {
        Some(members) => Some(fields_of(members@)),
        None => None,
    }
}

/// Whether `found` is what was written, if the text is an object of texts and numbers without
/// blanks.
pub open spec fn reads_back(text: Seq<char>, found: Option<JsonFields>) -> bool {
    forall|fields: Seq<(Seq<char>, JsonFieldView)>|
        is_flat(fields) && text == #[trigger] flat_object_text(fields) ==> found == Some(
            flat_fields(fields),
        )
}

/// Calls [`serde_json::from_str`] for a [`Value`]. Whether the text is JSON, whether it is an
/// object, and what members it has, depends on the text alone. An object of texts and numbers
/// that was written without blanks is read back as it is.
#[verifier::external_body]
pub(crate) fn parse_json_object(text: &str) -> (members: Option<Vec<JsonMember>>)
    ensures
        found_fields(members) == json_object(text@),
        reads_back(text@, found_fields(members)),
{
    let field = |value: &Value| match value {
        Value::Null => JsonField::Null,
        Value::Bool(value) => JsonField::Bool(*value),
        Value::Number(number) => JsonField::Number(number.as_u64()),
        Value::String(text) => JsonField::Text(text.clone()),
        Value::Array(_) => JsonField::Array,
        Value::Object(_) => JsonField::Object,
    };
    let parsed: Value = serde_json::from_str(text).ok()?;
    let member = |(name, value): (&String, &Value)| JsonMember {
        name: name.clone(),
        value: field(value),
    };
    Some(parsed.as_object()?.iter().map(member).collect())
}

/// The names and the JSON of the values of members.
pub open spec fn raw_views(members: Seq<(String, String)>) -> Seq<(Seq<char>, Seq<char>)> {
    members.map_values(|member: (String, String)| (member.0@, member.1@))
}

/// Writes a text as a JSON string.
pub fn quote(text: &str) -> (quoted: String)
    ensures
        quoted@ == json_text(text@),
{
    match json_string(text) {
        Ok(quoted) => quoted,
        Err(words) => words,
    }
}

/// Writes an object, given the JSON of its members' values.
pub fn write_object(members: &Vec<(String, String)>) -> (text: String)
    ensures
        text@ == object_text(raw_views(members@)),
{
    let ghost all = raw_views(members@);
    proof {
        reveal_strlit("{");
        reveal_strlit("}");
        reveal_strlit(",");
        reveal_strlit(":");
        assert("{"@ =~= seq!['{']);
        assert("}"@ =~= seq!['}']);
        assert(","@ =~= seq![',']);
        assert(":"@ =~= seq![':']);
    }
    let mut text = "{".to_owned();
    let mut i: usize = 0;
    assert(text@ =~= seq!['{'] + members_text(all.take(0)));
    while i < members.len()
        invariant
            i <= members@.len(),
            all == raw_views(members@),
            ","@ == seq![','],
            ":"@ == seq![':'],
            text@ == seq!['{'] + members_text(all.take(i as int)),
        decreases members@.len() - i,
    {
        let ghost before = members_text(all.take(i as int));
        proof {
            assert(all.take(i + 1).drop_last() =~= all.take(i as int));
            assert(all.take(i + 1).last() == (members@[i as int].0@, members@[i as int].1@));
        }
        if i > 0 {
            text.append(",");
        }
        let name = quote(members[i].0.as_str());
        text.append(name.as_str());
        text.append(":");
        text.append(members[i].1.as_str());
        assert(text@ =~= seq!['{'] + members_text(all.take(i + 1)));
        i = i + 1;
    }
    text.append("}");
    assert(all.take(i as int) =~= all);
    text
}

/// Whether a text has no control characters, and so no line breaks.
pub open spec fn is_printable(s: Seq<char>) -> bool {
    forall|i: int| 0 <= i < s.len() ==> (#[trigger] s[i]) as int >= 0x20
}

proof fn lemma_escape_is_printable(c: char)
    ensures
        is_printable(escaped(c)),
{
    lemma_char_code(c);
    if (c as int) < 0x20 {
        let high = c as int / 16;
        let low = c as int % 16;
        assert(0 <= high < 2 && 0 <= low < 16);
        assert(hex_char(high) as int >= 48);
        assert(hex_char(low) as int >= 48);
    }
}

proof fn lemma_escapes_are_printable(s: Seq<char>)
    ensures
        is_printable(all_escaped(s)),
    decreases s.len(),
{
    if s.len() > 0 {
        lemma_escapes_are_printable(s.drop_last());
        lemma_escape_is_printable(s.last());
    }
}

/// A JSON string has no control characters.
pub proof fn lemma_json_text_is_printable(s: Seq<char>)
    ensures
        is_printable(json_text(s)),
{
    lemma_escapes_are_printable(s);
}

proof fn lemma_members_are_printable(members: Seq<(Seq<char>, Seq<char>)>)
    requires
        forall|i: int| 0 <= i < members.len() ==> is_printable((#[trigger] members[i]).1),
    ensures
        is_printable(members_text(members)),
    decreases members.len(),
{
    if members.len() > 0 {
        assert(members.last() == members[members.len() - 1]);
        lemma_json_text_is_printable(members.last().0);
        if members.len() > 1 {
            lemma_members_are_printable(members.drop_last());
        }
    }
}

/// An object has no control characters if the values of its members have none.
pub proof fn lemma_object_is_printable(members: Seq<(Seq<char>, Seq<char>)>)
    requires
        forall|i: int| 0 <= i < members.len() ==> is_printable((#[trigger] members[i]).1),
    ensures
        is_printable(object_text(members)),
{
    lemma_members_are_printable(members);
}

} // verus!
