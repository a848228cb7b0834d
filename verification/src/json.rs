//! JSON texts: quoting of strings, and the little that is read out of a document.
use vstd::prelude::*;
use vstd::string::*;

verus! {

/// The lower-case hexadecimal digit that writes `d`.
pub open spec fn lower_hex_char(d: int) -> char {
    if d < 10 {
        (48 + d) as char
    } else {
        (87 + d) as char
    }
}

/// One character inside a JSON string.
pub open spec fn json_escape(c: char) -> Seq<char> {
    if c == '"' {
        seq!['\\', '"']
    } else if c == '\\' {
        seq!['\\', '\\']
    } else if c == '\u{8}' {
        seq!['\\', 'b']
    } else if c == '\u{9}' {
        seq!['\\', 't']
    } else if c == '\u{a}' {
        seq!['\\', 'n']
    } else if c == '\u{c}' {
        seq!['\\', 'f']
    } else if c == '\u{d}' {
        seq!['\\', 'r']
    } else if (c as int) <= 31 {
        seq!['\\', 'u', '0', '0', lower_hex_char(c as int / 16), lower_hex_char(c as int % 16)]
    } else {
        seq![c]
    }
}

/// The characters of `s` as they stand inside a JSON string.
pub open spec fn json_escaped(s: Seq<char>) -> Seq<char>
    decreases s.len(),
{
    if s.len() == 0 {
        Seq::empty()
    } else {
        json_escaped(s.drop_last()) + json_escape(s.last())
    }
}

/// `s` as a JSON string.
pub open spec fn json_quoted(s: Seq<char>) -> Seq<char> {
    seq!['"'] + json_escaped(s) + seq!['"']
}

/// `serde_json::Value::from` and its `Display`: a text becomes a JSON string between double
/// quotes. `"` and `\` get a backslash, backspace, tab, line feed, form feed and carriage
/// return their letter, every other control character four hexadecimal digits; all else
/// stands as it is.
#[verifier::external_body]
pub(crate) fn json_string(s: &str) -> (r: String)
    ensures
        r@ == json_quoted(s@),
{
    serde_json::Value::from(s).to_string()
}

/// The members of an object, each value as `value_of` gives it.
pub open spec fn members_text(
    members: Seq<(Seq<char>, Seq<char>)>,
    value_of: spec_fn(Seq<char>, Seq<char>) -> Seq<char>,
) -> Seq<char>
    decreases members.len(),
{
    if members.len() == 0 {
        Seq::empty()
    } else {
        let (name, value) = members.last();
        members_text(members.drop_last(), value_of) + (if members.len() > 1 {
            seq![',']
        } else {
            Seq::empty()
        }) + json_quoted(name) + seq![':'] + value_of(name, value)
    }
}

/// The text of the one JSON value that `serde_json` finds in a body, or its error as text.
pub uninterp spec fn json_document(body: Seq<u8>) -> Result<Seq<char>, Seq<char>>;

/// `serde_json::from_slice` into a raw value: the text of the value without the white space
/// around it, or the error as text, under the name `json_document`. The call depends on the
/// body alone and does not panic.
#[verifier::external_body]
pub(crate) fn document_text<'a>(body: &'a [u8]) -> (r: Result<&'a str, String>)
    ensures
        match json_document(body@) {
            Ok(t) => r matches Ok(s) && s@ == t,
            Err(e) => r matches Err(s) && s@ == e,
        },
{
    match serde_json::from_slice::<&'a serde_json::value::RawValue>(body) {
        Ok(value) => Ok(value.get()),
        Err(error) => Err(error.to_string()),
    }
}

/// The members of a JSON object as `serde_json` reads them: each name with the text of its
/// value. `None` where the text is no object.
pub uninterp spec fn json_members(text: Seq<char>) -> Option<Seq<(Seq<char>, Seq<char>)>>;

/// The views of a list of members.
pub open spec fn members_view(v: Seq<(String, &str)>) -> Seq<(Seq<char>, Seq<char>)> {
    v.map_values(|m: (String, &str)| (m.0@, m.1@))
}

/// `serde_json::from_str` into a map from names to raw values: the members in the order of
/// the map, or `None` where it fails, under the name `json_members`. The call depends on the
/// text alone and does not panic.
#[verifier::external_body]
pub(crate) fn object_members<'a>(text: &'a str) -> (r: Option<Vec<(String, &'a str)>>)
    ensures
        match json_members(text@) {
            Some(m) => r matches Some(v) && members_view(v@) == m,
            None => r is None,
        },
{
    let parsed: Result<std::collections::BTreeMap<String, &'a serde_json::value::RawValue>, _> =
        serde_json::from_str(text);
    match parsed {
        Ok(map) => Some(map.into_iter().map(|m| (m.0, m.1.get())).collect()),
        Err(_) => None,
    }
}

/// The string that `serde_json` reads out of a text, where the text is a JSON string.
pub uninterp spec fn json_string_value(text: Seq<char>) -> Option<Seq<char>>;

/// `serde_json::from_str` into a `String`: the string, or `None` where it fails, under the
/// name `json_string_value`. The call depends on the text alone and does not panic.
#[verifier::external_body]
pub(crate) fn string_value(text: &str) -> (r: Option<String>)
    ensures
        match json_string_value(text@) {
            Some(t) => r matches Some(s) && s@ == t,
            None => r is None,
        },
{
    serde_json::from_str::<String>(text).ok()
}

// ---------------------------------------------------------------------------
// Laws
// ---------------------------------------------------------------------------

/// A text is a JSON string between quotes: printable characters stand as they are, but for the
/// quote and the backslash, which get a backslash; and a text is escaped piece by piece.
pub proof fn json_strings_are_escaped_piece_by_piece(a: Seq<char>, c: char)
    ensures
        json_quoted(Seq::empty()) == seq!['"', '"'],
        json_quoted(a.push(c)) == seq!['"'] + json_escaped(a) + json_escape(c) + seq!['"'],
        json_quoted(a) == seq!['"'] + json_escaped(a) + seq!['"'],
        (c as int) >= 32 && c != '"' && c != '\\' ==> json_escape(c) == seq![c],
        json_escape('"') == seq!['\\', '"'],
        json_escape('\\') == seq!['\\', '\\'],
        (c as int) < 32 ==> json_escape(c).len() >= 2 && json_escape(c)[0] == '\\',
{
    let none = Seq::<char>::empty();
    assert(json_escaped(none) =~= none);
    assert(json_quoted(none) =~= seq!['"', '"']);
    assert(a.push(c).drop_last() =~= a);
    assert(json_quoted(a.push(c)) =~= seq!['"'] + json_escaped(a) + json_escape(c) + seq!['"']);
}

/// The members of an object are written one behind the other, with commas between them: the name
/// as a JSON string, a colon, and the value as it is given.
pub proof fn members_are_written_one_behind_the_other(
    members: Seq<(Seq<char>, Seq<char>)>,
    name: Seq<char>,
    value: Seq<char>,
    value_of: spec_fn(Seq<char>, Seq<char>) -> Seq<char>,
)
    ensures
        members_text(Seq::empty(), value_of) == Seq::<char>::empty(),
        members_text(members.push((name, value)), value_of) == (if members.len() == 0 {
            json_quoted(name) + seq![':'] + value_of(name, value)
        } else {
            members_text(members, value_of) + seq![','] + json_quoted(name) + seq![':'] + value_of(
                name,
                value,
            )
        }),
{
    let all = members.push((name, value));
    assert(all.drop_last() =~= members);
    if members.len() == 0 {
        let none = Seq::<char>::empty();
        assert(members_text(members, value_of) =~= none);
        assert(members_text(all, value_of) =~= json_quoted(name) + seq![':'] + value_of(
            name,
            value,
        ));
    }
}

} // verus!
