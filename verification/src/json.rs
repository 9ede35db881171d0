use vstd::prelude::*;

verus! {

/// serde_json's error type, carried through from its parser and serialisers.
#[verifier::external_type_specification]
#[verifier::external_body]
pub struct ExJsonError(serde_json::Error);

/// The strings that serde_json reads from `text` as a JSON array of strings,
/// or `None` where `text` is not one.
pub uninterp spec fn json_string_array(text: Seq<char>) -> Option<Seq<Seq<char>>>;

/// The lower-case hex digit for `d`, for `d` in `0..16`.
pub open spec fn hex_digit(d: int) -> char {
    if d < 10 {
        crate::numbers::digit_char(d)
    } else if d == 10 {
        'a'
    } else if d == 11 {
        'b'
    } else if d == 12 {
        'c'
    } else if d == 13 {
        'd'
    } else if d == 14 {
        'e'
    } else {
        'f'
    }
}

/// How serde_json writes one character inside a string: `"` and `\` and
/// the five short escapes behind a backslash, other control characters as
/// `\u00` and two hex digits, every other character as it is.
pub open spec fn json_escape(c: char) -> Seq<char> {
    if c == '"' {
        seq!['\\', '"']
    } else if c == '\\' {
        seq!['\\', '\\']
    } else if c == '\u{8}' {
        seq!['\\', 'b']
    } else if c == '\t' {
        seq!['\\', 't']
    } else if c == '\n' {
        seq!['\\', 'n']
    } else if c == '\u{c}' {
        seq!['\\', 'f']
    } else if c == '\r' {
        seq!['\\', 'r']
    } else if (c as u32) < 0x20 {
        seq!['\\', 'u', '0', '0', hex_digit((c as int) / 16), hex_digit((c as int) % 16)]
    } else {
        seq![c]
    }
}

/// The escaped characters of a string, in order.
pub open spec fn json_escaped(s: Seq<char>) -> Seq<char>
    decreases s.len(),
{
    if s.len() == 0 {
        Seq::empty()
    } else {
        json_escaped(s.drop_last()) + json_escape(s.last())
    }
}

/// The strings written as JSON strings and joined by commas.
pub open spec fn json_items(items: Seq<Seq<char>>) -> Seq<char>
    decreases items.len(),
{
    if items.len() == 0 {
        Seq::empty()
    } else if items.len() == 1 {
        seq!['"'] + json_escaped(items[0]) + seq!['"']
    } else {
        json_items(items.drop_last()) + seq![','] + (seq!['"'] + json_escaped(items.last()) + seq!['"'])
    }
}

/// The compact JSON text that serde_json writes for an array of strings.
pub open spec fn json_array_text(items: Seq<Seq<char>>) -> Seq<char> {
    seq!['['] + json_items(items) + seq![']']
}

proof fn lemma_escape_no_line_feed(c: char)
    ensures
        !json_escape(c).contains('\n'),
{
    let e = json_escape(c);
    if (c as u32) < 0x20 && c != '"' && c != '\\' && c != '\u{8}' && c != '\t' && c != '\n' && c != '\u{c}' && c != '\r' {
        assert(e[4] != '\n' && e[5] != '\n');
        assert(e.len() == 6);
    }
    assert forall|i: int| 0 <= i < e.len() implies e[i] != '\n' by {}
}

proof fn lemma_escaped_no_line_feed(s: Seq<char>)
    ensures
        !json_escaped(s).contains('\n'),
    decreases s.len(),
{
    if s.len() > 0 {
        lemma_escaped_no_line_feed(s.drop_last());
        lemma_escape_no_line_feed(s.last());
        let a = json_escaped(s.drop_last());
        let b = json_escape(s.last());
        assert forall|i: int| 0 <= i < (a + b).len() implies (a + b)[i] != '\n' by {
            if i < a.len() {
                assert((a + b)[i] == a[i]);
            } else {
                assert((a + b)[i] == b[i - a.len()]);
            }
        }
    }
}

proof fn lemma_items_no_line_feed(items: Seq<Seq<char>>)
    ensures
        !json_items(items).contains('\n'),
    decreases items.len(),
{
    if items.len() > 0 {
        let q = seq!['"'] + json_escaped(items.last()) + seq!['"'];
        lemma_escaped_no_line_feed(items.last());
        assert(!q.contains('\n')) by {
            assert forall|i: int| 0 <= i < q.len() implies q[i] != '\n' by {
                if 0 < i < q.len() - 1 {
                    assert(q[i] == json_escaped(items.last())[i - 1]);
                }
            }
        }
        if items.len() == 1 {
            assert(items[0] == items.last());
        } else {
            lemma_items_no_line_feed(items.drop_last());
            let a = json_items(items.drop_last()) + seq![','];
            assert forall|i: int| 0 <= i < (a + q).len() implies (a + q)[i] != '\n' by {
                if i < a.len() - 1 {
                    assert((a + q)[i] == json_items(items.drop_last())[i]);
                } else if i >= a.len() {
                    assert((a + q)[i] == q[i - a.len()]);
                }
            }
        }
    }
}

/// The array text starts with `[`, ends with `]` and holds no raw line
/// feed: control characters in strings are escaped.
pub proof fn lemma_array_text_shape(items: Seq<Seq<char>>)
    ensures
        json_array_text(items).len() >= 2,
        json_array_text(items)[0] == '[',
        json_array_text(items).last() == ']',
        !json_array_text(items).contains('\n'),
{
    let t = json_array_text(items);
    let m = json_items(items);
    lemma_items_no_line_feed(items);
    assert forall|i: int| 0 <= i < t.len() implies t[i] != '\n' by {
        if 0 < i < t.len() - 1 {
            assert(t[i] == m[i - 1]);
        }
    }
}

/// Reads `text` as a JSON array of strings with `serde_json::from_str::<Vec<String>>`.
/// The result is named: it is `json_string_array` of the text, the strings taken by their views.
#[verifier::external_body]
pub(crate) fn parse_json_array(text: &str) -> (r: Result<Vec<String>, serde_json::Error>)
    ensures
        json_string_array(text@) == (match r {
            Ok(v) => Some(v@.map_values(|s: String| s@)),
            Err(_) => None,
        }),
{
    serde_json::from_str::<Vec<String>>(text)
}

/// Writes an array of strings with `serde_json::to_string`: the text is
/// `json_array_text` of the strings, as serde_json's compact formatter and
/// escape table write it, and `serde_json::from_str` reads the same strings
/// back from it. Writing strings into memory does not fail: their
/// `Serialize` impl cannot, and the writer is a `Vec<u8>`.
#[verifier::external_body]
pub(crate) fn json_strings_text(items: &Vec<String>) -> (r: Result<String, serde_json::Error>)
    ensures
        match r {
            Ok(s) => {
                &&& s@ == json_array_text(items@.map_values(|x: String| x@))
                &&& json_string_array(s@) == Some(items@.map_values(|x: String| x@))
            },
            Err(_) => false,
        },
{
    serde_json::to_string(items)
}

/// serde_json's JSON value, built only to be written out.
#[verifier::external_type_specification]
#[verifier::external_body]
pub struct ExJsonValue(serde_json::Value);

/// A JSON value without objects inside: a string, an integer or an array of strings.
pub enum JsonScalar {
    Str(String),
    Num(i64),
    StrArray(Vec<String>),
}

/// A value inside a member object: a scalar, or an object of scalars.
pub enum JsonInner {
    Scalar(JsonScalar),
    Object(Vec<(String, JsonScalar)>),
}

/// A value of a top-level member: a scalar, or an object of inner values.
pub enum JsonMember {
    Scalar(JsonScalar),
    Object(Vec<(String, JsonInner)>),
}

pub enum JsonScalarView {
    Str(Seq<char>),
    Num(i64),
    StrArray(Seq<Seq<char>>),
}

pub enum JsonInnerView {
    Scalar(JsonScalarView),
    Object(Seq<(Seq<char>, JsonScalarView)>),
}

pub enum JsonMemberView {
    Scalar(JsonScalarView),
    Object(Seq<(Seq<char>, JsonInnerView)>),
}

impl View for JsonScalar {
    type V = JsonScalarView;

    open spec fn view(&self) -> JsonScalarView {
        match self {
            JsonScalar::Str(s) => JsonScalarView::Str(s@),
            JsonScalar::Num(n) => JsonScalarView::Num(*n),
            JsonScalar::StrArray(v) => JsonScalarView::StrArray(v@.map_values(|s: String| s@)),
        }
    }
}

impl View for JsonInner {
    type V = JsonInnerView;

    open spec fn view(&self) -> JsonInnerView {
        match self {
            JsonInner::Scalar(s) => JsonInnerView::Scalar(s@),
            JsonInner::Object(o) => JsonInnerView::Object(o@.map_values(|e: (String, JsonScalar)| (e.0@, e.1@))),
        }
    }
}

impl View for JsonMember {
    type V = JsonMemberView;

    open spec fn view(&self) -> JsonMemberView {
        match self {
            JsonMember::Scalar(s) => JsonMemberView::Scalar(s@),
            JsonMember::Object(o) => JsonMemberView::Object(o@.map_values(|e: (String, JsonInner)| (e.0@, e.1@))),
        }
    }
}

/// The views of the members of a JSON object, in insertion order.
pub open spec fn members_view(m: Seq<(String, JsonMember)>) -> Seq<(Seq<char>, JsonMemberView)> {
    m.map_values(|e: (String, JsonMember)| (e.0@, e.1@))
}

/// The pretty-printed JSON text that serde_json writes for the object built
/// by inserting these members in order into a `serde_json::Map`.
pub uninterp spec fn json_pretty_text(members: Seq<(Seq<char>, JsonMemberView)>) -> Seq<char>;

/// Builds the serde_json value of a scalar, with serde_json's `From` conversions.
#[verifier::external_body]
fn scalar_to_serde(s: &JsonScalar) -> serde_json::Value {
    match s {
        JsonScalar::Str(x) => serde_json::Value::from(x.clone()),
        JsonScalar::Num(n) => serde_json::Value::from(*n),
        JsonScalar::StrArray(v) => serde_json::Value::from(v.clone()),
    }
}

/// Builds the serde_json value of an inner value, objects through `serde_json::Map::insert`.
#[verifier::external_body]
fn inner_to_serde(i: &JsonInner) -> serde_json::Value {
    match i {
        JsonInner::Scalar(s) => scalar_to_serde(s),
        JsonInner::Object(o) => {
            let mut map = serde_json::Map::new();
            for (k, v) in o {
                map.insert(k.clone(), scalar_to_serde(v));
            }
            serde_json::Value::Object(map)
        },
    }
}

/// Builds the serde_json value of a member, objects through `serde_json::Map::insert`.
#[verifier::external_body]
fn member_to_serde(m: &JsonMember) -> serde_json::Value {
    match m {
        JsonMember::Scalar(s) => scalar_to_serde(s),
        JsonMember::Object(o) => {
            let mut map = serde_json::Map::new();
            for (k, v) in o {
                map.insert(k.clone(), inner_to_serde(v));
            }
            serde_json::Value::Object(map)
        },
    }
}

/// Writes the object of `members` with `serde_json::to_string_pretty`, the
/// object built by inserting the members in order into a `serde_json::Map`.
/// The text is named: it is `json_pretty_text` of the members. Writing a
/// `serde_json::Value` into memory does not fail: its `Serialize` impl only
/// passes on errors of the writer, and the writer here is a `Vec<u8>`.
#[verifier::external_body]
pub(crate) fn to_json_pretty(members: &Vec<(String, JsonMember)>) -> (r: Result<String, serde_json::Error>)
    ensures
        match r {
            Ok(text) => text@ == json_pretty_text(members_view(members@)),
            Err(_) => false,
        },
{
    let mut map = serde_json::Map::new();
    for (k, v) in members {
        map.insert(k.clone(), member_to_serde(v));
    }
    serde_json::to_string_pretty(&serde_json::Value::Object(map))
}

} // verus!
