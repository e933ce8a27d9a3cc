//! JSON values, held as compact text.

use vstd::prelude::*;
use vstd::string::StringExecFns;

use crate::text::{opt, views};
use crate::zero::{unsigned_zeros, without_zero_signs};

verus! {

/// What `serde_json` makes of a text: `from_str` reads a value, and `to_string` writes it as compact
/// text. Where the text cannot be read, the message of the error.
pub uninterp spec fn compact_json(text: Seq<char>) -> Result<Seq<char>, Seq<char>>;

/// The value that a text stands for, or the message of the error where it cannot be read. Values
/// that compare as the same are the same here: the sign of a zero is left out.
pub open spec fn json_value(text: Seq<char>) -> Result<Seq<char>, Seq<char>> {
    match compact_json(text) {
        Ok(compact) => Ok(unsigned_zeros(compact)),
        Err(message) => Err(message),
    }
}

/// Calls `serde_json::from_str` and writes the value back with `serde_json::to_string`; of an error
/// the message. The result depends on the text alone.
#[verifier::external_body]
fn compact(text: &str) -> (result: Result<String, String>)
    ensures
        match result {
            Ok(compact) => compact_json(text@) == Ok::<Seq<char>, Seq<char>>(compact@),
            Err(message) => compact_json(text@) == Err::<Seq<char>, Seq<char>>(message@),
        },
{
    let value: serde_json::Value = serde_json::from_str(text).map_err(|error| error.to_string())?;
    serde_json::to_string(&value).map_err(|error| error.to_string())
}

/// A hexadecimal digit.
pub open spec fn hex(n: int) -> char {
    if n < 10 {
        ('0' as u8 + n) as u8 as char
    } else {
        ('a' as u8 + n - 10) as u8 as char
    }
}

/// What a character is written as in a JSON string.
pub open spec fn escaped(c: char) -> Seq<char> {
    if c == '"' || c == '\\' {
        seq!['\\', c]
    } else if c == '\u{8}' {
        seq!['\\', 'b']
    } else if c == '\t' {
        seq!['\\', 't']
    } else if c == '\n' {
        seq!['\\', 'n']
    } else if c == '\u{c}' {
        seq!['\\', 'f']
    } else if c == '\r' {
        seq!['\\', 'r']
    } else if 32 > c as int {
        seq!['\\', 'u', '0', '0', hex(c as int / 16), hex(c as int % 16)]
    } else {
        seq![c]
    }
}

/// A text as a JSON string.
pub open spec fn quoted_json(text: Seq<char>) -> Seq<char> {
    seq!['"'] + text.flat_map(|c: char| escaped(c)) + seq!['"']
}

/// Calls `ToString::to_string` on a `serde_json::Value` that is a string: the text between quotes,
/// with quotes, backslashes and control characters escaped.
#[verifier::external_body]
fn quoted(text: &str) -> (quoted: String)
    ensures
        quoted@ == quoted_json(text@),
{
    serde_json::Value::from(text).to_string()
}

/// A JSON value: its compact text, and the same text without the signs of zeros, by which values are
/// compared.
#[derive(Debug, Eq)]
pub struct Json {
    text: String,
    value: String,
}

impl View for Json {
    type V = Seq<char>;

    /// What the value compares by.
    closed spec fn view(&self) -> Seq<char> {
        self.value@
    }
}

/// Whether a text comes before another in the order of their characters.
pub open spec fn comes_before(left: Seq<char>, right: Seq<char>) -> bool {
    exists|i: int|
        0 <= i <= left.len() && i < right.len() && #[trigger] left.take(i) == right.take(i) && (i
            == left.len() || left[i] < right[i])
}

impl Json {
    /// The compact text of the value.
    pub closed spec fn compact(&self) -> Seq<char> {
        self.text@
    }

    /// Reads a JSON text.
    pub fn parse(text: &str) -> (result: Result<Json, String>)
        ensures
            match result {
                Ok(json) => compact_json(text@) == Ok::<Seq<char>, Seq<char>>(json.compact())
                    && json_value(text@) == Ok::<Seq<char>, Seq<char>>(json@),
                Err(message) => json_value(text@) == Err::<Seq<char>, Seq<char>>(message@),
            },
    {
        match compact(text) {
            Ok(text) => {
                let value = without_zero_signs(text.as_str());
                Ok(Json { text, value })
            },
            Err(message) => Err(message),
        }
    }

    /// The value `null`.
    pub fn null() -> (json: Json)
        ensures
            json@ == "null"@,
            json.compact() == "null"@,
    {
        Json { text: "null".to_owned(), value: "null".to_owned() }
    }

    /// The object without fields.
    pub fn empty_object() -> (json: Json)
        ensures
            json@ == "{}"@,
            json.compact() == "{}"@,
    {
        Json { text: "{}".to_owned(), value: "{}".to_owned() }
    }

    /// A JSON string.
    pub fn string(text: &str) -> (json: Json)
        ensures
            json@ == quoted_json(text@),
            json.compact() == quoted_json(text@),
    {
        let text = quoted(text);
        Json { text: text.clone(), value: text }
    }

    /// A JSON array.
    pub fn array(items: &Vec<Json>) -> (json: Json)
        ensures
            json@ == array_text(views(items@)),
            json.compact() == array_text(compacts(items@)),
    {
        let mut texts = String::new();
        let mut values = String::new();
        let mut i: usize = 0;
        while i < items.len()
            invariant
                i <= items.len(),
                values@ == joined(views(items@).take(i as int)),
                texts@ == joined(compacts(items@).take(i as int)),
            decreases items.len() - i,
        {
            if i > 0 {
                texts.append(",");
                values.append(",");
            }
            texts.append(items[i].as_str());
            values.append(items[i].value_str());
            proof {
                lemma_joined(views(items@), i as int);
                lemma_joined(compacts(items@), i as int);
            }
            i = i + 1;
        }
        proof {
            assert(views(items@).take(items@.len() as int) =~= views(items@));
            assert(compacts(items@).take(items@.len() as int) =~= compacts(items@));
        }
        Json { text: between("[", texts.as_str(), "]"), value: between("[", values.as_str(), "]") }
    }

    /// A JSON object of two fields, in the order of their names.
    pub fn pair(first: &str, first_value: &Json, second: &str, second_value: &Json) -> (json: Json)
        requires
            comes_before(first@, second@),
        ensures
            json@ == pair_text(first@, first_value@, second@, second_value@),
            json.compact() == pair_text(
                first@,
                first_value.compact(),
                second@,
                second_value.compact(),
            ),
    {
        let first = quoted(first);
        let second = quoted(second);
        Json {
            text: pair_of(&first, first_value.as_str(), &second, second_value.as_str()),
            value: pair_of(&first, first_value.value_str(), &second, second_value.value_str()),
        }
    }

    /// The compact text of the value.
    pub fn as_str(&self) -> (text: &str)
        ensures
            text@ == self.compact(),
    {
        self.text.as_str()
    }

    /// What the value compares by: its compact text, without the signs of zeros.
    pub fn value_str(&self) -> (value: &str)
        ensures
            value@ == self@,
    {
        self.value.as_str()
    }
}

/// The compact texts of values.
pub open spec fn compacts(items: Seq<Json>) -> Seq<Seq<char>> {
    Seq::new(items.len(), |i: int| items[i].compact())
}

fn between(before: &str, text: &str, after: &str) -> (whole: String)
    ensures
        whole@ == before@ + text@ + after@,
{
    let mut whole = before.to_owned();
    whole.append(text);
    whole.append(after);
    whole
}

fn pair_of(first: &String, first_value: &str, second: &String, second_value: &str) -> (text: String)
    ensures
        text@ == "{"@ + first@ + ":"@ + first_value@ + ","@ + second@ + ":"@ + second_value@ + "}"@,
{
    let mut text = "{".to_owned();
    text.append(first.as_str());
    text.append(":");
    text.append(first_value);
    text.append(",");
    text.append(second.as_str());
    text.append(":");
    text.append(second_value);
    text.append("}");
    text
}

/// Texts with a comma between each two.
pub open spec fn joined(texts: Seq<Seq<char>>) -> Seq<char>
    decreases texts.len(),
{
    if texts.len() == 0 {
        Seq::empty()
    } else if texts.len() == 1 {
        texts[0]
    } else {
        joined(texts.drop_last()) + ","@ + texts.last()
    }
}

proof fn lemma_joined(texts: Seq<Seq<char>>, i: int)
    requires
        0 <= i < texts.len(),
    ensures
        joined(texts.take(i + 1)) == if i == 0 {
            joined(texts.take(0)) + texts[0]
        } else {
            joined(texts.take(i)) + ","@ + texts[i]
        },
{
    let next = texts.take(i + 1);
    assert(next.drop_last() =~= texts.take(i));
    assert(next.last() == texts[i]);
    if i == 0 {
        assert(joined(texts.take(0)) + texts[0] =~= texts[0]);
    }
}

/// The compact text of an array.
pub open spec fn array_text(texts: Seq<Seq<char>>) -> Seq<char> {
    "["@ + joined(texts) + "]"@
}

/// The compact text of an object of two fields.
pub open spec fn pair_text(
    first: Seq<char>,
    first_value: Seq<char>,
    second: Seq<char>,
    second_value: Seq<char>,
) -> Seq<char> {
    "{"@ + quoted_json(first) + ":"@ + first_value + ","@ + quoted_json(second) + ":"@
        + second_value + "}"@
}

impl Clone for Json {
    fn clone(&self) -> (copy: Self)
        ensures
            copy == *self,
    {
        Json { text: self.text.clone(), value: self.value.clone() }
    }
}

impl PartialEq for Json {
    fn eq(&self, other: &Self) -> (same: bool) {
        self.value == other.value
    }
}

impl vstd::std_specs::cmp::PartialEqSpecImpl for Json {
    open spec fn obeys_eq_spec() -> bool {
        true
    }

    open spec fn eq_spec(&self, other: &Self) -> bool {
        self@ == other@
    }
}

/// Whether two optional values are both absent or the same.
pub fn same_optional_json(left: &Option<Json>, right: &Option<Json>) -> (same: bool)
    ensures
        same == (opt(*left) == opt(*right)),
{
    match (left, right) {
        (Some(left), Some(right)) => left == right,
        (None, None) => true,
        _ => false,
    }
}

} // verus!
