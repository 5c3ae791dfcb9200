use vstd::prelude::*;

verus! {

/// The text that lossy UTF-8 decoding makes of some bytes: valid sequences
/// decoded, each invalid one replaced by U+FFFD.
pub uninterp spec fn utf8_lossy(bytes: Seq<u8>) -> Seq<char>;

/// Relies on String::from_utf8_lossy: it never fails, and its result depends
/// on the bytes alone.
#[verifier::external_body]
pub(crate) fn decode_lossy(bytes: &[u8]) -> (r: String)
    ensures
        r@ == utf8_lossy(bytes@),
{
    String::from_utf8_lossy(bytes).into_owned()
}

/// The characters that Unicode gives the White_Space property, which is
/// what `char::is_whitespace` tests.
pub open spec fn is_white_space(c: char) -> bool {
    ('\u{9}' <= c <= '\u{d}') || c == ' ' || c == '\u{85}' || c == '\u{a0}' || c == '\u{1680}'
        || ('\u{2000}' <= c <= '\u{200a}') || c == '\u{2028}' || c == '\u{2029}' || c
        == '\u{202f}' || c == '\u{205f}' || c == '\u{3000}'
}

/// A text without its leading whitespace.
pub open spec fn trim_start(text: Seq<char>) -> Seq<char>
    decreases text.len(),
{
    if text.len() > 0 && is_white_space(text[0]) {
        trim_start(text.drop_first())
    } else {
        text
    }
}

/// A text without its trailing whitespace.
pub open spec fn trim_end(text: Seq<char>) -> Seq<char>
    decreases text.len(),
{
    if text.len() > 0 && is_white_space(text.last()) {
        trim_end(text.drop_last())
    } else {
        text
    }
}

/// A text without its leading and trailing whitespace.
pub open spec fn trimmed(text: Seq<char>) -> Seq<char> {
    trim_end(trim_start(text))
}

/// Relies on str::trim: it removes the leading and trailing characters that
/// have the White_Space property, and nothing else.
#[verifier::external_body]
pub(crate) fn trim_text(text: &str) -> (r: String)
    ensures
        r@ == trimmed(text@),
{
    text.trim().to_owned()
}

/// The string at `document[list_key][index][object_key][field_key]`, if the
/// text parses as JSON, each step finds an object key or an array element as
/// it asks, and the value there is a string.
pub uninterp spec fn json_string_at(
    document: Seq<char>,
    list_key: Seq<char>,
    index: nat,
    object_key: Seq<char>,
    field_key: Seq<char>,
) -> Option<Seq<char>>;

/// Relies on serde_json::from_str into a Value, indexing a Value by key and by
/// position, and Value::as_str: a parse failure, a missing key, an index past
/// the end, a step into a value of another type, and a value that is no string
/// all give `None`; the outcome depends on the arguments alone.
#[verifier::external_body]
pub(crate) fn string_at_path(
    document: &str,
    list_key: &str,
    index: usize,
    object_key: &str,
    field_key: &str,
) -> (r: Option<String>)
    ensures
        r matches Some(s) ==> json_string_at(
            document@,
            list_key@,
            index as nat,
            object_key@,
            field_key@,
        ) == Some(s@),
        r is None ==> json_string_at(document@, list_key@, index as nat, object_key@, field_key@) is None,
{
    match serde_json::from_str::<serde_json::Value>(document) {
        Ok(v) => v[list_key][index][object_key][field_key].as_str().map(|s| s.to_owned()),
        Err(_) => None,
    }
}

} // verus!
