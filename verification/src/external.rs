//! The calls into other crates and into parts of the standard library that
//! carry no specification. Every contract in this file is believed, not proved.
use crate::text::contains_text;
use crate::types::opt_view;
use base64::prelude::{Engine, BASE64_STANDARD};
use sha2::Digest;
use vstd::prelude::*;

verus! {

/// `String::push`: appends the given character to the end of the string.
pub assume_specification[ String::push ](s: &mut String, ch: char)
    ensures
        final(s)@ == old(s)@.push(ch),
;

/// The characters with the Unicode `White_Space` property.
pub open spec fn is_space(c: char) -> bool {
    '\u{9}' <= c <= '\u{d}' || c == ' ' || c == '\u{85}' || c == '\u{a0}' || c == '\u{1680}'
        || '\u{2000}' <= c <= '\u{200a}' || c == '\u{2028}' || c == '\u{2029}' || c == '\u{202f}'
        || c == '\u{205f}' || c == '\u{3000}'
}

/// `char::is_whitespace`: it tells whether the character has the Unicode
/// `White_Space` property.
pub assume_specification[ char::is_whitespace ](c: char) -> (b: bool)
    ensures
        b == is_space(c),
;

/// What `str::to_lowercase` makes of a text: its Unicode lower-case form.
pub uninterp spec fn lowercase(text: Seq<char>) -> Seq<char>;

/// `str::to_lowercase`: its result depends on the characters of the text
/// alone.
#[verifier::external_body]
pub(crate) fn to_lowercase(text: &str) -> (r: String)
    ensures
        r@ == lowercase(text@),
{
    text.to_lowercase()
}

/// The lower-case hexadecimal digit for `d`, for `d` below sixteen.
pub open spec fn hex_digit(d: nat) -> char {
    if d < 10 {
        (48 + d) as char
    } else {
        (87 + d) as char
    }
}

/// One character of a text inside a JSON string: quotes, backslashes and
/// control characters are escaped, the others stand for themselves.
pub open spec fn json_escaped(c: char) -> Seq<char> {
    if c == '"' || c == '\\' {
        seq!['\\', c]
    } else if c == '\u{8}' {
        seq!['\\', 'b']
    } else if c == '\t' {
        seq!['\\', 't']
    } else if c == '\n' {
        seq!['\\', 'n']
    } else if c == '\u{c}' {
        seq!['\\', 'f']
    } else if c == '\r' {
        seq!['\\', 'r']
    } else if (c as nat) < 32 {
        seq!['\\', 'u', '0', '0', hex_digit(c as nat / 16), hex_digit(c as nat % 16)]
    } else {
        seq![c]
    }
}

/// A text inside a JSON string.
pub open spec fn json_body(text: Seq<char>) -> Seq<char>
    decreases text.len(),
{
    if text.len() == 0 {
        Seq::empty()
    } else {
        json_body(text.drop_last()) + json_escaped(text.last())
    }
}

/// A text as a JSON string, with the quotes around it.
pub open spec fn json_string(text: Seq<char>) -> Seq<char> {
    seq!['"'] + json_body(text) + seq!['"']
}

/// `serde_json::to_string` on a string: it does not fail, and it writes the
/// JSON string for the text, escaping quotes, backslashes and control
/// characters and nothing else.
#[verifier::external_body]
pub(crate) fn json_quote(text: &str) -> (r: Option<String>)
    ensures
        opt_view(r) == Some(json_string(text@)),
{
    serde_json::to_string(text).ok()
}

/// What `serde_json::from_str` finds in a text: where the text is JSON for an
/// object whose member `key` is a string, that string.
pub uninterp spec fn json_string_member(text: Seq<char>, key: Seq<char>) -> Option<Seq<char>>;

/// `serde_json::from_str` into a `Value`, and the string under one key of it:
/// the result depends on the text and the key alone.
#[verifier::external_body]
pub(crate) fn json_member(text: &str, key: &str) -> (r: Option<String>)
    ensures
        opt_view(r) == json_string_member(text@, key@),
{
    let value = serde_json::from_str::<serde_json::Value>(text).ok()?;
    Some(value.get(key)?.as_str()?.to_string())
}

/// The character that stands for six bits in base64.
pub open spec fn base64_char(n: nat) -> char {
    if n < 26 {
        (65 + n) as char
    } else if n < 52 {
        (71 + n) as char
    } else if n < 62 {
        (n - 4) as char
    } else if n == 62 {
        '+'
    } else {
        '/'
    }
}

/// Bytes in base64, with the standard alphabet and with padding: four
/// characters for every three bytes.
pub open spec fn base64_text(bytes: Seq<u8>) -> Seq<char>
    decreases bytes.len(),
{
    if bytes.len() == 0 {
        Seq::empty()
    } else {
        let a = bytes[0] as nat;
        let b = if bytes.len() > 1 {
            bytes[1] as nat
        } else {
            0
        };
        let c = if bytes.len() > 2 {
            bytes[2] as nat
        } else {
            0
        };
        let group = seq![
            base64_char(a / 4),
            base64_char(a % 4 * 16 + b / 16),
            if bytes.len() > 1 {
                base64_char(b % 16 * 4 + c / 64)
            } else {
                '='
            },
            if bytes.len() > 2 {
                base64_char(c % 64)
            } else {
                '='
            },
        ];
        if bytes.len() > 3 {
            group + base64_text(bytes.skip(3))
        } else {
            group
        }
    }
}

/// The bytes that a text is the base64 form of, where it is one.
pub open spec fn base64_value(text: Seq<char>) -> Option<Seq<u8>> {
    if exists|bytes: Seq<u8>| text == #[trigger] base64_text(bytes) {
        Some(choose|bytes: Seq<u8>| text == #[trigger] base64_text(bytes))
    } else {
        None
    }
}

/// How `base64` describes what is wrong with a text that is no base64.
pub uninterp spec fn base64_problem(text: Seq<char>) -> Seq<char>;

/// `BASE64_STANDARD.decode`, its error as the text that it displays. It takes a
/// text exactly where that is the padded base64 form of some bytes, with no
/// stray bits in its last character, and gives these bytes; the description of
/// an error depends on the text alone.
#[verifier::external_body]
pub(crate) fn base64_decode(text: &str) -> (r: Result<Vec<u8>, String>)
    ensures
        match r {
            Ok(bytes) => base64_value(text@) == Some(bytes@),
            Err(e) => base64_value(text@) is None && e@ == base64_problem(text@),
        },
{
    BASE64_STANDARD.decode(text).map_err(|e| e.to_string())
}

/// The SHA-256 digest of a sequence of bytes.
pub uninterp spec fn sha256(data: Seq<u8>) -> Seq<u8>;

/// `Sha256::digest` of `sha2`: the digest is thirty-two bytes long and depends
/// on the data alone.
#[verifier::external_body]
pub(crate) fn sha256_digest(data: &Vec<u8>) -> (r: Vec<u8>)
    ensures
        r@ == sha256(data@),
        r.len() == 32,
{
    sha2::Sha256::digest(data).to_vec()
}

/// The regular expression for an image in Markdown; its group is the address.
pub const MARKDOWN_IMAGE: &'static str = r"!\[.*?\]\((https?://[^\s)]+)\)";

/// What `regex` finds with a pattern in a text: for each match, from left to
/// right, the text of the first group, where the group took part.
pub uninterp spec fn regex_groups(pattern: Seq<char>, text: Seq<char>) -> Seq<Option<Seq<char>>>;

/// `Regex::captures_iter` with the pattern for Markdown images, which is well
/// formed: the first groups of the matches depend on the pattern and the text
/// alone, and each of them is a part of the text.
#[verifier::external_body]
pub(crate) fn first_groups(pattern: &str, text: &str) -> (r: Vec<Option<String>>)
    requires
        pattern@ == MARKDOWN_IMAGE@,
    ensures
        r@.len() == regex_groups(pattern@, text@).len(),
        forall|i: int|
            0 <= i < r@.len() ==> opt_view(#[trigger] r@[i]) == regex_groups(pattern@, text@)[i],
        forall|i: int|
            0 <= i < r@.len() ==> (#[trigger] r@[i] matches Some(s) ==> contains_text(text@, s@)),
{
    let re = regex::Regex::new(pattern).unwrap();
    re.captures_iter(text).map(|c| c.get(1).map(|m| m.as_str().to_string())).collect()
}

/// What the `o200k_base` encoder of `tiktoken_rs` makes of a text: nothing
/// where the encoder cannot be set up, nothing inside where it gives up on the
/// text, else the tokens, special tokens among them.
pub uninterp spec fn o200k_encoding(text: Seq<char>) -> Option<Option<Seq<u32>>>;

/// The value of an encoding.
pub open spec fn encoding_view(e: Option<Option<Vec<u32>>>) -> Option<Option<Seq<u32>>> {
    match e {
        Some(Some(tokens)) => Some(Some(tokens@)),
        Some(None) => Some(None),
        None => None,
    }
}

/// `o200k_base` and `CoreBPE::encode` with every special token allowed: the
/// tokens depend on the text alone.
#[verifier::external_body]
pub(crate) fn o200k_encode(text: &str) -> (r: Option<Option<Vec<u32>>>)
    ensures
        encoding_view(r) == o200k_encoding(text@),
{
    let bpe = tiktoken_rs::o200k_base().ok()?;
    let special = bpe.special_tokens();
    Some(bpe.encode(text, &special).ok().map(|r| r.0))
}

/// The characters of a random name: letters, digits, `_` and `-`.
pub open spec fn url_safe(c: char) -> bool {
    'a' <= c <= 'z' || 'A' <= c <= 'Z' || '0' <= c <= '9' || c == '_' || c == '-'
}

/// `nanoid::format` with its default generator and alphabet: a random name of
/// the given length over that alphabet. Which name comes out is left to chance.
#[verifier::external_body]
pub(crate) fn random_name(size: usize) -> (r: String)
    requires
        0 < size <= 1000,
    ensures
        r@.len() == size,
        forall|i: int| 0 <= i < size ==> url_safe(#[trigger] r@[i]),
{
    nanoid::format(nanoid::rngs::default, &nanoid::alphabet::SAFE, size)
}

/// `chrono::Utc::now`, in whole seconds. Nothing is said of the time.
#[verifier::external_body]
pub(crate) fn current_timestamp() -> (r: i64) {
    chrono::Utc::now().timestamp()
}

} // verus!
