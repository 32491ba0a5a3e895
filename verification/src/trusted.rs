//! The calls into `url`, `regex`, `destream_json` and `std` whose contracts
//! are taken on trust. Everything else in the library is proved from them.

use crate::reader::{UrlParts, UrlPartsView};
use futures::FutureExt;
use futures::TryStreamExt;
use vstd::prelude::*;
use vstd::utf8::*;

verus! {

/// What `url::Url::parse` makes of `input`: the components of the URL, or
/// `None` where it is no absolute URL.
pub uninterp spec fn url_parse(input: Seq<char>) -> Option<UrlPartsView>;

/// What `url::Url::from_file_path` makes of `path` on the platform that the
/// library is built for: the components of the `file` URL for that path, or
/// `None` where the path is refused.
pub uninterp spec fn file_path_url(path: Seq<char>) -> Option<UrlPartsView>;

/// Whether `regex::Regex::new(pattern)` compiles and the compiled expression
/// matches somewhere in `haystack`.
pub uninterp spec fn regex_is_match(pattern: Seq<char>, haystack: Seq<char>) -> bool;

/// The byte that opens and closes a JSON string.
pub const QUOTE: u8 = 0x22;

/// The byte that escapes the next one in a JSON string.
pub const ESCAPE: u8 = 0x5c;

/// The bytes with an escape before each quote and each escape among them, as
/// `destream_json` escapes the bytes of a string. Nothing else is changed:
/// control characters stay as they are.
pub open spec fn escaped(bytes: Seq<u8>) -> Seq<u8>
    decreases bytes.len(),
{
    if bytes.len() == 0 {
        Seq::empty()
    } else if bytes.last() == QUOTE || bytes.last() == ESCAPE {
        escaped(bytes.drop_last()) + seq![ESCAPE, bytes.last()]
    } else {
        escaped(bytes.drop_last()) + seq![bytes.last()]
    }
}

/// A string as `destream_json` encodes it: a quote, the escaped UTF-8 bytes
/// of the string, a quote.
pub open spec fn json_string(text: Seq<char>) -> Seq<u8> {
    seq![QUOTE] + escaped(encode_utf8(text)) + seq![QUOTE]
}

/// Calls `url::Url::parse` and copies out the serialization, the scheme, the
/// host string and the path of the URL it returns. The contract only names
/// the outcome: which strings parse, and into what, is `url`'s business.
#[verifier::external_body]
pub(crate) fn parse_url(input: &str) -> (parsed: Option<UrlParts>)
    ensures
        parsed matches Some(parts) ==> url_parse(input@) == Some(parts@),
        parsed is None ==> url_parse(input@) is None,
{
    let url = url::Url::parse(input).ok()?;
    Some(UrlParts {
        href: url.as_str().to_owned(),
        scheme: url.scheme().to_owned(),
        host: url.host_str().map(|host| host.to_owned()),
        path: url.path().to_owned(),
    })
}

/// Calls `url::Url::from_file_path` and copies out the same components as
/// [`parse_url`]. The contract only names the outcome.
#[verifier::external_body]
pub(crate) fn file_url(path: &str) -> (converted: Option<UrlParts>)
    ensures
        converted matches Some(parts) ==> file_path_url(path@) == Some(parts@),
        converted is None ==> file_path_url(path@) is None,
{
    let url = url::Url::from_file_path(path).ok()?;
    Some(UrlParts {
        href: url.as_str().to_owned(),
        scheme: url.scheme().to_owned(),
        host: url.host_str().map(|host| host.to_owned()),
        path: url.path().to_owned(),
    })
}

/// Compiles `pattern` with `regex::Regex::new` and asks `Regex::is_match`
/// whether it matches anywhere in `haystack`. A pattern that does not compile
/// matches nothing. The contract only names the outcome.
#[verifier::external_body]
pub(crate) fn regex_search(pattern: &str, haystack: &str) -> (found: bool)
    ensures
        found == regex_is_match(pattern@, haystack@),
{
    match regex::Regex::new(pattern) {
        Ok(expression) => expression.is_match(haystack),
        Err(_) => false,
    }
}

/// Calls `destream_json::encode` on a string and gathers the chunks of the
/// stream it returns into one vector. The contract claims what the source of
/// `destream_json` shows for a string: the encoder does not refuse it, the
/// stream is ready at once and holds one chunk, made of a quote, the bytes
/// of the string with an escape before each quote and each escape, and a
/// quote.
#[verifier::external_body]
pub(crate) fn encode_json_string(text: &str) -> (encoded: Option<Vec<u8>>)
    ensures
        encoded is Some,
        encoded matches Some(bytes) ==> bytes@ == json_string(text@),
{
    let chunks = destream_json::encode(text.to_owned()).ok()?;
    chunks.map_ok(|chunk| chunk.to_vec()).try_concat().now_or_never()?.ok()
}

/// Calls `String::from_utf8`, which succeeds exactly on well-formed UTF-8 and
/// then holds the characters that the bytes encode.
#[verifier::external_body]
pub(crate) fn string_from_utf8(bytes: Vec<u8>) -> (decoded: Option<String>)
    ensures
        decoded is Some <==> valid_utf8(bytes@),
        decoded matches Some(text) ==> text@ == decode_utf8(bytes@),
{
    String::from_utf8(bytes).ok()
}

} // verus!
