//! Requests to the tracker's REST interface as plain values: the method, the
//! path below the interface's base, and the JSON body where there is one.
//! Nothing here sends anything; a transport takes the value and makes the call.

use crate::text::chars_of;
use vstd::prelude::*;

verus! {

/// The HTTP method of a request.
#[derive(Clone, Copy, Debug, PartialEq, Eq, Structural)]
pub enum Method {
    Get,
    Post,
    Put,
}

/// A call to make.
#[derive(Debug)]
pub struct Request {
    pub method: Method,
    pub path: String,
    pub body: Option<String>,
}

/// A request as plain values.
pub struct RequestView {
    pub method: Method,
    pub path: Seq<char>,
    pub body: Option<Seq<char>>,
}

impl View for Request {
    type V = RequestView;

    open spec fn view(&self) -> RequestView {
        RequestView {
            method: self.method,
            path: self.path@,
            body: match self.body {
                Some(b) => Some(b@),
                None => None,
            },
        }
    }
}

/// A read of `path`.
pub open spec fn get_of(path: Seq<char>) -> RequestView {
    RequestView { method: Method::Get, path, body: None }
}

/// A post of `body` to `path`.
pub open spec fn post_of(path: Seq<char>, body: Seq<char>) -> RequestView {
    RequestView { method: Method::Post, path, body: Some(body) }
}

/// A put of `body` to `path`.
pub open spec fn put_of(path: Seq<char>, body: Seq<char>) -> RequestView {
    RequestView { method: Method::Put, path, body: Some(body) }
}

/// The JSON string literal for a text, quotes included, as `serde_json`
/// writes it.
pub uninterp spec fn json_string(text: Seq<char>) -> Seq<char>;

/// A text with the bytes of its UTF-8 form percent-encoded as the `url`
/// crate does for its default encode set.
pub uninterp spec fn percent_encoded(text: Seq<char>) -> Seq<char>;

/// The base64 form of a run of bytes, in the standard alphabet with padding,
/// as the `base64` crate writes it.
pub uninterp spec fn base64_text(data: Seq<u8>) -> Seq<char>;

/// Writes `text` as a JSON string literal by displaying a
/// `serde_json::Value::String`. The result depends on the text alone.
/// Displaying into a `String` cannot fail.
#[verifier::external_body]
pub(crate) fn json_quote(text: &str) -> (r: String)
    ensures
        r@ == json_string(text@),
{
    serde_json::Value::String(text.to_owned()).to_string()
}

/// Percent-encodes `text` with `url::percent_encoding::utf8_percent_encode`
/// and the crate's `DEFAULT_ENCODE_SET`. The result depends on the text alone.
#[verifier::external_body]
pub(crate) fn percent_encode(text: &str) -> (r: String)
    ensures
        r@ == percent_encoded(text@),
{
    url::percent_encoding::utf8_percent_encode(text, url::percent_encoding::DEFAULT_ENCODE_SET)
        .to_string()
}

/// Encodes `data` with `base64::encode`. The result depends on the bytes
/// alone. The call panics where the length of its output would not fit in
/// `usize`; up to half of `usize::MAX` bytes of input it does fit.
#[verifier::external_body]
pub(crate) fn base64_encode(data: &[u8]) -> (r: String)
    requires
        data@.len() <= usize::MAX / 2,
    ensures
        r@ == base64_text(data@),
{
    base64::encode(data)
}

/// Appends `text` to `out`.
pub fn push_text(out: &mut String, text: &str)
    ensures
        final(out)@ == old(out)@ + text@,
{
    let chars = chars_of(text);
    crate::text::push_chars(out, &chars, 0, chars.len());
    assert(chars@.subrange(0, chars@.len() as int) == chars@);
}

/// Appends the JSON string literal for `text` to `out`.
pub fn push_json(out: &mut String, text: &str)
    ensures
        final(out)@ == old(out)@ + json_string(text@),
{
    let quoted = json_quote(text);
    push_text(out, quoted.as_str());
}

impl Request {
    /// A read of `path`.
    pub fn get(path: String) -> (r: Request)
        ensures
            r@ == get_of(path@),
    {
        Request { method: Method::Get, path, body: None }
    }

    /// A post of `body` to `path`.
    pub fn post(path: String, body: String) -> (r: Request)
        ensures
            r@ == post_of(path@, body@),
    {
        Request { method: Method::Post, path, body: Some(body) }
    }

    /// A put of `body` to `path`.
    pub fn put(path: String, body: String) -> (r: Request)
        ensures
            r@ == put_of(path@, body@),
    {
        Request { method: Method::Put, path, body: Some(body) }
    }
}

} // verus!
