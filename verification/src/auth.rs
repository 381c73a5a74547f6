//! The header that presents a user and a password to a resolver.
use crate::address::byte_len;
use vstd::prelude::*;
use vstd::string::StringSliceAdditionalSpecFns;

verus! {

/// The Base64 encoding, with padding, of the bytes that `text` takes.
pub uninterp spec fn base64_text(text: Seq<char>) -> Seq<char>;

/// The longest text, in bytes, that is encoded: the size of its encoding
/// still fits 32 bits.
pub const MAX_ENCODED: usize = 0x7fff_ffff;

/// `base64::encode` of the bytes of `text`. The function panics where the
/// size of the encoding overflows, which `requires` rules out.
#[verifier::external_body]
fn base64_encode(text: &str) -> (encoded: String)
    requires
        byte_len(text@) <= MAX_ENCODED,
    ensures
        encoded@ == base64_text(text@),
{
    base64::encode(text)
}

/// What stands between the user and the password before they are encoded.
pub open spec fn colon() -> Seq<char> {
    ":"@
}

/// What the header's value starts with.
pub open spec fn basic() -> Seq<char> {
    "Basic: "@
}

/// The text that is encoded: `user:password`.
pub fn credentials(user: &str, password: &str) -> (text: String)
    ensures
        text@ == user@ + colon() + password@,
{
    let mut text = String::from_str(user);
    text.append(":");
    text.append(password);
    text
}

/// The value of the header for credentials that are encoded as `encoded`:
/// the word `Basic:`, a space, and the encoding.
pub fn header_value(encoded: &str) -> (value: String)
    ensures
        value@ == basic() + encoded@,
{
    let mut value = String::from_str("Basic: ");
    value.append(encoded);
    value
}

/// The value of the header that presents `user` and `password`: the word
/// `Basic:` and the encoding of `user:password`. There is none where the
/// two are too long to be encoded.
pub fn basic_auth_header(user: &str, password: &str) -> (header: Option<String>)
    ensures
        match header {
            Some(value) => byte_len(user@ + colon() + password@) <= MAX_ENCODED && value@
                == basic() + base64_text(user@ + colon() + password@),
            None => byte_len(user@ + colon() + password@) > MAX_ENCODED,
        },
{
    let plain = credentials(user, password);
    if plain.as_str().as_bytes().len() > MAX_ENCODED {
        return None;
    }
    let encoded = base64_encode(plain.as_str());
    Some(header_value(encoded.as_str()))
}

} // verus!
