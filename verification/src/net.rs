//! The computed parts of the network exchange: the Basic-auth header
//! value for token acquisition, and the two request URLs.  The HTTP
//! traffic itself lives outside the library; these functions only build
//! text, so everything about them except the two outside encoders is
//! proved.

use vstd::prelude::*;
use vstd::utf8::encode_utf8;
use vstd::utf8::encode_scalar;
use base64::Engine;

verus! {

/// The standard base64 encoding (with padding) of a byte sequence.
pub uninterp spec fn base64_standard_of(bytes: Seq<u8>) -> Seq<char>;

/// The percent-encoding of text: every byte other than ASCII
/// alphanumerics and `-`, `_`, `.`, `~` percent-escaped.
pub uninterp spec fn urlencode_of(s: Seq<char>) -> Seq<char>;

/// Relies on base64's `Engine::encode` with the `STANDARD` engine
/// (RFC 4648 alphabet, padded): the encoding is a function of the input
/// bytes alone.  The length bound keeps the encoder's own output-size
/// computation from overflowing.
#[verifier::external_body]
fn base64_standard(bytes: &[u8]) -> (r: String)
    requires
        bytes@.len() <= usize::MAX / 4,
    ensures
        r@ == base64_standard_of(bytes@),
{
    base64::engine::general_purpose::STANDARD.encode(bytes)
}

/// A character's UTF-8 encoding takes at most four bytes, so text
/// encodes to at most four bytes per character.
proof fn lemma_encode_utf8_len_bound(chars: Seq<char>)
    ensures
        encode_utf8(chars).len() <= 4 * chars.len(),
    decreases chars.len(),
{
    if chars.len() > 0 {
        assert(encode_scalar(chars[0] as u32).len() <= 4);
        lemma_encode_utf8_len_bound(chars.drop_first());
    }
}

/// Relies on urlencoding::encode: percent-encodes every byte except
/// ASCII alphanumerics and `-`, `_`, `.`, `~`; a function of the text
/// alone.
#[verifier::external_body]
fn urlencode(s: &str) -> (r: String)
    ensures
        r@ == urlencode_of(s@),
{
    urlencoding::encode(s).into_owned()
}

/// The value of the `Authorization` header for client-credentials token
/// requests: `Basic` followed by the base64 encoding of
/// `client_id:client_secret`.  The bound on the combined length is the
/// machine limit alone: it keeps the UTF-8 encoding of the credentials
/// (at most four bytes per character, plus the separator) within the
/// range where the base64 encoder's output-size computation cannot
/// overflow.
pub fn basic_auth_value(client_id: &str, client_secret: &str) -> (r: String)
    requires
        client_id@.len() + client_secret@.len() < usize::MAX / 16,
    ensures
        r@ == "Basic "@ + base64_standard_of(
            encode_utf8(client_id@ + ":"@ + client_secret@),
        ),
{
    let mut creds = client_id.to_owned();
    creds.append(":");
    creds.append(client_secret);
    let bytes = creds.as_str().as_bytes();
    proof {
        assert(bytes@ == encode_utf8(client_id@ + ":"@ + client_secret@));
        lemma_encode_utf8_len_bound(creds@);
        reveal_strlit(":");
    }
    let encoded = base64_standard(bytes);
    let mut r = "Basic ".to_owned();
    r.append(encoded.as_str());
    r
}

/// The keyword-search request URL: the query percent-encoded, the result
/// count capped at 50 server-side.
pub fn search_url(query: &str) -> (r: String)
    ensures
        r@ == "https://api.ebay.com/buy/browse/v1/item_summary/search?q="@ + urlencode_of(query@)
            + "&limit=50"@,
{
    let mut r = "https://api.ebay.com/buy/browse/v1/item_summary/search?q=".to_owned();
    let encoded = urlencode(query);
    r.append(encoded.as_str());
    r.append("&limit=50");
    r
}

/// The item-lookup request URL for a legacy item identifier.
pub fn item_url(legacy_id: &str) -> (r: String)
    ensures
        r@ == "https://api.ebay.com/buy/browse/v1/item/get_item_by_legacy_id?legacy_item_id="@
            + legacy_id@,
{
    let mut r = "https://api.ebay.com/buy/browse/v1/item/get_item_by_legacy_id?legacy_item_id=".to_owned();
    r.append(legacy_id);
    r
}

} // verus!
