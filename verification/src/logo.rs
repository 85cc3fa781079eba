//! The logo of a report: an SVG image carried inside the page.

use vstd::prelude::*;
use vstd::string::*;
use base64::prelude::BASE64_STANDARD;
use base64::Engine;

verus! {

/// The bytes of `text` (its UTF-8 encoding) in the standard Base64
/// alphabet, with padding.
pub uninterp spec fn base64_standard(text: Seq<char>) -> Seq<char>;

/// Encodes with `Engine::encode` of `base64::prelude::BASE64_STANDARD`.
/// The contract only names the answer.
#[verifier::external_body]
pub(crate) fn base64_standard_of(text: &str) -> (r: String)
    ensures
        r@ == base64_standard(text@),
{
    BASE64_STANDARD.encode(text)
}

/// What comes before the encoded image in the tag.
pub open spec fn logo_prefix() -> Seq<char> {
    "<img src='data:image/svg+xml;base64,"@
}

/// What comes after the encoded image in the tag.
pub open spec fn logo_suffix() -> Seq<char> {
    "'>"@
}

/// An `img` tag that holds the SVG image `svg` as a data URI.
pub fn logo_tag(svg: &str) -> (r: String)
    ensures
        r@ == logo_prefix() + base64_standard(svg@) + logo_suffix(),
{
    let encoded = base64_standard_of(svg);
    let mut tag = String::from_str("<img src='data:image/svg+xml;base64,");
    tag.append(encoded.as_str());
    tag.append("'>");
    tag
}

} // verus!
