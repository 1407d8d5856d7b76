use vstd::prelude::*;

use sha2::Digest;

use crate::text::append_text;
use vstd::string::StringSliceAdditionalSpecFns;

verus! {

/// The SHA-256 digest of the bytes, written as lowercase hexadecimal.
pub uninterp spec fn spec_sha256_hex(bytes: Seq<u8>) -> Seq<char>;

pub open spec fn is_lower_hex(c: char) -> bool {
    ('0' <= c && c <= '9') || ('a' <= c && c <= 'f')
}

/// sha2: `Sha256::digest` of the bytes, written with `{:x}`. The text is named by
/// `spec_sha256_hex`; claimed of it is what generic-array's `LowerHex` writes for the 32-byte
/// digest: 64 characters, each a lowercase hexadecimal digit.
#[verifier::external_body]
fn sha256_hex(bytes: &[u8]) -> (r: String)
    ensures
        r@ == spec_sha256_hex(bytes@),
        r@.len() == 64,
        forall|i: int| 0 <= i < 64 ==> is_lower_hex(#[trigger] r@[i]),
{
    format!("{:x}", sha2::Sha256::digest(bytes))
}

/// The file an image downloaded from `url` is kept in: the SHA-256 of the URL's UTF-8 bytes in
/// hexadecimal, then `.bin`.
pub fn asset_file_name(url: &str) -> (r: String)
    ensures
        r@ == spec_sha256_hex(url.spec_bytes()) + ".bin"@,
        r@.len() == 68,
        forall|i: int| 0 <= i < 64 ==> is_lower_hex(#[trigger] r@[i]),
{
    let mut name = sha256_hex(url.as_bytes());
    let ghost digest = name@;
    append_text(&mut name, ".bin");
    proof {
        reveal_strlit(".bin");
        assert forall|i: int| 0 <= i < 64 implies is_lower_hex(#[trigger] name@[i]) by {
            assert(name@[i] == digest[i]);
        }
    }
    name
}

} // verus!
