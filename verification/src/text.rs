//! The text of a game record, as its bytes stand for it.

use vstd::prelude::*;

verus! {

/// The text that `Encoding::decode` of windows-1252 makes of bytes.
pub uninterp spec fn windows_1252_text(data: Seq<u8>) -> Seq<char>;

/// Calls `encoding_rs::WINDOWS_1252.decode` and keeps the text. A byte order
/// mark at the start selects the encoding that it stands for and is left
/// out; bytes that are malformed in that encoding are replaced. The text
/// depends on the bytes alone. The call reserves up to three bytes and a few
/// more for each byte it is given, rounded up to a power of two.
#[verifier::external_body]
fn decode_with_windows_1252(data: &[u8]) -> (text: String)
    requires
        data@.len() <= usize::MAX / 8,
    ensures
        text@ == windows_1252_text(data@),
{
    encoding_rs::WINDOWS_1252.decode(data).0.into_owned()
}

/// Reads the bytes of a game record as windows-1252 text.
pub fn decode(data: &[u8]) -> (text: String)
    requires
        data@.len() <= usize::MAX / 8,
    ensures
        text@ == windows_1252_text(data@),
{
    decode_with_windows_1252(data)
}

} // verus!
