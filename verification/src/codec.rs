//! The ISO-2022-JP character encoding of the IRC connection, through the
//! `encoding` crate.
use vstd::prelude::*;
use encoding::{DecoderTrap, EncoderTrap, Encoding};
use encoding::all::ISO_2022_JP;

verus! {

/// The text that `ISO_2022_JP.decode(bytes, DecoderTrap::Ignore)` produces
/// from `bytes`: undecodable input is skipped.
pub uninterp spec fn iso_2022_jp_decoded(bytes: Seq<u8>) -> Seq<char>;

/// The bytes that `ISO_2022_JP.encode(text, EncoderTrap::Ignore)` produces
/// from `text`: characters the encoding cannot represent are skipped.
pub uninterp spec fn iso_2022_jp_encoded(text: Seq<char>) -> Seq<u8>;

/// Calls `Encoding::decode` of `encoding::all::ISO_2022_JP` with
/// `DecoderTrap::Ignore`.  With that trap the crate's `decode_to` loop never
/// takes its error exit, so the result is always `Some`; its text is named
/// by `iso_2022_jp_decoded`.
#[verifier::external_body]
pub(crate) fn iso_2022_jp_decode(bytes: &[u8]) -> (r: Option<String>)
    ensures
        r is Some,
        r matches Some(s) ==> s@ == iso_2022_jp_decoded(bytes@),
{
    match ISO_2022_JP.decode(bytes, DecoderTrap::Ignore) {
        Ok(s) => Some(s),
        Err(_) => None,
    }
}

/// Calls `Encoding::encode` of `encoding::all::ISO_2022_JP` with
/// `EncoderTrap::Ignore`.  With that trap the crate's `encode_to` loop never
/// takes its error exit, so the result is always `Some`; its bytes are named
/// by `iso_2022_jp_encoded`.
#[verifier::external_body]
pub(crate) fn iso_2022_jp_encode(text: &str) -> (r: Option<Vec<u8>>)
    ensures
        r is Some,
        r matches Some(v) ==> v@ == iso_2022_jp_encoded(text@),
{
    match ISO_2022_JP.encode(text, EncoderTrap::Ignore) {
        Ok(v) => Some(v),
        Err(_) => None,
    }
}

} // verus!
